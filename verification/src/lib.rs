pub mod cache;
pub mod cli;
pub mod config;
pub mod consts;
pub mod daemon;
pub mod db;
pub mod filter;
pub mod ip;
pub mod lists;
pub mod lru;
pub mod message;
pub mod migrate;
pub mod safesearch;
pub mod server;
pub mod shadow;
pub mod text;
pub mod upstream;
pub mod wire;
