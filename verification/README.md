# sumidero

A DNS blocker: a resolver that filters query names against blocklists, enforces
safe search, caches, and forwards the rest to encrypted upstreams.

`src/` is a library verified with Verus. It holds the rules; every function in it
has a contract.

| module | holds |
|--------|-------|
| `filter` | the blocklist grammar, the compiled rule set, verdicts |
| `safesearch` | the safe-search rewrite table |
| `message`, `wire` | DNS messages and their wire form |
| `cache`, `lru` | the response cache, by recency and byte budget |
| `server` | the request pipeline, request by request |
| `shadow` | comparison with a reference resolver |
| `upstream` | upstream URLs, connection lifecycle, the race over upstreams |
| `lists` | where a blocklist comes from, and loading a set of them |
| `config`, `daemon` | the configuration, and the daemon's state across reloads |
| `db` | what is stored of queries, heartbeats and counters |
| `migrate` | conversion of an AdGuard Home configuration |
| `cli` | what the commands print and how they exit |
| `ip`, `text`, `consts` | addresses, texts, fixed settings |

What holds of several functions together stands in `laws` modules, and in
functions whose names begin with `law_`.

DNS names and messages are read and written by hickory, URLs by `url`, published
counters by `serde_json`; digests are `sha2`'s. The functions that call them are
marked `external_body`; their comments say what is taken for granted.

`app/` is the program: arguments, files, sockets, the database and the network.
`tests/` exercises the library from outside.
