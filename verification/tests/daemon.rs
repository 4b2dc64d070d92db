//! The daemon's state: reload, heartbeat, samples; its errors.

use sumidero::config::{
    Config, ConfigError, DatabaseConfig, FilteringConfig, Profile, SafeSearchConfig, ServerConfig,
    UpstreamsConfig,
};
use sumidero::daemon::{restart_needed, safe_search_of, CoreError, Daemon, Reload};
use sumidero::db::DbError;
use sumidero::ip::{Endpoint, Ip, Net};
use sumidero::lists::ListError;

fn config() -> Config {
    Config {
        server: ServerConfig {
            bind: vec![Endpoint {
                ip: Ip::V4(0),
                port: 53,
                scope: 0,
            }],
            allow: vec![Net {
                base: Ip::V4(0x7f00_0000),
                prefix: 8,
            }],
        },
        filtering: FilteringConfig {
            profile: Some(Profile::Balanced),
            lists: Vec::new(),
            list_dir: "/l".into(),
        },
        upstreams: UpstreamsConfig {
            servers: vec!["https://dns.google/dns-query".into()],
            bootstrap: vec![Ip::V4(0x0101_0101)],
            timeout_ms: 3000,
        },
        database: DatabaseConfig { path: "/d".into() },
        safe_search: SafeSearchConfig {
            enabled: true,
            providers: vec!["bing".into()],
        },
    }
}

fn failed() -> CoreError {
    CoreError::Lists(ListError::NoSource { name: "x".into() })
}

#[test]
fn restart_is_needed_for_what_is_set_up_once() {
    let changed = |change: fn(&mut Config)| {
        let mut c = config();
        change(&mut c);
        restart_needed(&config(), &c)
    };
    assert!(!changed(|_| {}));
    assert!(!changed(|c| c.server.allow = Vec::new()));
    assert!(!changed(|c| c.filtering.list_dir = "/other".into()));
    assert!(!changed(|c| c.safe_search.enabled = false));
    assert!(changed(|c| c.server.bind[0].port = 54));
    assert!(changed(|c| c.server.bind[0].scope = 2));
    assert!(changed(|c| c.server.bind = Vec::new()));
    assert!(changed(|c| c.upstreams.timeout_ms = 1));
    assert!(changed(|c| c.upstreams.servers.push("quic://x".into())));
    assert!(changed(|c| c.upstreams.servers[0] = "quic://x".into()));
    assert!(changed(|c| c.upstreams.bootstrap[0] = Ip::V6(1)));
    assert!(changed(|c| c.database.path = "/other".into()));
}

#[test]
fn failed_reload_keeps_everything() {
    let mut d = Daemon::new(config(), "old".into(), 5);
    let mut next = config();
    next.upstreams.timeout_ms = 1;
    assert!(matches!(d.reload(next, Err(failed())), Reload::Kept));
    assert_eq!(d.config, config());
    assert_eq!(d.lists_hash, "old");
    assert!(!d.refreshed(Err(failed())));
    assert_eq!(d.lists_hash, "old");
    assert!(d.refreshed(Ok("newer".into())));
    assert_eq!(d.lists_hash, "newer");
}

#[test]
fn reload_with_an_unknown_provider_keeps_everything() {
    let mut d = Daemon::new(config(), "old".into(), 5);
    let mut next = config();
    next.server.allow = Vec::new();
    next.safe_search.providers = vec!["bing".into(), "altavista".into()];
    assert!(safe_search_of(&next).unwrap_err().message().contains("altavista"));
    assert!(matches!(d.reload(next, Ok("new".into())), Reload::Kept));
    assert_eq!(d.config, config());
    assert_eq!(d.lists_hash, "old");
    // Switched off, the names are not looked at.
    let mut off = config();
    off.safe_search.enabled = false;
    off.safe_search.providers = vec!["altavista".into()];
    let Reload::Done { policy, .. } = d.reload(off, Ok("new".into())) else {
        panic!("expected a reload");
    };
    assert_eq!(policy.rewrite("www.bing.com"), None);
    assert_eq!(d.lists_hash, "new");
}

#[test]
fn reload_takes_the_new_state() {
    let mut d = Daemon::new(config(), "old".into(), 5);
    let mut next = config();
    next.upstreams.timeout_ms = 1;
    next.safe_search.providers = vec!["google".into()];
    let Reload::Done {
        policy,
        restart_needed,
    } = d.reload(next, Ok("new".into()))
    else {
        panic!("expected a reload");
    };
    assert!(restart_needed);
    assert_eq!(policy.rewrite("www.bing.com"), None);
    assert!(policy.rewrite("www.google.com").is_some());
    assert_eq!(d.config.upstreams.timeout_ms, 1);
    assert_eq!(d.lists_hash, "new");
    let Reload::Done { policy, .. } = d.reload(config(), Ok("new".into())) else {
        panic!("expected a reload");
    };
    assert_eq!(policy.rewrite("www.bing.com"), Some("strict.bing.com"));
}

#[test]
fn safe_search_follows_the_configuration() {
    let table = safe_search_of(&config()).unwrap();
    assert!(table.rewrite("www.bing.com").is_some());
    assert!(table.rewrite("www.google.com").is_none());
}

#[test]
fn heartbeat_carries_the_state() {
    let d = Daemon::new(config(), "lists".into(), 5);
    let hb = d.heartbeat(77, 9, "cfg".into());
    assert_eq!((hb.pid, hb.started_ts, hb.updated_ts), (77, 5, 9));
    assert_eq!((hb.config_hash.as_str(), hb.lists_hash.as_str()), ("cfg", "lists"));
}

#[test]
fn samples_report_each_loss_once() {
    let mut d = Daemon::new(config(), "lists".into(), 5);
    let totals = [0, 3, 3, 10, 10];
    let recent: Vec<u64> = totals
        .iter()
        .map(|t| d.sample(*t, 1, "{}".into()).log_events_dropped_recent)
        .collect();
    assert_eq!(recent, [0, 3, 0, 7, 0]);
    assert_eq!(recent.iter().sum::<u64>(), 10);
    let s = d.sample(4, 2, "{}".into());
    assert_eq!((s.log_events_dropped, s.log_events_dropped_recent), (4, 0));
    assert_eq!((s.updated_ts, s.upstreams_json.as_str()), (2, "{}"));
}

#[test]
fn error_messages_name_their_origin() {
    for (error, text) in [
        (
            CoreError::Config(ConfigError::Invalid("x".into())),
            "configuration: invalid config: x",
        ),
        (failed(), "blocklists: list x: has neither url nor path"),
        (CoreError::Db(DbError::Sql("x".into())), "database: sql: x"),
        (
            CoreError::Upstream(sumidero::upstream::Error::Init("x".into())),
            "upstreams: upstream pool init failed: x",
        ),
        (
            CoreError::SafeSearch(sumidero::safesearch::ConfigError::Invalid("x".into())),
            "safe-search: x",
        ),
        (CoreError::Io("x".into()), "server: x"),
    ] {
        assert_eq!(error.message(), text);
    }
}
