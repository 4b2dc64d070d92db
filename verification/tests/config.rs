//! Configuration: validation, list resolution, fingerprint, starter text.

use sumidero::config::{
    starter_config, Config, ConfigError, DatabaseConfig, FilteringConfig, ListSource, Profile,
    SafeSearchConfig, ServerConfig, UpstreamsConfig,
};
use sumidero::ip::{parse_ip, Endpoint, Ip, Net};

fn ip(text: &str) -> Ip {
    let chars: Vec<char> = text.chars().collect();
    parse_ip(&chars).unwrap()
}

fn endpoint(text: &str) -> Endpoint {
    let (host, port) = text.rsplit_once(':').unwrap();
    Endpoint {
        ip: ip(host.trim_matches(['[', ']'])),
        port: port.parse().unwrap(),
        scope: 0,
    }
}

fn net(text: &str) -> Net {
    let (base, prefix) = text.split_once('/').unwrap();
    Net {
        base: ip(base),
        prefix: prefix.parse().unwrap(),
    }
}

fn texts(table: &toml::Table, key: &str) -> Vec<String> {
    match table.get(key).and_then(|v| v.as_array()) {
        Some(values) => values
            .iter()
            .map(|v| v.as_str().unwrap().to_string())
            .collect(),
        None => Vec::new(),
    }
}

fn text(table: &toml::Table, key: &str) -> Option<String> {
    table.get(key).and_then(|v| v.as_str()).map(String::from)
}

/// A configuration read from its text and validated.
fn from_toml(source: &str) -> Result<Config, ConfigError> {
    let root: toml::Table = source.parse().unwrap();
    let section = |name: &str| -> toml::Table {
        root.get(name)
            .and_then(|v| v.as_table())
            .cloned()
            .unwrap_or_default()
    };
    let (server, filtering) = (section("server"), section("filtering"));
    let (upstreams, database) = (section("upstreams"), section("database"));
    let safe_search = section("safe_search");
    let mut lists = Vec::new();
    if let Some(entries) = filtering.get("lists").and_then(|v| v.as_array()) {
        for entry in entries {
            let entry = entry.as_table().unwrap();
            lists.push(ListSource {
                name: text(entry, "name").unwrap(),
                url: text(entry, "url"),
                path: text(entry, "path"),
            });
        }
    }
    let config = Config {
        server: ServerConfig {
            bind: texts(&server, "bind").iter().map(|s| endpoint(s)).collect(),
            allow: texts(&server, "allow").iter().map(|s| net(s)).collect(),
        },
        filtering: FilteringConfig {
            profile: text(&filtering, "profile").map(|p| match p.as_str() {
                "minimal" => Profile::Minimal,
                "balanced" => Profile::Balanced,
                "strict" => Profile::Strict,
                other => panic!("profile {other}"),
            }),
            lists,
            list_dir: text(&filtering, "list_dir").unwrap(),
        },
        upstreams: UpstreamsConfig {
            servers: texts(&upstreams, "servers"),
            bootstrap: texts(&upstreams, "bootstrap").iter().map(|s| ip(s)).collect(),
            timeout_ms: upstreams["timeout_ms"].as_integer().unwrap() as u64,
        },
        database: DatabaseConfig {
            path: text(&database, "path").unwrap(),
        },
        safe_search: SafeSearchConfig {
            enabled: safe_search
                .get("enabled")
                .and_then(|v| v.as_bool())
                .unwrap_or(false),
            providers: texts(&safe_search, "providers"),
        },
    };
    config.validate()?;
    Ok(config)
}

fn valid_toml() -> String {
    r#"
[server]
bind = ["0.0.0.0:53", "[::]:53"]
allow = ["192.168.0.0/16", "127.0.0.0/8"]

[filtering]
profile = "balanced"
list_dir = "/var/lib/sumidero/lists"

[upstreams]
servers = ["https://dns.cloudflare.com/dns-query"]
bootstrap = ["1.1.1.1"]
timeout_ms = 3000

[database]
path = "/var/lib/sumidero/sumidero.sqlite"
"#
    .into()
}

#[test]
fn parse_valid_config() {
    let cfg = from_toml(&valid_toml()).unwrap();
    assert_eq!(cfg.server.bind.len(), 2);
    assert_eq!(cfg.upstreams.timeout_ms, 3000);
}

#[test]
fn empty_bind_rejected() {
    let toml = valid_toml().replace(r#"bind = ["0.0.0.0:53", "[::]:53"]"#, "bind = []");
    let err = from_toml(&toml).unwrap_err();
    match err {
        ConfigError::Invalid(msg) => assert!(msg.contains("bind"), "{msg}"),
        other => panic!("expected Invalid, got {other:?}"),
    }
}

#[test]
fn empty_allow_rejected() {
    let toml =
        valid_toml().replace(r#"allow = ["192.168.0.0/16", "127.0.0.0/8"]"#, "allow = []");
    let err = from_toml(&toml).unwrap_err();
    match err {
        ConfigError::Invalid(msg) => assert!(msg.contains("allow"), "{msg}"),
        other => panic!("expected Invalid, got {other:?}"),
    }
}

#[test]
fn empty_servers_rejected() {
    let toml = valid_toml().replace(
        r#"servers = ["https://dns.cloudflare.com/dns-query"]"#,
        "servers = []",
    );
    let err = from_toml(&toml).unwrap_err();
    match err {
        ConfigError::Invalid(msg) => assert!(msg.contains("servers"), "{msg}"),
        other => panic!("expected Invalid, got {other:?}"),
    }
}

#[test]
fn bad_upstream_scheme_rejected() {
    let toml = valid_toml().replace(
        "https://dns.cloudflare.com/dns-query",
        "http://dns.cloudflare.com/dns-query",
    );
    let err = from_toml(&toml).unwrap_err();
    match err {
        ConfigError::Invalid(msg) => {
            assert!(msg.contains("https://") || msg.contains("quic://"), "{msg}");
        }
        other => panic!("expected Invalid, got {other:?}"),
    }
}

#[test]
fn quic_upstream_accepted() {
    let toml = valid_toml().replace(
        "https://dns.cloudflare.com/dns-query",
        "quic://dns.example.com",
    );
    from_toml(&toml).unwrap();
}

#[test]
fn empty_bootstrap_rejected() {
    let toml = valid_toml().replace(r#"bootstrap = ["1.1.1.1"]"#, "bootstrap = []");
    let err = from_toml(&toml).unwrap_err();
    match err {
        ConfigError::Invalid(msg) => assert!(msg.contains("bootstrap"), "{msg}"),
        other => panic!("expected Invalid, got {other:?}"),
    }
}

#[test]
fn timeout_too_low_rejected() {
    let toml = valid_toml().replace("timeout_ms = 3000", "timeout_ms = 50");
    let err = from_toml(&toml).unwrap_err();
    match err {
        ConfigError::Invalid(msg) => assert!(msg.contains("timeout_ms"), "{msg}"),
        other => panic!("expected Invalid, got {other:?}"),
    }
}

#[test]
fn timeout_too_high_rejected() {
    let toml = valid_toml().replace("timeout_ms = 3000", "timeout_ms = 99999");
    let err = from_toml(&toml).unwrap_err();
    match err {
        ConfigError::Invalid(msg) => assert!(msg.contains("timeout_ms"), "{msg}"),
        other => panic!("expected Invalid, got {other:?}"),
    }
}

#[test]
fn relative_db_path_rejected() {
    let toml = valid_toml().replace(
        r#"path = "/var/lib/sumidero/sumidero.sqlite""#,
        r#"path = "relative/sumidero.sqlite""#,
    );
    let err = from_toml(&toml).unwrap_err();
    match err {
        ConfigError::Invalid(msg) => assert!(msg.contains("database.path"), "{msg}"),
        other => panic!("expected Invalid, got {other:?}"),
    }
}

#[test]
fn relative_list_dir_rejected() {
    let toml = valid_toml().replace(
        r#"list_dir = "/var/lib/sumidero/lists""#,
        r#"list_dir = "lists""#,
    );
    let err = from_toml(&toml).unwrap_err();
    match err {
        ConfigError::Invalid(msg) => assert!(msg.contains("list_dir"), "{msg}"),
        other => panic!("expected Invalid, got {other:?}"),
    }
}

#[test]
fn no_profile_no_lists_rejected() {
    let toml = valid_toml().replace("profile = \"balanced\"", "");
    let err = from_toml(&toml).unwrap_err();
    match err {
        ConfigError::Invalid(msg) => assert!(msg.contains("filtering"), "{msg}"),
        other => panic!("expected Invalid, got {other:?}"),
    }
}

#[test]
fn list_without_url_or_path_rejected() {
    let toml = valid_toml().replace("profile = \"balanced\"", "")
        + "\n[[filtering.lists]]\nname = \"broken\"\n";
    let err = from_toml(&toml).unwrap_err();
    match err {
        ConfigError::Invalid(msg) => assert!(msg.contains("broken"), "{msg}"),
        other => panic!("expected Invalid, got {other:?}"),
    }
}

#[test]
fn list_with_http_url_rejected() {
    let toml = valid_toml().replace("profile = \"balanced\"", "")
        + "\n[[filtering.lists]]\nname = \"bad\"\nurl = \"http://example.com/list.txt\"\n";
    let err = from_toml(&toml).unwrap_err();
    match err {
        ConfigError::Invalid(msg) => {
            assert!(msg.contains("https://"), "{msg}");
        }
        other => panic!("expected Invalid, got {other:?}"),
    }
}

#[test]
fn list_with_relative_path_rejected() {
    let toml = valid_toml().replace("profile = \"balanced\"", "")
        + "\n[[filtering.lists]]\nname = \"local\"\npath = \"relative/list.txt\"\n";
    let err = from_toml(&toml).unwrap_err();
    match err {
        ConfigError::Invalid(msg) => assert!(msg.contains("absolute"), "{msg}"),
        other => panic!("expected Invalid, got {other:?}"),
    }
}

#[test]
fn list_with_path_only_valid() {
    let toml = valid_toml().replace("profile = \"balanced\"", "")
        + "\n[[filtering.lists]]\nname = \"local\"\npath = \"/etc/sumidero/my.txt\"\n";
    from_toml(&toml).unwrap();
}

#[test]
fn profile_minimal_lists() {
    let lists = Profile::Minimal.lists();
    assert_eq!(lists.len(), 1);
    assert_eq!(lists[0].name, "hagezi-light");
}

#[test]
fn profile_balanced_lists() {
    let lists = Profile::Balanced.lists();
    assert_eq!(lists.len(), 1);
    assert_eq!(lists[0].name, "hagezi-pro");
}

#[test]
fn profile_strict_lists() {
    let lists = Profile::Strict.lists();
    assert_eq!(lists.len(), 2);
    assert_eq!(lists[0].name, "hagezi-pro");
    assert_eq!(lists[1].name, "hagezi-tif");
}

#[test]
fn effective_lists_profile_only() {
    let cfg = from_toml(&valid_toml()).unwrap();
    let effective = cfg.effective_lists();
    assert_eq!(effective.len(), 1);
    assert_eq!(effective[0].name, "hagezi-pro");
}

#[test]
fn effective_lists_override_replaces_in_place() {
    // strict has [hagezi-pro, hagezi-tif]; override hagezi-pro url
    let toml = valid_toml().replace("profile = \"balanced\"", "profile = \"strict\"")
        + r#"
[[filtering.lists]]
name = "hagezi-pro"
url = "https://example.com/custom-pro.txt"
"#;
    let cfg = from_toml(&toml).unwrap();
    let effective = cfg.effective_lists();
    assert_eq!(effective.len(), 2);
    assert_eq!(effective[0].name, "hagezi-pro");
    assert_eq!(
        effective[0].url.as_deref(),
        Some("https://example.com/custom-pro.txt")
    );
    assert_eq!(effective[1].name, "hagezi-tif");
}

#[test]
fn effective_lists_extras_appended() {
    let toml = valid_toml()
        + r#"
[[filtering.lists]]
name = "my-extra"
url = "https://example.com/extra.txt"
"#;
    let cfg = from_toml(&toml).unwrap();
    let effective = cfg.effective_lists();
    assert_eq!(effective.len(), 2);
    assert_eq!(effective[0].name, "hagezi-pro");
    assert_eq!(effective[1].name, "my-extra");
}

#[test]
fn hash_deterministic() {
    let cfg = from_toml(&valid_toml()).unwrap();
    let h1 = Config::hash(&format!("{:?}", cfg));
    let h2 = Config::hash(&format!("{:?}", cfg));
    assert_eq!(h1, h2);
    assert_eq!(h1.len(), 64); // SHA-256 hex
}

#[test]
fn hash_changes_with_config() {
    let cfg1 = from_toml(&valid_toml()).unwrap();
    let toml2 = valid_toml().replace("timeout_ms = 3000", "timeout_ms = 5000");
    let cfg2 = from_toml(&toml2).unwrap();
    assert_ne!(Config::hash(&format!("{:?}", cfg1)), Config::hash(&format!("{:?}", cfg2)));
}

#[test]
fn starter_config_roundtrips_all_profiles() {
    for profile in [Profile::Minimal, Profile::Balanced, Profile::Strict] {
        let text = starter_config(profile);
        let cfg = from_toml(&text)
            .unwrap_or_else(|e| panic!("starter_config({profile:?}) failed: {e:?}"));
        assert_eq!(cfg.filtering.profile, Some(profile));
        assert_eq!(cfg.server.bind.len(), 2);
        assert_eq!(cfg.server.allow.len(), 3);
        assert_eq!(cfg.upstreams.servers.len(), 2);
        assert_eq!(cfg.upstreams.bootstrap.len(), 2);
        assert_eq!(cfg.upstreams.timeout_ms, 3000);
    }
}

#[test]
fn safe_search_defaults_when_absent() {
    let cfg = from_toml(&valid_toml()).unwrap();
    assert!(!cfg.safe_search.enabled);
    assert!(cfg.safe_search.providers.is_empty());
}

#[test]
fn empty_allow_in_config_error_message_names_key() {
    let toml =
        valid_toml().replace(r#"allow = ["192.168.0.0/16", "127.0.0.0/8"]"#, "allow = []");
    let err = from_toml(&toml).unwrap_err();
    let msg = err.message();
    assert!(msg.contains("allow"), "error should name the key: {msg}");
}

#[test]
fn duplicate_list_names_rejected() {
    let toml = r#"
[server]
bind = ["127.0.0.1:53"]
allow = ["127.0.0.0/8"]
[filtering]
list_dir = "/var/lib/s"
[[filtering.lists]]
name = "dup"
url = "https://a.example/l.txt"
[[filtering.lists]]
name = "dup"
url = "https://b.example/l.txt"
[upstreams]
servers = ["https://dns.example/dns-query"]
bootstrap = ["1.1.1.1"]
timeout_ms = 3000
[database]
path = "/var/lib/s.sqlite"
"#;
    let err = from_toml(toml).unwrap_err();
    assert!(err.message().contains("duplicate list name"), "{err:?}");
}

#[test]
fn empty_list_name_rejected() {
    let toml = r#"
[server]
bind = ["127.0.0.1:53"]
allow = ["127.0.0.0/8"]
[filtering]
list_dir = "/var/lib/s"
[[filtering.lists]]
name = ""
url = "https://a.example/l.txt"
[upstreams]
servers = ["https://dns.example/dns-query"]
bootstrap = ["1.1.1.1"]
timeout_ms = 3000
[database]
path = "/var/lib/s.sqlite"
"#;
    let err = from_toml(toml).unwrap_err();
    assert!(err.message().contains("empty name"), "{err:?}");
}

#[test]
fn hash_is_the_sha256_of_the_text() {
    assert_eq!(
        Config::hash("abc"),
        "ba7816bf8f01cfea414140de5dae2223b00361a396177a9cb410ff61f20015ad"
    );
    assert_eq!(
        Config::hash(""),
        "e3b0c44298fc1c149afbf4c8996fb92427ae41e4649b934ca495991b7852b855"
    );
}

#[test]
fn hex_encode_writes_two_digits_per_byte() {
    assert_eq!(sumidero::config::hex_encode(&[0x00, 0x0f, 0xa5, 0xff]), "000fa5ff");
    assert_eq!(sumidero::config::hex_encode(&[]), "");
}

#[test]
fn config_error_messages() {
    let read = ConfigError::Read {
        path: "/etc/x".into(),
        reason: "gone".into(),
    };
    assert_eq!(read.message(), "cannot read /etc/x: gone");
    let parse = ConfigError::Parse {
        path: "/etc/x".into(),
        reason: "bad".into(),
    };
    assert_eq!(parse.message(), "cannot parse /etc/x: bad");
    let invalid = ConfigError::Invalid("no".into());
    assert_eq!(invalid.message(), "invalid config: no");
}

#[test]
fn profile_names() {
    assert_eq!(Profile::Minimal.name(), "minimal");
    assert_eq!(Profile::Balanced.name(), "balanced");
    assert_eq!(Profile::Strict.name(), "strict");
}

#[test]
fn timeout_bounds_are_inclusive() {
    for (ms, ok) in [(99, false), (100, true), (30_000, true), (30_001, false)] {
        let toml = valid_toml().replace("timeout_ms = 3000", &format!("timeout_ms = {ms}"));
        assert_eq!(from_toml(&toml).is_ok(), ok, "{ms}");
    }
}
