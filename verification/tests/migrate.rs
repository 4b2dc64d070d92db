//! Conversion of `AdGuard Home` configurations.

use serde_yaml::Value;
use sumidero::ip::{parse_ip, Ip};
use sumidero::migrate::names::{duration_is_small, parse_go_duration_ms, pick_name, slug};
use sumidero::migrate::plan::{plan, Agh, AghDns, AghFilter, AghSafeSearch, Warning};
use sumidero::migrate::render::{conclude, convert, render, Migration, Quoted};

fn ip(text: &str) -> Ip {
    let chars: Vec<char> = text.chars().collect();
    parse_ip(&chars).unwrap()
}

fn strings(value: &Value) -> Vec<String> {
    match value.as_sequence() {
        Some(items) => items
            .iter()
            .map(|v| v.as_str().unwrap().to_string())
            .collect(),
        None => Vec::new(),
    }
}

fn no_safe_search() -> AghSafeSearch {
    AghSafeSearch {
        enabled: false,
        google: false,
        youtube: false,
        bing: false,
        duckduckgo: false,
        ecosia: false,
        pixabay: false,
        yandex: false,
    }
}

/// The configuration a YAML text holds.
fn agh(yaml: &str) -> Agh {
    let root: Value = serde_yaml::from_str(yaml).unwrap();
    let dns = &root["dns"];
    let mut filters = Vec::new();
    if let Some(items) = root["filters"].as_sequence() {
        for f in items {
            filters.push(AghFilter {
                enabled: f["enabled"].as_bool().unwrap_or(false),
                url: f["url"].as_str().unwrap().to_string(),
                name: f["name"].as_str().unwrap_or("").to_string(),
            });
        }
    }
    Agh {
        dns: AghDns {
            bind_hosts: strings(&dns["bind_hosts"]),
            port: dns["port"].as_u64().unwrap() as u16,
            upstream_dns: strings(&dns["upstream_dns"]),
            fallback_dns: strings(&dns["fallback_dns"]),
            bootstrap_dns: strings(&dns["bootstrap_dns"])
                .iter()
                .map(|s| ip(s))
                .collect(),
            upstream_timeout: dns["upstream_timeout"].as_str().unwrap().to_string(),
            allowed_clients: strings(&dns["allowed_clients"]),
            blocked_hosts: strings(&dns["blocked_hosts"]),
            ratelimit: dns["ratelimit"].as_u64().unwrap_or(0),
        },
        filters,
        user_rules: strings(&root["user_rules"]),
        safe_search: no_safe_search(),
        dhcp_enabled: false,
        tls_enabled: false,
    }
}

fn migrated(agh: &Agh) -> Migration {
    assert!(duration_is_small(&agh.dns.upstream_timeout));
    convert(
        agh,
        "/var/lib/sumidero/lists",
        "/var/lib/sumidero/sumidero.sqlite",
        "/etc/sumidero/user-rules.txt",
    )
    .unwrap()
}

const MIGRATE_BASE: &str = r"
dns:
  bind_hosts: [0.0.0.0, '::']
  port: 53
  upstream_dns: ['https://dns.google/dns-query']
  bootstrap_dns: [8.8.8.8]
  upstream_timeout: 5s
user_rules: ['||base.test^']
";

#[test]
fn migrate_dual_wildcard_binds_do_not_duplicate() {
    let toml = migrated(&agh(MIGRATE_BASE)).toml;
    assert_eq!(toml.matches("[::]:53").count(), 1, "{toml}");
}

#[test]
fn migrate_client_ids_fall_back_to_rfc1918_with_warning() {
    let yaml = MIGRATE_BASE.replace(
        "  upstream_timeout: 5s",
        "  upstream_timeout: 5s\n  allowed_clients: [phone-1, laptop]",
    );
    let m = migrated(&agh(&yaml));
    assert!(m.toml.contains("192.168.0.0/16"));
    let w = m.warnings.join("\n");
    assert!(w.contains("phone-1"));
    assert!(w.contains("EDIT THIS"));
}

#[test]
fn migrate_slug_collisions_renamed_unique() {
    let yaml = format!(
        "{MIGRATE_BASE}filters:\n  - {{enabled: true, url: 'https://a.example/1.txt', name: 'My Filter'}}\n  - {{enabled: true, url: 'https://b.example/2.txt', name: 'My  Filter'}}\n  - {{enabled: true, url: 'https://c.example/3.txt', name: 'User Rules'}}\n"
    );
    let toml = migrated(&agh(&yaml)).toml;
    assert!(toml.contains("\"my-filter\""));
    assert!(toml.contains("\"my-filter-2\""));
    // The filter that slugged to user-rules is renamed; the synthetic
    // local list keeps the canonical name.
    assert!(toml.contains("\"user-rules-2\""), "{toml}");
    assert_eq!(toml.matches("name = \"user-rules\"").count(), 1, "{toml}");
}

#[test]
fn migrate_empty_filter_name_gets_fallback() {
    let yaml = format!(
        "{MIGRATE_BASE}filters:\n  - {{enabled: true, url: 'https://a.example/1.txt', name: '---'}}\n"
    );
    let toml = migrated(&agh(&yaml)).toml;
    assert!(toml.contains("name = \"list-1\""), "{toml}");
}

#[test]
fn whole_text() {
    let m = migrated(&agh(MIGRATE_BASE));
    assert_eq!(
        m.toml,
        "# sumidero config — generated by `sumidero migrate` from AdGuardHome.yaml\n\
         # WARNING: allowed_clients is empty: AdGuard would answer everyone; sumidero requires an explicit allowlist — defaulting to RFC1918 + loopback, EDIT THIS\n\
         # WARNING: web UI, query-log settings, and statistics settings do not apply: sumidero's control plane is the config file + SQLite + CLI\n\
         \n\
         [server]\n\
         bind = [\"0.0.0.0:53\", \"[::]:53\"]\n\
         allow = [\"192.168.0.0/16\", \"10.0.0.0/8\", \"172.16.0.0/12\", \"127.0.0.0/8\", \"::1/128\"]\n\
         \n\
         [filtering]\n\
         list_dir = \"/var/lib/sumidero/lists\"\n\
         \n\
         [[filtering.lists]]\n\
         name = \"user-rules\"\n\
         path = \"/etc/sumidero/user-rules.txt\"\n\
         \n\
         [upstreams]\n\
         servers = [\"https://dns.google/dns-query\"]\n\
         bootstrap = [\"8.8.8.8\"]\n\
         timeout_ms = 5000\n\
         \n\
         [database]\n\
         path = \"/var/lib/sumidero/sumidero.sqlite\"\n\
         \n\
         [safe_search]\n\
         enabled = false\n\
         providers = []\n"
    );
    assert_eq!(
        m.user_rules.unwrap(),
        "! migrated from AdGuardHome.yaml (user_rules + blocked_hosts)\n||base.test^\n"
    );
    assert_eq!(m.warnings.len(), 2);
    // The text is TOML.
    let table: toml::Table = m.toml.parse().unwrap();
    assert_eq!(table["upstreams"]["timeout_ms"].as_integer(), Some(5000));
}

#[test]
fn warnings_name_what_is_lost() {
    let mut a = agh(MIGRATE_BASE);
    a.dns.upstream_dns.push("tls://dns.example".into());
    a.dns.upstream_dns.push("quic://dns.adguard-dns.com".into());
    a.dns.fallback_dns.push("1.1.1.1".into());
    a.dns.upstream_timeout = "soon".into();
    a.dns.allowed_clients = vec![
        "192.168.0.0/24".into(),
        "127.0.0.1".into(),
        "2001:DB8::1".into(),
        "tab\tlet".into(),
    ];
    a.dns.blocked_hosts = vec!["version.bind".into()];
    a.dns.ratelimit = 20;
    a.dhcp_enabled = true;
    a.tls_enabled = true;
    a.filters.push(AghFilter {
        enabled: false,
        url: "https://x.example/filter_2.txt".into(),
        name: "AdAway".into(),
    });
    a.safe_search = AghSafeSearch {
        enabled: true,
        google: false,
        youtube: false,
        bing: true,
        duckduckgo: true,
        ecosia: true,
        pixabay: true,
        yandex: true,
    };
    let m = migrated(&a);
    assert_eq!(
        m.warnings,
        [
            "upstream tls://dns.example skipped: sumidero v1 supports only https:// (DoH) and quic:// (DoQ)",
            "fallback_dns has no equivalent: sumidero races all upstreams in parallel",
            "cannot parse upstream_timeout \"soon\"; using 5000 ms",
            "allowed client \"tab\\tlet\" skipped: not an IP or CIDR (client IDs are not supported)",
            "disabled filter \"AdAway\" not migrated",
            "safe-search provider ecosia is not supported in v1",
            "safe-search provider pixabay is not supported in v1",
            "safe-search provider yandex is not supported in v1",
            "DHCP is enabled in AdGuard but out of scope for sumidero",
            "TLS serving (DoT/DoH server) is out of scope for sumidero v1",
            "ratelimit has no equivalent in sumidero v1",
            "web UI, query-log settings, and statistics settings do not apply: sumidero's control plane is the config file + SQLite + CLI",
        ]
    );
    assert!(m.toml.contains("allow = [\"192.168.0.0/24\", \"127.0.0.1/32\", \"2001:db8::1/128\"]"));
    assert!(m.toml.contains("enabled = true\nproviders = [\"bing\", \"duckduckgo\"]"));
    assert!(!m.toml.contains("filter_2.txt"));
    assert!(m.user_rules.unwrap().contains("||base.test^\nversion.bind\n"));
}

#[test]
fn safe_search_without_provider_is_disabled() {
    let mut a = agh(MIGRATE_BASE);
    a.safe_search.enabled = true;
    let p = plan(&a).unwrap();
    assert!(p.warnings.contains(&Warning::NoProvider));
    assert!(p.providers.is_empty());
}

#[test]
fn conversion_errors() {
    let fails = |change: fn(&mut Agh)| {
        let mut a = agh(MIGRATE_BASE);
        change(&mut a);
        convert(&a, "/l", "/d", "/u").unwrap_err()
    };
    assert_eq!(
        fails(|a| a.dns.bind_hosts = vec!["::".into(), "eth0".into()]),
        "bind host eth0: invalid IP address syntax"
    );
    assert_eq!(
        fails(|a| a.dns.upstream_dns = vec!["8.8.8.8".into()]),
        "no usable upstream (need at least one https:// or quic:// server)"
    );
    assert_eq!(
        fails(|a| a.dns.bootstrap_dns = Vec::new()),
        "bootstrap_dns is empty; sumidero requires bootstrap IPs"
    );
    assert_eq!(
        fails(|a| a.user_rules = Vec::new()),
        "nothing to filter with: no enabled filters and no user rules in the AdGuard config; start from `sumidero init --profile` instead"
    );
}

#[test]
fn a_result_that_does_not_load_is_refused() {
    let m = migrated(&agh(MIGRATE_BASE));
    assert_eq!(
        conclude(m, Err("invalid config: x".into())).unwrap_err(),
        "generated config failed validation (bug): invalid config: x"
    );
    let m = migrated(&agh(MIGRATE_BASE));
    assert!(conclude(m, Ok(())).is_ok());
}

#[test]
fn rendering_takes_texts_as_they_are() {
    let q = Quoted {
        bind: vec!["B".into()],
        allow: Vec::new(),
        list_dir: "L".into(),
        lists: vec![("N".into(), "U".into())],
        user_rules: None,
        servers: vec!["S".into(), "T".into()],
        bootstrap: vec!["8".into()],
        db_path: "D".into(),
        providers: vec!["P".into()],
    };
    let text = render(&q, &vec!["w".into()], 7);
    assert!(text.contains("# WARNING: w\n\n[server]\nbind = [B]\nallow = []\n"));
    assert!(text.contains("\n[[filtering.lists]]\nname = N\nurl = U\n\n[upstreams]\n"));
    assert!(text.contains("servers = [S, T]\nbootstrap = [8]\ntimeout_ms = 7\n"));
    assert!(text.ends_with("[database]\npath = D\n\n[safe_search]\nenabled = true\nproviders = [P]\n"));
}

#[test]
fn slugs() {
    assert_eq!(slug("HaGeZi's Pro (Ads & Trackers)"), "hagezi-s-pro-ads-trackers");
    assert_eq!(slug("--a--b--"), "a-b");
    assert_eq!(slug("---"), "");
    assert_eq!(slug("Ünïcode 9"), "n-code-9");
    for name in ["HaGeZi's Pro", "--a--b--", "Ünïcode 9", ""] {
        let s = slug(name);
        let alnum = |t: &str| -> String { t.chars().filter(char::is_ascii_alphanumeric).collect() };
        assert_eq!(slug(&s), s);
        assert_eq!(alnum(&s), alnum(&name.to_ascii_lowercase()));
        assert!(!s.chars().any(|c| c.is_ascii_uppercase()));
    }
}

#[test]
fn durations() {
    assert_eq!(parse_go_duration_ms("5s"), Some(5000));
    assert_eq!(parse_go_duration_ms("250ms"), Some(250));
    assert_eq!(parse_go_duration_ms("+1s"), Some(1000));
    for bad in ["", "s", "ms", "5", "5m", "1.5s", "-1s", "5 s", "18446744073709551616ms"] {
        assert_eq!(parse_go_duration_ms(bad), None, "{bad:?}");
    }
    assert!(duration_is_small("18446744073709551s"));
    assert!(!duration_is_small("18446744073709552s"));
    assert!(duration_is_small("18446744073709551616s"));
}

#[test]
fn free_names_take_the_least_number() {
    let used: Vec<String> = ["a", "a-2", "a-4"].iter().map(|s| s.to_string()).collect();
    assert_eq!(pick_name(&used, "a"), "a-3");
    assert_eq!(pick_name(&used, "b"), "b");
    assert_eq!(pick_name(&used, "a-2"), "a-2-2");
}

#[test]
fn defaults() {
    let d = AghDns::default();
    assert_eq!(d.bind_hosts, ["0.0.0.0"]);
    assert_eq!((d.port, d.upstream_timeout.as_str()), (53, "5s"));
}
