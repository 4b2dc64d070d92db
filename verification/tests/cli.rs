//! What the commands say and the codes they exit with.

use sumidero::cli::{
    absent_text, check_text, explain, implausible_message, judge_daemon, judge_health, log_line,
    log_text, may_write, migrated_text, plausible_domain, profile_named, reload_target,
    running_text, shadow_text, stats_text, stopped_text, total_rules, unexpected, window_start, Explanation, UpstreamLine,
    HEARTBEAT_FRESH_SECS, SCHEMA,
};
use sumidero::cli::status::{judge_published, read_lines, status_report, StatusReport};
use sumidero::config::Profile;
use sumidero::db::{DaemonStats, Heartbeat, QueryRecord, ResponseSource, Stats, VerdictKind};
use sumidero::ip::Ip;
use sumidero::lists::{LoadedLists, Loader};

const NOW: i64 = 1_700_000_000;

fn local() -> LoadedLists {
    let mut loader = Loader::new();
    loader.load("local", "||blocked.test^\n@@safe.blocked.test\n");
    loader.finish()
}

fn explained(domain: &str, daemon_hash: Option<&str>) -> Explanation {
    explain(&local(), domain, daemon_hash)
}

fn heartbeat(age: i64) -> Heartbeat {
    Heartbeat {
        pid: 999_999,
        started_ts: NOW - 1000,
        updated_ts: NOW - age,
        config_hash: "cfg-hash".into(),
        lists_hash: "lists-hash".into(),
    }
}

fn upstream(
    url: &str,
    last: Option<u64>,
    queries: u64,
    failures: u64,
    reconnects: u64,
) -> UpstreamLine {
    UpstreamLine {
        url: Some(url.to_string()),
        last_success_secs_ago: last,
        queries: queries.to_string(),
        failures: failures.to_string(),
        reconnects: reconnects.to_string(),
    }
}

/// The published counters of a pool with these upstreams.
fn pool_json(upstreams: &str, stuck: u64) -> String {
    format!(
        r#"{{"upstreams":{upstreams},"resolved":42,"all_failed_total":{stuck},"consecutive_all_failed":{stuck}}}"#
    )
}

fn published(json: &str, dropped: u64, recent: u64) -> DaemonStats {
    DaemonStats {
        updated_ts: NOW,
        log_events_dropped: dropped,
        log_events_dropped_recent: recent,
        upstreams_json: json.to_string(),
    }
}

fn status(age: i64, stats: Option<&DaemonStats>) -> StatusReport {
    status_report(Some(&heartbeat(age)), stats, NOW)
}

#[test]
fn check_valid_config_json_and_exit_zero() {
    let loaded = local();
    assert_eq!(loaded.names, ["local"]);
    assert_eq!(total_rules(&loaded.rule_counts), 2);
    assert_eq!(loaded.issues.len(), 0);
    assert_eq!(loaded.hash.len(), 64);
    assert_eq!(check_text(1, 2, 0), "config OK: 1 lists, 2 rules, 0 parse issues");
    assert_eq!(SCHEMA, "v1");
}

#[test]
fn check_full_field_set_includes_rule_counts() {
    assert_eq!(local().rule_counts, [2]);
}

#[test]
fn explain_blocked_exit_three_with_rule() {
    let e = explained("sub.blocked.test", Some("lists-hash"));
    assert_eq!(e.exit_code, 3);
    assert_eq!(e.verdict, "blocked");
    assert_eq!(e.rule.as_deref(), Some("||blocked.test^"));
    assert_eq!(e.list.as_deref(), Some("local"));
    assert_eq!(e.hash_match, Some(false));
    assert!(e.warning().unwrap().contains("differs"));
    let text = e.text("sub.blocked.test");
    assert!(text.starts_with("sub.blocked.test: blocked by `||blocked.test^` (list local)\nwarning: "));
}

#[test]
fn explain_excepted_exit_four() {
    let e = explained("safe.blocked.test", None);
    assert_eq!(e.exit_code, 4);
    assert_eq!(e.verdict, "excepted");
}

#[test]
fn explain_no_match_exit_zero_without_daemon() {
    let e = explained("wikipedia.org", None);
    assert_eq!(e.exit_code, 0);
    assert_eq!(e.verdict, "no-match");
    assert_eq!(e.rule, None);
    assert_eq!(e.hash_match, None);
    assert_eq!(e.warning(), None);
    assert_eq!(e.text("wikipedia.org"), "wikipedia.org: no-match");
}

#[test]
fn explain_full_field_set() {
    let own = local().hash;
    let e = explained("sub.blocked.test", Some(&own));
    assert_eq!(e.hash_match, Some(true));
    assert_eq!(e.warning(), None);
    assert_eq!(
        e.text("sub.blocked.test"),
        "sub.blocked.test: blocked by `||blocked.test^` (list local)"
    );
}

#[test]
fn explain_rejects_garbage_domain_exit_two() {
    for bad in ["", "hello world", "emoji🙂.com"] {
        assert!(!plausible_domain(bad), "{bad:?}");
        assert!(implausible_message(bad).contains("plausible"));
    }
    assert_eq!(
        implausible_message("hello world"),
        "\"hello world\" is not a plausible DNS name"
    );
    let long = format!("{}.com", "a".repeat(300));
    assert!(!plausible_domain(&long));
    assert!(plausible_domain(&"a".repeat(254)));
    assert!(!plausible_domain(&"a".repeat(255)));
    assert!(plausible_domain("*.Ads_1-x.net."));
}

#[test]
fn status_fresh_heartbeat_running_exit_zero() {
    let r = status(10, None);
    assert!(r.health.running && !r.health.degraded);
    assert_eq!((r.health.exit_code, r.age), (0, Some(10)));
    assert!(judge_health(HEARTBEAT_FRESH_SECS, None, None).running);
    assert!(!judge_health(HEARTBEAT_FRESH_SECS + 1, None, None).running);
}

#[test]
fn status_without_daemon_stats_reports_unknown_not_healthy() {
    let r = status(10, None);
    assert!(!r.health.degraded);
    assert_eq!(r.counters.upstreams, "null");
    assert_eq!(r.counters.resolved, "null");
    let text = "running: pid 999999 (heartbeat 10s ago)\nconfig cfg-hash\nlists  lists-hash";
    assert_eq!(r.text, text);
    assert_eq!(running_text(&heartbeat(10), 10, &Vec::new(), None, None, None), text);
}

#[test]
fn status_reports_upstream_health() {
    let json = pool_json(
        r#"[{"url":"https://dns.google/dns-query","connected":true,
            "last_success_secs_ago":2,"queries":42,"failures":1,"reconnects":1,
            "consecutive_failures":0}]"#,
        0,
    );
    let r = status(10, Some(&published(&json, 0, 0)));
    assert_eq!(r.health.exit_code, 0);
    assert!(!r.health.degraded);
    assert_eq!(r.counters.resolved, "42");
    assert_eq!((r.counters.all_failed.as_str(), r.counters.stuck.as_str()), ("0", "0"));
    let ups: serde_json::Value = serde_json::from_str(&r.counters.upstreams).unwrap();
    assert_eq!(ups.as_array().unwrap().len(), 1);
    assert_eq!(ups[0]["url"], "https://dns.google/dns-query");
    assert_eq!(ups[0]["reconnects"], 1);
    assert_eq!(
        r.text,
        "running: pid 999999 (heartbeat 10s ago)\nconfig cfg-hash\nlists  lists-hash\n\
         upstream https://dns.google/dns-query (last answer 2s ago, 42 queries, 1 failures, 1 reconnects)"
    );
    // What is missing shows as such.
    let r = status(10, Some(&published(r#"{"upstreams":[{}, 7]}"#, 0, 0)));
    assert!(r.text.ends_with(
        "\nupstream ? (never answered, null queries, null failures, null reconnects)\
         \nupstream ? (never answered, null queries, null failures, null reconnects)"
    ));
}

#[test]
fn status_not_degraded_while_one_upstream_reconnects() {
    let json = pool_json(
        r#"[{"url":"quic://dns.adguard-dns.com","connected":false,
            "last_success_secs_ago":8,"queries":100,"failures":0,"reconnects":7,
            "consecutive_failures":0},
            {"url":"https://dns.google/dns-query","connected":true,
            "last_success_secs_ago":1,"queries":100,"failures":0,"reconnects":0,
            "consecutive_failures":0}]"#,
        0,
    );
    let h = status(10, Some(&published(&json, 0, 0))).health;
    assert!(!h.degraded);
    assert_eq!(h.exit_code, 0, "a reconnecting upstream is not an outage");
    let lines = read_lines(&json);
    assert_eq!(lines.len(), 2);
    assert_eq!(lines[1].url.as_deref(), Some("https://dns.google/dns-query"));
    assert_eq!(lines[0].last_success_secs_ago, Some(8));
}

#[test]
fn status_degraded_exit_seven_when_no_upstream_can_answer() {
    let json = pool_json(
        r#"[{"url":"https://dns.google/dns-query","connected":false,
            "last_success_secs_ago":25200,"queries":900,"failures":900,"reconnects":0,
            "consecutive_failures":900}]"#,
        900,
    );
    let h = status(10, Some(&published(&json, 0, 0))).health;
    assert!(h.running && h.degraded);
    assert_eq!(h.exit_code, 7);
    assert_eq!(judge_published(Some(10), Some(&json), Some(0)), h);
    // Text that is no JSON, or says something else there, is no outage.
    for json in ["", "{", "[]", "900", r#"{"consecutive_all_failed":"900"}"#, "{}"] {
        assert_eq!(judge_published(Some(10), Some(json), Some(0)).exit_code, 0, "{json}");
        assert!(read_lines(json).is_empty());
    }
}

#[test]
fn status_degraded_exit_seven_when_log_events_were_dropped() {
    let json = pool_json(
        r#"[{"url":"https://dns.google/dns-query","connected":true,
            "last_success_secs_ago":1,"queries":42,"failures":0,"reconnects":0,
            "consecutive_failures":0}]"#,
        0,
    );
    let h = status(10, Some(&published(&json, 17, 17))).health;
    assert!(h.degraded);
    assert_eq!(h.exit_code, 7);
}

#[test]
fn status_not_degraded_when_drops_are_only_historical() {
    let json = pool_json(
        r#"[{"url":"https://dns.google/dns-query","connected":true,
            "last_success_secs_ago":1,"queries":9000,"failures":0,"reconnects":0,
            "consecutive_failures":0}]"#,
        0,
    );
    let r = status(10, Some(&published(&json, 42, 0)));
    assert_eq!(r.health.exit_code, 0, "a historical drop must not pin the daemon degraded");
    assert!(!r.health.degraded);
    let text = r.text;
    assert!(text.ends_with("\nnote: 42 query-log events dropped since start"), "{text}");
    assert!(!text.contains("WARNING"), "{text}");
}

#[test]
fn status_human_output_reports_the_outage_and_drops() {
    let json = pool_json(
        r#"[{"url":"quic://dns.adguard-dns.com","connected":false,
            "last_success_secs_ago":600,"queries":5,"failures":5,"reconnects":2,
            "consecutive_failures":5}]"#,
        5,
    );
    let r = status(10, Some(&published(&json, 3, 3)));
    assert_eq!(r.health.exit_code, 7);
    let ups = vec![upstream("quic://dns.adguard-dns.com", Some(600), 5, 5, 2)];
    let text = running_text(&heartbeat(10), 10, &ups, Some(5), Some(3), Some(3));
    assert_eq!(r.text, text);
    assert!(text.contains("every upstream is failing"), "{text}");
    assert!(text.contains("quic://dns.adguard-dns.com"), "{text}");
    assert!(text.ends_with(
        "\nERROR: every upstream is failing (5 consecutive queries unanswered)\
         \nWARNING: 3 query-log events dropped since the last sample"
    ));
}

#[test]
fn status_no_heartbeat_exit_five() {
    let h = judge_daemon(None, Some(9), Some(9));
    assert!(!h.running && !h.degraded);
    assert_eq!(h.exit_code, 5);
    assert_eq!(absent_text(), "NOT running: no heartbeat recorded");
    let r = status_report(None, Some(&published(&pool_json("[]", 9), 9, 9)), NOW);
    assert_eq!((r.health, r.age), (h, None));
    assert_eq!(r.text, absent_text());
    for age in [10, HEARTBEAT_FRESH_SECS, 3600] {
        assert_eq!(judge_daemon(Some(age), Some(0), Some(2)), judge_health(age, Some(0), Some(2)));
    }
}

#[test]
fn status_stale_heartbeat_exit_five() {
    let h = judge_health(3600, Some(9), Some(9));
    assert!(!h.running && !h.degraded);
    assert_eq!(h.exit_code, 5);
    let text = "NOT running: last heartbeat 3600s ago (pid was 999999)";
    assert_eq!(stopped_text(999_999, 3600), text);
    let r = status(3600, Some(&published(&pool_json("[]", 9), 9, 9)));
    assert_eq!((r.health, r.text.as_str()), (h, text));
}

#[test]
fn reload_without_daemon_exit_five() {
    let refusal = reload_target(None, NOW).unwrap_err();
    assert_eq!(refusal.exit_code, 5);
    assert_eq!(refusal.message, "daemon not running (no heartbeat)");
    let refusal = reload_target(Some(&heartbeat(151)), NOW).unwrap_err();
    assert_eq!(refusal.exit_code, 5);
    assert_eq!(refusal.message, "daemon not running (heartbeat 151s old)");
}

#[test]
fn reload_success_signals_live_pid() {
    assert_eq!(reload_target(Some(&heartbeat(0)), NOW).unwrap(), 999_999);
    // A clock set back makes a heartbeat from the future, which is fresh.
    assert_eq!(reload_target(Some(&heartbeat(-30)), NOW).unwrap(), 999_999);
    let mut hb = heartbeat(0);
    hb.pid = u32::MAX;
    let refusal = reload_target(Some(&hb), NOW).unwrap_err();
    assert_eq!(refusal.exit_code, 1);
    assert_eq!(refusal.message, "heartbeat pid out of range");
}

fn logged(qname: &str, verdict: VerdictKind, source: ResponseSource, rcode: u16) -> QueryRecord {
    QueryRecord {
        ts: NOW,
        client: Ip::V4(0xc0a8_010a),
        qname: qname.into(),
        qtype: 1,
        verdict,
        rule: None,
        list: None,
        source,
        rcode,
        duration_us: 250,
    }
}

#[test]
fn human_output_status_and_log() {
    let text = running_text(&heartbeat(0), 0, &Vec::new(), None, None, None);
    assert!(text.contains("running: pid 999999"), "{text}");
    let rows = vec![
        logged("blocked.test", VerdictKind::Blocked, ResponseSource::Synth, 3),
        logged("ok.test", VerdictKind::Allowed, ResponseSource::Cache, 0),
    ];
    assert_eq!(
        log_line(&rows[0]),
        "1700000000 192.168.1.10 blocked.test blocked (synth, rcode 3)"
    );
    assert_eq!(
        log_text(&rows),
        "1700000000 192.168.1.10 blocked.test blocked (synth, rcode 3)\n\
         1700000000 192.168.1.10 ok.test allowed (cache, rcode 0)"
    );
    assert_eq!(log_text(&Vec::new()), "");
}

#[test]
fn stats_aggregates_seeded_rows() {
    let stats = Stats {
        total: 3,
        blocked: 1,
        excepted: 0,
        cache_hits: 1,
        upstream_failures: 0,
        top_queried: Vec::new(),
        top_blocked: Vec::new(),
    };
    assert_eq!(
        stats_text(1, &stats),
        "last 1h: 3 queries, 1 blocked, 0 excepted, 1 cache hits, 0 upstream failures"
    );
    assert_eq!(window_start(NOW, 24), NOW - 86_400);
}

#[test]
fn init_refuses_overwrite_without_force_exit_six() {
    let refusal = may_write("/etc/c.toml", true, false).unwrap_err();
    assert_eq!(refusal.exit_code, 6);
    assert_eq!(refusal.message, "/etc/c.toml exists; pass --force to overwrite");
    assert!(may_write("/etc/c.toml", false, false).is_ok());
}

#[test]
fn init_force_overwrites_and_reports_written() {
    assert!(may_write("/etc/c.toml", true, true).is_ok());
    assert_eq!(profile_named("minimal").unwrap(), Profile::Minimal);
    assert_eq!(profile_named("balanced").unwrap(), Profile::Balanced);
    assert_eq!(profile_named("strict").unwrap(), Profile::Strict);
    let refusal = profile_named("harsh").unwrap_err();
    assert_eq!((refusal.exit_code, refusal.message.as_str()), (2, "unknown profile harsh"));
}

#[test]
fn migrate_force_overwrites_and_reports_fields() {
    let warnings = vec!["one".to_string(), "two".to_string()];
    assert_eq!(
        migrated_text("/c.toml", Some("/user-rules.txt"), &warnings),
        "wrote /c.toml and /user-rules.txt\n2 warnings:\n  one\n  two"
    );
    assert_eq!(
        migrated_text("/c.toml", None, &Vec::new()),
        "wrote /c.toml\n0 warnings:\n  "
    );
}

#[test]
fn shadow_report_summarizes_divergences() {
    let summary = vec![
        ("expected".to_string(), 2),
        ("they-block-we-answer".to_string(), 1),
    ];
    assert_eq!(unexpected(&summary), 1);
    assert_eq!(
        shadow_text(1, &summary, 1),
        "divergences in the last 1h:\n  expected: 2\n  they-block-we-answer: 1\nunexpected total: 1"
    );
}

#[test]
fn shadow_report_empty_db() {
    assert_eq!(unexpected(&Vec::new()), 0);
    assert_eq!(
        shadow_text(48, &Vec::new(), 0),
        "divergences in the last 48h: none\nunexpected total: 0"
    );
}

#[test]
fn migrate_refuses_overwrite_exit_six() {
    let refusal = may_write("/etc/sumidero/config.toml", true, false).unwrap_err();
    assert_eq!(refusal.exit_code, 6, "default --out is the existing config");
    assert_eq!(
        refusal.message,
        "/etc/sumidero/config.toml exists; pass --force to overwrite"
    );
}
