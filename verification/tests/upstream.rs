//! Upstreams: URLs, bootstrap, the connection's life, sends, health.

use sumidero::ip::{parse_ip, Ip};
use sumidero::message::{Edns, Message, MessageType, Name, Query, CLASS_IN, OP_QUERY, TYPE_A};
use sumidero::upstream::query::{Race, Sending, Sent};
use sumidero::upstream::{
    acquire_error, after_first_send, after_second_send, bootstrap_choose, bootstrap_plan,
    check_pool, code_words, is_fatal, outgoing_query, parse_upstream_url, stamp_id, upstream_kind,
    Acquire, Bootstrap, Connection, Error, PoolCounters, SendOutcome, SendStep, TransportError,
    UpstreamKind, UrlParts, MAX_REBUILD_HOLDDOWN_MS, MAX_RECONNECT_BACKOFF_MS,
    MIN_RECONNECT_BACKOFF_MS,
};

fn ip(text: &str) -> Ip {
    let chars: Vec<char> = text.chars().collect();
    parse_ip(&chars).unwrap()
}

/// A test query with the given id.
fn test_query(id: u16) -> Message {
    let mut msg = Message::new(id, MessageType::Query, OP_QUERY);
    msg.add_query(Query {
        name: Name::from_ascii("example.com.").unwrap(),
        query_type: TYPE_A,
        query_class: CLASS_IN,
    });
    msg
}

// ── URL validation tests ────────────────────────────────────────

#[test]
fn valid_https_url() {
    let kind = parse_upstream_url("https://dns.cloudflare.com/dns-query").unwrap();
    match kind {
        UpstreamKind::Https { host, port, path } => {
            assert_eq!(host, "dns.cloudflare.com");
            assert_eq!(port, 443);
            assert_eq!(path, "/dns-query");
        }
        UpstreamKind::Quic { .. } => panic!("expected Https"),
    }
}

#[test]
fn valid_https_url_custom_port() {
    let kind = parse_upstream_url("https://dns.example.com:8443/resolve").unwrap();
    match kind {
        UpstreamKind::Https { host, port, path } => {
            assert_eq!(host, "dns.example.com");
            assert_eq!(port, 8443);
            assert_eq!(path, "/resolve");
        }
        UpstreamKind::Quic { .. } => panic!("expected Https"),
    }
}

#[test]
fn valid_quic_url() {
    let kind = parse_upstream_url("quic://dns.adguard.com").unwrap();
    match kind {
        UpstreamKind::Quic { host, port } => {
            assert_eq!(host, "dns.adguard.com");
            assert_eq!(port, 853);
        }
        UpstreamKind::Https { .. } => panic!("expected Quic"),
    }
}

#[test]
fn valid_quic_url_custom_port() {
    let kind = parse_upstream_url("quic://dns.example.com:8853").unwrap();
    match kind {
        UpstreamKind::Quic { host, port } => {
            assert_eq!(host, "dns.example.com");
            assert_eq!(port, 8853);
        }
        UpstreamKind::Https { .. } => panic!("expected Quic"),
    }
}

#[test]
fn unsupported_scheme_http() {
    let err = parse_upstream_url("http://dns.example.com/dns-query").unwrap_err();
    assert!(matches!(err, Error::UnsupportedUrl(_)));
}

#[test]
fn unsupported_scheme_tls() {
    let err = parse_upstream_url("tls://dns.example.com").unwrap_err();
    assert!(matches!(err, Error::UnsupportedUrl(_)));
}

#[test]
fn unsupported_scheme_udp() {
    let err = parse_upstream_url("udp://8.8.8.8").unwrap_err();
    assert!(matches!(err, Error::UnsupportedUrl(_)));
}

#[test]
fn https_url_missing_path() {
    let err = parse_upstream_url("https://dns.example.com").unwrap_err();
    assert!(matches!(err, Error::UnsupportedUrl(_)));
}

#[test]
fn https_url_root_path_only() {
    let err = parse_upstream_url("https://dns.example.com/").unwrap_err();
    assert!(matches!(err, Error::UnsupportedUrl(_)));
}

#[test]
fn malformed_url() {
    let err = parse_upstream_url("not a url at all").unwrap_err();
    assert!(matches!(err, Error::UnsupportedUrl(_)));
}

#[test]
fn empty_url() {
    let err = parse_upstream_url("").unwrap_err();
    assert!(matches!(err, Error::UnsupportedUrl(_)));
}

#[test]
fn url_error_texts() {
    let text = |raw: &str| match parse_upstream_url(raw) {
        Err(Error::UnsupportedUrl(text)) => text,
        other => panic!("{other:?}"),
    };
    assert_eq!(
        text("http://dns.example.com/dns-query"),
        "http://dns.example.com/dns-query: unsupported scheme 'http' (expected https or quic)"
    );
    assert_eq!(
        text("https://dns.example.com/"),
        "https://dns.example.com/: https URL must include a path (e.g. /dns-query)"
    );
    assert_eq!(text("quic:///x"), "quic:///x: missing host");
    assert_eq!(text(""), ": relative URL without a base");
}

#[test]
fn url_parts_decide_the_upstream() {
    let parts = |scheme: &str, host: Option<&str>, port: Option<u16>, path: &str| UrlParts {
        scheme: scheme.to_string(),
        host: host.map(str::to_string),
        port,
        path: path.to_string(),
    };
    assert!(matches!(
        upstream_kind("u", Ok(parts("https", Some("h"), None, "/q"))),
        Ok(UpstreamKind::Https { port: 443, .. })
    ));
    assert!(matches!(
        upstream_kind("u", Ok(parts("quic", Some("h"), Some(1), ""))),
        Ok(UpstreamKind::Quic { port: 1, .. })
    ));
    for bad in [
        Ok(parts("https", None, None, "/q")),
        Ok(parts("https", Some(""), None, "/q")),
        Ok(parts("https", Some("h"), None, "")),
        Ok(parts("HTTPS", Some("h"), None, "/q")),
        Err("broken".to_string()),
    ] {
        assert!(upstream_kind("u", bad).is_err());
    }
}

#[test]
fn new_rejects_empty_urls() {
    let err = check_pool(0, 5000).unwrap_err();
    assert!(matches!(err, Error::Init(_)));
    assert_eq!(
        err.message(),
        "upstream pool init failed: no upstream URLs configured"
    );
}

#[test]
fn new_rejects_zero_timeout() {
    let err = check_pool(1, 0).unwrap_err();
    assert!(matches!(err, Error::Init(_)));
    assert!(check_pool(1, 5000).is_ok());
}

#[test]
fn new_rejects_bad_url() {
    let err = parse_upstream_url("http://bad-scheme.example.com/dns-query").unwrap_err();
    assert!(matches!(err, Error::UnsupportedUrl(_)));
}

#[test]
fn new_rejects_empty_bootstrap_for_hostname() {
    let Err(err) = bootstrap_plan("dns.example.com", 0) else {
        panic!("expected an error");
    };
    assert!(matches!(err, Error::Init(_)));
}

#[test]
fn bootstrap_takes_literals_and_prefers_ipv4() {
    assert!(matches!(
        bootstrap_plan("9.9.9.9", 0),
        Ok(Bootstrap::Literal(Ip::V4(0x0909_0909)))
    ));
    assert!(matches!(
        bootstrap_plan("dns.example.com", 1),
        Ok(Bootstrap::Lookup)
    ));
    let (a, b, c) = (ip("2001:db8::1"), ip("1.1.1.1"), ip("8.8.8.8"));
    assert_eq!(bootstrap_choose("h", &vec![a, b, c]).unwrap(), b);
    assert_eq!(bootstrap_choose("h", &vec![a]).unwrap(), a);
    assert_eq!(
        bootstrap_choose("h", &Vec::new()).unwrap_err().message(),
        "upstream pool init failed: bootstrap resolution of 'h' returned no addresses"
    );
}

#[test]
fn response_id_stamped_from_query() {
    let response = Message::new(0, MessageType::Response, OP_QUERY);
    assert_eq!(stamp_id(response, 12345).metadata.id, 12345);
}

#[test]
fn do_bit_set_on_outgoing() {
    let sent = outgoing_query(&test_query(1));
    let edns = sent.edns.expect("EDNS should be present on outgoing query");
    assert!(edns.dnssec_ok, "DO bit should be set");
    assert_eq!(edns.max_payload, 512);
    assert!(sent.metadata.recursion_desired);
    assert_eq!(sent.queries, test_query(1).queries);

    let mut query = test_query(1);
    query.edns = Some(Edns {
        max_payload: 1232,
        version: 0,
        dnssec_ok: false,
        z: 0,
        options: vec![1, 2],
    });
    let edns = outgoing_query(&query).edns.unwrap();
    assert!(edns.dnssec_ok);
    assert_eq!(edns.max_payload, 1232);
    assert_eq!(edns.options, vec![1, 2]);
}

/// Send over the connection's current transport, and once more over a rebuilt
/// one where that is called for; what went wrong where no answer came.
fn try_send(
    c: &mut Connection,
    now: u64,
    mut outcome: impl FnMut(u64) -> SendOutcome,
    builds: bool,
) -> Result<(), String> {
    let mut sending = Sending::start(c, "up");
    loop {
        let generation = match c.acquire(now) {
            Acquire::Use { generation } => generation,
            Acquire::BackingOff => return Err(sending.unconnected(c, false)),
            Acquire::AwaitRepair => {
                c.trigger_repair();
                if c.repair_builds(now) {
                    c.repair_built(builds, now);
                }
                c.repair_concluded();
                continue;
            }
        };
        let (sent, repair) = sending.sent(c, generation, outcome(generation), 1000);
        if repair {
            if c.repair_builds(now) {
                c.repair_built(builds, now);
            }
            c.repair_concluded();
        }
        match sent {
            Sent::Answered => return Ok(()),
            Sent::Failed(e) => return Err(e),
            Sent::Again => {}
        }
    }
}

fn send(
    c: &mut Connection,
    now: u64,
    outcome: impl FnMut(u64) -> SendOutcome,
    builds: bool,
) -> bool {
    try_send(c, now, outcome, builds).is_ok()
}

/// Race what upstreams came to, in the order of arrival.
fn resolve(
    pool: &mut PoolCounters,
    query: &Message,
    results: Vec<Result<Message, String>>,
) -> Result<Message, Error> {
    let mut race = Race::start(query);
    for result in results {
        if let Some(answer) = race.take(pool, result) {
            return Ok(answer);
        }
    }
    Err(race.lost(pool))
}

/// A response as an upstream may send it, under an id of its own.
fn response(id: u16, response_code: u16) -> Message {
    let mut m = Message::new(id, MessageType::Response, OP_QUERY);
    m.metadata.response_code = response_code;
    m
}

#[test]
fn all_fail_returns_all_failed() {
    let mut pool = PoolCounters::new();
    let err = resolve(
        &mut pool,
        &test_query(1),
        vec![Err("upstream-1 down".into()), Err("upstream-2 down".into())],
    )
    .unwrap_err();
    match &err {
        Error::AllFailed(errs) => {
            assert_eq!(errs.len(), 2);
            assert!(errs.iter().any(|e| e.contains("upstream-1")));
            assert!(errs.iter().any(|e| e.contains("upstream-2")));
        }
        other => panic!("expected AllFailed, got {other:?}"),
    }
    assert_eq!(
        err.message(),
        "all upstreams failed:\n  - upstream-1 down\n  - upstream-2 down"
    );
    assert_eq!((pool.resolved, pool.all_failed_total), (0, 1));
    assert_eq!(Error::AllFailed(vec![]).message(), "all upstreams failed:");
    assert_eq!(
        Error::UnsupportedUrl("x".into()).message(),
        "unsupported upstream URL: x"
    );
}

#[test]
fn first_ok_wins_fast_over_slow() {
    let mut pool = PoolCounters::new();
    let results = vec![Ok(response(0, 0)), Ok(response(0, 3))];
    let resp = resolve(&mut pool, &test_query(42), results).unwrap();
    assert_eq!(resp.metadata.id, 42);
    assert_eq!(resp.metadata.response_code, 0, "the first to arrive wins");
}

#[test]
fn one_fails_one_succeeds() {
    let mut pool = PoolCounters::new();
    let results = vec![Err("nope".into()), Ok(response(0, 0))];
    let resp = resolve(&mut pool, &test_query(99), results).unwrap();
    assert_eq!(resp.metadata.id, 99);
}

#[test]
fn timeout_triggers_when_transport_too_slow() {
    let mut c = Connection::new();
    let e = try_send(&mut c, 0, |_| SendOutcome::TimedOut, true).unwrap_err();
    assert_eq!(e, "up: timed out");
    let mut pool = PoolCounters::new();
    let err = resolve(&mut pool, &test_query(1), vec![Err(e)]).unwrap_err();
    assert!(matches!(err, Error::AllFailed(_)));
}

#[test]
fn one_timeout_one_succeeds() {
    let mut slow = Connection::new();
    let e = try_send(&mut slow, 0, |_| SendOutcome::TimedOut, true).unwrap_err();
    let mut pool = PoolCounters::new();
    let results = vec![Err(e), Ok(response(0, 0))];
    let resp = resolve(&mut pool, &test_query(77), results).unwrap();
    assert_eq!(resp.metadata.id, 77);
}

#[test]
fn one_dead_upstream_does_not_stop_the_race() {
    let mut broken = Connection::new();
    let e = try_send(&mut broken, 0, |_| dead(), false).unwrap_err();
    assert_eq!(e, "resource too busy; up: disconnected, reconnect backing off");
    let mut healthy = Connection::new();
    assert!(send(&mut healthy, 0, |_| SendOutcome::Answered(0), true));

    let mut pool = PoolCounters::new();
    let results = vec![Err(e), Ok(response(0, 0))];
    let resp = resolve(&mut pool, &test_query(7), results).unwrap();
    assert_eq!(resp.metadata.id, 7);
    assert_eq!(pool.resolved, 1);
    assert_eq!(pool.all_failed_total, 0);
    assert_eq!(pool.consecutive_all_failed, 0);
}

fn dead() -> SendOutcome {
    SendOutcome::Fatal("resource too busy".to_string())
}

#[test]
fn dead_connection_is_replaced_within_the_same_query() {
    let mut c = Connection::new();
    assert!(send(&mut c, 0, |_| SendOutcome::Answered(0), true));
    assert_eq!((c.generation, c.reconnects), (0, 0));
    // The transport in use is dead; its replacement answers.
    let answered = send(
        &mut c,
        10,
        |g| if g == 0 { dead() } else { SendOutcome::Answered(0) },
        true,
    );
    assert!(answered);
    assert_eq!((c.generation, c.reconnects), (1, 1));
    assert_eq!(c.failures, 0);
}

#[test]
fn recovery_is_sustained_over_many_queries() {
    let mut c = Connection::new();
    assert!(send(&mut c, 0, |_| SendOutcome::Answered(0), true));
    for n in 0..20u64 {
        // Every transport dies after one answer.
        let answered = send(
            &mut c,
            n,
            |g| if g == n { dead() } else { SendOutcome::Answered(0) },
            true,
        );
        assert!(answered, "query {n} failed");
    }
    assert_eq!(c.reconnects, 20);
    assert_eq!(c.failures, 0);
}

#[test]
fn healthy_connection_is_reused_not_rebuilt() {
    let mut c = Connection::new();
    for n in 0..50u64 {
        assert!(send(&mut c, n, |_| SendOutcome::Answered(0), true));
    }
    assert_eq!((c.queries, c.reconnects), (50, 0));
}

#[test]
fn reconnect_backoff_stops_hammering_a_down_upstream() {
    let mut c = Connection::new();
    for _ in 0..10 {
        assert!(!send(&mut c, 1000, |_| dead(), false));
    }
    assert_eq!(c.backoff_ms, 2 * MIN_RECONNECT_BACKOFF_MS, "one build attempt");
    assert_eq!(c.next_attempt, Some(1000 + MIN_RECONNECT_BACKOFF_MS));
    // Past the backoff window an attempt is allowed again.
    assert!(!send(&mut c, 1000 + 2 * MAX_RECONNECT_BACKOFF_MS, |_| dead(), false));
    assert_eq!(c.backoff_ms, 4 * MIN_RECONNECT_BACKOFF_MS);
}

#[test]
fn health_surfaces_upstream_failures() {
    let mut c = Connection::new();
    let mut pool = PoolCounters::new();
    assert!(!send(&mut c, 0, |_| dead(), false));
    pool.record_all_failed();
    let health = c.health("broken", 5000);
    assert_eq!(health.url, "broken");
    assert!(!health.connected, "a dead upstream must report down");
    assert_eq!(health.queries, 1);
    assert_eq!(health.failures, 1);
    assert!(health.consecutive_failures >= 1);
    assert_eq!(health.last_success_secs_ago, None);
    assert_eq!(pool.resolved, 0);
    assert_eq!(pool.all_failed_total, 1);
    assert_eq!(pool.consecutive_all_failed, 1);
}

#[test]
fn pool_failure_streak_clears_once_an_upstream_answers_again() {
    let mut pool = PoolCounters::new();
    pool.record_resolved();
    pool.record_all_failed();
    pool.record_all_failed();
    assert_eq!((pool.consecutive_all_failed, pool.all_failed_total), (2, 2));
    pool.record_resolved();
    assert_eq!(pool.consecutive_all_failed, 0);
    assert_eq!(pool.all_failed_total, 2, "the total stays cumulative");
    assert_eq!(pool.resolved, 2);
}

#[test]
fn hung_connection_is_torn_down_and_replaced() {
    let mut c = Connection::new();
    assert!(!send(&mut c, 0, |_| SendOutcome::TimedOut, true));
    assert_eq!(c.failures, 1);
    assert!(c.connected && c.generation == 1, "the repair replaced it");
    assert!(send(&mut c, 700, |_| SendOutcome::Answered(0), true));
}

#[test]
fn failing_sends_do_not_cause_a_handshake_per_query() {
    let mut c = Connection::new();
    for _ in 0..20 {
        assert!(!send(&mut c, 5, |_| dead(), true));
    }
    assert!(c.reconnects <= 4, "{} builds for 20 queries", c.reconnects);
}

#[test]
fn recovered_upstream_is_not_held_down_by_outage_backoff() {
    let mut c = Connection::new();
    assert!(send(&mut c, 0, |_| SendOutcome::Answered(0), true));
    let mut now = 0;
    for _ in 0..6 {
        assert!(!send(&mut c, now, |_| dead(), false));
        now += 31_000;
    }
    assert_eq!(c.backoff_ms, MAX_RECONNECT_BACKOFF_MS);
    // The recovered connection is dead on arrival.
    assert!(!send(&mut c, now, |_| dead(), true));
    now += MAX_REBUILD_HOLDDOWN_MS + 500;
    assert!(send(&mut c, now, |_| SendOutcome::Answered(0), true));
    assert_eq!(c.backoff_ms, MIN_RECONNECT_BACKOFF_MS);
    assert_eq!(c.next_attempt, None);
}

#[test]
fn query_error_does_not_kill_the_connection() {
    let mut c = Connection::new();
    let bad = |_| SendOutcome::Query("malformed response for this query".to_string());
    assert!(!send(&mut c, 0, bad, true));
    assert!(send(&mut c, 0, |_| SendOutcome::Answered(0), true));
    assert_eq!(c.reconnects, 0, "a query-specific error must not cause a rebuild");
    assert_eq!((c.failures, c.consecutive_failures), (1, 0));
}

#[test]
fn unusable_answers_count_as_upstream_failures() {
    let mut c = Connection::new();
    for _ in 0..3 {
        assert!(!send(&mut c, 0, |_| SendOutcome::Answered(2), true));
    }
    assert_eq!(c.failures, 3, "SERVFAIL answers must count as failures");
    assert_eq!(c.consecutive_failures, 3);
    assert_eq!(c.health("u", 10).last_success_secs_ago, None);
    assert!(c.connected);
    for code in [4, 5] {
        assert!(!send(&mut c, 0, |_| SendOutcome::Answered(code), true));
    }
    for code in [0, 1, 3] {
        assert!(send(&mut c, 0, |_| SendOutcome::Answered(code), true));
    }
}

#[test]
fn stale_generation_leaves_the_replacement_alone() {
    let mut c = Connection::new();
    c.repair_built(true, 0);
    let before = c;
    let retry = SendStep::Retry {
        first_err: "late".to_string(),
    };
    assert!(!c.settle(0, &retry, 0));
    assert_eq!(c, before);
    assert!(c.settle(1, &retry, 0));
    assert!(!c.connected);
}

#[test]
fn at_most_one_repair_runs() {
    let mut c = Connection::new();
    assert!(c.trigger_repair());
    assert!(!c.trigger_repair());
    assert!(!c.repair_builds(0), "a transport is installed");
    c.repair_concluded();
    assert!(c.trigger_repair());
}

#[test]
fn send_error_texts() {
    let err = |step: SendStep| match step {
        SendStep::Fail { err, .. } => err,
        _ => panic!("expected a failure"),
    };
    let code = code_words(2);
    assert_eq!(code, "Server Failure");
    assert_eq!(
        err(after_first_send("up", &code, SendOutcome::Answered(2))),
        "up: upstream answered Server Failure"
    );
    assert_eq!(
        err(after_first_send("up", "", SendOutcome::TimedOut)),
        "up: timed out"
    );
    assert_eq!(
        err(after_second_send("up", &code, "gone", SendOutcome::Answered(2))),
        "gone; after reconnect: up: upstream answered Server Failure"
    );
    assert_eq!(
        err(after_second_send("up", "", "gone", SendOutcome::TimedOut)),
        "gone; after reconnect: up: timed out"
    );
    assert_eq!(
        err(after_second_send("up", "", "gone", dead())),
        "gone; after reconnect: resource too busy"
    );
    assert_eq!(
        acquire_error("up", None, false),
        "up: disconnected, reconnect backing off"
    );
    assert_eq!(
        acquire_error("up", Some("gone"), true),
        "gone; up: timed out waiting for reconnect"
    );
}

#[test]
fn unknown_transport_errors_are_fatal() {
    assert!(is_fatal(TransportError::Other));
    for e in [
        TransportError::Dns,
        TransportError::Proto,
        TransportError::QueryCaseMismatch,
    ] {
        assert!(!is_fatal(e));
    }
}

#[test]
fn last_success_age() {
    let mut c = Connection::new();
    assert!(send(&mut c, 0, |_| SendOutcome::Answered(0), true));
    assert_eq!(c.health("u", 1030).last_success_secs_ago, Some(30));
    assert_eq!(c.health("u", 900).last_success_secs_ago, Some(0));
}
