//! The query log: stored texts, rows, schema versions, batches, retention.

use sumidero::consts::LOG_RETENTION_SECS;
use sumidero::db::{
    batch_has_room, count_from, counter_from_db, counter_to_db, ensure_schema_version,
    migrate_schema, pid_from, qtype_from, query_row, retention_cutoff, row_to_query_record,
    split_batch, DbError, DivergenceRow, LogEvent, Msg, QueryRecord, ResponseSource, RowError,
    SchemaPlan, VerdictKind, BATCH_SIZE, SCHEMA_VERSION, WRITER_QUEUE_CAPACITY,
};
use sumidero::ip::Ip;

fn sample_query(ts: i64) -> QueryRecord {
    QueryRecord {
        ts,
        client: Ip::V4(0xc0a8_0164),
        qname: "example.com".to_string(),
        qtype: 1,
        verdict: VerdictKind::Allowed,
        rule: None,
        list: None,
        source: ResponseSource::Upstream,
        rcode: 0,
        duration_us: 1500,
    }
}

#[test]
fn newer_version_refuses() {
    assert_eq!(
        ensure_schema_version(Some("99")),
        SchemaPlan::TooNew { found: 99 }
    );
    let err = DbError::SchemaTooNew {
        found: 99,
        supported: SCHEMA_VERSION,
    };
    assert_eq!(
        err.message(),
        "database schema v99 is newer than supported v2"
    );
}

#[test]
fn v1_database_migrates_to_current_schema() {
    let plan = ensure_schema_version(Some("1"));
    assert_eq!(plan, SchemaPlan::Upgrade { from: 1 });
    let columns: Vec<String> = ["id", "updated_ts", "log_events_dropped", "upstreams_json"]
        .iter()
        .map(|c| c.to_string())
        .collect();
    assert!(migrate_schema(1, &columns));
    // Upgrading twice adds the column once.
    let mut upgraded = columns;
    upgraded.push("log_events_dropped_recent".to_string());
    assert!(!migrate_schema(1, &upgraded));
    assert!(!migrate_schema(2, &upgraded));
}

#[test]
fn schema_versions() {
    assert_eq!(ensure_schema_version(None), SchemaPlan::Stamp);
    assert_eq!(ensure_schema_version(Some("2")), SchemaPlan::Keep);
    assert_eq!(
        ensure_schema_version(Some("garbage")),
        SchemaPlan::Upgrade { from: 0 }
    );
    assert_eq!(
        ensure_schema_version(Some("4294967296")),
        SchemaPlan::Upgrade { from: 0 }
    );
    assert_eq!(
        ensure_schema_version(Some("4294967295")),
        SchemaPlan::TooNew { found: u32::MAX }
    );
}

#[test]
fn log_flush_recent_queries_roundtrip_ipv6() {
    let q = QueryRecord {
        ts: 1_700_000_000,
        client: Ip::V6(0x2001_0db8_0000_0000_0000_0000_0000_0001),
        qname: "ipv6.example.com".to_string(),
        qtype: 28,
        verdict: VerdictKind::Blocked,
        rule: Some("||ipv6.example.com^".to_string()),
        list: Some(3),
        source: ResponseSource::Synth,
        rcode: 3,
        duration_us: 42,
    };
    let row = query_row(&q);
    assert_eq!(row.client, "2001:db8::1");
    assert_eq!(row.verdict, "blocked");
    assert_eq!(row.source, "synth");
    assert_eq!(row_to_query_record(row).unwrap(), q);
}

#[test]
fn rows_of_other_clients_roundtrip() {
    for client in [
        Ip::V4(0),
        Ip::V4(u32::MAX),
        Ip::V6(0),
        Ip::V6(1),
        Ip::V6(0xffff_c0a8_0101),
        Ip::V6(u128::MAX),
        Ip::V6(0x0001_0000_0000_0002_0000_0000_0000_0003),
    ] {
        let mut q = sample_query(7);
        q.client = client;
        assert_eq!(row_to_query_record(query_row(&q)).unwrap(), q);
    }
}

#[test]
fn verdict_strings_stable() {
    assert_eq!(VerdictKind::Allowed.as_str(), "allowed");
    assert_eq!(VerdictKind::Blocked.as_str(), "blocked");
    assert_eq!(VerdictKind::Excepted.as_str(), "excepted");

    for v in [
        VerdictKind::Allowed,
        VerdictKind::Blocked,
        VerdictKind::Excepted,
    ] {
        assert_eq!(VerdictKind::from_db(v.as_str()).unwrap(), v);
    }
}

#[test]
fn source_strings_stable() {
    assert_eq!(ResponseSource::Synth.as_str(), "synth");
    assert_eq!(ResponseSource::Cache.as_str(), "cache");
    assert_eq!(ResponseSource::Stale.as_str(), "stale");
    assert_eq!(ResponseSource::Upstream.as_str(), "upstream");
    assert_eq!(ResponseSource::Failed.as_str(), "failed");

    for s in [
        ResponseSource::Synth,
        ResponseSource::Cache,
        ResponseSource::Stale,
        ResponseSource::Upstream,
        ResponseSource::Failed,
    ] {
        assert_eq!(ResponseSource::from_db(s.as_str()).unwrap(), s);
    }
}

#[test]
fn unknown_stored_texts_are_errors() {
    assert!(VerdictKind::from_db("dropped").is_err());
    assert!(ResponseSource::from_db("oracle").is_err());
    let mut row = query_row(&sample_query(1));
    row.client = "not an address".to_string();
    assert!(matches!(
        row_to_query_record(row),
        Err(RowError::Client(text)) if text == "not an address"
    ));
    let mut row = query_row(&sample_query(1));
    row.verdict = "dropped".to_string();
    assert!(row_to_query_record(row).is_err());
    let mut row = query_row(&sample_query(1));
    row.source = "oracle".to_string();
    assert!(row_to_query_record(row).is_err());
}

#[test]
fn retention_sweep_keeps_row_exactly_at_cutoff() {
    let now = 2_000_000_000i64;
    let cutoff = now - LOG_RETENTION_SECS;
    assert_eq!(retention_cutoff(now), cutoff);
    assert_eq!(LOG_RETENTION_SECS, 604_800);
}

#[test]
fn batches_split_in_order() {
    let divergence = DivergenceRow {
        ts: 5000,
        qname: "test.com".into(),
        qtype: 1,
        ours: "NXDOMAIN".into(),
        theirs: "0.0.0.0".into(),
        class: "expected".into(),
    };
    let batch = vec![
        Msg::Event(LogEvent::Query(sample_query(1))),
        Msg::Flush(7),
        Msg::Event(LogEvent::Divergence(divergence)),
        Msg::Flush(8),
    ];
    let (events, waiters) = split_batch(batch);
    assert_eq!(waiters, vec![7, 8]);
    assert_eq!(events.len(), 2);
    assert!(matches!(&events[0], LogEvent::Query(q) if q.ts == 1));
    assert!(matches!(&events[1], LogEvent::Divergence(d) if d.qname == "test.com"));
}

#[test]
fn batch_limit() {
    assert!(batch_has_room(BATCH_SIZE - 1));
    assert!(!batch_has_room(BATCH_SIZE));
    assert_eq!(BATCH_SIZE, 256);
    assert_eq!(WRITER_QUEUE_CAPACITY, 4096);
}

#[test]
fn stored_numbers() {
    assert_eq!(count_from(5), 5);
    assert_eq!(count_from(-5), 0);
    assert_eq!(pid_from(1234), 1234);
    assert_eq!(pid_from(-1), 0);
    assert_eq!(qtype_from(28), 28);
    assert_eq!(qtype_from(70_000), 0);
    for n in [0, 1, u64::MAX, 1 << 63] {
        assert_eq!(counter_from_db(counter_to_db(n)), n);
    }
    assert_eq!(counter_to_db(u64::MAX), -1);
}

#[test]
fn database_error_messages() {
    let open = DbError::Open {
        path: "/x".into(),
        reason: "denied".into(),
    };
    assert_eq!(open.message(), "cannot open database /x: denied");
    assert_eq!(DbError::Sql("locked".into()).message(), "sql: locked");
}
