//! Shadow mode: what counts as a divergence.

use sumidero::db::LogEvent;
use sumidero::message::{
    Message, MessageType, Name, Record, CLASS_IN, NO_ERROR, NX_DOMAIN, OP_QUERY, SERV_FAIL,
    TYPE_A, TYPE_AAAA,
};
use sumidero::shadow::{
    admits, classify, compare, describe, divergence_class, looks_blocked, CLASS_EXPECTED,
    CLASS_RCODE, CLASS_THEY_BLOCK, CLASS_WE_BLOCK, MAX_INFLIGHT,
};

fn resp(rcode: u16) -> Message {
    let mut m = Message::new(1, MessageType::Response, OP_QUERY);
    m.metadata.response_code = rcode;
    m
}

fn answer(record_type: u16, data: Vec<u8>) -> Record {
    Record {
        name: Name::from_ascii("x.test.").unwrap(),
        record_type,
        class: CLASS_IN,
        ttl: 60,
        data,
    }
}

fn resp_a(ip: [u8; 4]) -> Message {
    let mut m = resp(NO_ERROR);
    m.add_answer(answer(TYPE_A, ip.to_vec()));
    m
}

#[test]
fn adguard_zero_answer_looks_blocked() {
    assert!(looks_blocked(&resp_a([0, 0, 0, 0])));
    assert!(looks_blocked(&resp(NX_DOMAIN)));
    assert!(!looks_blocked(&resp_a([1, 2, 3, 4])));
    // NOERROR with no address records at all: can't call it a block.
    assert!(!looks_blocked(&resp(NO_ERROR)));
    // AAAA :: counts as blocked.
    let mut m = resp(NO_ERROR);
    m.add_answer(answer(TYPE_AAAA, vec![0; 16]));
    assert!(looks_blocked(&m));
}

#[test]
fn both_block_different_style_is_expected() {
    let ours = resp(NX_DOMAIN);
    let theirs = resp_a([0, 0, 0, 0]);
    let (o, t, class) = classify(&ours, true, &theirs).unwrap();
    assert_eq!(class, CLASS_EXPECTED);
    assert!(o.starts_with("blocked/"));
    assert!(t.starts_with("blocky/"));
}

#[test]
fn both_block_same_style_is_no_divergence() {
    let ours = resp(NX_DOMAIN);
    let theirs = resp(NX_DOMAIN);
    assert!(classify(&ours, true, &theirs).is_none());
}

#[test]
fn we_block_they_empty_noerror_is_expected() {
    // AdGuard blocks non-address qtypes (HTTPS/TXT/...) with an empty
    // NOERROR; that is its block style, not a disagreement.
    let ours = resp(NX_DOMAIN);
    let theirs = resp(NO_ERROR);
    let (_, _, class) = classify(&ours, true, &theirs).unwrap();
    assert_eq!(class, CLASS_EXPECTED);
}

#[test]
fn we_block_they_answer() {
    let ours = resp(NX_DOMAIN);
    let theirs = resp_a([93, 184, 216, 34]);
    let (_, _, class) = classify(&ours, true, &theirs).unwrap();
    assert_eq!(class, CLASS_WE_BLOCK);
}

#[test]
fn they_block_we_answer() {
    let ours = resp_a([93, 184, 216, 34]);
    let theirs = resp_a([0, 0, 0, 0]);
    let (_, _, class) = classify(&ours, false, &theirs).unwrap();
    assert_eq!(class, CLASS_THEY_BLOCK);
}

#[test]
fn matching_answers_no_divergence() {
    // Different records, same outcome class: not a divergence.
    let ours = resp_a([1, 1, 1, 1]);
    let theirs = resp_a([2, 2, 2, 2]);
    assert!(classify(&ours, false, &theirs).is_none());
}

#[test]
fn upstream_nxdomain_for_both_no_divergence() {
    // A genuinely nonexistent name: both NXDOMAIN, ours NOT via filter.
    let ours = resp(NX_DOMAIN);
    let theirs = resp(NX_DOMAIN);
    assert!(classify(&ours, false, &theirs).is_none());
}

#[test]
fn rcode_mismatch() {
    let ours = resp(SERV_FAIL);
    let theirs = resp_a([1, 1, 1, 1]);
    let (_, _, class) = classify(&ours, false, &theirs).unwrap();
    assert_eq!(class, CLASS_RCODE);
}

#[test]
fn descriptions_name_the_code() {
    let m = resp_a([0, 0, 0, 0]);
    assert_eq!(describe(&m, true, "CODE"), "blocked/CODE");
    assert_eq!(describe(&m, false, "CODE"), "blocky/CODE");
    assert_eq!(describe(&resp_a([1, 1, 1, 1]), false, "CODE"), "CODE");
    let (ours, theirs, _) = classify(&resp(SERV_FAIL), false, &resp_a([1, 1, 1, 1])).unwrap();
    assert_eq!(ours, "Server Failure");
    assert_eq!(theirs, "No Error");
}

#[test]
fn comparisons_become_log_events() {
    let ours = resp(NX_DOMAIN);
    let theirs = resp_a([1, 1, 1, 1]);
    let Some(LogEvent::Divergence(d)) = compare(&ours, true, &theirs, 7, "x.test".into(), 1) else {
        panic!("expected a divergence");
    };
    assert_eq!((d.ts, d.qname.as_str(), d.qtype), (7, "x.test", 1));
    assert_eq!(d.class, CLASS_WE_BLOCK);
    assert!(compare(&theirs, false, &theirs, 7, "x.test".into(), 1).is_none());
}

#[test]
fn a_mixed_answer_is_no_block() {
    let mut m = resp_a([0, 0, 0, 0]);
    m.add_answer(answer(TYPE_A, vec![1, 2, 3, 4]));
    assert!(!looks_blocked(&m));
    assert_eq!(divergence_class(&m, false, &m), None);
}

#[test]
fn comparisons_in_flight_are_capped() {
    assert!(admits(MAX_INFLIGHT - 1));
    assert!(!admits(MAX_INFLIGHT));
}
