//! The wire form of messages.

use hickory_proto::op::{Message as DnsMessage, OpCode, ResponseCode};
use hickory_proto::rr::rdata::{A, MX, SOA};
use hickory_proto::rr::{Name as DnsName, RData, Record as DnsRecord, RecordType};
use sumidero::message::{
    Edns, Message, MessageType, Name, Query, Record, CLASS_IN, NX_DOMAIN, OP_QUERY, TYPE_A,
    TYPE_SOA,
};
use sumidero::upstream::outgoing_query;
use sumidero::wire::{assemble, canonical_name_of, decode, disassemble, encode, Parts};

fn record(name: &str, record_type: u16, data: Vec<u8>) -> Record {
    Record {
        name: Name::from_ascii(name).unwrap(),
        record_type,
        class: CLASS_IN,
        ttl: 600,
        data,
    }
}

fn sample() -> Message {
    let mut m = Message::new(0xbeef, MessageType::Response, OP_QUERY);
    m.metadata.recursion_desired = true;
    m.metadata.recursion_available = true;
    m.metadata.authentic_data = true;
    m.metadata.response_code = NX_DOMAIN;
    m.add_query(Query {
        name: Name::from_ascii("www.example.com.").unwrap(),
        query_type: TYPE_A,
        query_class: CLASS_IN,
    });
    m.add_answer(record("www.example.com.", TYPE_A, vec![1, 2, 3, 4]));
    m.add_answer(record("www.example.com.", 65280, vec![9; 20]));
    m.additionals.push(record("ns.example.com.", 28, vec![5; 16]));
    m.edns = Some(Edns {
        max_payload: 1232,
        version: 0,
        dnssec_ok: true,
        z: 0,
        options: Vec::new(),
    });
    m
}

#[test]
fn messages_roundtrip() {
    let m = sample();
    let bytes = encode(&m).unwrap();
    assert_eq!(decode(&bytes).unwrap(), m);
    let plain = Message::new(7, MessageType::Query, OP_QUERY);
    assert_eq!(encode(&plain).unwrap(), [0, 7, 0, 0, 0, 0, 0, 0, 0, 0, 0, 0]);
    assert_eq!(decode(&encode(&plain).unwrap()).unwrap(), plain);
}

#[test]
fn other_readers_agree() {
    let m = sample();
    let read = DnsMessage::from_vec(&encode(&m).unwrap()).unwrap();
    assert_eq!(read.metadata.id, 0xbeef);
    assert_eq!(read.metadata.response_code, ResponseCode::NXDomain);
    assert!(read.metadata.recursion_desired && read.metadata.recursion_available);
    assert!(read.metadata.authentic_data && !read.metadata.checking_disabled);
    assert_eq!(read.metadata.op_code, OpCode::Query);
    assert_eq!(read.queries[0].name.to_ascii(), "www.example.com.");
    assert_eq!(read.answers[0].data, RData::A(A::new(1, 2, 3, 4)));
    assert_eq!(read.answers[0].ttl, 600);
    assert_eq!(read.answers.len(), 2);
    assert_eq!(read.additionals.len(), 1);
    let opt = read.edns.unwrap();
    assert_eq!(opt.max_payload(), 1232);
    assert!(opt.flags().dnssec_ok);
}

#[test]
fn compressed_names_are_written_out() {
    let name = |s: &str| DnsName::from_ascii(s).unwrap();
    let mut m = DnsMessage::response(3, OpCode::Query);
    m.add_answer(DnsRecord::from_rdata(
        name("example.com."),
        60,
        RData::MX(MX::new(10, name("mail.example.com."))),
    ));
    let soa = SOA::new(name("ns.example.com."), name("root.example.com."), 1, 2, 3, 4, 5);
    m.add_authority(DnsRecord::from_rdata(name("example.com."), 60, RData::SOA(soa)));
    let bytes = m.to_vec().unwrap();
    let read = decode(&bytes).unwrap();
    assert_eq!(read.answers[0].name, Name::from_ascii("example.com.").unwrap());
    assert_eq!(read.answers[0].record_type, u16::from(RecordType::MX));
    assert_eq!(read.answers[0].data, b"\0\x0a\x04mail\x07example\x03com\0");
    assert_eq!(read.authorities[0].record_type, TYPE_SOA);
    assert_eq!(
        read.authorities[0].data,
        b"\x02ns\x07example\x03com\0\x04root\x07example\x03com\0\0\0\0\x01\0\0\0\x02\0\0\0\x03\0\0\0\x04\0\0\0\x05"
    );
    // Written again, other readers find the same message.
    let again = DnsMessage::from_vec(&encode(&read).unwrap()).unwrap();
    assert_eq!(again.answers, m.answers);
    assert_eq!(again.authorities, m.authorities);
}

#[test]
fn extended_response_codes_roundtrip() {
    let mut m = sample();
    m.metadata.response_code = 23;
    let bytes = encode(&m).unwrap();
    assert_eq!(bytes[3] & 0x0f, 7);
    assert_eq!(decode(&bytes).unwrap().metadata.response_code, 23);
}

#[test]
fn garbage_is_no_message() {
    assert!(decode(&[]).is_none());
    assert!(decode(&[0; 11]).is_none());
    let mut bytes = encode(&sample()).unwrap();
    bytes.truncate(40);
    assert!(decode(&bytes).is_none());
}

#[test]
fn what_is_no_message_is_not_written() {
    let mut m = sample();
    m.queries[0].name.wire = vec![64; 66];
    assert!(disassemble(&m).is_some());
    assert!(encode(&m).is_none());
    let mut m = sample();
    m.answers[1].data = vec![9; 65536];
    assert!(disassemble(&m).is_none());
    assert!(encode(&m).is_none());
    let mut m = sample();
    m.edns.as_mut().unwrap().options = vec![0; 65536];
    assert!(disassemble(&m).is_none());
}

#[test]
fn a_message_too_long_loses_records_and_says_so() {
    let mut m = sample();
    m.edns = None;
    m.additionals.clear();
    m.answers[1].data = vec![9; 60000];
    m.add_answer(record("www.example.com.", 65280, vec![9; 20000]));
    let bytes = encode(&m).unwrap();
    assert!(bytes.len() <= 65535);
    let read = decode(&bytes).unwrap();
    assert!(read.metadata.truncation);
    assert_eq!(read.answers[..], m.answers[..2]);
}

#[test]
fn names_keep_their_bytes() {
    assert_eq!(Name::from_ascii("a.b.").unwrap().wire, b"\x01a\x01b\0");
    assert_eq!(Name::from_ascii("ex\\141mple.com").unwrap().text, "example.com.");
    assert_eq!(Name::from_ascii("a b.test."), None);
    assert_eq!(Name::from_ascii(&"a".repeat(64)), None);
    // An owner that `from_ascii` would not take is written as it was read.
    let mut m = sample();
    let wire = b"\x040/25\x01-\x03a b\x04arpa\0".to_vec();
    m.answers[0].name.wire = wire.clone();
    let read = decode(&encode(&m).unwrap()).unwrap();
    assert_eq!(read.answers[0].name.wire, wire);
    assert_eq!(Name::from_ascii(&read.answers[0].name.text), None);
    assert_eq!(decode(&encode(&read).unwrap()).unwrap(), read);
}

/// A TSIG record: key `key.`, algorithm `hmac-sha256.`, four bytes of MAC.
const TSIG: [u8; 48] = *b"\x03key\0\0\xfa\0\xff\0\0\0\0\0\x21\x0bhmac-sha256\0\0\0\x01\x02\x03\x04\x01\x2c\0\x04\xaa\xbb\xcc\xdd\x10\x92\0\0\0\0";

#[test]
fn signatures_are_carried() {
    let mut bytes = vec![0x10, 0x92, 1, 0, 0, 1, 0, 0, 0, 0, 0, 1];
    bytes.extend(b"\x01x\x04test\0\0\x01\0\x01");
    bytes.extend(TSIG);
    let m = decode(&bytes).unwrap();
    assert!(m.additionals.is_empty());
    let signature = m.signature.as_ref().unwrap();
    assert_eq!(signature.name.text, "key.");
    assert_eq!((signature.record_type, signature.class), (250, 255));
    assert_eq!(signature.data, TSIG[15..]);
    assert_eq!(encode(&m).unwrap(), bytes);
    assert_eq!(disassemble(&m).unwrap().signature, [TSIG.to_vec()]);
    let read = DnsMessage::from_vec(&encode(&m).unwrap()).unwrap();
    assert!(read.signature.is_some());
    // It goes on to the upstream, comes last, and does not survive truncation.
    assert_eq!(outgoing_query(&m).signature, m.signature);
    let mut with_opt = m.clone();
    with_opt.edns = sample().edns;
    let written = encode(&with_opt).unwrap();
    assert!(written.ends_with(&TSIG));
    assert_eq!(decode(&written).unwrap(), with_opt);
    assert_eq!(m.truncate().signature, None);
}

#[test]
fn parts_make_a_message() {
    let m = sample();
    let header = encode(&m).unwrap();
    let parts = disassemble(&m).unwrap();
    assert_eq!(parts.queries[0], b"\x03www\x07example\x03com\0\0\x01\0\x01");
    assert_eq!(
        parts.answers[0],
        b"\x03www\x07example\x03com\0\0\x01\0\x01\0\0\x02\x58\0\x04\x01\x02\x03\x04"
    );
    assert_eq!(parts.opt[0], b"\0\0\x29\x04\xd0\0\0\x80\0\0\0");
    assert_eq!(assemble(&header, &parts).unwrap(), m);
    let broken = Parts {
        queries: vec![b"\x03www\0\0\x01".to_vec()],
        answers: Vec::new(),
        authorities: Vec::new(),
        additionals: Vec::new(),
        opt: Vec::new(),
        signature: Vec::new(),
    };
    assert!(assemble(&header, &broken).is_none());
}

#[test]
fn canonical_names() {
    assert_eq!(canonical_name_of("Example.com.").unwrap(), "example.com.");
    assert_eq!(canonical_name_of("ex\\141mple.com").unwrap(), "example.com.");
    assert_eq!(canonical_name_of("."), Some(".".to_string()));
    assert_eq!(canonical_name_of(&"a".repeat(64)), None);
    assert_eq!(canonical_name_of("a..b"), None);
}

#[test]
fn dnssec_records_are_stripped_unless_asked_for() {
    let mut m = sample();
    m.add_answer(record("www.example.com.", 46, vec![0; 4]));
    m.add_authority(record("example.com.", 47, vec![0; 4]));
    let kept = m.clone().maybe_strip_dnssec_records(true);
    assert_eq!(kept, m);
    let plain = m.clone().maybe_strip_dnssec_records(false);
    assert_eq!(plain.answers.len(), 2);
    assert!(plain.authorities.is_empty());
    // What the question asks for stays.
    m.queries[0].query_type = 46;
    assert_eq!(m.maybe_strip_dnssec_records(false).answers.len(), 3);
}

#[test]
fn truncation_keeps_question_and_opt() {
    let m = sample();
    let t = m.truncate();
    assert!(t.metadata.truncation);
    assert_eq!(t.queries, m.queries);
    assert_eq!(t.edns, m.edns);
    assert!(t.answers.is_empty() && t.authorities.is_empty() && t.additionals.is_empty());
}

#[test]
fn payload_limits() {
    let mut m = sample();
    assert_eq!(m.max_payload(), 1232);
    m.edns.as_mut().unwrap().max_payload = 100;
    assert_eq!(m.max_payload(), 512);
    m.edns = None;
    assert_eq!(m.max_payload(), 512);
}
