//! The request pipeline with a mock upstream.

use sumidero::cache::{Cache, CacheKey};
use sumidero::db::{LogEvent, QueryRecord, ResponseSource, VerdictKind};
use sumidero::filter::{parse_list, Engine, EngineBuilder};
use sumidero::ip::{parse_ip, Ip, Net};
use sumidero::message::{
    Edns, Message, MessageType, Name, Query, Record, CLASS_IN, FORM_ERR, NO_ERROR, NX_DOMAIN,
    OP_QUERY, REFUSED, SERV_FAIL, TYPE_A, TYPE_AAAA, TYPE_ANY, TYPE_CNAME, TYPE_SOA,
};
use sumidero::safesearch::SafeSearch;
use sumidero::server::handle::{conclude, proceed, resume, Asked, Progress};
use sumidero::server::{
    client_allowed, fit_udp, normalize_qname, plan, resolve_cached, resolve_named, shared_answer,
    synth_block_response, tcp_frame, tcp_length, udp_reply, Flights, Resolution, UdpReply,
    BLOCK_SOA_DATA, BLOCK_SOA_MNAME, BLOCK_SOA_TTL, MAX_IN_FLIGHT_QUERIES,
};
use sumidero::shadow::compare;
use sumidero::upstream::outgoing_query;
use sumidero::wire::{decode, encode};

const TYPE_RRSIG: u16 = 46;
const CLIENT: Ip = Ip::V4(0xc0a8_010a);
const OUTSIDER: Ip = Ip::V4(0x0808_0808);
const START: u64 = 1_000_000_000_000;

fn secs(n: u64) -> u64 {
    n * 1_000_000_000
}

fn ip(text: &str) -> Ip {
    let chars: Vec<char> = text.chars().collect();
    parse_ip(&chars).unwrap()
}

fn net(text: &str) -> Net {
    let (base, prefix) = text.split_once('/').unwrap();
    Net {
        base: ip(base),
        prefix: prefix.parse().unwrap(),
    }
}

fn record(name: &str, record_type: u16, data: Vec<u8>) -> Record {
    Record {
        name: Name::from_ascii(name).unwrap(),
        record_type,
        class: CLASS_IN,
        ttl: 600,
        data,
    }
}

fn query(name: &str, query_type: u16) -> Message {
    let mut msg = Message::new(4242, MessageType::Query, OP_QUERY);
    msg.add_query(Query {
        name: Name::from_ascii(name).unwrap(),
        query_type,
        query_class: CLASS_IN,
    });
    msg.metadata.recursion_desired = true;
    msg
}

fn edns(max_payload: u16, dnssec_ok: bool) -> Edns {
    Edns {
        max_payload,
        version: 0,
        dnssec_ok,
        z: 0,
        options: Vec::new(),
    }
}

/// A query with an OPT, the DO bit as given.
fn edns_query(name: &str, query_type: u16, dnssec_ok: bool) -> Message {
    let mut msg = query(name, query_type);
    msg.edns = Some(edns(4096, dnssec_ok));
    msg
}

fn has_rrsig(msg: &Message) -> bool {
    msg.answers
        .iter()
        .chain(msg.authorities.iter())
        .chain(msg.additionals.iter())
        .any(|r| r.record_type == TYPE_RRSIG)
}

fn engine(rules: &str) -> Engine {
    let parsed = parse_list(rules);
    assert!(parsed.issues.is_empty(), "{:?}", parsed.issues);
    let mut builder = EngineBuilder::new();
    builder.add_list(parsed.rules);
    builder.build()
}

/// A pipeline around an upstream that answers A 1.2.3.4 for anything.
struct Pipeline {
    engine: Engine,
    cache: Cache,
    safe: SafeSearch,
    allow: Vec<Net>,
    in_flight: usize,
    refreshing: Flights,
    due: Vec<Asked>,
    calls: usize,
    fail: bool,
    signed: bool,
    log: Vec<QueryRecord>,
    compared: Vec<Option<bool>>,
    address: Vec<u8>,
}

fn fixture(rules: &str) -> Pipeline {
    Pipeline {
        engine: engine(rules),
        cache: Cache::new(128),
        safe: SafeSearch::new(true, &["google"]).unwrap(),
        allow: vec![net("192.168.0.0/16")],
        in_flight: 0,
        refreshing: Flights::new(),
        due: Vec::new(),
        calls: 0,
        fail: false,
        signed: false,
        log: Vec::new(),
        compared: Vec::new(),
        address: vec![1, 2, 3, 4],
    }
}

impl Pipeline {
    fn upstream(&mut self, request: &Message) -> Option<Message> {
        self.calls += 1;
        if self.fail {
            return None;
        }
        let mut resp = Message::new(request.metadata.id, MessageType::Response, OP_QUERY);
        for q in &request.queries {
            resp.add_query(q.clone());
            resp.add_answer(record(&q.name.text, TYPE_A, self.address.clone()));
            if self.signed {
                resp.add_answer(record(&q.name.text, TYPE_RRSIG, vec![0xde, 0xad, 0xbe, 0xef]));
            }
        }
        if self.signed {
            resp.edns = Some(edns(1232, true));
        }
        Some(resp)
    }

    /// Run the refreshes that stale answers asked for.
    fn refresh(&mut self, now: u64) {
        for asked in std::mem::take(&mut self.due) {
            if let Some(a) = self.upstream(&asked.query) {
                self.cache.insert(asked.key.clone(), &a, now);
            }
            self.refreshing.land(&asked.key);
        }
    }

    fn handle_at(&mut self, request: &Message, client: Ip, now: u64) -> Message {
        let step = plan(
            request,
            client,
            7,
            self.in_flight,
            &self.allow,
            &self.engine,
            &self.safe,
        );
        let answer = match proceed(&mut self.cache, request, step, now) {
            Progress::Ready { answer, refresh } => {
                if let Some(asked) = refresh {
                    if self.refreshing.lead(&asked.key) {
                        self.due.push(asked);
                    }
                }
                answer
            }
            Progress::Ask(pending) => {
                let lookup = self.upstream(&pending.asked.query);
                if let Some(a) = &lookup {
                    self.cache.insert(pending.asked.key.clone(), a, now);
                }
                resume(pending, lookup)
            }
        };
        let answered = conclude(answer, 25);
        self.compared.push(answered.compare);
        self.log.push(answered.log);
        answered.response
    }

    /// Answer a datagram with a datagram.
    fn datagram(&mut self, bytes: &[u8]) -> Vec<u8> {
        let request = decode(bytes).unwrap();
        let response = self.handle_at(&request, CLIENT, START);
        udp_reply(&request, &response).unwrap()
    }
}

#[test]
fn client_allowed_matches_networks() {
    let allow = vec![net("192.168.0.0/16"), net("::1/128")];
    assert!(client_allowed(&allow, CLIENT));
    assert!(client_allowed(&allow, ip("::1")));
    assert!(!client_allowed(&allow, OUTSIDER));
    assert!(!client_allowed(&allow, ip("2001:db8::1")));
}

#[test]
fn block_response_is_nxdomain_with_soa() {
    let req = query("ads.example.com.", TYPE_A);
    let resp = synth_block_response(&req);
    assert_eq!(resp.metadata.id, req.metadata.id);
    assert_eq!(resp.metadata.response_code, NX_DOMAIN);
    assert_eq!(resp.metadata.message_type, MessageType::Response);
    assert_eq!(resp.queries, req.queries);
    assert_eq!(resp.answers.len(), 0);
    let soa = &resp.authorities[0];
    assert_eq!(soa.record_type, TYPE_SOA);
    assert_eq!(soa.ttl, BLOCK_SOA_TTL);
    assert_eq!(soa.data, BLOCK_SOA_DATA);
    // The data starts with the owner's name in wire form.
    let mut wire = Vec::new();
    for label in BLOCK_SOA_MNAME.trim_end_matches('.').split('.') {
        wire.push(label.len() as u8);
        wire.extend(label.bytes());
    }
    wire.push(0);
    assert!(soa.data.starts_with(&wire));
    assert_eq!(soa.name, Name::from_ascii(BLOCK_SOA_MNAME).unwrap());
    assert_eq!(soa.name.wire, wire);
    // Other readers of DNS messages agree that it is an SOA.
    let bytes = encode(&resp).unwrap();
    let read = hickory_proto::op::Message::from_vec(&bytes).unwrap();
    match &read.authorities[0].data {
        hickory_proto::rr::RData::SOA(soa) => {
            assert_eq!(soa.mname.to_ascii(), BLOCK_SOA_MNAME);
            assert_eq!((soa.serial, soa.minimum), (1, 300));
        }
        other => panic!("expected SOA rdata, got {other:?}"),
    }
}

#[test]
fn disallowed_client_refused_and_upstream_untouched() {
    let mut f = fixture("||blocked.test^");
    let resp = f.handle_at(&query("allowed.test.", TYPE_A), OUTSIDER, START);
    assert_eq!(resp.metadata.response_code, REFUSED);
    assert_eq!(f.calls, 0);
}

#[test]
fn disallowed_client_without_a_question_is_refused_too() {
    let mut f = fixture("||blocked.test^");
    let empty = Message::new(9, MessageType::Query, OP_QUERY);
    let resp = f.handle_at(&empty, OUTSIDER, START);
    assert_eq!(resp.metadata.response_code, REFUSED);
    assert_eq!(resp.metadata.id, 9);
    assert_eq!(f.log[0].rcode, REFUSED);
    assert_eq!(f.handle_at(&empty, CLIENT, START).metadata.response_code, FORM_ERR);
}

#[test]
fn answers_carry_the_clients_own_question() {
    let q = query("eXample.COM.", TYPE_A);
    let mut answer = Message::new(1, MessageType::Response, OP_QUERY);
    answer.add_query(query("example.com.", TYPE_AAAA).queries[0].clone());
    answer.add_answer(record("example.com.", TYPE_A, vec![1, 2, 3, 4]));
    answer.add_answer(record("example.com.", TYPE_RRSIG, vec![0; 20]));
    let (resp, _) = shared_answer(&q, Some(answer));
    assert_eq!(resp.queries, q.queries);
    assert_eq!(resp.answers.len(), 1);
    // From the cache as well, whoever asked first.
    let mut f = fixture("");
    f.handle_at(&query("example.com.", TYPE_A), CLIENT, START);
    let resp = f.handle_at(&q, CLIENT, START);
    assert_eq!(f.calls, 1);
    assert_eq!(resp.queries, q.queries);
}

/// A query datagram for a name with these labels.
fn raw_query(labels: &[&[u8]]) -> Vec<u8> {
    let mut bytes = vec![0x10, 0x92, 1, 0, 0, 1, 0, 0, 0, 0, 0, 0];
    for label in labels {
        bytes.push(label.len() as u8);
        bytes.extend(*label);
    }
    bytes.extend([0, 0, 12, 0, 1]);
    bytes
}

#[test]
fn names_beyond_host_names_are_answered() {
    let long = [b'x'; 63];
    for labels in [
        &[&b"1"[..], b"0/25", b"2", b"0", b"192", b"in-addr", b"arpa"][..],
        &[b"-dash", b"test"],
        &[b"My Printer", b"_ipp", b"_tcp", b"local"],
        &[b"dot.in.label", b"test"],
        &[b"quote\"back\\slash", b"test"],
        &[&[0u8, 7, 128, 255][..], b"test"],
        &[&long[..], &long[..], &long[..], &long[..61]],
        &[],
    ] {
        let bytes = raw_query(labels);
        let request = decode(&bytes).unwrap();
        assert_eq!(request.queries[0].name.wire, bytes[12..bytes.len() - 4]);
        for client in [CLIENT, OUTSIDER] {
            let mut f = fixture("");
            let response = f.handle_at(&request, client, START);
            let reply = udp_reply(&request, &response).unwrap();
            assert_eq!(reply[..2], bytes[..2]);
            assert_eq!(reply[12..bytes.len()], bytes[12..], "{labels:?}");
        }
        // Blocked, refused and passed on, the question goes out as it came.
        let blocked = udp_reply(&request, &synth_block_response(&request)).unwrap();
        assert_eq!(blocked[12..bytes.len()], bytes[12..]);
        let outgoing = encode(&outgoing_query(&request)).unwrap();
        assert_eq!(outgoing[12..bytes.len()], bytes[12..]);
    }
}

#[test]
fn any_query_refused() {
    let mut f = fixture("||blocked.test^");
    let resp = f.handle_at(&query("allowed.test.", TYPE_ANY), CLIENT, START);
    assert_eq!(resp.metadata.response_code, REFUSED);
    assert_eq!(f.calls, 0);
}

#[test]
fn blocked_domain_gets_nxdomain_case_insensitive() {
    let mut f = fixture("||blocked.test^");
    for name in ["blocked.test.", "sub.BLOCKED.test."] {
        let resp = f.handle_at(&query(name, TYPE_A), CLIENT, START);
        assert_eq!(resp.metadata.response_code, NX_DOMAIN, "{name}");
        assert_eq!(resp.authorities[0].record_type, TYPE_SOA);
    }
    assert_eq!(f.calls, 0);
}

#[test]
fn excepted_domain_resolves_upstream() {
    let mut f = fixture("||blocked.test^\n@@safe.blocked.test");
    let resp = f.handle_at(&query("safe.blocked.test.", TYPE_A), CLIENT, START);
    assert_eq!(resp.metadata.response_code, NO_ERROR);
    assert_eq!(resp.answers.len(), 1);
    assert_eq!(f.calls, 1);
    assert_eq!(f.log[0].verdict, VerdictKind::Excepted);
}

#[test]
fn allowed_domain_answer_preserves_request_id() {
    let mut f = fixture("||blocked.test^");
    let resp = f.handle_at(&query("allowed.test.", TYPE_A), CLIENT, START);
    assert_eq!(resp.metadata.id, 4242);
    assert_eq!(resp.metadata.response_code, NO_ERROR);
    assert_eq!(resp.answers[0].record_type, TYPE_A);
    assert_eq!(resp.answers[0].data, [1, 2, 3, 4]);
}

#[test]
fn second_query_served_from_cache() {
    let mut f = fixture("||blocked.test^");
    let q = query("cached.test.", TYPE_A);
    let r1 = f.handle_at(&q, CLIENT, START);
    let r2 = f.handle_at(&q, CLIENT, START);
    assert_eq!(r1.metadata.response_code, NO_ERROR);
    assert_eq!(r2.metadata.response_code, NO_ERROR);
    assert_eq!(f.calls, 1, "second hit must come from cache");
}

#[test]
fn upstream_failure_yields_servfail() {
    let mut f = fixture("||blocked.test^");
    f.fail = true;
    let resp = f.handle_at(&query("allowed.test.", TYPE_A), CLIENT, START);
    assert_eq!(resp.metadata.response_code, SERV_FAIL);
}

#[test]
fn blocked_still_blocked_when_upstream_down() {
    let mut f = fixture("||blocked.test^");
    f.fail = true;
    let resp = f.handle_at(&query("blocked.test.", TYPE_A), CLIENT, START);
    assert_eq!(resp.metadata.response_code, NX_DOMAIN);
}

/// The name that a CNAME points to.
fn target_of(r: &Record) -> String {
    assert_eq!(r.record_type, TYPE_CNAME);
    let mut text = String::new();
    let mut i = 0;
    while r.data[i] != 0 {
        let n = r.data[i] as usize;
        text.push_str(std::str::from_utf8(&r.data[i + 1..i + 1 + n]).unwrap());
        text.push('.');
        i += n + 1;
    }
    text
}

#[test]
fn safesearch_answers_cname_plus_target_records() {
    let mut f = fixture("||blocked.test^");
    let resp = f.handle_at(&query("www.google.com.", TYPE_A), CLIENT, START);
    assert_eq!(resp.metadata.response_code, NO_ERROR);
    assert_eq!(target_of(&resp.answers[0]), "forcesafesearch.google.com.");
    assert_eq!(resp.answers[0].name.text, "www.google.com.");
    assert_eq!(resp.answers[0].name.wire, b"\x03www\x06google\x03com\0");
    assert_eq!(resp.answers[0].ttl, 300);
    assert!(
        resp.answers.iter().any(|r| r.record_type == TYPE_A),
        "target address should be appended"
    );
}

#[test]
fn safesearch_failure_keeps_the_cname() {
    let mut f = fixture("");
    f.fail = true;
    let resp = f.handle_at(&query("www.google.com.", TYPE_A), CLIENT, START);
    assert_eq!(resp.metadata.response_code, SERV_FAIL);
    assert_eq!(resp.answers.len(), 1);
    assert_eq!(resp.answers[0].record_type, TYPE_CNAME);
}

#[test]
fn every_query_lands_in_the_log() {
    let mut f = fixture("||blocked.test^");
    f.handle_at(&query("blocked.test.", TYPE_A), CLIENT, START);
    f.handle_at(&query("allowed.test.", TYPE_A), CLIENT, START);
    f.handle_at(&query("x.test.", TYPE_A), OUTSIDER, START);
    assert_eq!(f.log.len(), 3);
    let blocked = f.log.iter().find(|r| r.qname == "blocked.test").unwrap();
    assert_eq!(blocked.verdict, VerdictKind::Blocked);
    assert_eq!(blocked.rule.as_deref(), Some("||blocked.test^"));
    assert_eq!(blocked.list, Some(0));
    assert_eq!((blocked.ts, blocked.rcode, blocked.duration_us), (7, 3, 25));
    let allowed = f.log.iter().find(|r| r.qname == "allowed.test").unwrap();
    assert_eq!(allowed.verdict, VerdictKind::Allowed);
    assert_eq!(allowed.source, ResponseSource::Upstream);
}

#[test]
fn swap_engine_changes_verdicts_without_restart() {
    let mut f = fixture("||blocked.test^");
    let q = query("newly-blocked.test.", TYPE_A);
    let r1 = f.handle_at(&q, CLIENT, START);
    assert_eq!(r1.metadata.response_code, NO_ERROR);
    f.engine = engine("||newly-blocked.test^");
    let r2 = f.handle_at(&q, CLIENT, START);
    assert_eq!(r2.metadata.response_code, NX_DOMAIN);
}

#[test]
fn no_question_gets_formerr_and_is_logged() {
    let mut f = fixture("||blocked.test^");
    let empty = Message::new(9, MessageType::Query, OP_QUERY);
    let resp = f.handle_at(&empty, CLIENT, START);
    assert_eq!(resp.metadata.response_code, FORM_ERR);
    assert_eq!(f.log.len(), 1, "FormErr must be logged too");
    assert_eq!(f.log[0].qname, "");
}

#[test]
fn response_sources_cache_and_failed_land_in_log() {
    let mut f = fixture("||blocked.test^");
    let q = query("cached.test.", TYPE_A);
    f.handle_at(&q, CLIENT, START);
    f.handle_at(&q, CLIENT, START);
    assert!(f.log.iter().any(|r| r.source == ResponseSource::Cache));

    let mut f2 = fixture("||blocked.test^");
    f2.fail = true;
    f2.handle_at(&query("down.test.", TYPE_A), CLIENT, START);
    assert_eq!(f2.log[0].source, ResponseSource::Failed);
    assert_eq!(f2.log[0].rcode, 2, "SERVFAIL rcode");
}

#[test]
fn stale_hit_serves_and_refreshes_once() {
    let mut f = fixture("||blocked.test^");
    let q = query("stale.test.", TYPE_A);
    f.handle_at(&q, CLIENT, START);
    assert_eq!(f.calls, 1);

    // The answer's TTL is 600 s; the stale window is 1800 s.
    let stale = START + secs(650);
    let r = f.handle_at(&q, CLIENT, stale);
    assert_eq!(r.metadata.response_code, NO_ERROR);
    let r2 = f.handle_at(&q, CLIENT, stale);
    assert_eq!(r2.metadata.response_code, NO_ERROR);
    f.refresh(stale);
    assert_eq!(f.calls, 2, "exactly one background refresh for two stale hits");
    assert!(f.log.iter().any(|r| r.source == ResponseSource::Stale));
    let r3 = f.handle_at(&q, CLIENT, stale);
    assert_eq!(r3.answers[0].ttl, 600);
    assert_eq!(f.log.last().unwrap().source, ResponseSource::Cache);
}

#[test]
fn safesearch_youtube_and_aaaa() {
    let mut f = fixture("||blocked.test^");
    f.safe = SafeSearch::new(true, &[]).unwrap();
    for (name, target) in [
        ("m.youtube.com.", "restrictmoderate.youtube.com."),
        ("duckduckgo.com.", "safe.duckduckgo.com."),
    ] {
        let resp = f.handle_at(&query(name, TYPE_AAAA), CLIENT, START);
        assert_eq!(resp.metadata.response_code, NO_ERROR, "{name}");
        assert_eq!(target_of(&resp.answers[0]), target, "{name}");
    }
}

#[test]
fn policy_swap_applies_new_allowlist_and_safesearch() {
    let mut f = fixture("||blocked.test^");
    let r = f.handle_at(&query("a.test.", TYPE_A), OUTSIDER, START);
    assert_eq!(r.metadata.response_code, REFUSED);
    f.safe = SafeSearch::new(false, &[]).unwrap();
    f.allow = vec![net("8.8.8.0/24")];
    let r = f.handle_at(&query("www.google.com.", TYPE_A), OUTSIDER, START);
    assert_eq!(r.metadata.response_code, NO_ERROR);
    assert!(
        r.answers.iter().all(|a| a.record_type != TYPE_CNAME),
        "safe-search disabled after swap"
    );
    let r = f.handle_at(&query("a.test.", TYPE_A), CLIENT, START);
    assert_eq!(r.metadata.response_code, REFUSED);
}

#[test]
fn edns_opt_echoed_when_request_has_edns() {
    let mut f = fixture("||blocked.test^");
    let mut q = query("blocked.test.", TYPE_A);
    q.edns = Some(edns(4096, false));
    let resp = f.handle_at(&q, CLIENT, START);
    assert!(resp.edns.is_some(), "EDNS request must get an OPT back");
    let resp = f.handle_at(&query("blocked.test.", TYPE_A), CLIENT, START);
    assert!(resp.edns.is_none(), "non-EDNS request must not grow an OPT");
}

#[test]
fn rrsig_stripped_when_client_did_not_set_do() {
    let mut f = fixture("");
    f.signed = true;
    let resp = f.handle_at(&edns_query("signed.test.", TYPE_A, false), CLIENT, START);
    assert!(!has_rrsig(&resp), "RRSIG leaked to a client with DO clear");
    assert!(!resp.answers.is_empty(), "the A record must survive");
    let opt = resp.edns.expect("EDNS client still gets an OPT");
    assert!(!opt.dnssec_ok, "response must not claim DO when the client did not ask");
}

#[test]
fn rrsig_kept_when_client_set_do() {
    let mut f = fixture("");
    f.signed = true;
    let resp = f.handle_at(&edns_query("signed.test.", TYPE_A, true), CLIENT, START);
    assert!(has_rrsig(&resp), "a DO client must still get its RRSIGs");
    assert!(resp.edns.unwrap().dnssec_ok);
}

#[test]
fn plain_client_gets_no_opt_even_from_a_signed_upstream_answer() {
    let mut f = fixture("");
    f.signed = true;
    let resp = f.handle_at(&query("signed.test.", TYPE_A), CLIENT, START);
    assert!(resp.edns.is_none(), "plain-DNS client must get no OPT back");
    assert!(!has_rrsig(&resp), "RRSIG leaked to a plain-DNS client");
    assert!(!resp.answers.is_empty(), "the A record must survive");
}

#[test]
fn one_cache_entry_serves_both_do_and_plain_clients() {
    let mut f = fixture("");
    f.signed = true;
    let resp = f.handle_at(&edns_query("shared.test.", TYPE_A, true), CLIENT, START);
    assert!(has_rrsig(&resp));
    assert_eq!(f.calls, 1);
    let resp = f.handle_at(&edns_query("shared.test.", TYPE_A, false), CLIENT, START);
    assert!(!has_rrsig(&resp), "cache hit leaked RRSIG to a DO-clear client");
    assert!(!resp.answers.is_empty());
    assert_eq!(f.calls, 1, "stripping must not cost an extra upstream query");
}

#[test]
fn concurrent_misses_share_one_upstream_lookup() {
    let key = CacheKey::new("example.com.".to_string(), TYPE_A, CLASS_IN);
    let other = CacheKey::new("example.com.".to_string(), TYPE_AAAA, CLASS_IN);
    let mut lookups = Flights::new();
    let leaders = (0..50).filter(|_| lookups.lead(&key)).count();
    assert_eq!(leaders, 1);
    assert!(lookups.lead(&other));
    let answer = || {
        let mut m = Message::new(1, MessageType::Response, OP_QUERY);
        m.add_answer(record("example.com.", TYPE_A, vec![1, 2, 3, 4]));
        Some(m)
    };
    for id in [1, 2, 3] {
        let mut q = query("example.com.", TYPE_A);
        q.metadata.id = id;
        let (resp, source) = shared_answer(&q, answer());
        assert_eq!(resp.metadata.id, id);
        assert_eq!(resp.metadata.response_code, NO_ERROR);
        assert!(!resp.answers.is_empty(), "every waiter must get the answer");
        assert_eq!(source, ResponseSource::Upstream);
    }
}

#[test]
fn concurrent_misses_share_a_failure_too() {
    let (resp, source) = shared_answer(&query("down.example.com.", TYPE_A), None);
    assert_eq!(resp.metadata.response_code, SERV_FAIL);
    assert_eq!(source, ResponseSource::Failed);
}

#[test]
fn leader_panic_does_not_strand_future_queries() {
    let key = CacheKey::new("wedge.example.com.".to_string(), TYPE_A, CLASS_IN);
    let mut lookups = Flights::new();
    assert!(lookups.lead(&key));
    assert!(!lookups.lead(&key));
    // However the leader ends, its key is taken off.
    lookups.land(&key);
    assert!(lookups.lead(&key));
    // Those who waited on a leader that died get SERVFAIL, not silence.
    let (resp, source) = shared_answer(&query("wedge.example.com.", TYPE_A), None);
    assert_eq!(resp.metadata.response_code, SERV_FAIL);
    assert_eq!(resp.metadata.id, 4242);
    assert_eq!(source, ResponseSource::Failed);
}

#[test]
fn admission_cap_sheds_excess_load_with_servfail() {
    let mut f = fixture("||blocked.test^");
    f.in_flight = MAX_IN_FLIGHT_QUERIES - 1;
    let resp = f.handle_at(&query("n0.example.com.", TYPE_A), CLIENT, START);
    assert_eq!(resp.metadata.response_code, NO_ERROR);
    f.in_flight = MAX_IN_FLIGHT_QUERIES;
    for name in ["n1.example.com.", "blocked.test."] {
        let resp = f.handle_at(&query(name, TYPE_A), CLIENT, START);
        assert_eq!(resp.metadata.response_code, SERV_FAIL);
        assert_eq!(f.log.last().unwrap().source, ResponseSource::Failed);
    }
    assert_eq!(f.calls, 1);
}

#[test]
fn name_that_is_none_gets_formerr() {
    let mut cache = Cache::new(4);
    let q = query("x.", TYPE_A);
    let r = resolve_named(&mut cache, None, &q, TYPE_A, START);
    let Resolution::Done { response, source } = r else {
        panic!("expected an answer");
    };
    assert_eq!(response.metadata.response_code, FORM_ERR);
    assert_eq!(source, ResponseSource::Synth);
    let long = "a".repeat(64);
    assert!(matches!(
        resolve_cached(&mut cache, &q, &long, TYPE_A, START),
        Resolution::Done { .. }
    ));
    // Names are compared in one form: without regard to case, escapes resolved.
    let r = resolve_cached(&mut cache, &q, "Ex\\141mple.com", TYPE_A, START);
    let Resolution::Miss { key } = r else {
        panic!("expected a miss");
    };
    let plain = CacheKey::new("example.com.".to_string(), TYPE_A, CLASS_IN);
    assert_eq!(key.text(), plain.text());
}

#[test]
fn query_names_are_normalized() {
    assert_eq!(normalize_qname("Sub.Example.COM."), "sub.example.com");
    assert_eq!(normalize_qname("a.."), "a.");
    assert_eq!(normalize_qname("."), "");
}

#[test]
fn udp_replies_fit_the_client() {
    let mut resp = Message::new(1, MessageType::Response, OP_QUERY);
    for i in 0..60u8 {
        resp.add_answer(record("big.test.", TYPE_A, vec![i, 2, 3, 4]));
    }
    let whole = encode(&resp).unwrap();
    assert!(whole.len() > 512);
    let small = udp_reply(&query("big.test.", TYPE_A), &resp).unwrap();
    assert!(small.len() <= 512);
    let read = decode(&small).unwrap();
    assert!(read.metadata.truncation);
    assert!(read.answers.is_empty());
    let sent = udp_reply(&edns_query("big.test.", TYPE_A, false), &resp).unwrap();
    assert_eq!(sent, whole);
    assert_eq!(fit_udp(Some(vec![0; 513]), 512), UdpReply::Truncate);
    assert_eq!(fit_udp(Some(vec![0; 512]), 512), UdpReply::Send(vec![0; 512]));
    assert_eq!(fit_udp(None, 512), UdpReply::Failed);
}

#[test]
fn tcp_frames_carry_their_length() {
    let body = vec![7u8; 300];
    let frame = tcp_frame(&body).unwrap();
    assert_eq!(&frame[..2], &[1, 44]);
    assert_eq!(&frame[2..], &body[..]);
    assert_eq!(tcp_length(1, 44), 300);
    assert_eq!(tcp_frame(&vec![0; 65536]), None);
    assert_eq!(tcp_frame(&vec![0; 65535]).unwrap().len(), 65537);
}

#[test]
fn udp_end_to_end_blocked_and_allowed() {
    let mut f = fixture("||blocked.test^");
    f.address = vec![9, 9, 9, 9];
    let mut q = query("blocked.test.", TYPE_A);
    q.metadata.id = 7777;
    let resp = decode(&f.datagram(&encode(&q).unwrap())).unwrap();
    assert_eq!(resp.metadata.response_code, NX_DOMAIN);
    assert_eq!(resp.metadata.id, 7777);
    assert_eq!(resp.authorities[0].record_type, TYPE_SOA);

    let q = query("allowed.test.", TYPE_A);
    let resp = decode(&f.datagram(&encode(&q).unwrap())).unwrap();
    assert_eq!(resp.metadata.response_code, NO_ERROR);
    assert_eq!(resp.answers[0].record_type, TYPE_A);
    assert_eq!(resp.answers[0].data, vec![9, 9, 9, 9]);

    assert_eq!(f.log.len(), 2);
    assert_eq!(f.log[0].qname, "blocked.test");
    assert_eq!(f.log[0].verdict, VerdictKind::Blocked);
    assert_eq!(f.log[1].qname, "allowed.test");
    assert_eq!(f.log[1].verdict, VerdictKind::Allowed);
}

#[test]
fn tcp_end_to_end() {
    let mut f = fixture("||blocked.test^");
    let stream = tcp_frame(&encode(&query("blocked.test.", TYPE_A)).unwrap()).unwrap();
    let len = tcp_length(stream[0], stream[1]);
    assert_eq!(stream.len(), 2 + len);
    let request = decode(&stream[2..]).unwrap();
    let response = f.handle_at(&request, CLIENT, START);
    let reply = tcp_frame(&encode(&response).unwrap()).unwrap();
    assert_eq!(tcp_length(reply[0], reply[1]), reply.len() - 2);
    let resp = decode(&reply[2..]).unwrap();
    assert_eq!(resp.metadata.response_code, NX_DOMAIN);
}

#[test]
fn udp_oversized_answer_gets_truncated() {
    // No OPT in the query, so 512 bytes are the limit.
    let request = query("big.test.", TYPE_A);
    let mut resp = Message::new(4242, MessageType::Response, OP_QUERY);
    resp.add_query(request.queries[0].clone());
    for i in 0..60u8 {
        resp.add_answer(record("big.test.", TYPE_A, vec![10, 0, 0, i]));
    }
    let bytes = udp_reply(&request, &resp).unwrap();
    let n = bytes.len();
    assert!(n <= 512, "truncated response must fit 512 bytes, got {n}");
    assert!(
        decode(&bytes).unwrap().metadata.truncation,
        "TC bit must be set"
    );
}

/// A reference that answers 0.0.0.0 for the names it blocks, else 5.6.7.8.
fn reference(request: &Message) -> Message {
    let mut resp = Message::new(request.metadata.id, MessageType::Response, OP_QUERY);
    for q in &request.queries {
        resp.add_query(q.clone());
        let blocked = ["blocked.test", "extra.test"]
            .iter()
            .any(|b| q.name.text.starts_with(b));
        let data = if blocked { vec![0; 4] } else { vec![5, 6, 7, 8] };
        resp.add_answer(record(&q.name.text, TYPE_A, data));
    }
    resp
}

#[test]
fn shadow_records_expected_and_real_divergences() {
    let mut f = fixture("||blocked.test^");
    let mut rows = Vec::new();
    for name in ["blocked.test.", "extra.test.", "plain.test."] {
        let q = query(name, TYPE_A);
        let resp = f.handle_at(&q, CLIENT, START);
        let blocked = f.compared.last().unwrap().expect("compared");
        let qname = f.log.last().unwrap().qname.clone();
        if let Some(LogEvent::Divergence(d)) =
            compare(&resp, blocked, &reference(&q), 7, qname, TYPE_A)
        {
            rows.push(d);
        }
    }
    assert_eq!(rows.len(), 2, "{rows:?}");
    let expected = rows.iter().find(|r| r.qname == "blocked.test").unwrap();
    assert_eq!(expected.class, "expected");
    assert!(expected.ours.starts_with("blocked/"));
    let theirs = rows.iter().find(|r| r.qname == "extra.test").unwrap();
    assert_eq!(theirs.class, "they-block-we-answer");
    assert!(!rows.iter().any(|r| r.qname == "plain.test"));
}

#[test]
fn only_blocked_and_resolved_queries_are_compared() {
    let mut f = fixture("||blocked.test^");
    f.handle_at(&query("blocked.test.", TYPE_A), CLIENT, START);
    f.handle_at(&query("plain.test.", TYPE_A), CLIENT, START);
    f.handle_at(&query("plain.test.", TYPE_A), OUTSIDER, START);
    f.handle_at(&query("plain.test.", TYPE_ANY), CLIENT, START);
    f.handle_at(&query("www.google.com.", TYPE_A), CLIENT, START);
    assert_eq!(f.compared, vec![Some(true), Some(false), None, None, None]);
}
