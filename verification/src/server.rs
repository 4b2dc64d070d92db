//! The request pipeline.
//!
//! Per request:
//! 1. Admission: past the cap on queries in flight, SERVFAIL at once.
//! 2. Client allowlist: any other source address gets REFUSED, whatever it
//!    sent.
//! 3. A request without a question gets FORMERR, an `ANY` query REFUSED.
//! 4. Filter: blocked names get NXDOMAIN and a synthetic SOA.
//! 5. Safe-search rewrite: a CNAME to the enforced endpoint plus the
//!    endpoint's records.
//! 6. Cache: a fresh hit answers; a stale hit answers and asks for a refresh.
//! 7. Upstream: answers are cached and logged. Total failure is SERVFAIL,
//!    never a silently dropped query.
//!
//! The functions here decide; who calls them does the waiting, and hands back
//! what came of it.
pub mod answers;
pub mod handle;
pub mod laws;

use vstd::hash_set::StringHashSet;
use vstd::prelude::*;

use crate::cache::{after_lookup, key_text, looked_up, Cache, CacheKey, CacheV, KeyV, Lookup};
use crate::cache::LookupV;
use crate::db::{QueryRecord, QueryV as LogV, ResponseSource, VerdictKind};
use crate::filter::engine::{verdict_holds, Engine};
use crate::filter::parse::normalized;
use crate::filter::Verdict;
use crate::ip::{Ip, Net};
use crate::message::{copy_queries, copy_records, records_of, Edns, EdnsV, Message, MessageType};
use crate::message::{MessageV, Metadata, Name, NameV, Query, QueryV, Record, RecordV, CLASS_IN};
use crate::message::{FORM_ERR, NO_ERROR, NX_DOMAIN, OP_QUERY, REFUSED, SERV_FAIL, TYPE_ANY};
use crate::message::{TYPE_CNAME, TYPE_SOA};
use crate::safesearch::{rewritten, SafeSearch};
use crate::text::{chars_of, lower, lowered, opt_text, string_of, without_dot};
use crate::wire::{be16, canonical_name, canonical_name_of, encode, encoded, named, opt_name};

verus! {

/// Queries handled at once; the rest is shed with SERVFAIL.
pub const MAX_IN_FLIGHT_QUERIES: usize = 512;

/// Owner of the synthetic SOA in blocked answers.
pub const BLOCK_SOA_MNAME: &'static str = "sumidero.invalid.";

/// Its wire form.
pub const BLOCK_SOA_MNAME_WIRE: [u8; 18] = [
    8, 115, 117, 109, 105, 100, 101, 114, 111, 7, 105, 110, 118, 97, 108, 105, 100, 0,
];

pub const BLOCK_SOA_TTL: u32 = 300;

/// The synthetic SOA's data: `sumidero.invalid.`, `nobody.sumidero.invalid.`,
/// serial 1, refresh 3600, retry 900, expire 604800, minimum 300.
pub const BLOCK_SOA_DATA: [u8; 63] = [
    8, 115, 117, 109, 105, 100, 101, 114, 111, 7, 105, 110, 118, 97, 108, 105, 100, 0, 6, 110, 111,
    98, 111, 100, 121, 8, 115, 117, 109, 105, 100, 101, 114, 111, 7, 105, 110, 118, 97, 108, 105,
    100, 0, 0, 0, 0, 1, 0, 0, 14, 16, 0, 0, 3, 132, 0, 9, 58, 128, 0, 0, 1, 44,
];

/// Time to live of a synthesized safe-search CNAME.
pub const SAFESEARCH_CNAME_TTL: u32 = 300;

/// Payload size advertised where the response has no OPT of its own.
pub const OWN_MAX_PAYLOAD: u16 = 1232;

/// Some network covers the client.
pub open spec fn allowed(allow: Seq<Net>, client: Ip) -> bool {
    exists|i: int| 0 <= i < allow.len() && (#[trigger] allow[i]).covers(client)
}

/// Is this client allowed to query?
#[must_use]
pub fn client_allowed(allow: &[Net], client: Ip) -> (r: bool)
    ensures
        r == allowed(allow@, client),
{
    let n: usize = allow.len();
    for i in 0..n
        invariant
            n == allow@.len(),
            forall|j: int| 0 <= j < i ==> !(#[trigger] allow@[j]).covers(client),
    {
        if allow[i].contains(&client) {
            assert(allow@[i as int].covers(client));
            return true;
        }
    }
    false
}

/// The OPT of a response: none for a client that sent none; otherwise what the
/// response had, or our own, with the client's DO bit.
pub open spec fn response_edns(resp: Option<EdnsV>, request: MessageV) -> Option<EdnsV> {
    if request.edns is None {
        None
    } else {
        let base = match resp {
            Some(e) => e,
            None => EdnsV {
                max_payload: OWN_MAX_PAYLOAD,
                version: 0,
                dnssec_ok: false,
                z: 0,
                options: seq![],
            },
        };
        Some(EdnsV { dnssec_ok: request.wants_dnssec(), ..base })
    }
}

fn client_wants_dnssec(request: &Message) -> (r: bool)
    ensures
        r == request@.wants_dnssec(),
{
    match &request.edns {
        Some(e) => e.dnssec_ok,
        None => false,
    }
}

fn apply_edns(resp: &mut Message, request: &Message)
    ensures
        final(resp)@ == (MessageV {
            edns: response_edns(old(resp)@.edns, request@),
            ..old(resp)@
        }),
{
    if request.edns.is_none() {
        resp.edns = None;
        return ;
    }
    let wants = client_wants_dnssec(request);
    let next = match &resp.edns {
        Some(e) => Edns {
            max_payload: e.max_payload,
            version: e.version,
            dnssec_ok: wants,
            z: e.z,
            options: e.options.clone(),
        },
        None => Edns {
            max_payload: OWN_MAX_PAYLOAD,
            version: 0,
            dnssec_ok: wants,
            z: 0,
            options: Vec::new(),
        },
    };
    proof {
        let want = response_edns(resp@.edns, request@)->0;
        assert(next@ =~= want);
    }
    resp.edns = Some(next);
}

/// The start of every response: same id, question copied, RD echoed, RA set.
pub open spec fn skeleton(request: MessageV, response_code: u16) -> MessageV {
    MessageV {
        queries: request.queries,
        edns: response_edns(None, request),
        ..MessageV::bare(
            Metadata {
                recursion_desired: request.metadata.recursion_desired,
                recursion_available: true,
                response_code,
                ..Metadata::fresh(request.metadata.id, MessageType::Response, OP_QUERY)
            },
        )
    }
}

fn response_skeleton(request: &Message, response_code: u16) -> (r: Message)
    ensures
        r@ == skeleton(request@, response_code),
{
    let mut resp = Message::new(request.metadata.id, MessageType::Response, OP_QUERY);
    resp.queries = copy_queries(&request.queries);
    resp.metadata.recursion_desired = request.metadata.recursion_desired;
    resp.metadata.recursion_available = true;
    resp.metadata.response_code = response_code;
    apply_edns(&mut resp, request);
    assert(resp@ =~= skeleton(request@, response_code));
    resp
}

/// The synthetic SOA.
pub open spec fn block_soa() -> RecordV {
    RecordV {
        name: NameV { wire: BLOCK_SOA_MNAME_WIRE@, text: BLOCK_SOA_MNAME@ },
        record_type: TYPE_SOA,
        class: CLASS_IN,
        ttl: BLOCK_SOA_TTL,
        data: BLOCK_SOA_DATA@,
    }
}

/// The answer to a blocked query.
pub open spec fn block_response(request: MessageV) -> MessageV {
    MessageV { authorities: seq![block_soa()], ..skeleton(request, NX_DOMAIN) }
}

fn copy_bytes(b: &[u8]) -> (r: Vec<u8>)
    ensures
        r@ == b@,
{
    let mut out: Vec<u8> = Vec::new();
    let n: usize = b.len();
    for i in 0..n
        invariant
            n == b@.len(),
            out@ == b@.take(i as int),
    {
        out.push(b[i]);
        assert(b@.take(i + 1) == b@.take(i as int).push(b@[i as int]));
    }
    assert(b@.take(n as int) == b@);
    out
}

/// NXDOMAIN with a synthetic SOA in authority.
#[must_use]
pub fn synth_block_response(request: &Message) -> (r: Message)
    ensures
        r@ == block_response(request@),
{
    let mut resp = response_skeleton(request, NX_DOMAIN);
    let wire = copy_bytes(&BLOCK_SOA_MNAME_WIRE);
    let data = copy_bytes(&BLOCK_SOA_DATA);
    resp.add_authority(
        Record {
            name: Name { wire, text: BLOCK_SOA_MNAME.to_string() },
            record_type: TYPE_SOA,
            class: CLASS_IN,
            ttl: BLOCK_SOA_TTL,
            data,
        },
    );
    assert(resp@ =~= block_response(request@));
    resp
}

/// REFUSED.
#[must_use]
pub fn synth_refused(request: &Message) -> (r: Message)
    ensures
        r@ == skeleton(request@, REFUSED),
{
    response_skeleton(request, REFUSED)
}

/// SERVFAIL.
#[must_use]
pub fn synth_servfail(request: &Message) -> (r: Message)
    ensures
        r@ == skeleton(request@, SERV_FAIL),
{
    response_skeleton(request, SERV_FAIL)
}

/// Lowercase, strip one trailing dot.
pub fn normalize_qname(name: &str) -> (r: String)
    ensures
        r@ == normalized(name@),
{
    let cs = chars_of(name);
    let low = lowered(cs.as_slice());
    string_of(without_dot(low.as_slice()))
}

/// A cached or upstream message as the answer to a request: its id, question
/// and flags, without DNSSEC records that the client did not ask for, and with
/// the OPT the client expects.
pub open spec fn restamped(msg: MessageV, request: MessageV) -> MessageV {
    let m = MessageV {
        metadata: Metadata {
            id: request.metadata.id,
            message_type: MessageType::Response,
            recursion_desired: request.metadata.recursion_desired,
            recursion_available: true,
            ..msg.metadata
        },
        queries: request.queries,
        ..msg
    };
    let plain = m.without_dnssec(request.wants_dnssec());
    MessageV { edns: response_edns(plain.edns, request), ..plain }
}

pub fn restamp(msg: Message, request: &Message) -> (r: Message)
    ensures
        r@ == restamped(msg@, request@),
{
    let mut msg = msg;
    let ghost start = msg@;
    msg.metadata.id = request.metadata.id;
    msg.metadata.message_type = MessageType::Response;
    msg.metadata.recursion_desired = request.metadata.recursion_desired;
    msg.metadata.recursion_available = true;
    msg.queries = copy_queries(&request.queries);
    let mut plain = msg.maybe_strip_dnssec_records(client_wants_dnssec(request));
    apply_edns(&mut plain, request);
    plain
}

/// The log record of a request before it is answered.
pub open spec fn log_start(ts: i64, client: Ip, request: MessageV, source: ResponseSource) -> LogV {
    LogV {
        ts,
        client,
        qname: if request.queries.len() > 0 {
            normalized(request.queries[0].name.text)
        } else {
            seq![]
        },
        qtype: if request.queries.len() > 0 {
            request.queries[0].query_type
        } else {
            0
        },
        verdict: VerdictKind::Allowed,
        rule: None,
        list: None,
        source,
        rcode: 0,
        duration_us: 0,
    }
}

fn start_log(ts: i64, client: Ip, request: &Message, source: ResponseSource) -> (r: QueryRecord)
    ensures
        r@ == log_start(ts, client, request@, source),
{
    let (qname, qtype): (String, u16) = if request.queries.len() > 0 {
        assert(request@.queries[0] == request.queries@[0]@);
        (normalize_qname(request.queries[0].name.text.as_str()), request.queries[0].query_type)
    } else {
        (String::new(), 0)
    };
    let r = QueryRecord {
        ts,
        client,
        qname,
        qtype,
        verdict: VerdictKind::Allowed,
        rule: None,
        list: None,
        source,
        rcode: 0,
        duration_us: 0,
    };
    assert(r@ =~= log_start(ts, client, request@, source));
    r
}

/// A log record with the response code and the duration stamped in.
pub open spec fn logged(log: LogV, response: MessageV, elapsed_us: u128) -> LogV {
    LogV {
        rcode: response.metadata.response_code,
        duration_us: if elapsed_us <= u32::MAX {
            elapsed_us as u32
        } else {
            u32::MAX
        },
        ..log
    }
}

/// Stamp the response code and the duration into a log record.
pub fn finish(log: QueryRecord, response: &Message, elapsed_us: u128) -> (r: QueryRecord)
    ensures
        r@ == logged(log@, response@, elapsed_us),
{
    QueryRecord {
        rcode: response.metadata.response_code,
        duration_us: if elapsed_us <= 0xffff_ffff {
            elapsed_us as u32
        } else {
            u32::MAX
        },
        ..log
    }
}

/// What to do with a request.
pub enum Step {
    /// Answer with this. `blocked` tells whether the filter did it, which
    /// shadow mode compares.
    Reply { response: Message, log: QueryRecord, blocked: bool },
    /// Answer with the safe-search endpoint.
    SafeSearch { log: QueryRecord, target: &'static str },
    /// Answer from the cache or an upstream.
    Resolve { log: QueryRecord },
}

/// A reply that neither filter nor resolver had a part in.
pub open spec fn replies(s: Step, response: MessageV, log: LogV) -> bool {
    s matches Step::Reply { response: r, log: l, blocked } && r@ == response && l@ == log
        && !blocked
}

/// The log record with the filter's verdict in it.
pub open spec fn with_verdict(log: LogV, v: Verdict<'_>) -> LogV {
    match v {
        Verdict::NoMatch => log,
        Verdict::Block { list, rule } => LogV {
            verdict: VerdictKind::Blocked,
            rule: Some(rule.text@),
            list: Some(list),
            ..log
        },
        Verdict::Except { list, rule } => LogV {
            verdict: VerdictKind::Excepted,
            rule: Some(rule.text@),
            list: Some(list),
            ..log
        },
    }
}

/// What the filter's verdict and the safe-search table make of a request.
pub open spec fn filtered_step(
    request: MessageV,
    log: LogV,
    v: Verdict<'_>,
    target: Option<Seq<char>>,
    s: Step,
) -> bool {
    if v is Block {
        s matches Step::Reply { response, log: l, blocked } && response@ == block_response(request)
            && l@ == with_verdict(log, v) && blocked
    } else {
        match target {
            Some(t) => s matches Step::SafeSearch { log: l, target: u } && l@ == with_verdict(
                log,
                v,
            ) && u@ == t,
            None => s matches Step::Resolve { log: l } && l@ == with_verdict(log, v),
        }
    }
}

/// What the pipeline does with a request, given how many are in flight before
/// it.
pub open spec fn planned(
    request: MessageV,
    client: Ip,
    ts: i64,
    in_flight: nat,
    allow: Seq<Net>,
    engine: Engine,
    safe: SafeSearch,
    s: Step,
) -> bool {
    let log = log_start(ts, client, request, ResponseSource::Synth);
    if in_flight >= MAX_IN_FLIGHT_QUERIES {
        replies(
            s,
            skeleton(request, SERV_FAIL),
            log_start(ts, client, request, ResponseSource::Failed),
        )
    } else if !allowed(allow, client) {
        replies(s, skeleton(request, REFUSED), log)
    } else if request.queries.len() == 0 {
        replies(s, skeleton(request, FORM_ERR), log)
    } else if request.queries[0].query_type == TYPE_ANY {
        replies(s, skeleton(request, REFUSED), log)
    } else {
        exists|v: Verdict<'_>| #[trigger]
            verdict_holds(engine@.rules, log.qname, v) && filtered_step(
                request,
                log,
                v,
                rewritten(safe@, log.qname),
                s,
            )
    }
}

/// Decide what to do with a request.
pub fn plan(
    request: &Message,
    client: Ip,
    ts: i64,
    in_flight: usize,
    allow: &[Net],
    engine: &Engine,
    safe: &SafeSearch,
) -> (s: Step)
    requires
        engine.wf(),
    ensures
        planned(request@, client, ts, in_flight as nat, allow@, *engine, *safe, s),
{
    if in_flight >= MAX_IN_FLIGHT_QUERIES {
        return Step::Reply {
            response: synth_servfail(request),
            log: start_log(ts, client, request, ResponseSource::Failed),
            blocked: false,
        };
    }
    let mut log = start_log(ts, client, request, ResponseSource::Synth);
    let ghost start = log@;
    if !client_allowed(allow, client) {
        return Step::Reply { response: synth_refused(request), log, blocked: false };
    }
    if request.queries.len() == 0 {
        return Step::Reply {
            response: response_skeleton(request, FORM_ERR),
            log,
            blocked: false,
        };
    }
    assert(request@.queries[0] == request.queries@[0]@);
    if request.queries[0].query_type == TYPE_ANY {
        return Step::Reply { response: synth_refused(request), log, blocked: false };
    }
    let verdict = engine.verdict(log.qname.as_str());
    match verdict {
        Verdict::Block { list, rule } => {
            let text = rule.text.to_string();
            log.verdict = VerdictKind::Blocked;
            log.rule = Some(text);
            log.list = Some(list);
            let s = Step::Reply { response: synth_block_response(request), log, blocked: true };
            assert(log@ =~= with_verdict(start, verdict));
            assert(verdict_holds(engine@.rules, start.qname, verdict) && filtered_step(
                request@,
                start,
                verdict,
                rewritten(safe@, start.qname),
                s,
            ));
            return s;
        },
        Verdict::Except { list, rule } => {
            let text = rule.text.to_string();
            log.verdict = VerdictKind::Excepted;
            log.rule = Some(text);
            log.list = Some(list);
        },
        Verdict::NoMatch => {},
    }
    assert(log@ =~= with_verdict(start, verdict));
    let target = safe.rewrite(log.qname.as_str());
    let s = match target {
        Some(target) => Step::SafeSearch { log, target },
        None => Step::Resolve { log },
    };
    assert(verdict_holds(engine@.rules, start.qname, verdict) && filtered_step(
        request@,
        start,
        verdict,
        rewritten(safe@, start.qname),
        s,
    ));
    s
}

/// What the cache had for a request.
pub enum Resolution {
    /// The answer.
    Done { response: Message, source: ResponseSource },
    /// A stale answer; the key wants refreshing.
    Stale { response: Message, key: CacheKey },
    /// Nothing; an upstream must be asked.
    Miss { key: CacheKey },
}

/// The class of the first question, IN when there is none.
pub open spec fn question_class(request: MessageV) -> u16 {
    if request.queries.len() > 0 {
        request.queries[0].query_class
    } else {
        CLASS_IN
    }
}

/// What a lookup makes of a request for a name that was understood or not.
pub open spec fn resolved_from_cache(
    name: Option<Seq<char>>,
    request: MessageV,
    qtype: u16,
    found: LookupV,
    r: Resolution,
) -> bool {
    match name {
        None => r matches Resolution::Done { response, source } && response@ == skeleton(
            request,
            FORM_ERR,
        ) && source == ResponseSource::Synth,
        Some(n) => {
            let k = cache_key(n, request, qtype);
            match found {
                LookupV::Fresh(m) => r matches Resolution::Done { response, source } && response@
                    == restamped(m, request) && source == ResponseSource::Cache,
                LookupV::Stale(m) => r matches Resolution::Stale { response, key } && response@
                    == restamped(m, request) && key@ == k,
                LookupV::Miss => r matches Resolution::Miss { key } && key@ == k,
            }
        },
    }
}

/// The key a request is cached under.
pub open spec fn cache_key(name: Seq<char>, request: MessageV, qtype: u16) -> KeyV {
    KeyV { name: lower(name), rtype: qtype, class: question_class(request) }
}

/// Looking a request up: what it gives, and what it does to the cache. A name
/// that was not understood leaves the cache alone.
pub open spec fn cache_resolved(
    before: CacheV,
    after: CacheV,
    name: Option<Seq<char>>,
    request: MessageV,
    qtype: u16,
    now: u64,
    r: Resolution,
) -> bool {
    match name {
        Some(n) => {
            let k = cache_key(n, request, qtype);
            &&& after == after_lookup(before, k, now)
            &&& resolved_from_cache(name, request, qtype, looked_up(before, k, now), r)
        },
        None => after == before && resolved_from_cache(None, request, qtype, LookupV::Miss, r),
    }
}

/// Look a request up under a name, `None` where the query name is no DNS name.
pub fn resolve_named(
    cache: &mut Cache,
    name: Option<String>,
    request: &Message,
    qtype: u16,
    now: u64,
) -> (r: Resolution)
    requires
        old(cache).wf(),
    ensures
        final(cache).wf(),
        cache_resolved(old(cache)@, final(cache)@, opt_text(name), request@, qtype, now, r),
{
    let name = match name {
        Some(n) => n,
        None => {
            return Resolution::Done {
                response: response_skeleton(request, FORM_ERR),
                source: ResponseSource::Synth,
            };
        },
    };
    let class: u16 = if request.queries.len() > 0 {
        assert(request@.queries[0] == request.queries@[0]@);
        request.queries[0].query_class
    } else {
        CLASS_IN
    };
    let key = CacheKey::new(name, qtype, class);
    match cache.get(&key, now) {
        Lookup::Fresh(cached) => Resolution::Done {
            response: restamp(cached, request),
            source: ResponseSource::Cache,
        },
        Lookup::Stale(cached) => Resolution::Stale { response: restamp(cached, request), key },
        Lookup::Miss => Resolution::Miss { key },
    }
}

/// Cache lookup for a request; names are compared in the form hickory gives
/// them.
pub fn resolve_cached(
    cache: &mut Cache,
    request: &Message,
    qname: &str,
    qtype: u16,
    now: u64,
) -> (r: Resolution)
    requires
        old(cache).wf(),
    ensures
        final(cache).wf(),
        cache_resolved(
            old(cache)@,
            final(cache)@,
            canonical_name(qname@),
            request@,
            qtype,
            now,
            r,
        ),
{
    let name = canonical_name_of(qname);
    resolve_named(cache, name, request, qtype, now)
}

/// The model of an optional message.
pub open spec fn opt_message(m: Option<Message>) -> Option<MessageV> {
    match m {
        Some(m) => Some(m@),
        None => None,
    }
}

/// The answer to a request whose upstream lookup came back.
pub open spec fn lookup_answer(request: MessageV, answer: Option<MessageV>) -> MessageV {
    match answer {
        Some(a) => restamped(a, request),
        None => skeleton(request, SERV_FAIL),
    }
}

/// Where that answer came from.
pub open spec fn lookup_source(answer: Option<MessageV>) -> ResponseSource {
    if answer is Some {
        ResponseSource::Upstream
    } else {
        ResponseSource::Failed
    }
}

/// The answer to a request whose upstream lookup came back; `None` where every
/// upstream failed or the lookup died.
pub fn shared_answer(request: &Message, answer: Option<Message>) -> (r: (
    Message,
    ResponseSource,
))
    ensures
        r.0@ == lookup_answer(request@, opt_message(answer)),
        r.1 == lookup_source(opt_message(answer)),
{
    match answer {
        Some(a) => (restamp(a, request), ResponseSource::Upstream),
        None => (synth_servfail(request), ResponseSource::Failed),
    }
}

/// Keys something is under way for: an upstream lookup that concurrent misses
/// share, or a refresh of a stale entry. At most one runs per key.
pub struct Flights {
    keys: StringHashSet,
}

impl View for Flights {
    type V = Set<Seq<char>>;

    closed spec fn view(&self) -> Set<Seq<char>> {
        self.keys@
    }
}

/// Whether a query for a key leads, given the keys under way.
pub open spec fn leads(under_way: Set<Seq<char>>, key: KeyV) -> bool {
    !under_way.contains(key_text(key))
}

/// The keys under way once a query for a key is.
pub open spec fn led(under_way: Set<Seq<char>>, key: KeyV) -> Set<Seq<char>> {
    under_way.insert(key_text(key))
}

/// The keys under way once the lookup for a key is over.
pub open spec fn landed(under_way: Set<Seq<char>>, key: KeyV) -> Set<Seq<char>> {
    under_way.remove(key_text(key))
}

impl Flights {
    pub fn new() -> (r: Flights)
        ensures
            r@ == Set::<Seq<char>>::empty(),
    {
        Flights { keys: StringHashSet::new() }
    }

    /// Try to take the lead for a key: true for the first, false while one is
    /// under way.
    pub fn lead(&mut self, key: &CacheKey) -> (r: bool)
        ensures
            r == leads(old(self)@, key@),
            final(self)@ == led(old(self)@, key@),
            r == !old(self)@.contains(key_text(key@)),
            final(self)@ == old(self)@.insert(key_text(key@)),
    {
        self.keys.insert(key.text())
    }

    /// The key's lookup is over, however it ended.
    pub fn land(&mut self, key: &CacheKey)
        ensures
            final(self)@ == landed(old(self)@, key@),
            final(self)@ == old(self)@.remove(key_text(key@)),
    {
        self.keys.remove(key.text().as_str());
    }
}

/// A name with a trailing dot.
pub open spec fn dotted(s: Seq<char>) -> Seq<char> {
    s.push('.')
}

fn with_dot(s: &str) -> (r: String)
    ensures
        r@ == dotted(s@),
{
    let mut out = s.to_string();
    out.push('.');
    out
}

/// The CNAME a safe-search answer starts with.
pub open spec fn safesearch_cname(qname: NameV, target: NameV) -> RecordV {
    RecordV {
        name: qname,
        record_type: TYPE_CNAME,
        class: CLASS_IN,
        ttl: SAFESEARCH_CNAME_TTL,
        data: target.wire,
    }
}

/// The query for the endpoint's own records.
pub open spec fn target_query(request: MessageV, target: NameV, qtype: u16) -> MessageV {
    MessageV {
        queries: seq![QueryV { name: target, query_type: qtype, query_class: CLASS_IN }],
        ..MessageV::bare(
            Metadata {
                recursion_desired: true,
                ..Metadata::fresh(request.metadata.id, MessageType::Query, OP_QUERY)
            },
        )
    }
}

/// A safe-search answer under way: the response so far, and the query for the
/// endpoint unless a name was none.
pub struct SafeAnswer {
    pub response: Message,
    pub target_query: Option<Message>,
}

/// A safe-search answer at its start, given both names: the CNAME, with the
/// endpoint's records still to come; SERVFAIL where one of them is no name.
pub open spec fn safe_started(
    request: MessageV,
    qtype: u16,
    qname: Option<NameV>,
    target: Option<NameV>,
    r: SafeAnswer,
) -> bool {
    match (qname, target) {
        (Some(q), Some(t)) => {
            &&& r.response@ == (MessageV {
                answers: seq![safesearch_cname(q, t)],
                ..skeleton(request, NO_ERROR)
            })
            &&& r.target_query is Some
            &&& r.target_query->0@ == target_query(request, t, qtype)
        },
        _ => r.response@ == skeleton(request, SERV_FAIL) && r.target_query is None,
    }
}

/// Start a safe-search answer from both names.
pub fn start_safesearch(
    request: &Message,
    qtype: u16,
    qname: Option<Name>,
    target: Option<Name>,
) -> (r: SafeAnswer)
    ensures
        safe_started(request@, qtype, opt_name(qname), opt_name(target), r),
{
    match (qname, target) {
        (Some(qname), Some(target)) => {
            let mut response = response_skeleton(request, NO_ERROR);
            response.add_answer(
                Record {
                    name: qname,
                    record_type: TYPE_CNAME,
                    class: CLASS_IN,
                    ttl: SAFESEARCH_CNAME_TTL,
                    data: target.wire.clone(),
                },
            );
            let mut query = Message::new(request.metadata.id, MessageType::Query, OP_QUERY);
            query.add_query(Query { name: target, query_type: qtype, query_class: CLASS_IN });
            query.metadata.recursion_desired = true;
            proof {
                let cname = safesearch_cname(qname@, target@);
                assert(response@.answers =~= seq![cname]);
                assert(response@ =~= (MessageV {
                    answers: seq![cname],
                    ..skeleton(request@, NO_ERROR)
                }));
                assert(query@ =~= target_query(request@, target@, qtype));
            }
            SafeAnswer { response, target_query: Some(query) }
        },
        _ => SafeAnswer { response: synth_servfail(request), target_query: None },
    }
}

/// Start a safe-search answer.
pub fn answer_safesearch(request: &Message, qname: &str, qtype: u16, target: &str) -> (r: SafeAnswer)
    ensures
        safe_started(request@, qtype, named(dotted(qname@)), named(dotted(target@)), r),
{
    let q = Name::from_ascii(with_dot(qname).as_str());
    let t = Name::from_ascii(with_dot(target).as_str());
    start_safesearch(request, qtype, q, t)
}

/// A safe-search answer with the endpoint's records, or with the response code
/// of the failure to get them.
pub open spec fn safe_finished(response: MessageV, target_response: MessageV) -> MessageV {
    if target_response.metadata.response_code == NO_ERROR {
        MessageV { answers: response.answers + target_response.answers, ..response }
    } else {
        MessageV {
            metadata: Metadata {
                response_code: target_response.metadata.response_code,
                ..response.metadata
            },
            ..response
        }
    }
}

/// Finish a safe-search answer: the endpoint's records follow the CNAME; a
/// failure shows in the response code, and the CNAME stays.
pub fn finish_safesearch(response: Message, target_response: &Message) -> (r: Message)
    ensures
        r@ == safe_finished(response@, target_response@),
{
    let mut response = response;
    let ghost start = response@;
    if target_response.metadata.response_code == NO_ERROR {
        let mut more = copy_records(&target_response.answers);
        let ghost before = response.answers@;
        let ghost added = more@;
        response.answers.append(&mut more);
        assert(records_of(response.answers@) == records_of(before) + records_of(added));
    } else {
        response.metadata.response_code = target_response.metadata.response_code;
    }
    response
}

/// How an encoded response fits the client's payload limit.
#[derive(Debug, PartialEq, Eq)]
pub enum UdpReply {
    /// Send these bytes.
    Send(Vec<u8>),
    /// Too big for this client: truncate.
    Truncate,
    /// It could not be encoded.
    Failed,
}

/// Hold an encoded response against the payload limit.
pub fn fit_udp(bytes: Option<Vec<u8>>, limit: u16) -> (r: UdpReply)
    ensures
        match bytes {
            Some(b) => if b@.len() <= limit {
                r is Send && r->Send_0@ == b@
            } else {
                r is Truncate
            },
            None => r is Failed,
        },
{
    match bytes {
        Some(b) => if b.len() <= limit as usize {
            UdpReply::Send(b)
        } else {
            UdpReply::Truncate
        },
        None => UdpReply::Failed,
    }
}

/// The datagram a response is sent as; `None` where it cannot be encoded.
pub open spec fn udp_datagram(request: MessageV, response: MessageV) -> Option<Seq<u8>> {
    match encoded(response) {
        Some(b) if b.len() <= request.payload_limit() => Some(b),
        Some(_) => encoded(response.truncated()),
        None => None,
    }
}

/// Encode a response for UDP: truncated where it is too big for the client.
pub fn udp_reply(request: &Message, response: &Message) -> (r: Option<Vec<u8>>)
    ensures
        match r {
            Some(b) => udp_datagram(request@, response@) == Some(b@),
            None => udp_datagram(request@, response@) is None,
        },
{
    match fit_udp(encode(response), request.max_payload()) {
        UdpReply::Send(b) => Some(b),
        UdpReply::Truncate => encode(&response.truncate()),
        UdpReply::Failed => None,
    }
}

/// A message with its length in front.
pub open spec fn framed(body: Seq<u8>) -> Seq<u8> {
    be16(body.len() as u16) + body
}

/// The length that two bytes in front of a message give.
pub open spec fn frame_length(high: u8, low: u8) -> u16 {
    ((high as u16) << 8) | (low as u16)
}

/// A message with its length in front, as TCP carries it; `None` where the
/// length does not fit.
pub fn tcp_frame(bytes: &[u8]) -> (r: Option<Vec<u8>>)
    ensures
        match r {
            Some(f) => bytes@.len() <= u16::MAX && f@ == framed(bytes@) && f@ == be16(
                bytes@.len() as u16,
            ) + bytes@,
            None => bytes@.len() > u16::MAX,
        },
{
    let n: usize = bytes.len();
    if n > 65535 {
        return None;
    }
    let len: u16 = n as u16;
    let mut out: Vec<u8> = Vec::new();
    out.push((len >> 8) as u8);
    out.push((len & 0xff) as u8);
    assert(out@ == be16(len));
    for i in 0..n
        invariant
            n == bytes@.len(),
            out@ == be16(len) + bytes@.take(i as int),
    {
        out.push(bytes[i]);
        assert(bytes@.take(i + 1) == bytes@.take(i as int).push(bytes@[i as int]));
    }
    assert(bytes@.take(n as int) == bytes@);
    Some(out)
}

/// The length that two bytes in front of a message give.
pub fn tcp_length(high: u8, low: u8) -> (r: usize)
    ensures
        r == frame_length(high, low),
        r == ((high as u16) << 8) | (low as u16),
{
    (((high as u16) << 8) | (low as u16)) as usize
}

} // verus!
