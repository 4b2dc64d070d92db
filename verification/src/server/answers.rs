//! What answers hold, and what is asked to get them.
use vstd::prelude::*;

use crate::cache::{after_lookup, looked_up, CacheV, KeyV, LookupV};
use crate::db::{QueryV as LogV, ResponseSource, VerdictKind};
use crate::filter::engine::{verdict_holds, Engine};
use crate::filter::grammar::{law_spelled, spells};
use crate::filter::Verdict;
use crate::ip::{Ip, Net};
use crate::message::{plain_record, EdnsV, MessageType, MessageV, Metadata, NameV, RecordV};
use crate::safesearch::{rewritten, SafeSearch};
use crate::server::handle::{proceeds, resumed, safe_proceeds, Answer, Asked, Pending, Progress};
use crate::server::{allowed, block_response, cache_key, dotted, filtered_step, fit_udp};
use crate::server::{log_start, logged};
use crate::server::{lookup_answer, opt_message, planned, restamped, safe_finished, safe_started};
use crate::server::{skeleton, udp_datagram, SafeAnswer, Step, UdpReply};
use crate::text::lower;
use crate::wire::{canonical_name, encoded, named};

verus! {

/// The record types of DNSSEC: SIG, KEY, DS, RRSIG, NSEC, DNSKEY, NSEC3,
/// NSEC3PARAM, CDS, CDNSKEY and TSIG.
pub open spec fn signing(t: u16) -> bool {
    ||| t == 24
    ||| t == 25
    ||| t == 43
    ||| t == 46
    ||| t == 47
    ||| t == 48
    ||| t == 50
    ||| t == 51
    ||| t == 59
    ||| t == 60
    ||| t == 250
}

/// Whether a client that asked for type `asked` without the DO bit sees a
/// record: not where it is of another DNSSEC type.
pub open spec fn shown(asked: u16, r: RecordV) -> bool {
    r.record_type == asked || !signing(r.record_type)
}

/// Positions in `all`, in order, at which `kept` stands, and which are those of
/// the records that are shown.
pub open spec fn picks(
    all: Seq<RecordV>,
    kept: Seq<RecordV>,
    at: Seq<int>,
    asked: u16,
) -> bool {
    &&& at.len() == kept.len()
    &&& forall|i: int| 0 <= i < at.len() ==> 0 <= #[trigger] at[i] < all.len()
    &&& forall|i: int| 0 <= i < at.len() ==> kept[i] == all[#[trigger] at[i]]
    &&& forall|i: int, j: int| 0 <= i < j < at.len() ==> #[trigger] at[i] < #[trigger] at[j]
    &&& forall|k: int|
        0 <= k < all.len() ==> (shown(asked, #[trigger] all[k]) <==> exists|i: int|
            0 <= i < at.len() && #[trigger] at[i] == k)
}

/// `kept` is what a client that asked for type `asked` without the DO bit gets
/// to see of `all`: every record but those of another DNSSEC type, in order.
pub open spec fn sifted(all: Seq<RecordV>, kept: Seq<RecordV>, asked: u16) -> bool {
    exists|at: Seq<int>| #[trigger]
        picks(all, kept, at, asked)
}

proof fn lemma_picked(s: Seq<RecordV>, asked: u16) -> (at: Seq<int>)
    ensures
        picks(
            s,
            s.filter(|r: RecordV| plain_record(asked, r)),
            at,
            asked,
        ),
    decreases s.len(),
{
    reveal(Seq::filter);
    let kept = s.filter(|r: RecordV| plain_record(asked, r));
    if s.len() == 0 {
        seq![]
    } else {
        let t = s.drop_last();
        let n = t.len() as int;
        let before = lemma_picked(t, asked);
        let at = if shown(asked, s.last()) {
            before.push(n)
        } else {
            before
        };
        assert forall|k: int| 0 <= k < s.len() implies (shown(asked, #[trigger] s[k]) <==> exists|i: int|
            0 <= i < at.len() && #[trigger] at[i] == k) by {
            if k < n {
                assert(t[k] == s[k]);
                if shown(asked, s[k]) {
                    let i = choose|i: int| 0 <= i < before.len() && #[trigger] before[i] == k;
                    assert(at[i] == k);
                } else if exists|i: int| 0 <= i < at.len() && #[trigger] at[i] == k {
                    let i = choose|i: int| 0 <= i < at.len() && #[trigger] at[i] == k;
                    assert(before[i] == k);
                }
            } else {
                if shown(asked, s[k]) {
                    assert(at[before.len() as int] == k);
                } else if exists|i: int| 0 <= i < at.len() && #[trigger] at[i] == k {
                    let i = choose|i: int| 0 <= i < at.len() && #[trigger] at[i] == k;
                    assert(before[i] == k);
                }
            }
        }
        at
    }
}

/// Nothing is left out of an answer but DNSSEC records that were not asked
/// for: without the DO bit every section holds, in order, each record of an
/// ordinary type and each record of the type in the question; with the bit, or
/// without a question, it holds them all.
pub proof fn law_only_signatures_left_out(msg: MessageV, request: MessageV)
    ensures
        ({
            let r = restamped(msg, request);
            if request.queries.len() > 0 && (request.edns is None || !request.edns->0.dnssec_ok) {
                let asked = request.queries[0].query_type;
                &&& sifted(msg.answers, r.answers, asked)
                &&& sifted(msg.authorities, r.authorities, asked)
                &&& sifted(msg.additionals, r.additionals, asked)
            } else {
                &&& r.answers == msg.answers
                &&& r.authorities == msg.authorities
                &&& r.additionals == msg.additionals
            }
        }),
{
    if request.queries.len() > 0 {
        let asked = request.queries[0].query_type;
        let a = lemma_picked(msg.answers, asked);
        let b = lemma_picked(msg.authorities, asked);
        let c = lemma_picked(msg.additionals, asked);
    }
}

/// An answer without DNSSEC records reaches every client whole.
pub proof fn law_plain_section_whole(all: Seq<RecordV>, kept: Seq<RecordV>, asked: u16)
    requires
        sifted(all, kept, asked),
        forall|i: int|
            0 <= i < all.len() ==> (#[trigger] all[i]).record_type == asked || !signing(
                all[i].record_type,
            ),
    ensures
        kept == all,
{
    let at = choose|at: Seq<int>| #[trigger] picks(all, kept, at, asked);
    lemma_every_position(all, kept, at, asked, 0);
    assert(kept =~= all);
}

proof fn lemma_every_position(
    all: Seq<RecordV>,
    kept: Seq<RecordV>,
    at: Seq<int>,
    asked: u16,
    n: int,
)
    requires
        picks(all, kept, at, asked),
        forall|i: int| 0 <= i < all.len() ==> shown(asked, #[trigger] all[i]),
        0 <= n <= all.len(),
        n <= at.len(),
        forall|i: int| 0 <= i < n ==> #[trigger] at[i] == i,
    ensures
        at.len() == all.len(),
        forall|i: int| 0 <= i < all.len() ==> #[trigger] at[i] == i,
    decreases all.len() - n,
{
    if n < all.len() {
        assert(shown(asked, all[n]));
        let i = choose|i: int| 0 <= i < at.len() && #[trigger] at[i] == n;
        if i < n {
            assert(at[i] == i);
        }
        assert(at[n] <= n) by {
            if n < i {
                assert(at[n] < at[i]);
            }
        }
        if n > 0 {
            assert(at[n - 1] < at[n]);
        }
        lemma_every_position(all, kept, at, asked, n + 1);
    } else if at.len() > n {
        if n > 0 {
            assert(at[n - 1] < at[n]);
        }
        assert(at[n] < all.len());
    }
}

/// The OPT of a response: none for a client that sent none; otherwise all of
/// what the response came with, or a plain one that offers 1232 bytes, under
/// the client's own DO bit.
pub open spec fn opt_for(request: MessageV, had: Option<EdnsV>, opt: Option<EdnsV>) -> bool {
    match (request.edns, opt) {
        (None, None) => true,
        (Some(asked), Some(o)) => {
            &&& o.dnssec_ok == asked.dnssec_ok
            &&& match had {
                Some(e) => o.max_payload == e.max_payload && o.version == e.version && o.z == e.z
                    && o.options == e.options,
                None => o.max_payload == 1232 && o.version == 0 && o.z == 0 && o.options.len()
                    == 0,
            }
        },
        _ => false,
    }
}

/// An adopted message keeps its header but for id, RD, RA and the mark of a
/// response, which are those of an answer to the request; so does its
/// signature, and its OPT is the one the client expects.
pub proof fn law_adopted_header(msg: MessageV, request: MessageV)
    ensures
        ({
            let r = restamped(msg, request);
            &&& r.metadata.id == request.metadata.id
            &&& r.metadata.message_type == MessageType::Response
            &&& r.metadata.recursion_desired == request.metadata.recursion_desired
            &&& r.metadata.recursion_available
            &&& r.metadata.op_code == msg.metadata.op_code
            &&& r.metadata.authoritative == msg.metadata.authoritative
            &&& r.metadata.truncation == msg.metadata.truncation
            &&& r.metadata.authentic_data == msg.metadata.authentic_data
            &&& r.metadata.checking_disabled == msg.metadata.checking_disabled
            &&& r.metadata.response_code == msg.metadata.response_code
            &&& r.queries == request.queries
            &&& r.signature == msg.signature
            &&& opt_for(request, msg.edns, r.edns)
        }),
{
}

/// A response of our own to a request: its id, question and RD, RA set, a
/// response code, and nothing else.
pub open spec fn own_header(request: MessageV, r: MessageV, response_code: u16) -> bool {
    &&& r.metadata.id == request.metadata.id
    &&& r.metadata.message_type == MessageType::Response
    &&& r.metadata.op_code == 0
    &&& !r.metadata.authoritative && !r.metadata.truncation
    &&& !r.metadata.authentic_data && !r.metadata.checking_disabled
    &&& r.metadata.recursion_desired == request.metadata.recursion_desired
    &&& r.metadata.recursion_available
    &&& r.metadata.response_code == response_code
    &&& r.queries == request.queries
    &&& r.additionals.len() == 0
    &&& r.signature is None
    &&& opt_for(request, None, r.edns)
}

/// Such a response without any record.
pub open spec fn says_only(request: MessageV, r: MessageV, response_code: u16) -> bool {
    own_header(request, r, response_code) && r.answers.len() == 0 && r.authorities.len() == 0
}

/// What the filter blocks does not exist, for five minutes: NXDOMAIN with one
/// SOA record, of our own zone, in the authority section.
pub open spec fn says_blocked(request: MessageV, r: MessageV) -> bool {
    &&& own_header(request, r, 3)
    &&& r.answers.len() == 0
    &&& r.authorities.len() == 1
    &&& r.authorities[0].name.text == "sumidero.invalid."@
    &&& r.authorities[0].record_type == 6
    &&& r.authorities[0].class == 1
    &&& r.authorities[0].ttl == 300
}

/// Responses of our own are what they say, whatever the request.
pub proof fn law_own_responses(request: MessageV, response_code: u16)
    ensures
        says_only(request, skeleton(request, response_code), response_code),
        says_blocked(request, block_response(request)),
{
}

/// The log record of a request, as it starts: when and from whom it came, the
/// name it asks for in lower case and without a closing dot, and the type.
pub open spec fn logs_request(request: MessageV, client: Ip, ts: i64, l: LogV) -> bool {
    &&& l.ts == ts
    &&& l.client == client
    &&& request.queries.len() > 0 ==> spells(request.queries[0].name.text, l.qname) && l.qtype
        == request.queries[0].query_type
    &&& request.queries.len() == 0 ==> l.qname.len() == 0 && l.qtype == 0
    &&& l.rcode == 0
    &&& l.duration_us == 0
}

/// What is turned away before the filter, and with what: past 512 queries in
/// flight SERVFAIL, a client outside every allowed network REFUSED, a request
/// without a question FORMERR, an `ANY` query REFUSED, in this order. None of
/// these answers has a record, and the log has no rule in it.
pub proof fn law_turned_away(
    request: MessageV,
    client: Ip,
    ts: i64,
    in_flight: nat,
    allow: Seq<Net>,
    engine: Engine,
    safe: SafeSearch,
    s: Step,
)
    requires
        planned(request, client, ts, in_flight, allow, engine, safe, s),
    ensures
        ({
            let listed = exists|i: int|
                0 <= i < allow.len() && (#[trigger] allow[i]).covers(client);
            let code: Option<u16> = if in_flight >= 512 {
                Some(2)
            } else if !listed {
                Some(5)
            } else if request.queries.len() == 0 {
                Some(1)
            } else if request.queries[0].query_type == 255 {
                Some(5)
            } else {
                None
            };
            match code {
                Some(code) => {
                    &&& s matches Step::Reply { response, log, blocked }
                    &&& says_only(request, response@, code)
                    &&& !blocked
                    &&& logs_request(request, client, ts, log@)
                    &&& log@.verdict == VerdictKind::Allowed
                    &&& log@.rule is None && log@.list is None
                    &&& log@.source == if in_flight >= 512 {
                        ResponseSource::Failed
                    } else {
                        ResponseSource::Synth
                    }
                },
                None => s matches Step::Reply { blocked, .. } ==> blocked,
            }
        }),
{
    if request.queries.len() > 0 {
        law_spelled(request.queries[0].name.text);
    }
}

/// The log record of a step.
pub open spec fn log_of(s: Step) -> LogV {
    match s {
        Step::Reply { log, .. } => log@,
        Step::SafeSearch { log, .. } => log@,
        Step::Resolve { log } => log@,
    }
}

/// Where a query goes that the filter lets pass.
pub open spec fn passes(endpoint: Option<Seq<char>>, s: Step) -> bool {
    match endpoint {
        Some(t) => s is SafeSearch && s->SafeSearch_target@ == t,
        None => s is Resolve,
    }
}

/// The filter's verdict shows in the log, with the rule and its list, and only
/// a block ends the query. An exception or no match lets it pass: to the
/// safe-search endpoint of its name where there is one, to be resolved
/// otherwise.
pub proof fn law_filter_logged(
    request: MessageV,
    client: Ip,
    ts: i64,
    in_flight: nat,
    allow: Seq<Net>,
    engine: Engine,
    safe: SafeSearch,
    s: Step,
)
    requires
        planned(request, client, ts, in_flight, allow, engine, safe, s),
        in_flight < 512,
        allowed(allow, client),
        request.queries.len() > 0,
        request.queries[0].query_type != 255,
    ensures
        exists|v: Verdict<'_>| #[trigger]
            verdict_holds(engine@.rules, log_of(s).qname, v) && {
                let l = log_of(s);
                &&& logs_request(request, client, ts, l)
                &&& l.source == ResponseSource::Synth
                &&& match v {
                    Verdict::Block { list, rule } => {
                        &&& s matches Step::Reply { response, blocked, .. }
                        &&& says_blocked(request, response@)
                        &&& blocked
                        &&& l.verdict == VerdictKind::Blocked
                        &&& l.rule == Some(rule.text@)
                        &&& l.list == Some(list)
                    },
                    Verdict::Except { list, rule } => {
                        &&& passes(rewritten(safe@, l.qname), s)
                        &&& l.verdict == VerdictKind::Excepted
                        &&& l.rule == Some(rule.text@)
                        &&& l.list == Some(list)
                    },
                    Verdict::NoMatch => {
                        &&& passes(rewritten(safe@, l.qname), s)
                        &&& l.verdict == VerdictKind::Allowed
                        &&& l.rule is None
                        &&& l.list is None
                    },
                }
            },
{
    let start = log_start(ts, client, request, ResponseSource::Synth);
    law_spelled(request.queries[0].name.text);
    let v = choose|v: Verdict<'_>| #[trigger]
        verdict_holds(engine@.rules, start.qname, v) && filtered_step(
            request,
            start,
            v,
            rewritten(safe@, start.qname),
            s,
        );
    assert(log_of(s).qname == start.qname);
    assert(verdict_holds(engine@.rules, log_of(s).qname, v));
}

/// What a step asks of the upstreams, to answer or to refresh.
pub open spec fn asked_of(p: Progress) -> Option<Asked> {
    match p {
        Progress::Ready { refresh, .. } => refresh,
        Progress::Ask(pending) => Some(pending.asked),
    }
}

/// A safe-search answer asks for the endpoint's own records: one question, for
/// the endpoint, of the type that the client asked for, in class IN, with RD
/// set; and what comes back is cached under that name, type and class.
pub proof fn law_safe_search_asks(
    request: MessageV,
    client: Ip,
    ts: i64,
    in_flight: nat,
    allow: Seq<Net>,
    engine: Engine,
    safe: SafeSearch,
    s: Step,
    before: CacheV,
    after: CacheV,
    now: u64,
    p: Progress,
)
    requires
        planned(request, client, ts, in_flight, allow, engine, safe, s),
        s is SafeSearch,
        proceeds(before, after, request, s, now, p),
        asked_of(p) is Some,
    ensures
        ({
            let q = asked_of(p)->0.query@;
            let k = asked_of(p)->0.key@;
            let target = s->SafeSearch_target@;
            &&& q.queries.len() == 1
            &&& Some(q.queries[0].name) == named(target.push('.'))
            &&& q.queries[0].query_type == request.queries[0].query_type
            &&& q.queries[0].query_class == 1
            &&& q.metadata.id == request.metadata.id
            &&& q.metadata.message_type == MessageType::Query
            &&& q.metadata.op_code == 0
            &&& q.metadata.recursion_desired
            &&& !q.metadata.checking_disabled
            &&& q.answers.len() == 0 && q.authorities.len() == 0 && q.additionals.len() == 0
            &&& q.edns is None && q.signature is None
            &&& canonical_name(target) is Some && k.name == lower(canonical_name(target)->0)
            &&& k.rtype == request.queries[0].query_type
            &&& k.class == 1
        }),
{
    let log = s->SafeSearch_log;
    let target = s->SafeSearch_target;
    let a = choose|a: SafeAnswer| #[trigger]
        safe_started(
            request,
            log@.qtype,
            named(dotted(log@.qname)),
            named(dotted(target@)),
            a,
        ) && safe_proceeds(before, after, log@, target@, a, now, p);
    assert(a.target_query is Some);
}

/// The answer to a safe-search query, once the endpoint's response is there:
/// under the client's question, a CNAME from the name asked for to the
/// endpoint, good for five minutes, and after it the endpoint's answers; where
/// the endpoint could not be resolved, the CNAME alone and the failure's
/// response code.
pub open spec fn safe_answer(
    request: MessageV,
    qname: NameV,
    target: NameV,
    got: MessageV,
    r: MessageV,
) -> bool {
    &&& own_header(request, r, got.metadata.response_code)
    &&& r.authorities.len() == 0
    &&& r.answers.len() > 0
    &&& r.answers[0].name == qname
    &&& r.answers[0].record_type == 5
    &&& r.answers[0].class == 1
    &&& r.answers[0].ttl == 300
    &&& r.answers[0].data == target.wire
    &&& r.answers.skip(1) == if got.metadata.response_code == 0 {
        got.answers
    } else {
        seq![]
    }
}

/// A safe-search query whose endpoint an upstream was asked for is answered
/// with the CNAME and what the upstream said.
pub proof fn law_safe_search_answered(
    request: MessageV,
    client: Ip,
    ts: i64,
    in_flight: nat,
    allow: Seq<Net>,
    engine: Engine,
    safe: SafeSearch,
    s: Step,
    before: CacheV,
    after: CacheV,
    now: u64,
    pending: Pending,
    lookup: Option<MessageV>,
    a: Answer,
)
    requires
        planned(request, client, ts, in_flight, allow, engine, safe, s),
        s is SafeSearch,
        proceeds(before, after, request, s, now, Progress::Ask(pending)),
        resumed(pending, lookup, a),
    ensures
        ({
            let q = pending.asked.query@;
            let l = log_of(s);
            let qname = named(l.qname.push('.'));
            let target = named(s->SafeSearch_target@.push('.'));
            &&& qname is Some && target is Some
            &&& match lookup {
                Some(m) => exists|got: MessageV|
                    {
                        &&& got.metadata.response_code == m.metadata.response_code
                        &&& sifted(m.answers, got.answers, request.queries[0].query_type)
                        &&& #[trigger] safe_answer(request, qname->0, target->0, got, a.response@)
                    },
                None => exists|got: MessageV|
                    got.metadata.response_code == 2 && #[trigger] safe_answer(
                        request,
                        qname->0,
                        target->0,
                        got,
                        a.response@,
                    ),
            }
            &&& a.log@ == l
            &&& a.compare is None
        }),
{
    let log = s->SafeSearch_log;
    let target = s->SafeSearch_target;
    let p = Progress::Ask(pending);
    let sa = choose|sa: SafeAnswer| #[trigger]
        safe_started(
            request,
            log@.qtype,
            named(dotted(log@.qname)),
            named(dotted(target@)),
            sa,
        ) && safe_proceeds(before, after, log@, target@, sa, now, p);
    assert(sa.target_query is Some);
    let q = pending.asked.query@;
    assert(q == sa.target_query->0@);
    let got = lookup_answer(q, lookup);
    if lookup is Some {
        law_only_signatures_left_out(lookup->0, q);
    }
    assert(opt_message(pending.safe) == Some(sa.response@));
    assert(a.response@ == safe_finished(sa.response@, got));
    assert(a.response@.answers.skip(1) =~= if got.metadata.response_code == 0 {
        got.answers
    } else {
        seq![]
    });
    assert(safe_answer(
        request,
        named(log@.qname.push('.'))->0,
        named(target@.push('.'))->0,
        got,
        a.response@,
    ));
}

/// Any other query is asked as the client put it, and what comes back is
/// cached under the name, type and class of its question.
pub proof fn law_query_asked_as_put(
    request: MessageV,
    client: Ip,
    ts: i64,
    in_flight: nat,
    allow: Seq<Net>,
    engine: Engine,
    safe: SafeSearch,
    s: Step,
    before: CacheV,
    after: CacheV,
    now: u64,
    p: Progress,
)
    requires
        planned(request, client, ts, in_flight, allow, engine, safe, s),
        s is Resolve,
        proceeds(before, after, request, s, now, p),
        asked_of(p) is Some,
    ensures
        ({
            let k = asked_of(p)->0.key@;
            let name = canonical_name(log_of(s).qname);
            &&& asked_of(p)->0.query@ == request
            &&& name is Some && k.name == lower(name->0)
            &&& k.rtype == request.queries[0].query_type
            &&& k.class == request.queries[0].query_class
        }),
{
}

/// What an upstream said reaches the client that asked: its response code and
/// its records, but for DNSSEC records that were not asked for. The log tells
/// where the answer came from, and nothing else in it changes.
pub proof fn law_upstream_answer_relayed(pending: Pending, lookup: MessageV, a: Answer)
    requires
        pending.safe is None,
        resumed(pending, Some(lookup), a),
    ensures
        ({
            let request = pending.asked.query@;
            let r = a.response@;
            &&& r.metadata.id == request.metadata.id
            &&& r.queries == request.queries
            &&& r.metadata.response_code == lookup.metadata.response_code
            &&& request.queries.len() > 0 && (request.edns is None || !request.edns->0.dnssec_ok)
                ==> {
                let asked = request.queries[0].query_type;
                &&& sifted(lookup.answers, r.answers, asked)
                &&& sifted(lookup.authorities, r.authorities, asked)
                &&& sifted(lookup.additionals, r.additionals, asked)
            }
            &&& request.edns is Some && request.edns->0.dnssec_ok ==> r.answers == lookup.answers
                && r.authorities == lookup.authorities && r.additionals == lookup.additionals
            &&& opt_for(request, lookup.edns, r.edns)
            &&& a.log@.source == ResponseSource::Upstream
            &&& a.log@ == (LogV { source: a.log@.source, ..pending.log@ })
            &&& a.compare == Some(false)
        }),
{
    law_only_signatures_left_out(lookup, pending.asked.query@);
    law_adopted_header(lookup, pending.asked.query@);
}

/// A query that no upstream answered gets SERVFAIL without records, and the
/// log says so.
pub proof fn law_no_answer_is_servfail(pending: Pending, a: Answer)
    requires
        pending.safe is None,
        resumed(pending, None, a),
    ensures
        says_only(pending.asked.query@, a.response@, 2),
        a.log@.source == ResponseSource::Failed,
        a.log@ == (LogV { source: a.log@.source, ..pending.log@ }),
        a.compare == Some(false),
{
}

/// The log record ends up with the response's code and the time it took in
/// microseconds, as much as 32 bits hold; the rest of it stays.
pub proof fn law_log_finished(log: LogV, response: MessageV, elapsed_us: u128)
    ensures
        ({
            let l = logged(log, response, elapsed_us);
            &&& l.rcode == response.metadata.response_code
            &&& elapsed_us < 0x1_0000_0000 ==> l.duration_us == elapsed_us
            &&& elapsed_us >= 0x1_0000_0000 ==> l.duration_us == 0xffff_ffff
            &&& l == (LogV { rcode: l.rcode, duration_us: l.duration_us, ..log })
        }),
{
}

/// A datagram never exceeds what the client takes, which is 512 bytes or what
/// its OPT says if that is more, unless not even the bare header and question
/// fit. A response that fits goes out whole; of one that does not, the header
/// with the truncation bit, the question and the OPT are left, and no record.
pub proof fn law_datagram_fits(request: MessageV, response: MessageV)
    requires
        encoded(response) is Some,
    ensures
        ({
            let limit: int = match request.edns {
                Some(e) => if e.max_payload > 512 {
                    e.max_payload as int
                } else {
                    512
                },
                None => 512,
            };
            let sent = udp_datagram(request, response);
            if encoded(response)->0.len() <= limit {
                sent == encoded(response)
            } else {
                exists|t: MessageV|
                    {
                        &&& #[trigger] encoded(t) == sent
                        &&& t.metadata.truncation
                        &&& t.metadata == (Metadata { truncation: true, ..response.metadata })
                        &&& t.queries == response.queries
                        &&& t.edns == response.edns
                        &&& t.answers.len() == 0 && t.authorities.len() == 0
                        &&& t.additionals.len() == 0 && t.signature is None
                    }
            }
        }),
{
    assert(encoded(response.truncated()) == encoded(response.truncated()));
}

/// What the cache answers. The question's name, type and class are looked up;
/// a fresh answer is sent and logged as cached, a stale one is sent, logged as
/// stale and asked for again, and with none an upstream is asked. A name that
/// is no name gets FORMERR, and the cache is left alone.
pub proof fn law_cache_serves(
    request: MessageV,
    client: Ip,
    ts: i64,
    in_flight: nat,
    allow: Seq<Net>,
    engine: Engine,
    safe: SafeSearch,
    s: Step,
    before: CacheV,
    after: CacheV,
    now: u64,
    p: Progress,
)
    requires
        planned(request, client, ts, in_flight, allow, engine, safe, s),
        s is Resolve,
        proceeds(before, after, request, s, now, p),
    ensures
        ({
            let log = log_of(s);
            match canonical_name(log.qname) {
                None => {
                    &&& after == before
                    &&& p matches Progress::Ready { answer, refresh }
                    &&& refresh is None
                    &&& says_only(request, answer.response@, 1)
                    &&& answer.log@ == (LogV { source: ResponseSource::Synth, ..log })
                    &&& answer.compare == Some(false)
                },
                Some(n) => {
                    let k = KeyV {
                        name: lower(n),
                        rtype: request.queries[0].query_type,
                        class: request.queries[0].query_class,
                    };
                    &&& after == after_lookup(before, k, now)
                    &&& match looked_up(before, k, now) {
                        LookupV::Fresh(m) => {
                            &&& p matches Progress::Ready { answer, refresh }
                            &&& refresh is None
                            &&& answer.response@ == restamped(m, request)
                            &&& answer.log@ == (LogV { source: ResponseSource::Cache, ..log })
                            &&& answer.compare == Some(false)
                        },
                        LookupV::Stale(m) => {
                            &&& p matches Progress::Ready { answer, refresh }
                            &&& refresh is Some
                            &&& refresh->0.query@ == request && refresh->0.key@ == k
                            &&& answer.response@ == restamped(m, request)
                            &&& answer.log@ == (LogV { source: ResponseSource::Stale, ..log })
                            &&& answer.compare == Some(false)
                        },
                        LookupV::Miss => {
                            &&& p matches Progress::Ask(pending)
                            &&& pending.asked.query@ == request && pending.asked.key@ == k
                            &&& pending.log@ == log
                            &&& pending.safe is None
                        },
                    }
                },
            }
        }),
{
}

/// A safe-search answer whose endpoint is cached is complete at once; it is
/// logged as synthesized whatever the endpoint's records came from.
pub proof fn law_cached_endpoint_serves(
    request: MessageV,
    client: Ip,
    ts: i64,
    in_flight: nat,
    allow: Seq<Net>,
    engine: Engine,
    safe: SafeSearch,
    s: Step,
    before: CacheV,
    after: CacheV,
    now: u64,
    p: Progress,
)
    requires
        planned(request, client, ts, in_flight, allow, engine, safe, s),
        s is SafeSearch,
        proceeds(before, after, request, s, now, p),
        named(log_of(s).qname.push('.')) is Some,
        named(s->SafeSearch_target@.push('.')) is Some,
        canonical_name(s->SafeSearch_target@) is Some,
    ensures
        ({
            let log = log_of(s);
            let qname = named(log.qname.push('.'))->0;
            let target = named(s->SafeSearch_target@.push('.'))->0;
            let k = KeyV {
                name: lower(canonical_name(s->SafeSearch_target@)->0),
                rtype: request.queries[0].query_type,
                class: 1,
            };
            let found = looked_up(before, k, now);
            if found is Miss {
                p is Ask
            } else {
                let m = if found is Fresh {
                    found->Fresh_0
                } else {
                    found->Stale_0
                };
                &&& p matches Progress::Ready { answer, refresh }
                &&& refresh is Some == found is Stale
                &&& exists|got: MessageV|
                    {
                        &&& got.metadata.response_code == m.metadata.response_code
                        &&& sifted(m.answers, got.answers, request.queries[0].query_type)
                        &&& #[trigger] safe_answer(request, qname, target, got, answer.response@)
                    }
                &&& answer.log@ == log
                &&& log.source == ResponseSource::Synth
                &&& answer.compare is None
            }
        }),
{
    let log = s->SafeSearch_log;
    let target = s->SafeSearch_target;
    let sa = choose|sa: SafeAnswer| #[trigger]
        safe_started(
            request,
            log@.qtype,
            named(dotted(log@.qname)),
            named(dotted(target@)),
            sa,
        ) && safe_proceeds(before, after, log@, target@, sa, now, p);
    let q = sa.target_query->0@;
    let k = KeyV {
        name: lower(canonical_name(target@)->0),
        rtype: request.queries[0].query_type,
        class: 1,
    };
    let found = looked_up(before, k, now);
    if !(found is Miss) {
        let m = if found is Fresh {
            found->Fresh_0
        } else {
            found->Stale_0
        };
        let got = restamped(m, q);
        law_only_signatures_left_out(m, q);
        let answer = p->Ready_answer;
        assert(answer.response@ == safe_finished(sa.response@, got));
        assert(answer.response@.answers.skip(1) =~= if got.metadata.response_code == 0 {
            got.answers
        } else {
            seq![]
        });
        assert(safe_answer(
            request,
            named(log@.qname.push('.'))->0,
            named(target@.push('.'))->0,
            got,
            answer.response@,
        ));
    }
}

/// A reply that needs no resolving goes out as it is, and the cache is left
/// alone; shadow mode compares it only where the filter blocked.
pub proof fn law_reply_goes_out(
    request: MessageV,
    s: Step,
    before: CacheV,
    after: CacheV,
    now: u64,
    p: Progress,
)
    requires
        s is Reply,
        proceeds(before, after, request, s, now, p),
    ensures
        after == before,
        p is Ready && p->refresh is None,
        p->answer.response@ == s->response@,
        p->answer.log@ == log_of(s),
        s->blocked ==> p->answer.compare == Some(true),
        !s->blocked ==> p->answer.compare is None,
{
}

/// A safe-search answer for which a name is no name, the client's or the
/// endpoint's, is SERVFAIL without records; nothing is asked or looked up.
pub proof fn law_nameless_safe_search(
    request: MessageV,
    s: Step,
    before: CacheV,
    after: CacheV,
    now: u64,
    p: Progress,
)
    requires
        s is SafeSearch,
        proceeds(before, after, request, s, now, p),
        named(log_of(s).qname.push('.')) is None || named(s->SafeSearch_target@.push('.')) is None,
    ensures
        after == before,
        p is Ready && p->refresh is None,
        says_only(request, p->answer.response@, 2),
        p->answer.log@ == log_of(s),
        p->answer.compare is None,
{
}

/// What is sent over UDP never exceeds the limit, and a message within it is
/// sent as it is.
pub proof fn law_fits_limit(bytes: Option<Vec<u8>>, limit: u16, r: UdpReply)
    requires
        call_ensures(fit_udp, (bytes, limit), r),
    ensures
        r is Send ==> r->Send_0@.len() <= limit,
        bytes is Some && bytes->0@.len() <= limit ==> r is Send && r->Send_0@ == bytes->0@,
        r is Truncate ==> bytes is Some && bytes->0@.len() > limit,
        r is Failed == bytes is None,
{
}

/// An answer is looked up under the class that was asked for, and under IN
/// where nothing was.
pub proof fn law_class_looked_up(name: Seq<char>, request: MessageV, qtype: u16)
    ensures
        request.queries.len() > 0 ==> cache_key(name, request, qtype).class
            == request.queries[0].query_class,
        request.queries.len() == 0 ==> cache_key(name, request, qtype).class == 1,
        cache_key(name, request, qtype).rtype == qtype,
        cache_key(name, request, qtype).name == lower(name),
{
}

} // verus!
