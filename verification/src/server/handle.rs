//! One request from arrival to answer.
//!
//! [`plan`](crate::server::plan) decides what a request needs; [`proceed`]
//! carries that through the cache. Then either the answer is ready, or an
//! upstream must be asked and [`resume`] takes in what came of it.
use vstd::prelude::*;

use crate::cache::laws::{holds_writable, law_lookup_keeps_writable};
use crate::cache::{looked_up, Cache, CacheKey, CacheV, LookupV};
use crate::db::{QueryRecord, QueryV as LogV, ResponseSource};
use crate::ip::{Ip, Net};
use crate::filter::engine::Engine;
use crate::message::{plain_record, Message, MessageType, MessageV, RecordV, FORM_ERR, NO_ERROR};
use crate::message::{REFUSED, SERV_FAIL};
use crate::safesearch::SafeSearch;
use crate::server::{answer_safesearch, block_response, cache_key, cache_resolved, dotted, finish};
use crate::server::{finish_safesearch, logged, lookup_answer, lookup_source, opt_message, planned};
use crate::server::{resolve_cached, restamped, safe_finished, safe_started, shared_answer, skeleton};
use crate::server::{Resolution, SafeAnswer, Step, BLOCK_SOA_DATA};
use crate::wire::{canonical_name, disassembled, fits, named, writable};

verus! {

/// An answered query: what is sent and what is logged. Where shadow mode
/// compares it, `compare` tells whether the filter blocked it.
pub struct Answer {
    pub response: Message,
    pub log: QueryRecord,
    pub compare: Option<bool>,
}

/// A query for the upstreams, and the key its answer is cached under.
pub struct Asked {
    pub query: Message,
    pub key: CacheKey,
}

/// A query whose answer waits for an upstream.
pub struct Pending {
    pub asked: Asked,
    pub log: QueryRecord,
    /// The safe-search response that the answer completes, if it is one.
    pub safe: Option<Message>,
}

/// How far a query got without an upstream.
pub enum Progress {
    /// The answer; a stale one wants refreshing.
    Ready { answer: Answer, refresh: Option<Asked> },
    /// An upstream must be asked.
    Ask(Pending),
}

/// A resolved query's answer. Within a safe-search answer what was resolved is
/// the endpoint; such an answer counts as synthesized, and is not compared.
pub open spec fn settled(
    safe: Option<MessageV>,
    response: MessageV,
    source: ResponseSource,
    log: LogV,
    a: Answer,
) -> bool {
    match safe {
        None => {
            &&& a.response@ == response
            &&& a.log@ == (LogV { source, ..log })
            &&& a.compare == Some(false)
        },
        Some(s) => {
            &&& a.response@ == safe_finished(s, response)
            &&& a.log@ == log
            &&& a.compare is None
        },
    }
}

fn settle(safe: Option<Message>, response: Message, source: ResponseSource, log: QueryRecord) -> (a:
    Answer)
    ensures
        settled(opt_message(safe), response@, source, log@, a),
{
    match safe {
        None => Answer { response, log: QueryRecord { source, ..log }, compare: Some(false) },
        Some(s) => Answer { response: finish_safesearch(s, &response), log, compare: None },
    }
}

/// What a cache lookup for a query makes of it.
pub open spec fn progressed(
    query: MessageV,
    found: Resolution,
    log: LogV,
    safe: Option<MessageV>,
    p: Progress,
) -> bool {
    match found {
        Resolution::Done { response, source } => {
            p matches Progress::Ready { answer, refresh } && refresh is None && settled(
                safe,
                response@,
                source,
                log,
                answer,
            )
        },
        Resolution::Stale { response, key } => {
            p matches Progress::Ready { answer, refresh } && refresh is Some
                && refresh->0.query@ == query && refresh->0.key@ == key@ && settled(
                safe,
                response@,
                ResponseSource::Stale,
                log,
                answer,
            )
        },
        Resolution::Miss { key } => {
            p matches Progress::Ask(pending) && pending.asked.query@ == query
                && pending.asked.key@ == key@ && pending.log@ == log && opt_message(pending.safe)
                == safe
        },
    }
}

fn progress(query: Message, found: Resolution, log: QueryRecord, safe: Option<Message>) -> (p:
    Progress)
    ensures
        progressed(query@, found, log@, opt_message(safe), p),
{
    match found {
        Resolution::Done { response, source } => Progress::Ready {
            answer: settle(safe, response, source, log),
            refresh: None,
        },
        Resolution::Stale { response, key } => Progress::Ready {
            answer: settle(safe, response, ResponseSource::Stale, log),
            refresh: Some(Asked { query, key }),
        },
        Resolution::Miss { key } => Progress::Ask(
            Pending { asked: Asked { query, key }, log, safe },
        ),
    }
}

/// What a step comes to over a cache.
pub open spec fn proceeds(
    before: CacheV,
    after: CacheV,
    request: MessageV,
    step: Step,
    now: u64,
    p: Progress,
) -> bool {
    match step {
        Step::Reply { response, log, blocked } => {
            &&& after == before
            &&& p matches Progress::Ready { answer, refresh }
            &&& refresh is None
            &&& answer.response@ == response@
            &&& answer.log@ == log@
            &&& answer.compare == if blocked {
                Some(true)
            } else {
                None
            }
        },
        Step::Resolve { log } => exists|found: Resolution| #[trigger]
            cache_resolved(
                before,
                after,
                canonical_name(log@.qname),
                request,
                log@.qtype,
                now,
                found,
            ) && progressed(request, found, log@, None, p),
        Step::SafeSearch { log, target } => exists|a: SafeAnswer| #[trigger]
            safe_started(
                request,
                log@.qtype,
                named(dotted(log@.qname)),
                named(dotted(target@)),
                a,
            ) && safe_proceeds(before, after, log@, target@, a, now, p),
    }
}

/// What a started safe-search answer comes to over a cache.
pub open spec fn safe_proceeds(
    before: CacheV,
    after: CacheV,
    log: LogV,
    target: Seq<char>,
    a: SafeAnswer,
    now: u64,
    p: Progress,
) -> bool {
    match a.target_query {
        None => {
            &&& after == before
            &&& p matches Progress::Ready { answer, refresh }
            &&& refresh is None
            &&& answer.response@ == a.response@
            &&& answer.log@ == log
            &&& answer.compare is None
        },
        Some(q) => exists|found: Resolution| #[trigger]
            cache_resolved(
                before,
                after,
                canonical_name(target),
                q@,
                log.qtype,
                now,
                found,
            ) && progressed(q@, found, log, Some(a.response@), p),
    }
}

/// Carry a step through the cache.
pub fn proceed(cache: &mut Cache, request: &Message, step: Step, now: u64) -> (p: Progress)
    requires
        old(cache).wf(),
    ensures
        final(cache).wf(),
        proceeds(old(cache)@, final(cache)@, request@, step, now, p),
{
    match step {
        Step::Reply { response, log, blocked } => {
            let compare = if blocked {
                Some(true)
            } else {
                None
            };
            Progress::Ready { answer: Answer { response, log, compare }, refresh: None }
        },
        Step::Resolve { log } => {
            let found = resolve_cached(cache, request, log.qname.as_str(), log.qtype, now);
            let p = progress(request.clone(), found, log, None);
            assert(cache_resolved(
                old(cache)@,
                cache@,
                canonical_name(log@.qname),
                request@,
                log@.qtype,
                now,
                found,
            ) && progressed(request@, found, log@, None, p));
            p
        },
        Step::SafeSearch { log, target } => {
            let a = answer_safesearch(request, log.qname.as_str(), log.qtype, target);
            let ghost started = a;
            assert(safe_started(
                request@,
                log@.qtype,
                named(dotted(log@.qname)),
                named(dotted(target@)),
                started,
            ));
            match a.target_query {
                None => {
                    let answer = Answer { response: a.response, log, compare: None };
                    let p = Progress::Ready { answer, refresh: None };
                    assert(safe_proceeds(
                        old(cache)@,
                        cache@,
                        log@,
                        target@,
                        started,
                        now,
                        p,
                    ));
                    p
                },
                Some(query) => {
                    let found = resolve_cached(cache, &query, target, log.qtype, now);
                    let p = progress(query, found, log, Some(a.response));
                    assert(safe_proceeds(
                        old(cache)@,
                        cache@,
                        log@,
                        target@,
                        started,
                        now,
                        p,
                    ));
                    p
                },
            }
        },
    }
}

/// The answer to a pending query once its lookup came back, with nothing where
/// every upstream failed.
pub open spec fn resumed(p: Pending, lookup: Option<MessageV>, a: Answer) -> bool {
    settled(
        opt_message(p.safe),
        lookup_answer(p.asked.query@, lookup),
        lookup_source(lookup),
        p.log@,
        a,
    )
}

/// Answer a pending query once its lookup came back; `None` where every
/// upstream failed or the lookup died.
pub fn resume(pending: Pending, lookup: Option<Message>) -> (a: Answer)
    ensures
        resumed(pending, opt_message(lookup), a),
{
    let (response, source) = shared_answer(&pending.asked.query, lookup);
    settle(pending.safe, response, source, pending.log)
}

/// Stamp the response code and the duration into an answer's log record.
pub fn conclude(answer: Answer, elapsed_us: u128) -> (r: Answer)
    ensures
        r.response@ == answer.response@,
        r.log@ == logged(answer.log@, answer.response@, elapsed_us),
        r.compare == answer.compare,
{
    let log = finish(answer.log, &answer.response, elapsed_us);
    Answer { response: answer.response, log, compare: answer.compare }
}

/// A response to this very request: its id, questions and RD, marked as a
/// response of a recursive resolver.
pub open spec fn responds_to(request: MessageV, response: MessageV) -> bool {
    &&& response.metadata.id == request.metadata.id
    &&& response.queries == request.queries
    &&& response.metadata.message_type == MessageType::Response
    &&& response.metadata.recursion_desired == request.metadata.recursion_desired
    &&& response.metadata.recursion_available
}

/// No query is dropped: whatever the client, the rules, the cache and the
/// upstreams, what it gets is a response to its request.
pub proof fn law_every_query_answered(
    request: MessageV,
    client: Ip,
    ts: i64,
    in_flight: nat,
    allow: Seq<Net>,
    engine: Engine,
    safe: SafeSearch,
    step: Step,
    before: CacheV,
    after: CacheV,
    now: u64,
    p: Progress,
    lookup: Option<MessageV>,
    a: Answer,
)
    requires
        planned(request, client, ts, in_flight, allow, engine, safe, step),
        proceeds(before, after, request, step, now, p),
        match p {
            Progress::Ready { answer, .. } => a == answer,
            Progress::Ask(pending) => resumed(pending, lookup, a),
        },
    ensures
        responds_to(request, a.response@),
{
}

proof fn lemma_filter_fits(s: Seq<RecordV>, asked: u16)
    requires
        fits(s),
    ensures
        fits(s.filter(|r: RecordV| plain_record(asked, r))),
    decreases s.len(),
{
    reveal(Seq::filter);
    if s.len() > 0 {
        let t = s.drop_last();
        assert(fits(t)) by {
            assert forall|i: int| 0 <= i < t.len() implies (#[trigger] t[i]).data.len()
                <= u16::MAX by {
                assert(t[i] == s[i]);
            }
        }
        lemma_filter_fits(t, asked);
        assert(s[s.len() - 1].data.len() <= u16::MAX);
    }
}

/// Synthesized responses can be written, and adopted messages that can be
/// written still can.
proof fn lemma_responses_writable(request: MessageV, msg: MessageV, response_code: u16)
    ensures
        writable(skeleton(request, response_code)),
        writable(block_response(request)),
        writable(msg) ==> writable(restamped(msg, request)),
{
    assert(BLOCK_SOA_DATA@.len() == 63);
    if writable(msg) && request.queries.len() > 0 {
        let asked = request.queries[0].query_type;
        lemma_filter_fits(msg.answers, asked);
        lemma_filter_fits(msg.authorities, asked);
        lemma_filter_fits(msg.additionals, asked);
    }
}

proof fn lemma_found_writable(
    before: CacheV,
    after: CacheV,
    name: Option<Seq<char>>,
    request: MessageV,
    qtype: u16,
    now: u64,
    r: Resolution,
)
    requires
        cache_resolved(before, after, name, request, qtype, now, r),
        holds_writable(before),
    ensures
        match r {
            Resolution::Done { response, .. } => writable(response@),
            Resolution::Stale { response, .. } => writable(response@),
            Resolution::Miss { .. } => true,
        },
{
    match name {
        Some(n) => {
            let k = cache_key(n, request, qtype);
            law_lookup_keeps_writable(before, k, now);
            match looked_up(before, k, now) {
                LookupV::Fresh(m) => lemma_responses_writable(request, m, FORM_ERR),
                LookupV::Stale(m) => lemma_responses_writable(request, m, FORM_ERR),
                LookupV::Miss => {},
            }
        },
        None => lemma_responses_writable(request, request, FORM_ERR),
    }
}

proof fn lemma_settled_writable(
    safe: Option<MessageV>,
    response: MessageV,
    source: ResponseSource,
    log: LogV,
    a: Answer,
)
    requires
        settled(safe, response, source, log, a),
        writable(response),
        safe is Some ==> writable(safe->0),
    ensures
        writable(a.response@),
{
}

proof fn lemma_progress_writable(
    before: CacheV,
    after: CacheV,
    name: Option<Seq<char>>,
    query: MessageV,
    qtype: u16,
    now: u64,
    found: Resolution,
    log: LogV,
    safe: Option<MessageV>,
    p: Progress,
    lookup: Option<MessageV>,
    a: Answer,
)
    requires
        cache_resolved(before, after, name, query, qtype, now, found),
        progressed(query, found, log, safe, p),
        holds_writable(before),
        safe is Some ==> writable(safe->0),
        lookup is Some ==> writable(lookup->0),
        match p {
            Progress::Ready { answer, .. } => a == answer,
            Progress::Ask(pending) => resumed(pending, lookup, a),
        },
    ensures
        writable(a.response@),
{
    lemma_found_writable(before, after, name, query, qtype, now, found);
    match found {
        Resolution::Done { response, source } => lemma_settled_writable(
            safe,
            response@,
            source,
            log,
            a,
        ),
        Resolution::Stale { response, key } => lemma_settled_writable(
            safe,
            response@,
            ResponseSource::Stale,
            log,
            a,
        ),
        Resolution::Miss { key } => {
            let response = lookup_answer(query, lookup);
            match lookup {
                Some(m) => lemma_responses_writable(query, m, SERV_FAIL),
                None => lemma_responses_writable(query, query, SERV_FAIL),
            }
            lemma_settled_writable(safe, response, lookup_source(lookup), log, a);
        },
    }
}

/// Nor is a response lost on its way out: as long as what the cache holds and
/// what the upstream sent can be written, so can the response, whole or
/// truncated, whatever the request's names hold.
pub proof fn law_every_answer_writable(
    request: MessageV,
    client: Ip,
    ts: i64,
    in_flight: nat,
    allow: Seq<Net>,
    engine: Engine,
    safe: SafeSearch,
    step: Step,
    before: CacheV,
    after: CacheV,
    now: u64,
    p: Progress,
    lookup: Option<MessageV>,
    a: Answer,
)
    requires
        planned(request, client, ts, in_flight, allow, engine, safe, step),
        proceeds(before, after, request, step, now, p),
        match p {
            Progress::Ready { answer, .. } => a == answer,
            Progress::Ask(pending) => resumed(pending, lookup, a),
        },
        holds_writable(before),
        lookup is Some ==> writable(lookup->0),
    ensures
        disassembled(a.response@) is Some,
        disassembled(a.response@.truncated()) is Some,
{
    lemma_responses_writable(request, request, SERV_FAIL);
    lemma_responses_writable(request, request, REFUSED);
    lemma_responses_writable(request, request, FORM_ERR);
    lemma_responses_writable(request, request, NO_ERROR);
    match step {
        Step::Reply { response, log, blocked } => {},
        Step::Resolve { log } => {
            let name = canonical_name(log@.qname);
            let found = choose|found: Resolution| #[trigger]
                cache_resolved(before, after, name, request, log@.qtype, now, found) && progressed(
                    request,
                    found,
                    log@,
                    None,
                    p,
                );
            lemma_progress_writable(
                before,
                after,
                name,
                request,
                log@.qtype,
                now,
                found,
                log@,
                None,
                p,
                lookup,
                a,
            );
        },
        Step::SafeSearch { log, target } => {
            let s = choose|s: SafeAnswer| #[trigger]
                safe_started(
                    request,
                    log@.qtype,
                    named(dotted(log@.qname)),
                    named(dotted(target@)),
                    s,
                ) && safe_proceeds(before, after, log@, target@, s, now, p);
            assert(writable(s.response@));
            if let Some(q) = s.target_query {
                let name = canonical_name(target@);
                let found = choose|found: Resolution| #[trigger]
                    cache_resolved(before, after, name, q@, log@.qtype, now, found) && progressed(
                        q@,
                        found,
                        log@,
                        Some(s.response@),
                        p,
                    );
                lemma_progress_writable(
                    before,
                    after,
                    name,
                    q@,
                    log@.qtype,
                    now,
                    found,
                    log@,
                    Some(s.response@),
                    p,
                    lookup,
                    a,
                );
            }
        },
    }
}

/// Where every upstream failed, a query that waited gets SERVFAIL; within a
/// safe-search answer the CNAME stays.
pub proof fn law_upstream_failure_is_servfail(p: Pending, a: Answer)
    requires
        resumed(p, None, a),
    ensures
        a.response@.metadata.response_code == SERV_FAIL,
        p.safe is None ==> a.log@.source == ResponseSource::Failed,
        p.safe is Some ==> a.response@.answers == p.safe->0@.answers,
{
}

} // verus!
