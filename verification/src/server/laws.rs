//! What holds of the pipeline as a whole.
use vstd::prelude::*;

use crate::cache::laws::{law_fresh_answer, law_stale_answer};
use crate::cache::{aged, cached_response, effective_ttl, elapsed_secs, entry_for, inserted};
use crate::cache::{key_text, law_key_text_injective, looked_up, with_ttl, CacheV, KeyV, STALE_TTL_SECS, STALE_WINDOW_SECS};
use crate::db::ResponseSource;
use crate::filter::engine::{matchable, some_applies, verdict_holds, Engine};
use crate::filter::laws::law_verdict_determined;
use crate::filter::parse::normalized;
use crate::filter::{RuleAction, Verdict};
use crate::ip::{Ip, Net};
use crate::message::{plain_record, MessageType, MessageV, RecordV, NX_DOMAIN, REFUSED, SERV_FAIL};
use crate::message::TYPE_ANY;
use crate::safesearch::{rewritten, SafeSearch};
use crate::server::{allowed, block_response, block_soa, cache_key, filtered_step, log_start, planned};
use crate::server::{resolved_from_cache, restamped, skeleton, Resolution, Step};
use crate::server::{frame_length, framed, landed, leads, led};
use crate::server::{BLOCK_SOA_TTL, MAX_IN_FLIGHT_QUERIES};
use crate::wire::{be32, labels_wire};

verus! {

/// Every synthesized response echoes id, question and RD, sets RA, and is a
/// response.
pub proof fn law_skeleton_echoes(request: MessageV, response_code: u16)
    ensures
        ({
            let r = skeleton(request, response_code);
            &&& r.metadata.id == request.metadata.id
            &&& r.queries == request.queries
            &&& r.metadata.recursion_desired == request.metadata.recursion_desired
            &&& r.metadata.recursion_available
            &&& r.metadata.message_type == MessageType::Response
            &&& r.metadata.response_code == response_code
        }),
{
}

/// So does every answer taken from the cache or an upstream, whatever question
/// it came with.
pub proof fn law_restamped_echoes(msg: MessageV, request: MessageV)
    ensures
        ({
            let r = restamped(msg, request);
            &&& r.metadata.id == request.metadata.id
            &&& r.queries == request.queries
            &&& r.metadata.recursion_desired == request.metadata.recursion_desired
            &&& r.metadata.recursion_available
            &&& r.metadata.message_type == MessageType::Response
            &&& r.metadata.response_code == msg.metadata.response_code
        }),
{
}

/// A client that sent no OPT gets none, one that sent an OPT gets one, and the
/// DO bit in it is the client's own.
pub proof fn law_opt_mirrors_client(msg: MessageV, request: MessageV, response_code: u16)
    ensures
        skeleton(request, response_code).edns is Some == request.edns is Some,
        restamped(msg, request).edns is Some == request.edns is Some,
        skeleton(request, response_code).wants_dnssec() == request.wants_dnssec(),
        restamped(msg, request).wants_dnssec() == request.wants_dnssec(),
{
}

/// No record but those a plain client may see.
pub open spec fn all_plain(s: Seq<RecordV>, asked: u16) -> bool {
    forall|i: int| 0 <= i < s.len() ==> plain_record(asked, #[trigger] s[i])
}

proof fn lemma_filter_all(s: Seq<RecordV>, asked: u16)
    ensures
        all_plain(s.filter(|r: RecordV| plain_record(asked, r)), asked),
    decreases s.len(),
{
    reveal(Seq::filter);
    if s.len() > 0 {
        lemma_filter_all(s.drop_last(), asked);
    }
}

/// A client with a clear DO bit never sees DNSSEC records it did not ask for
/// by the type in its question; one with the bit set gets every record.
pub proof fn law_dnssec_only_on_request(msg: MessageV, request: MessageV)
    ensures
        ({
            let r = restamped(msg, request);
            &&& request.wants_dnssec() ==> r.answers == msg.answers && r.authorities
                == msg.authorities && r.additionals == msg.additionals
            &&& !request.wants_dnssec() && request.queries.len() > 0 ==> {
                let asked = request.queries[0].query_type;
                all_plain(r.answers, asked) && all_plain(r.authorities, asked) && all_plain(
                    r.additionals,
                    asked,
                )
            }
        }),
{
    if request.queries.len() > 0 {
        let asked = request.queries[0].query_type;
        lemma_filter_all(msg.answers, asked);
        lemma_filter_all(msg.authorities, asked);
        lemma_filter_all(msg.additionals, asked);
    }
}

/// The synthetic SOA is owned by `sumidero.invalid.`, and its data is that name,
/// `nobody.sumidero.invalid.`, then serial, refresh, retry, expire and minimum.
pub proof fn law_block_soa()
    ensures
        block_soa().name.text == "sumidero"@ + "."@ + "invalid"@ + "."@,
        block_soa().name.wire == labels_wire(seq!["sumidero"@, "invalid"@]),
        block_soa().data == labels_wire(seq!["sumidero"@, "invalid"@]) + labels_wire(
            seq!["nobody"@, "sumidero"@, "invalid"@],
        ) + be32(1) + be32(3600) + be32(900) + be32(604800) + be32(BLOCK_SOA_TTL),
{
    reveal_strlit("sumidero.invalid.");
    reveal_strlit("sumidero");
    reveal_strlit("invalid");
    reveal_strlit("nobody");
    reveal_strlit(".");
    reveal_with_fuel(labels_wire, 4);
    let two = seq!["sumidero"@, "invalid"@];
    let three = seq!["nobody"@, "sumidero"@, "invalid"@];
    assert(three.drop_first() =~= two);
    assert(two.drop_first() =~= seq!["invalid"@]);
    assert(seq!["invalid"@].drop_first() =~= Seq::<Seq<char>>::empty());
    assert(block_soa().name.text =~= "sumidero"@ + "."@ + "invalid"@ + "."@);
    assert(block_soa().name.wire =~= labels_wire(two));
    assert(be32(1) =~= seq![0u8, 0, 0, 1] && be32(3600) =~= seq![0u8, 0, 14, 16] && be32(900)
        =~= seq![0u8, 0, 3, 132] && be32(604800) =~= seq![0u8, 9, 58, 128] && be32(300) =~= seq![
        0u8,
        0,
        1,
        44,
    ]) by {
        assert((1u32 >> 16) as u16 == 0 && (1u32 & 0xffff) as u16 == 1) by (bit_vector);
        assert((3600u32 >> 16) as u16 == 0 && (3600u32 & 0xffff) as u16 == 3600) by (bit_vector);
        assert((900u32 >> 16) as u16 == 0 && (900u32 & 0xffff) as u16 == 900) by (bit_vector);
        assert((604800u32 >> 16) as u16 == 9 && (604800u32 & 0xffff) as u16 == 14976)
            by (bit_vector);
        assert((300u32 >> 16) as u16 == 0 && (300u32 & 0xffff) as u16 == 300) by (bit_vector);
        assert((0u16 >> 8) as u8 == 0 && (0u16 & 0xff) as u8 == 0 && (1u16 >> 8) as u8 == 0
            && (1u16 & 0xff) as u8 == 1 && (3600u16 >> 8) as u8 == 14 && (3600u16 & 0xff) as u8
            == 16 && (900u16 >> 8) as u8 == 3 && (900u16 & 0xff) as u8 == 132) by (bit_vector);
        assert((9u16 >> 8) as u8 == 0 && (9u16 & 0xff) as u8 == 9 && (14976u16 >> 8) as u8 == 58
            && (14976u16 & 0xff) as u8 == 128 && (300u16 >> 8) as u8 == 1 && (300u16 & 0xff) as u8
            == 44) by (bit_vector);
    }
    assert(block_soa().data =~= labels_wire(two) + labels_wire(three) + be32(1) + be32(3600)
        + be32(900) + be32(604800) + be32(BLOCK_SOA_TTL));
}

/// Past the cap every query is answered with SERVFAIL at once.
pub proof fn law_overload_shed(
    request: MessageV,
    client: Ip,
    ts: i64,
    in_flight: nat,
    allow: Seq<Net>,
    engine: Engine,
    safe: SafeSearch,
    s: Step,
)
    requires
        planned(request, client, ts, in_flight, allow, engine, safe, s),
        in_flight >= MAX_IN_FLIGHT_QUERIES,
    ensures
        s matches Step::Reply { response, .. } && response@ == skeleton(request, SERV_FAIL),
{
}

/// A client outside the allowlist is refused, whatever it asks, and so is any
/// `ANY` query.
pub proof fn law_refused(
    request: MessageV,
    client: Ip,
    ts: i64,
    in_flight: nat,
    allow: Seq<Net>,
    engine: Engine,
    safe: SafeSearch,
    s: Step,
)
    requires
        planned(request, client, ts, in_flight, allow, engine, safe, s),
        in_flight < MAX_IN_FLIGHT_QUERIES,
        !allowed(allow, client) || (request.queries.len() > 0 && request.queries[0].query_type
            == TYPE_ANY),
    ensures
        s matches Step::Reply { response, .. } && response@ == skeleton(request, REFUSED)
            && response@.answers.len() == 0,
{
}

/// An admitted query for a blocked name is answered with NXDOMAIN and never
/// leaves the pipeline; a name with an exception, or without a matching rule,
/// is never answered so.
pub proof fn law_blocked_iff_filtered(
    request: MessageV,
    client: Ip,
    ts: i64,
    in_flight: nat,
    allow: Seq<Net>,
    engine: Engine,
    safe: SafeSearch,
    s: Step,
)
    requires
        planned(request, client, ts, in_flight, allow, engine, safe, s),
        in_flight < MAX_IN_FLIGHT_QUERIES,
        request.queries.len() > 0,
        allowed(allow, client),
        request.queries[0].query_type != TYPE_ANY,
    ensures
        ({
            let n = normalized(normalized(request.queries[0].name.text));
            let block = matchable(n) && some_applies(engine@.rules, RuleAction::Block, n)
                && !some_applies(engine@.rules, RuleAction::Except, n);
            &&& block ==> (s matches Step::Reply { response, blocked, .. } && response@
                == block_response(request) && response@.metadata.response_code == NX_DOMAIN
                && blocked)
            &&& !block ==> s is SafeSearch || s is Resolve
        }),
{
    let log = log_start(ts, client, request, ResponseSource::Synth);
    let v = choose|v: Verdict<'_>| #[trigger]
        verdict_holds(engine@.rules, log.qname, v) && filtered_step(
            request,
            log,
            v,
            rewritten(safe@, log.qname),
            s,
        );
    law_verdict_determined(engine@.rules, log.qname, v);
}

/// An answer from an upstream that was cached serves the next query for the
/// same name, type and class without an upstream, with the records aged by the
/// time that passed.
pub proof fn law_cached_answer_reused(
    c: CacheV,
    name: Seq<char>,
    request: MessageV,
    qtype: u16,
    answer: MessageV,
    wire: Option<nat>,
    at: u64,
    now: u64,
    r: Resolution,
)
    requires
        c.capacity > 0,
        elapsed_secs(at, now) < effective_ttl(answer),
        ({
            let k = cache_key(name, request, qtype);
            let after = inserted(c, entry_for(k, answer, wire, at));
            resolved_from_cache(Some(name), request, qtype, looked_up(after, k, now), r)
        }),
    ensures
        r matches Resolution::Done { response, source } && source == ResponseSource::Cache
            && response@ == restamped(
            cached_response(
                answer.metadata.response_code,
                aged(answer.answers, elapsed_secs(at, now)),
                aged(answer.authorities, elapsed_secs(at, now)),
            ),
            request,
        ),
{
    let k = cache_key(name, request, qtype);
    law_fresh_answer(c, k, answer, wire, at, now);
}

/// One whose time is up is served stale for the window, and its key is handed
/// on to be refreshed.
pub proof fn law_stale_answer_served(
    c: CacheV,
    name: Seq<char>,
    request: MessageV,
    qtype: u16,
    answer: MessageV,
    wire: Option<nat>,
    at: u64,
    now: u64,
    r: Resolution,
)
    requires
        c.capacity > 0,
        effective_ttl(answer) <= elapsed_secs(at, now) < effective_ttl(answer) + STALE_WINDOW_SECS,
        ({
            let k = cache_key(name, request, qtype);
            let after = inserted(c, entry_for(k, answer, wire, at));
            resolved_from_cache(Some(name), request, qtype, looked_up(after, k, now), r)
        }),
    ensures
        r matches Resolution::Stale { response, key } && key@ == cache_key(name, request, qtype)
            && response@ == restamped(
            cached_response(
                answer.metadata.response_code,
                with_ttl(answer.answers, STALE_TTL_SECS),
                with_ttl(answer.authorities, STALE_TTL_SECS),
            ),
            request,
        ),
{
    let k = cache_key(name, request, qtype);
    law_stale_answer(c, k, answer, wire, at, now);
}

/// Whether each of some queries for keys would lead, one after the other.
pub open spec fn leaders(under_way: Set<Seq<char>>, keys: Seq<KeyV>) -> Seq<bool>
    decreases keys.len(),
{
    if keys.len() == 0 {
        seq![]
    } else {
        let before = keys.drop_last();
        leaders(under_way, before).push(leads(taken(under_way, before), keys.last()))
    }
}

/// The keys under way after some queries.
pub open spec fn taken(under_way: Set<Seq<char>>, keys: Seq<KeyV>) -> Set<Seq<char>>
    decreases keys.len(),
{
    if keys.len() == 0 {
        under_way
    } else {
        led(taken(under_way, keys.drop_last()), keys.last())
    }
}

/// Concurrent misses share one lookup: of the queries for one key, none of
/// which is over, at most one leads.
pub proof fn law_single_flight(under_way: Set<Seq<char>>, keys: Seq<KeyV>, i: int, j: int)
    requires
        0 <= i < j < keys.len(),
        keys[i] == keys[j],
    ensures
        leaders(under_way, keys).len() == keys.len(),
        !leaders(under_way, keys)[j],
    decreases keys.len(),
{
    lemma_leaders(under_way, keys);
    let before = keys.drop_last();
    if j == keys.len() - 1 {
        lemma_taken(under_way, before, i);
        assert(before[i] == keys[i]);
    } else {
        assert(before[i] == keys[i] && before[j] == keys[j]);
        law_single_flight(under_way, before, i, j);
    }
}

proof fn lemma_leaders(under_way: Set<Seq<char>>, keys: Seq<KeyV>)
    ensures
        leaders(under_way, keys).len() == keys.len(),
    decreases keys.len(),
{
    if keys.len() > 0 {
        lemma_leaders(under_way, keys.drop_last());
    }
}

proof fn lemma_taken(under_way: Set<Seq<char>>, keys: Seq<KeyV>, i: int)
    requires
        0 <= i < keys.len(),
    ensures
        taken(under_way, keys).contains(key_text(keys[i])),
    decreases keys.len(),
{
    if i < keys.len() - 1 {
        lemma_taken(under_way, keys.drop_last(), i);
    }
}

/// What is framed is read back: the prefix gives the length of the body, which
/// follows it.
pub proof fn law_tcp_frame_read_back(body: Seq<u8>)
    requires
        body.len() <= u16::MAX,
    ensures
        ({
            let frame = framed(body);
            &&& frame.len() == body.len() + 2
            &&& frame_length(frame[0], frame[1]) == body.len()
            &&& frame.skip(2) == body
            &&& 256 * frame[0] + frame[1] == body.len()
        }),
{
    let n = body.len() as u16;
    assert((((n >> 8) as u8 as u16) << 8) | ((n & 0xff) as u8 as u16) == n) by (bit_vector);
    let frame = framed(body);
    assert((n >> 8) as u8 == n / 256 && (n & 0xff) as u8 == n % 256) by (bit_vector);
    assert(frame[0] == (n >> 8) as u8 && frame[1] == (n & 0xff) as u8);
    assert(frame.skip(2) =~= body);
}

/// A key is led once until its lookup is over, and then can be led again; other
/// keys make no difference to it.
pub proof fn law_flights(under_way: Set<Seq<char>>, key: KeyV, other: KeyV)
    ensures
        !leads(led(under_way, key), key),
        leads(landed(under_way, key), key),
        other != key ==> leads(led(under_way, key), other) == leads(under_way, other),
        other != key ==> leads(landed(under_way, key), other) == leads(under_way, other),
        leads(Set::empty(), key),
{
    if key_text(other) == key_text(key) {
        law_key_text_injective(other, key);
    }
}

} // verus!
