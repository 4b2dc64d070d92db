//! What upstreams are asked, what becomes of their replies, and what a
//! connection's state comes to.
use vstd::prelude::*;

use crate::ip::{literal, Ip};
use crate::message::MessageV;
use crate::upstream::{acquire_words, check_pool, failure_lines, first_step, first_v4, kind_of, outgoing};
use crate::upstream::{preferred, second_step, usable, Acquire, Connection, KindV, PoolCounters};
use crate::text::texts;
use crate::upstream::{fatal, found_by, Bootstrap, Error, SendOutcome, SendStep, TransportError, UrlV};

verus! {

/// A query goes out with RD and the DO bit set, and otherwise as it is: the
/// same id, question and sections, and the same OPT where it had one. One
/// without an OPT gets a plain one that offers 512 bytes.
pub proof fn law_sent_as_asked(query: MessageV)
    ensures
        ({
            let q = outgoing(query);
            &&& q.metadata.recursion_desired
            &&& q.metadata.id == query.metadata.id
            &&& q.metadata.message_type == query.metadata.message_type
            &&& q.metadata.op_code == query.metadata.op_code
            &&& q.metadata.authoritative == query.metadata.authoritative
            &&& q.metadata.truncation == query.metadata.truncation
            &&& q.metadata.recursion_available == query.metadata.recursion_available
            &&& q.metadata.authentic_data == query.metadata.authentic_data
            &&& q.metadata.checking_disabled == query.metadata.checking_disabled
            &&& q.metadata.response_code == query.metadata.response_code
            &&& q.queries == query.queries
            &&& q.answers == query.answers
            &&& q.authorities == query.authorities
            &&& q.additionals == query.additionals
            &&& q.signature == query.signature
            &&& q.edns is Some && q.edns->0.dnssec_ok
            &&& match query.edns {
                Some(e) => q.edns->0.max_payload == e.max_payload && q.edns->0.version == e.version
                    && q.edns->0.z == e.z && q.edns->0.options == e.options,
                None => q.edns->0.max_payload == 512 && q.edns->0.version == 0 && q.edns->0.z == 0
                    && q.edns->0.options.len() == 0,
            }
        }),
{
}

/// Every response is an answer but SERVFAIL, NOTIMP and REFUSED, of which the
/// client hears nothing.
pub proof fn law_usable(response_code: u16)
    ensures
        usable(response_code) == (response_code != 2 && response_code != 4 && response_code != 5),
{
}

/// What the first send of a query comes to. An answer is accepted. An
/// unusable one and a failure of this query alone fail it, and the connection
/// stays; silence fails it, and the connection goes; a dead connection goes
/// too, and the query is sent again.
pub proof fn law_first_send(label: Seq<char>, code: Seq<char>, o: SendOutcome, s: SendStep)
    requires
        first_step(label, code, o, s),
    ensures
        match o {
            SendOutcome::Answered(c) => if c == 2 || c == 4 || c == 5 {
                s matches SendStep::Fail { err, invalidate } && !invalidate && err@ == label
                    + ": upstream answered "@ + code
            } else {
                s is Accept
            },
            SendOutcome::Query(e) => s matches SendStep::Fail { err, invalidate } && !invalidate
                && err@ == e@,
            SendOutcome::Fatal(e) => s matches SendStep::Retry { first_err } && first_err@ == e@,
            SendOutcome::TimedOut => s matches SendStep::Fail { err, invalidate } && invalidate
                && err@ == label + ": timed out"@,
        },
{
}

/// What the second send comes to: the same, except that a dead connection now
/// fails the query, and that every failure tells the first one too.
pub proof fn law_second_send(
    label: Seq<char>,
    code: Seq<char>,
    first_err: Seq<char>,
    o: SendOutcome,
    s: SendStep,
)
    requires
        second_step(label, code, first_err, o, s),
    ensures
        match o {
            SendOutcome::Answered(c) => if c == 2 || c == 4 || c == 5 {
                s matches SendStep::Fail { err, invalidate } && !invalidate && err@ == first_err
                    + "; after reconnect: "@ + (label + ": upstream answered "@ + code)
            } else {
                s is Accept
            },
            SendOutcome::Query(e) => s matches SendStep::Fail { err, invalidate } && !invalidate
                && err@ == first_err + "; after reconnect: "@ + e@,
            SendOutcome::Fatal(e) => s matches SendStep::Fail { err, invalidate } && invalidate
                && err@ == first_err + "; after reconnect: "@ + e@,
            SendOutcome::TimedOut => s matches SendStep::Fail { err, invalidate } && invalidate
                && err@ == first_err + "; after reconnect: "@ + (label + ": timed out"@),
        },
{
}

/// What a query hears that found no connection, after what it heard before.
pub proof fn law_unconnected(label: Seq<char>, first: Seq<char>)
    ensures
        acquire_words(label, None, true) == label + ": timed out waiting for reconnect"@,
        acquire_words(label, None, false) == label + ": disconnected, reconnect backing off"@,
        acquire_words(label, Some(first), true) == first + "; "@ + acquire_words(label, None, true),
        acquire_words(label, Some(first), false) == first + "; "@ + acquire_words(
            label,
            None,
            false,
        ),
{
}

/// Each failure is one more line.
pub proof fn law_failures_listed(errors: Seq<Seq<char>>, e: Seq<char>)
    ensures
        failure_lines(seq![]) == Seq::<char>::empty(),
        failure_lines(errors.push(e)) == failure_lines(errors) + "\n  - "@ + e,
{
    assert(errors.push(e).drop_last() =~= errors);
}

/// What a query finds: the transport that is installed, whatever the backoff;
/// without one a failure while a backoff window is open, and a repair to wait
/// for otherwise.
pub proof fn law_acquired(c: Connection, now: u64)
    ensures
        c.connected ==> c.offers(now) == (Acquire::Use { generation: c.generation }),
        !c.connected ==> (c.offers(now) == Acquire::BackingOff <==> c.next_attempt is Some && now
            < c.next_attempt->0),
        !c.connected ==> (c.offers(now) == Acquire::AwaitRepair <==> c.next_attempt is None || now
            >= c.next_attempt->0),
{
}

/// The counters that nothing but queries and repairs of their own touch.
pub open spec fn same_counts(a: Connection, b: Connection) -> bool {
    a.queries == b.queries && a.failures == b.failures && a.consecutive_failures
        == b.consecutive_failures && a.last_success_ts == b.last_success_ts
}

/// A build that succeeds installs a new generation and counts as a reconnect;
/// the next one waits for the backoff, five seconds at most, and the backoff
/// doubles up to that. One that fails installs nothing; the next one waits for
/// the whole backoff, which doubles up to half a minute.
pub proof fn law_built(c: Connection, now: u64)
    requires
        c.wf(),
        now <= 0xffff_ffff_ffff_0000,
    ensures
        ({
            let up = c.rebuilt(true, now);
            &&& up.connected
            &&& up.generation == c.generation.wrapping_add(1)
            &&& up.reconnects == c.reconnects.wrapping_add(1)
            &&& up.next_attempt is Some
            &&& c.backoff_ms <= 5000 ==> up.next_attempt->0 == now + c.backoff_ms
            &&& c.backoff_ms > 5000 ==> up.next_attempt->0 == now + 5000
            &&& 2 * c.backoff_ms <= 5000 ==> up.backoff_ms == 2 * c.backoff_ms
            &&& 2 * c.backoff_ms > 5000 ==> up.backoff_ms == 5000
            &&& up.repairing == c.repairing
            &&& same_counts(up, c)
        }),
        ({
            let down = c.rebuilt(false, now);
            &&& down.connected == c.connected
            &&& down.generation == c.generation
            &&& down.reconnects == c.reconnects
            &&& down.next_attempt == Some((now + c.backoff_ms) as u64)
            &&& 2 * c.backoff_ms <= 30000 ==> down.backoff_ms == 2 * c.backoff_ms
            &&& 2 * c.backoff_ms > 30000 ==> down.backoff_ms == 30000
            &&& down.repairing == c.repairing
            &&& same_counts(down, c)
        }),
{
}

/// After a send. An answer ends the failures in a row, the backoff and any
/// wait, and leaves the transport. A failure is counted. A transport that is
/// to go goes only where it is still the one that was used, and then a repair
/// is due; nothing else changes.
pub proof fn law_settled(c: Connection, generation: u64, s: SendStep, ts: i64)
    ensures
        ({
            let next = c.settled(generation, s, ts);
            let goes = match s {
                SendStep::Accept => false,
                SendStep::Fail { invalidate, .. } => invalidate,
                SendStep::Retry { .. } => true,
            };
            &&& next.connected == (c.connected && !(goes && c.generation == generation))
            &&& next.repairing == (c.repairing || goes && !next.connected)
            &&& next.generation == c.generation
            &&& next.queries == c.queries
            &&& next.reconnects == c.reconnects
            &&& s is Accept ==> next.backoff_ms == 500 && next.next_attempt is None
                && next.consecutive_failures == 0 && next.last_success_ts == ts && next.failures
                == c.failures
            &&& !(s is Accept) ==> next.backoff_ms == c.backoff_ms && next.next_attempt
                == c.next_attempt && next.last_success_ts == c.last_success_ts
            &&& s is Fail ==> next.failures == c.failures.wrapping_add(1)
                && next.consecutive_failures == c.consecutive_failures.wrapping_add(1)
            &&& s is Retry ==> next.failures == c.failures && next.consecutive_failures
                == c.consecutive_failures
        }),
{
}

/// A connection starts out installed, with nothing to wait for and nothing
/// counted; its backoff is half a second.
pub proof fn law_fresh_connection()
    ensures
        ({
            let c = Connection::fresh();
            &&& c.connected && c.next_attempt is None && !c.repairing
            &&& c.backoff_ms == 500
            &&& c.queries == 0 && c.failures == 0 && c.reconnects == 0
            &&& c.consecutive_failures == 0 && c.last_success_ts == 0
        }),
{
}

/// How long ago an upstream answered: unknown where it never did, and never
/// less than nothing.
pub proof fn law_success_age(c: Connection, now_ts: i64)
    ensures
        c.success_age(now_ts) is Some == (c.last_success_ts > 0),
        c.last_success_ts > 0 && now_ts >= c.last_success_ts ==> c.success_age(now_ts)->0
            + c.last_success_ts == now_ts,
        c.last_success_ts > 0 && now_ts < c.last_success_ts ==> c.success_age(now_ts)->0 == 0,
{
}

/// A query that some upstream answered is one more resolved, and ends the run
/// of unanswered ones; one that none answered lengthens that run.
pub proof fn law_pool_counts(p: PoolCounters)
    ensures
        p.answered().resolved == p.resolved.wrapping_add(1),
        p.answered().consecutive_all_failed == 0,
        p.answered().all_failed_total == p.all_failed_total,
        p.unanswered().resolved == p.resolved,
        p.unanswered().consecutive_all_failed == p.consecutive_all_failed.wrapping_add(1),
        p.unanswered().all_failed_total == p.all_failed_total.wrapping_add(1),
{
}

/// Which URLs are upstreams. `https` needs a host and a path other than `/`,
/// `quic` a host; nothing else is accepted, and no part is lost. The port is
/// the one given, else 443 and 853.
pub proof fn law_upstream_urls(raw: Seq<char>, p: UrlV)
    ensures
        ({
            let https = p.scheme == "https"@;
            let quic = p.scheme == "quic"@;
            let hosted = p.host is Some && p.host->0.len() > 0;
            let pathed = p.path.len() > 0 && p.path != "/"@;
            let r = kind_of(raw, Ok(p));
            &&& r is Ok == (hosted && (https && pathed || quic && !https))
            &&& r matches Ok(KindV::Https { host, port, path }) ==> https && Some(host) == p.host
                && path == p.path && (p.port is Some ==> Some(port) == p.port) && (p.port is None
                ==> port == 443)
            &&& r matches Ok(KindV::Quic { host, port }) ==> quic && Some(host) == p.host && (
            p.port is Some ==> Some(port) == p.port) && (p.port is None ==> port == 853)
        }),
{
}

/// A text that is no URL is no upstream; what is wrong is told.
pub proof fn law_no_url(raw: Seq<char>, e: Seq<char>)
    ensures
        kind_of(raw, Err(e)) == Err::<KindV, Seq<char>>(raw + ": "@ + e),
{
}

proof fn lemma_first_v4(addrs: Seq<Ip>, from: int)
    requires
        0 <= from <= addrs.len(),
    ensures
        from <= first_v4(addrs, from) <= addrs.len(),
        first_v4(addrs, from) < addrs.len() ==> addrs[first_v4(addrs, from)] is V4,
        forall|i: int| from <= i < first_v4(addrs, from) ==> addrs[i] is V6,
    decreases addrs.len() - from,
{
    if from < addrs.len() && !(addrs[from] is V4) {
        lemma_first_v4(addrs, from + 1);
    }
}

/// Of the addresses of a host the first IPv4 address is taken; without one the
/// first of all; nothing only where there is none.
pub proof fn law_preferred_address(addrs: Seq<Ip>, i: int)
    requires
        0 <= i < addrs.len(),
    ensures
        preferred(addrs) is Some,
        addrs[i] is V4 && (forall|j: int| 0 <= j < i ==> addrs[j] is V6) ==> preferred(addrs)
            == Some(addrs[i]),
        (forall|j: int| 0 <= j < addrs.len() ==> addrs[j] is V6) ==> preferred(addrs) == Some(
            addrs[0],
        ),
        preferred(seq![]) is None,
{
    lemma_first_v4(addrs, 0);
    let p = first_v4(addrs, 0);
    assert(first_v4(seq![], 0) == 0);
    if p < i {
        assert(addrs[p] is V4);
    }
}

/// Errors in words.
pub proof fn law_error_words(url: String, errs: Vec<String>)
    ensures
        Error::UnsupportedUrl(url).words() == "unsupported upstream URL: "@ + url@,
        Error::Init(url).words() == "upstream pool init failed: "@ + url@,
        Error::AllFailed(errs).words() == "all upstreams failed:"@ + failure_lines(texts(errs@)),
{
}

/// What is wrong with a URL.
pub proof fn law_url_complaints(raw: Seq<char>, p: UrlV)
    ensures
        ({
            let https = p.scheme == "https"@;
            let quic = p.scheme == "quic"@;
            let hosted = p.host is Some && p.host->0.len() > 0;
            let r = kind_of(raw, Ok(p));
            &&& (https || quic) && !hosted ==> r == Err::<KindV, Seq<char>>(raw + ": missing host"@)
            &&& https && hosted && (p.path.len() == 0 || p.path == "/"@) ==> r == Err::<
                KindV,
                Seq<char>,
            >(raw + ": https URL must include a path (e.g. /dns-query)"@)
            &&& !https && !quic ==> r == Err::<KindV, Seq<char>>(
                raw + ": unsupported scheme '"@ + p.scheme + "' (expected https or quic)"@,
            )
        }),
{
}

/// A repair is started once: while it is under way no other is due, and when it
/// is over one can be. It builds exactly where no transport is installed and no
/// backoff window is open. Neither starting nor ending it touches anything else,
/// and a query is counted and nothing else.
pub proof fn law_one_repair(c: Connection, now: u64)
    ensures
        c.triggered().repairing && !c.concluded().repairing,
        c.triggered() == (Connection { repairing: true, ..c }),
        c.triggered().concluded() == c.concluded(),
        c.builds(now) == (!c.connected && (c.next_attempt is None || now >= c.next_attempt->0)),
        c.queried().queries == c.queries.wrapping_add(1),
        c.queried() == (Connection { queries: c.queried().queries, ..c }),
{
}

/// A failure is about one query alone only where it is about one response:
/// everything else that a transport reports makes the connection useless.
pub proof fn law_fatal(e: TransportError)
    ensures
        fatal(e) == !(e is Dns || e is Proto || e is QueryCaseMismatch),
{
}

/// An upstream named by its address needs no lookup; any other needs somebody
/// to ask.
pub proof fn law_found_by(host: Seq<char>, bootstrap_ips: nat, ip: Ip)
    ensures
        literal(host) == Some(ip) ==> found_by(host, bootstrap_ips) == Some(Bootstrap::Literal(ip)),
        literal(host) is None && bootstrap_ips > 0 ==> found_by(host, bootstrap_ips) == Some(
            Bootstrap::Lookup,
        ),
        literal(host) is None && bootstrap_ips == 0 ==> found_by(host, bootstrap_ips) is None,
{
}

/// A pool is made exactly of at least one URL and a timeout above zero, and a
/// missing URL is told before a missing timeout.
pub proof fn law_pool(urls: usize, timeout_ms: u64, r: Result<(), Error>)
    requires
        call_ensures(check_pool, (urls, timeout_ms), r),
    ensures
        r is Ok == (urls >= 1 && timeout_ms >= 1),
        r is Err ==> r->Err_0 is Init,
        urls == 0 ==> r->Err_0->Init_0@ == "no upstream URLs configured"@,
        urls > 0 && timeout_ms == 0 ==> r->Err_0->Init_0@ == "timeout_ms must be > 0"@,
{
}

} // verus!
