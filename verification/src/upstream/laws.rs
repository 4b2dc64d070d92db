//! What holds of connections over their whole life.
use vstd::prelude::*;

use crate::upstream::{first_step, second_step, usable, Acquire, Connection, SendOutcome};
use crate::upstream::{SendStep, MAX_REBUILD_HOLDDOWN_MS, MAX_RECONNECT_BACKOFF_MS};
use crate::upstream::MIN_RECONNECT_BACKOFF_MS;

verus! {

/// A connection that answered and then died is replaced within the query that
/// notices: a repair is due at once, it builds whatever the time, and what it
/// builds is another generation.
pub proof fn law_replaced_within_a_query(
    c: Connection,
    ts: i64,
    err: String,
    now: u64,
    built_at: u64,
)
    requires
        c.wf(),
        c.connected,
    ensures
        ({
            let dead = c.answered(ts).settled(c.generation, SendStep::Retry { first_err: err }, ts);
            let next = dead.rebuilt(true, built_at);
            &&& dead.repairing
            &&& dead.offers(now) == Acquire::AwaitRepair
            &&& !dead.connected && !dead.backing_off(built_at)
            &&& next.offers(now) == (Acquire::Use { generation: next.generation })
            &&& next.generation != c.generation
        }),
{
}

/// A query that finds out late about a dead transport leaves its replacement
/// alone.
pub proof fn law_replacement_survives(c: Connection, now: u64, err: String, ts: i64)
    requires
        c.wf(),
    ensures
        c.rebuilt(true, now).settled(c.generation, SendStep::Retry { first_err: err }, ts) == c.rebuilt(
            true,
            now,
        ),
        c.rebuilt(true, now).dropped(c.generation) == c.rebuilt(true, now),
{
}

/// No handshake per query: after a build, failed or followed by no answer, the
/// next one is at least the shortest backoff away.
pub proof fn law_builds_spaced(c: Connection, built: bool, now: u64, t: u64)
    requires
        c.wf(),
        now <= t < now + MIN_RECONNECT_BACKOFF_MS,
        now + MIN_RECONNECT_BACKOFF_MS <= u64::MAX,
    ensures
        ({
            let next = c.rebuilt(built, now);
            next.dropped(next.generation).backing_off(t)
        }),
{
}

/// What an outage earned does not hold down a connection that works again: a
/// built connection can be replaced after the holddown, however far the
/// ladder was climbed.
pub proof fn law_recovery_not_held_down(c: Connection, now: u64, t: u64)
    requires
        c.wf(),
        t >= now + MAX_REBUILD_HOLDDOWN_MS,
    ensures
        !c.rebuilt(true, now).backing_off(t),
        c.rebuilt(true, now).backoff_ms <= MAX_REBUILD_HOLDDOWN_MS,
{
}

/// A failing upstream is retried after the longest backoff at the latest.
pub proof fn law_retried(c: Connection, now: u64, t: u64)
    requires
        c.wf(),
        t >= now + MAX_RECONNECT_BACKOFF_MS,
    ensures
        !c.rebuilt(false, now).backing_off(t),
{
}

/// The state after a number of builds that fail.
pub open spec fn climbed(c: Connection, times: Seq<u64>) -> Connection
    decreases times.len(),
{
    if times.len() == 0 {
        c
    } else {
        climbed(c, times.drop_last()).rebuilt(false, times.last())
    }
}

/// The shortest backoff doubled some times.
pub open spec fn doubled(n: nat) -> nat
    decreases n,
{
    if n == 0 {
        MIN_RECONNECT_BACKOFF_MS as nat
    } else {
        2 * doubled((n - 1) as nat)
    }
}

/// Each failed build doubles the backoff, up to the longest.
pub proof fn law_ladder(c: Connection, times: Seq<u64>)
    requires
        c.backoff_ms == MIN_RECONNECT_BACKOFF_MS,
    ensures
        climbed(c, times).wf(),
        climbed(c, times).backoff_ms == if doubled(times.len()) <= MAX_RECONNECT_BACKOFF_MS {
            doubled(times.len())
        } else {
            MAX_RECONNECT_BACKOFF_MS as nat
        },
    decreases times.len(),
{
    if times.len() > 0 {
        law_ladder(c, times.drop_last());
    }
}

/// A query is counted once: an answer ends the streak of failures, a failure
/// is one failure, and a retry is neither yet.
pub proof fn law_counted_once(c: Connection, generation: u64, step: SendStep, ts: i64)
    ensures
        ({
            let next = c.settled(generation, step, ts);
            match step {
                SendStep::Accept => next.failures == c.failures && next.consecutive_failures == 0
                    && next.last_success_ts == ts,
                SendStep::Fail { .. } => next.failures == c.failures.wrapping_add(1)
                    && next.consecutive_failures == c.consecutive_failures.wrapping_add(1)
                    && next.last_success_ts == c.last_success_ts,
                SendStep::Retry { .. } => next.failures == c.failures && next.consecutive_failures
                    == c.consecutive_failures && next.last_success_ts == c.last_success_ts,
            }
        }),
{
}

/// A query is retried at most once: the second send never asks for another.
pub proof fn law_one_retry(
    label: Seq<char>,
    code: Seq<char>,
    first_err: Seq<char>,
    o: SendOutcome,
    s: SendStep,
)
    requires
        second_step(label, code, first_err, o, s),
    ensures
        s is Accept || s is Fail,
{
}

/// One bad answer does not condemn the connection: it stays as it was, up to
/// the counters.
pub proof fn law_bad_answer_keeps_connection(
    c: Connection,
    generation: u64,
    label: Seq<char>,
    code: Seq<char>,
    first_err: Seq<char>,
    o: SendOutcome,
    s: SendStep,
    ts: i64,
)
    requires
        first_step(label, code, o, s) || second_step(label, code, first_err, o, s),
        o is Answered || o is Query,
    ensures
        c.settled(generation, s, ts).connected == c.connected,
        c.settled(generation, s, ts).generation == c.generation,
        c.settled(generation, s, ts).repairing == c.repairing,
{
}

/// An upstream that only answers SERVFAIL, REFUSED or NOTIMP counts as failing,
/// not as healthy.
pub proof fn law_unusable_answer_fails(
    c: Connection,
    generation: u64,
    label: Seq<char>,
    code: Seq<char>,
    first_err: Seq<char>,
    response_code: u16,
    s: SendStep,
    ts: i64,
)
    requires
        !usable(response_code),
        first_step(label, code, SendOutcome::Answered(response_code), s) || second_step(
            label,
            code,
            first_err,
            SendOutcome::Answered(response_code),
            s,
        ),
    ensures
        c.settled(generation, s, ts).failures == c.failures.wrapping_add(1),
        c.settled(generation, s, ts).consecutive_failures == c.consecutive_failures.wrapping_add(1),
        c.settled(generation, s, ts).last_success_ts == c.last_success_ts,
{
}

/// A silent connection goes: the hang of one query poisons every query on it.
pub proof fn law_silence_condemns(
    c: Connection,
    label: Seq<char>,
    code: Seq<char>,
    s: SendStep,
    ts: i64,
)
    requires
        first_step(label, code, SendOutcome::TimedOut, s),
    ensures
        !c.settled(c.generation, s, ts).connected,
        c.settled(c.generation, s, ts).repairing,
{
}

} // verus!
