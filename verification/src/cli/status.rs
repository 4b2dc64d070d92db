//! The counters that a daemon publishes next to its heartbeat, and what
//! `status` makes of both.
//!
//! The counters are one JSON text. serde_json reads it; where in the text each
//! of them stands is said here, as a JSON pointer.
use vstd::prelude::*;

use crate::cli::{absent_text, health_of, judge_daemon, lines_of, running_text, running_words};
use crate::cli::{stopped_text, stopped_words, Health, UpstreamLine, UpstreamV};
use crate::db::{DaemonStats, Heartbeat};
use crate::text::{decimal, decimal_of, opt_text};

verus! {

/// Where the number of queries stands that no upstream has answered since one
/// last did.
pub const STUCK_AT: &'static str = "/consecutive_all_failed";

/// Where the number of queries stands that were resolved.
pub const RESOLVED_AT: &'static str = "/resolved";

/// Where the number of queries stands that no upstream answered.
pub const ALL_FAILED_AT: &'static str = "/all_failed_total";

/// Where the list of upstreams stands.
pub const UPSTREAMS_AT: &'static str = "/upstreams";

/// The number at a place in a JSON text, as serde_json reads it.
pub uninterp spec fn json_number(text: Seq<char>, at: Seq<char>) -> Option<u64>;

/// `from_str`, `Value::pointer` and `Value::as_u64` of serde_json. The result
/// is a function of the arguments; `None` where the text is no JSON, nothing
/// stands there, or something else than a number that fits.
#[verifier::external_body]
fn number_at(text: &str, at: &str) -> (r: Option<u64>)
    ensures
        r == json_number(text@, at@),
{
    serde_json::from_str::<serde_json::Value>(text).ok()?.pointer(at)?.as_u64()
}

/// The string at a place in a JSON text, as serde_json reads it.
pub uninterp spec fn json_text(text: Seq<char>, at: Seq<char>) -> Option<Seq<char>>;

/// `from_str`, `Value::pointer` and `Value::as_str` of serde_json. The result
/// is a function of the arguments; `None` where the text is no JSON, nothing
/// stands there, or something else than a string.
#[verifier::external_body]
fn text_at(text: &str, at: &str) -> (r: Option<String>)
    ensures
        opt_text(r) == json_text(text@, at@),
{
    let value = serde_json::from_str::<serde_json::Value>(text).ok()?;
    Some(value.pointer(at)?.as_str()?.to_string())
}

/// What stands at a place in a JSON text, as serde_json writes it again.
pub uninterp spec fn json_shown(text: Seq<char>, at: Seq<char>) -> Seq<char>;

/// `from_str`, `Value::pointer` and the `Display` of `Value` of serde_json. The
/// result is a function of the arguments; that of a null where the text is no
/// JSON or nothing stands there.
#[verifier::external_body]
fn shown_at(text: &str, at: &str) -> (r: String)
    ensures
        r@ == json_shown(text@, at@),
{
    let value = serde_json::from_str::<serde_json::Value>(text).unwrap_or_default();
    value.pointer(at).unwrap_or(&serde_json::Value::Null).to_string()
}

/// The length of the list at a place in a JSON text, as serde_json reads it.
pub uninterp spec fn json_length(text: Seq<char>, at: Seq<char>) -> Option<nat>;

/// `from_str`, `Value::pointer` and `Value::as_array` of serde_json. The result
/// is a function of the arguments; `None` where the text is no JSON, nothing
/// stands there, or something else than a list.
#[verifier::external_body]
fn length_at(text: &str, at: &str) -> (r: Option<usize>)
    ensures
        match r {
            Some(n) => json_length(text@, at@) == Some(n as nat),
            None => json_length(text@, at@) is None,
        },
{
    let value = serde_json::from_str::<serde_json::Value>(text).ok()?;
    Some(value.pointer(at)?.as_array()?.len())
}

/// Where a field of an upstream stands.
pub open spec fn field_of(i: nat, field: Seq<char>) -> Seq<char> {
    UPSTREAMS_AT@ + "/"@ + decimal(i) + "/"@ + field
}

fn field_at(i: usize, field: &str) -> (r: String)
    ensures
        r@ == field_of(i as nat, field@),
{
    let mut out = UPSTREAMS_AT.to_string();
    out.push_str("/");
    out.push_str(decimal_of(i as u64).as_str());
    out.push_str("/");
    out.push_str(field);
    out
}

/// What was published of one upstream.
pub open spec fn published_line(json: Seq<char>, i: nat) -> UpstreamV {
    UpstreamV {
        url: json_text(json, field_of(i, "url"@)),
        last_success_secs_ago: json_number(json, field_of(i, "last_success_secs_ago"@)),
        queries: json_shown(json, field_of(i, "queries"@)),
        failures: json_shown(json, field_of(i, "failures"@)),
        reconnects: json_shown(json, field_of(i, "reconnects"@)),
    }
}

/// What was published of every upstream, in order.
pub open spec fn published_lines(json: Seq<char>) -> Seq<UpstreamV> {
    match json_length(json, UPSTREAMS_AT@) {
        Some(n) => Seq::new(n, |i: int| published_line(json, i as nat)),
        None => seq![],
    }
}

/// Read what was published of one upstream.
pub fn read_line(json: &str, i: usize) -> (r: UpstreamLine)
    ensures
        r@ == published_line(json@, i as nat),
{
    UpstreamLine {
        url: text_at(json, field_at(i, "url").as_str()),
        last_success_secs_ago: number_at(json, field_at(i, "last_success_secs_ago").as_str()),
        queries: shown_at(json, field_at(i, "queries").as_str()),
        failures: shown_at(json, field_at(i, "failures").as_str()),
        reconnects: shown_at(json, field_at(i, "reconnects").as_str()),
    }
}

/// Read what was published of every upstream.
pub fn read_lines(json: &str) -> (r: Vec<UpstreamLine>)
    ensures
        lines_of(r@) == published_lines(json@),
{
    let n: usize = match length_at(json, UPSTREAMS_AT) {
        Some(n) => n,
        None => 0,
    };
    let ghost all = published_lines(json@);
    let mut out: Vec<UpstreamLine> = Vec::new();
    assert(all.len() == n);
    for i in 0..n
        invariant
            n == all.len(),
            all == published_lines(json@),
            lines_of(out@) == all.take(i as int),
    {
        let line = read_line(json, i);
        let ghost before = out@;
        out.push(line);
        assert(lines_of(out@) == lines_of(before).push(line@));
        assert(all.take(i + 1) == all.take(i as int).push(all[i as int]));
    }
    assert(all.take(n as int) == all);
    out
}

/// The published counters, each as JSON again; null where it is unknown.
pub struct Counters {
    pub upstreams: String,
    pub resolved: String,
    pub all_failed: String,
    pub stuck: String,
}

/// A published counter as JSON, null where nothing was published.
pub open spec fn counter(json: Option<Seq<char>>, at: Seq<char>) -> Seq<char> {
    match json {
        Some(json) => json_shown(json, at),
        None => "null"@,
    }
}

fn counter_at(json: Option<&str>, at: &str) -> (r: String)
    ensures
        r@ == counter(published(json), at@),
{
    match json {
        Some(json) => shown_at(json, at),
        None => "null".to_string(),
    }
}

/// The model of an optional text.
pub open spec fn published(json: Option<&str>) -> Option<Seq<char>> {
    match json {
        Some(json) => Some(json@),
        None => None,
    }
}

/// The counters to repeat in the machine-readable answer.
pub fn read_counters(json: Option<&str>) -> (r: Counters)
    ensures
        r.upstreams@ == counter(published(json), UPSTREAMS_AT@),
        r.resolved@ == counter(published(json), RESOLVED_AT@),
        r.all_failed@ == counter(published(json), ALL_FAILED_AT@),
        r.stuck@ == counter(published(json), STUCK_AT@),
{
    Counters {
        upstreams: counter_at(json, UPSTREAMS_AT),
        resolved: counter_at(json, RESOLVED_AT),
        all_failed: counter_at(json, ALL_FAILED_AT),
        stuck: counter_at(json, STUCK_AT),
    }
}

/// How many queries no upstream has answered since one last did, as published.
pub open spec fn stuck_of(json: Option<Seq<char>>) -> Option<u64> {
    match json {
        Some(json) => json_number(json, STUCK_AT@),
        None => None,
    }
}

fn read_stuck(json: Option<&str>) -> (r: Option<u64>)
    ensures
        r == stuck_of(published(json)),
{
    match json {
        Some(json) => number_at(json, STUCK_AT),
        None => None,
    }
}

/// Judge a daemon by the age of its heartbeat and by what it published.
pub fn judge_published(age: Option<i64>, json: Option<&str>, dropped_recent: Option<u64>) -> (r:
    Health)
    ensures
        r == health_of(age, stuck_of(published(json)), dropped_recent),
{
    judge_daemon(age, read_stuck(json), dropped_recent)
}

/// What `status` answers.
pub struct StatusReport {
    pub health: Health,
    /// Seconds since the last heartbeat.
    pub age: Option<i64>,
    /// The answer in words.
    pub text: String,
    pub counters: Counters,
}

/// The text that was published.
pub open spec fn json_of(stats: Option<&DaemonStats>) -> Option<Seq<char>> {
    match stats {
        Some(s) => Some(s.upstreams_json@),
        None => None,
    }
}

/// Events lost since start, as published.
pub open spec fn dropped_of(stats: Option<&DaemonStats>) -> Option<u64> {
    match stats {
        Some(s) => Some(s.log_events_dropped),
        None => None,
    }
}

/// Events lost since the previous sample, as published.
pub open spec fn recent_of(stats: Option<&DaemonStats>) -> Option<u64> {
    match stats {
        Some(s) => Some(s.log_events_dropped_recent),
        None => None,
    }
}

/// Seconds since the last heartbeat.
pub open spec fn age_of(hb: Option<&Heartbeat>, now: i64) -> Option<i64> {
    match hb {
        Some(hb) => Some((now - hb.updated_ts) as i64),
        None => None,
    }
}

/// What `status` says.
pub open spec fn status_words(
    hb: Option<&Heartbeat>,
    stats: Option<&DaemonStats>,
    now: i64,
) -> Seq<char> {
    let json = json_of(stats);
    match hb {
        None => "NOT running: no heartbeat recorded"@,
        Some(hb) => {
            let age = now - hb.updated_ts;
            if health_of(Some(age as i64), stuck_of(json), recent_of(stats)).running {
                let lines = match json {
                    Some(json) => published_lines(json),
                    None => seq![],
                };
                running_words(
                    *hb,
                    age,
                    lines,
                    stuck_of(json),
                    dropped_of(stats),
                    recent_of(stats),
                )
            } else {
                stopped_words(hb.pid, age)
            }
        },
    }
}

/// Answer `status` from the last heartbeat and the counters published next to
/// it. A daemon that never published counters has them unknown.
pub fn status_report(hb: Option<&Heartbeat>, stats: Option<&DaemonStats>, now: i64) -> (r:
    StatusReport)
    requires
        hb matches Some(h) ==> i64::MIN <= now - h.updated_ts <= i64::MAX,
    ensures
        r.age == age_of(hb, now),
        r.health == health_of(age_of(hb, now), stuck_of(json_of(stats)), recent_of(stats)),
        r.text@ == status_words(hb, stats, now),
        r.counters.upstreams@ == counter(json_of(stats), UPSTREAMS_AT@),
        r.counters.resolved@ == counter(json_of(stats), RESOLVED_AT@),
        r.counters.all_failed@ == counter(json_of(stats), ALL_FAILED_AT@),
        r.counters.stuck@ == counter(json_of(stats), STUCK_AT@),
{
    let (json, dropped, recent): (Option<&str>, Option<u64>, Option<u64>) = match stats {
        Some(s) => (
            Some(s.upstreams_json.as_str()),
            Some(s.log_events_dropped),
            Some(s.log_events_dropped_recent),
        ),
        None => (None, None, None),
    };
    let age: Option<i64> = match hb {
        Some(hb) => Some(now - hb.updated_ts),
        None => None,
    };
    let health = judge_published(age, json, recent);
    let text = match hb {
        None => absent_text(),
        Some(hb) => {
            let age: i64 = now - hb.updated_ts;
            if health.running {
                let lines = match json {
                    Some(json) => read_lines(json),
                    None => Vec::new(),
                };
                assert(json is None ==> lines_of(lines@) == Seq::<UpstreamV>::empty());
                running_text(hb, age, &lines, read_stuck(json), dropped, recent)
            } else {
                stopped_text(hb.pid, age)
            }
        },
    };
    StatusReport { health, age, text, counters: read_counters(json) }
}

} // verus!
