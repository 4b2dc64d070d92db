//! What the commands say and the codes they exit with.
//!
//! | code | meaning |
//! |------|---------|
//! | 0 | success (for `explain`: name is not blocked) |
//! | 1 | runtime error |
//! | 2 | usage error |
//! | 3 | `explain`: name is blocked |
//! | 4 | `explain`: name matches an exception |
//! | 5 | daemon not running or heartbeat stale (`status`, `reload`) |
//! | 6 | refusing to overwrite an existing file (`init`, `migrate`) |
//! | 7 | `status`: daemon running but degraded |
pub mod laws;
pub mod status;

use vstd::prelude::*;

use crate::config::Profile;
use crate::db::{Heartbeat, QueryRecord, QueryV, Stats};
use crate::filter::engine::{decided_by, first_applies, matchable, some_applies, EntryV};
use crate::filter::parse::normalized;
use crate::filter::{RuleAction, Verdict};
use crate::ip::show::{ip_text, show_ip};
use crate::lists::LoadedLists;
use crate::text::{chars_of, debug_of, debug_text, decimal, decimal_of, is_alnum, join, joined};
use crate::text::{opt_text, str_eq, texts};

verus! {

/// Version of the machine-readable output.
pub const SCHEMA: &'static str = "v1";

/// A heartbeat older than this counts as a daemon that is not running.
pub const HEARTBEAT_FRESH_SECS: i64 = 150;

/// A number with its sign.
pub open spec fn signed_text(n: int) -> Seq<char> {
    if n < 0 {
        "-"@ + decimal((-n) as nat)
    } else {
        decimal(n as nat)
    }
}

fn show_signed(n: i64) -> (r: String)
    ensures
        r@ == signed_text(n as int),
{
    if n < 0 {
        let mut out = "-".to_string();
        out.push_str(crate::text::decimal_wide((-(n as i128)) as u128).as_str());
        out
    } else {
        decimal_of(n as u64)
    }
}

/// A character that a domain name on the command line may have.
pub open spec fn plausible_char(c: char) -> bool {
    is_alnum(c) || c == '-' || c == '_' || c == '.' || c == '*'
}

/// One to 254 such characters.
pub open spec fn plausible(d: Seq<char>) -> bool {
    0 < d.len() <= 254 && forall|i: int| 0 <= i < d.len() ==> plausible_char(#[trigger] d[i])
}

/// A cheap check, so that garbage is an error and not a confident "no-match".
pub fn plausible_domain(domain: &str) -> (r: bool)
    ensures
        r == plausible(domain@),
{
    let cs = chars_of(domain);
    let n: usize = cs.len();
    if n == 0 || n > 254 {
        return false;
    }
    for i in 0..n
        invariant
            n == cs@.len(),
            cs@ == domain@,
            0 < n <= 254,
            forall|j: int| 0 <= j < i ==> plausible_char(#[trigger] cs@[j]),
    {
        let c = cs[i];
        if !((c >= 'a' && c <= 'z') || (c >= 'A' && c <= 'Z') || (c >= '0' && c <= '9') || c == '-'
            || c == '_' || c == '.' || c == '*') {
            assert(!plausible_char(cs@[i as int]));
            return false;
        }
    }
    true
}

/// The complaint about a name that is not plausible.
pub fn implausible_message(domain: &str) -> (r: String)
    ensures
        r@ == debug_text(domain@) + " is not a plausible DNS name"@,
{
    let mut out = debug_of(domain);
    out.push_str(" is not a plausible DNS name");
    out
}

/// The warning that a verdict may not be the daemon's.
pub const STALE_WARNING: &'static str =
    "list hash differs from the daemon's heartbeat: the daemon may be filtering with a different rule set than this verdict";

/// What `explain` finds about a name.
pub struct Explanation {
    /// `no-match`, `blocked` or `excepted`.
    pub verdict: &'static str,
    /// The rule's text, and the name of its list.
    pub rule: Option<String>,
    pub list: Option<String>,
    /// Whether the daemon filters with the same lists; `None` where it is not
    /// known.
    pub hash_match: Option<bool>,
    pub exit_code: u8,
}

/// The verdict on a name is this action, by this rule: the first that matches.
pub open spec fn explained(
    rules: Seq<EntryV>,
    names: Seq<Seq<char>>,
    id: int,
    action: RuleAction,
    name: Seq<char>,
    e: Explanation,
) -> bool {
    first_applies(rules, id, action, name) && e.rule is Some && e.rule->0@ == rules[id].rule.text
        && e.list is Some && e.list->0@ == names[rules[id].list as int]
}

/// What is found about a name, in the words and with the exit code of the
/// verdict.
pub open spec fn finds(
    rules: Seq<EntryV>,
    names: Seq<Seq<char>>,
    name: Seq<char>,
    e: Explanation,
) -> bool {
    let n = normalized(name);
    if matchable(n) && some_applies(rules, RuleAction::Except, n) {
        e.verdict@ == "excepted"@ && e.exit_code == 4 && exists|id: int| #[trigger]
            explained(rules, names, id, RuleAction::Except, n, e)
    } else if matchable(n) && some_applies(rules, RuleAction::Block, n) {
        e.verdict@ == "blocked"@ && e.exit_code == 3 && exists|id: int| #[trigger]
            explained(rules, names, id, RuleAction::Block, n, e)
    } else {
        e.verdict@ == "no-match"@ && e.exit_code == 0 && e.rule is None && e.list is None
    }
}

/// Evaluate one name against loaded lists. `daemon_hash` is the fingerprint of
/// the daemon's lists, where it has a heartbeat.
pub fn explain(loaded: &LoadedLists, domain: &str, daemon_hash: Option<&str>) -> (r: Explanation)
    requires
        loaded.wf(),
    ensures
        finds(loaded.engine@.rules, texts(loaded.names@), domain@, r),
        ({
            let n = normalized(domain@);
            let rules = loaded.engine@.rules;
            let names = texts(loaded.names@);
            if matchable(n) && some_applies(rules, RuleAction::Except, n) {
                r.verdict@ == "excepted"@ && r.exit_code == 4 && exists|id: int| #[trigger]
                    explained(rules, names, id, RuleAction::Except, n, r)
            } else if matchable(n) && some_applies(rules, RuleAction::Block, n) {
                r.verdict@ == "blocked"@ && r.exit_code == 3 && exists|id: int| #[trigger]
                    explained(rules, names, id, RuleAction::Block, n, r)
            } else {
                r.verdict@ == "no-match"@ && r.exit_code == 0 && r.rule is None && r.list is None
            }
        }),
        r.hash_match == match daemon_hash {
            Some(h) => Some(h@ == loaded.hash@),
            None => None,
        },
{
    let hash_match = match daemon_hash {
        Some(h) => Some(str_eq(h, loaded.hash.as_str())),
        None => None,
    };
    let v = loaded.engine.verdict(domain);
    let ghost n = normalized(domain@);
    let ghost rules = loaded.engine@.rules;
    let ghost names = texts(loaded.names@);
    match v {
        Verdict::NoMatch => Explanation {
            verdict: "no-match",
            rule: None,
            list: None,
            hash_match,
            exit_code: 0,
        },
        Verdict::Block { list, rule } => {
            let ghost id = choose|id: int| #[trigger]
                first_applies(rules, id, RuleAction::Block, n) && decided_by(rules, id, v);
            assert(loaded.engine@.rules[id].list < loaded.names@.len());
            let r = Explanation {
                verdict: "blocked",
                rule: Some(rule.text.to_string()),
                list: Some(loaded.names[list].clone()),
                hash_match,
                exit_code: 3,
            };
            assert(explained(rules, names, id, RuleAction::Block, n, r));
            r
        },
        Verdict::Except { list, rule } => {
            let ghost id = choose|id: int| #[trigger]
                first_applies(rules, id, RuleAction::Except, n) && decided_by(rules, id, v);
            assert(loaded.engine@.rules[id].list < loaded.names@.len());
            let r = Explanation {
                verdict: "excepted",
                rule: Some(rule.text.to_string()),
                list: Some(loaded.names[list].clone()),
                hash_match,
                exit_code: 4,
            };
            assert(explained(rules, names, id, RuleAction::Except, n, r));
            r
        },
    }
}

impl Explanation {
    /// The explanation in words.
    pub open spec fn words(self, domain: Seq<char>) -> Seq<char> {
        let head = match (self.rule, self.list) {
            (Some(rule), Some(list)) => domain + ": "@ + self.verdict@ + " by `"@ + rule@
                + "` (list "@ + list@ + ")"@,
            _ => domain + ": "@ + self.verdict@,
        };
        if self.hash_match == Some(false) {
            head + "\nwarning: "@ + STALE_WARNING@
        } else {
            head
        }
    }

    /// The explanation in words.
    pub fn text(&self, domain: &str) -> (r: String)
        ensures
            r@ == self.words(domain@),
    {
        let mut out = domain.to_string();
        out.push_str(": ");
        out.push_str(self.verdict);
        match (&self.rule, &self.list) {
            (Some(rule), Some(list)) => {
                out.push_str(" by `");
                out.push_str(rule.as_str());
                out.push_str("` (list ");
                out.push_str(list.as_str());
                out.push_str(")");
            },
            _ => {},
        }
        match self.hash_match {
            Some(false) => {
                out.push_str("\nwarning: ");
                out.push_str(STALE_WARNING);
            },
            _ => {},
        }
        out
    }

    /// The warning to publish, if any.
    pub fn warning(&self) -> (r: Option<&'static str>)
        ensures
            match r {
                Some(w) => self.hash_match == Some(false) && w@ == STALE_WARNING@,
                None => self.hash_match != Some(false),
            },
    {
        match self.hash_match {
            Some(false) => Some(STALE_WARNING),
            _ => None,
        }
    }
}

/// Health of one upstream as the daemon published it. Counters are kept as
/// they were written.
pub struct UpstreamLine {
    pub url: Option<String>,
    pub last_success_secs_ago: Option<u64>,
    pub queries: String,
    pub failures: String,
    pub reconnects: String,
}

/// Model of [`UpstreamLine`].
#[verifier::ext_equal]
pub struct UpstreamV {
    pub url: Option<Seq<char>>,
    pub last_success_secs_ago: Option<u64>,
    pub queries: Seq<char>,
    pub failures: Seq<char>,
    pub reconnects: Seq<char>,
}

impl View for UpstreamLine {
    type V = UpstreamV;

    open spec fn view(&self) -> UpstreamV {
        UpstreamV {
            url: opt_text(self.url),
            last_success_secs_ago: self.last_success_secs_ago,
            queries: self.queries@,
            failures: self.failures@,
            reconnects: self.reconnects@,
        }
    }
}

/// The models of a sequence of lines.
pub open spec fn lines_of(v: Seq<UpstreamLine>) -> Seq<UpstreamV> {
    Seq::new(v.len(), |i: int| v[i]@)
}

/// One line about an upstream.
pub open spec fn upstream_text(u: UpstreamV) -> Seq<char> {
    "\nupstream "@ + (match u.url {
        Some(url) => url,
        None => "?"@,
    }) + " ("@ + (match u.last_success_secs_ago {
        Some(s) => "last answer "@ + decimal(s as nat) + "s ago"@,
        None => "never answered"@,
    }) + ", "@ + u.queries + " queries, "@ + u.failures + " failures, "@ + u.reconnects
        + " reconnects)"@
}

/// One line per upstream.
pub open spec fn upstreams_text(us: Seq<UpstreamV>) -> Seq<char>
    decreases us.len(),
{
    if us.len() == 0 {
        seq![]
    } else {
        upstreams_text(us.drop_last()) + upstream_text(us.last())
    }
}

/// More than none is known of.
pub open spec fn some_of(n: Option<u64>) -> bool {
    n is Some && n->0 > 0
}

/// What is said of a running daemon: who it is, a line per upstream, then what
/// is wrong.
pub open spec fn running_words(
    hb: Heartbeat,
    age: int,
    upstreams: Seq<UpstreamV>,
    stuck: Option<u64>,
    dropped: Option<u64>,
    dropped_recent: Option<u64>,
) -> Seq<char> {
    "running: pid "@ + decimal(hb.pid as nat) + " (heartbeat "@ + signed_text(age)
        + "s ago)\nconfig "@ + hb.config_hash@ + "\nlists  "@ + hb.lists_hash@ + upstreams_text(
        upstreams,
    ) + (if some_of(stuck) {
        "\nERROR: every upstream is failing ("@ + decimal(stuck->0 as nat)
            + " consecutive queries unanswered)"@
    } else {
        seq![]
    }) + (if some_of(dropped_recent) {
        "\nWARNING: "@ + decimal(dropped_recent->0 as nat)
            + " query-log events dropped since the last sample"@
    } else if some_of(dropped) {
        "\nnote: "@ + decimal(dropped->0 as nat) + " query-log events dropped since start"@
    } else {
        seq![]
    })
}

fn push_upstream(out: &mut String, u: &UpstreamLine)
    ensures
        final(out)@ == old(out)@ + upstream_text(u@),
{
    out.push_str("\nupstream ");
    match &u.url {
        Some(url) => out.push_str(url.as_str()),
        None => out.push_str("?"),
    }
    out.push_str(" (");
    match u.last_success_secs_ago {
        Some(s) => {
            out.push_str("last answer ");
            out.push_str(decimal_of(s).as_str());
            out.push_str("s ago");
        },
        None => out.push_str("never answered"),
    }
    out.push_str(", ");
    out.push_str(u.queries.as_str());
    out.push_str(" queries, ");
    out.push_str(u.failures.as_str());
    out.push_str(" failures, ");
    out.push_str(u.reconnects.as_str());
    out.push_str(" reconnects)");
    assert(out@ == old(out)@ + upstream_text(u@));
}

/// What is said of a running daemon.
pub fn running_text(
    hb: &Heartbeat,
    age: i64,
    upstreams: &Vec<UpstreamLine>,
    stuck: Option<u64>,
    dropped: Option<u64>,
    dropped_recent: Option<u64>,
) -> (r: String)
    ensures
        r@ == running_words(*hb, age as int, lines_of(upstreams@), stuck, dropped, dropped_recent),
{
    let mut out = "running: pid ".to_string();
    out.push_str(decimal_of(hb.pid as u64).as_str());
    out.push_str(" (heartbeat ");
    out.push_str(show_signed(age).as_str());
    out.push_str("s ago)\nconfig ");
    out.push_str(hb.config_hash.as_str());
    out.push_str("\nlists  ");
    out.push_str(hb.lists_hash.as_str());
    let n: usize = upstreams.len();
    let ghost start = out@;
    let ghost all = lines_of(upstreams@);
    assert(start == start + upstreams_text(all.take(0)));
    for i in 0..n
        invariant
            n == upstreams@.len(),
            all == lines_of(upstreams@),
            out@ == start + upstreams_text(all.take(i as int)),
    {
        push_upstream(&mut out, &upstreams[i]);
        proof {
            let t = all.take(i + 1);
            assert(t.drop_last() == all.take(i as int));
            assert(t.last() == upstreams@[i as int]@);
            assert(out@ == start + upstreams_text(t));
        }
    }
    assert(all.take(n as int) == all);
    let ghost listed = out@;
    if let Some(k) = stuck {
        if k > 0 {
            out.push_str("\nERROR: every upstream is failing (");
            out.push_str(decimal_of(k).as_str());
            out.push_str(" consecutive queries unanswered)");
        }
    }
    assert(out@ == listed + (if some_of(stuck) {
        "\nERROR: every upstream is failing ("@ + decimal(stuck->0 as nat)
            + " consecutive queries unanswered)"@
    } else {
        seq![]
    }));
    let ghost judged = out@;
    let recently = match dropped_recent {
        Some(k) => k > 0,
        None => false,
    };
    if recently {
        out.push_str("\nWARNING: ");
        out.push_str(decimal_of(dropped_recent.unwrap()).as_str());
        out.push_str(" query-log events dropped since the last sample");
    } else if let Some(k) = dropped {
        if k > 0 {
            out.push_str("\nnote: ");
            out.push_str(decimal_of(k).as_str());
            out.push_str(" query-log events dropped since start");
        }
    }
    assert(out@ == judged + (if some_of(dropped_recent) {
        "\nWARNING: "@ + decimal(dropped_recent->0 as nat)
            + " query-log events dropped since the last sample"@
    } else if some_of(dropped) {
        "\nnote: "@ + decimal(dropped->0 as nat) + " query-log events dropped since start"@
    } else {
        seq![]
    }));
    out
}

/// Whether the daemon runs, and whether it works.
#[derive(Debug, Clone, Copy, PartialEq, Eq, Structural)]
pub struct Health {
    pub running: bool,
    /// It runs, but cannot resolve or is losing log events now.
    pub degraded: bool,
    pub exit_code: u8,
}

/// The health of a daemon by the age of its heartbeat, if there is one, and by
/// its counters.
pub open spec fn health_of(
    age: Option<i64>,
    stuck: Option<u64>,
    dropped_recent: Option<u64>,
) -> Health {
    let running = age is Some && age->0 <= HEARTBEAT_FRESH_SECS;
    let degraded = running && (some_of(stuck) || some_of(dropped_recent));
    Health {
        running,
        degraded,
        exit_code: if !running {
            5
        } else if degraded {
            7
        } else {
            0
        },
    }
}

/// Judge a daemon by its last heartbeat and its counters; one that never wrote
/// a heartbeat does not run.
pub fn judge_daemon(
    age: Option<i64>,
    stuck: Option<u64>,
    dropped_recent: Option<u64>,
) -> (r: Health)
    ensures
        r == health_of(age, stuck, dropped_recent),
{
    match age {
        Some(age) => judge_health(age, stuck, dropped_recent),
        None => Health { running: false, degraded: false, exit_code: 5 },
    }
}

/// Judge a daemon by the age of its heartbeat and by its counters. What was
/// lost long ago does not degrade it, nor does one upstream that is down.
pub fn judge_health(age: i64, stuck: Option<u64>, dropped_recent: Option<u64>) -> (r: Health)
    ensures
        r == health_of(Some(age), stuck, dropped_recent),
{
    let running = age <= HEARTBEAT_FRESH_SECS;
    let failing = match stuck {
        Some(k) => k > 0,
        None => false,
    };
    let losing = match dropped_recent {
        Some(k) => k > 0,
        None => false,
    };
    let degraded = running && (failing || losing);
    let exit_code: u8 = if !running {
        5
    } else if degraded {
        7
    } else {
        0
    };
    Health { running, degraded, exit_code }
}

/// What is said of a daemon that never wrote a heartbeat.
pub fn absent_text() -> (r: String)
    ensures
        r@ == "NOT running: no heartbeat recorded"@,
{
    "NOT running: no heartbeat recorded".to_string()
}

/// What is said of a daemon whose heartbeat is old.
pub open spec fn stopped_words(pid: u32, age: int) -> Seq<char> {
    "NOT running: last heartbeat "@ + signed_text(age) + "s ago (pid was "@ + decimal(pid as nat)
        + ")"@
}

/// What is said of a daemon whose heartbeat is old.
pub fn stopped_text(pid: u32, age: i64) -> (r: String)
    ensures
        r@ == stopped_words(pid, age as int),
{
    let mut out = "NOT running: last heartbeat ".to_string();
    out.push_str(show_signed(age).as_str());
    out.push_str("s ago (pid was ");
    out.push_str(decimal_of(pid as u64).as_str());
    out.push_str(")");
    out
}

/// A refusal: what is said, and the code to exit with.
#[derive(Debug)]
pub struct Refusal {
    pub message: String,
    pub exit_code: u8,
}

/// The process to signal for a reload: only one whose heartbeat is fresh.
pub fn reload_target(hb: Option<&Heartbeat>, now: i64) -> (r: Result<i32, Refusal>)
    requires
        hb matches Some(h) ==> i64::MIN <= now - h.updated_ts <= i64::MAX,
    ensures
        match hb {
            None => r is Err && r->Err_0.exit_code == 5 && r->Err_0.message@
                == "daemon not running (no heartbeat)"@,
            Some(h) => if now - h.updated_ts > HEARTBEAT_FRESH_SECS {
                r is Err && r->Err_0.exit_code == 5 && r->Err_0.message@
                    == "daemon not running (heartbeat "@ + signed_text(now - h.updated_ts)
                    + "s old)"@
            } else if h.pid > i32::MAX {
                r is Err && r->Err_0.exit_code == 1 && r->Err_0.message@
                    == "heartbeat pid out of range"@
            } else {
                r is Ok && r->Ok_0 == h.pid
            },
        },
{
    match hb {
        None => Err(
            Refusal { message: "daemon not running (no heartbeat)".to_string(), exit_code: 5 },
        ),
        Some(h) => {
            let age: i64 = now - h.updated_ts;
            if age > HEARTBEAT_FRESH_SECS {
                let mut message = "daemon not running (heartbeat ".to_string();
                message.push_str(show_signed(age).as_str());
                message.push_str("s old)");
                return Err(Refusal { message, exit_code: 5 });
            }
            if h.pid > 2_147_483_647 {
                return Err(
                    Refusal { message: "heartbeat pid out of range".to_string(), exit_code: 1 },
                );
            }
            Ok(h.pid as i32)
        },
    }
}

/// Start of a window of hours that ends now.
pub fn window_start(now: i64, hours: u32) -> (r: i64)
    requires
        now - hours * 3600 >= i64::MIN,
    ensures
        r == now - hours * 3600,
{
    let span: i64 = hours as i64 * 3600;
    now - span
}

/// Sum of the counts of all classes but the expected one.
pub open spec fn unexpected_sum(s: Seq<(String, u64)>) -> nat
    decreases s.len(),
{
    if s.len() == 0 {
        0
    } else if s.last().0@ == "expected"@ {
        unexpected_sum(s.drop_last())
    } else {
        unexpected_sum(s.drop_last()) + s.last().1 as nat
    }
}

proof fn lemma_sum_grows(s: Seq<(String, u64)>, i: int)
    requires
        0 <= i <= s.len(),
    ensures
        unexpected_sum(s.take(i)) <= unexpected_sum(s),
    decreases s.len() - i,
{
    if i < s.len() {
        lemma_sum_grows(s, i + 1);
        assert(s.take(i + 1).drop_last() == s.take(i));
    } else {
        assert(s.take(i) == s);
    }
}

/// Divergences that are not expected ones.
pub fn unexpected(summary: &Vec<(String, u64)>) -> (r: u64)
    requires
        unexpected_sum(summary@) <= u64::MAX,
    ensures
        r == unexpected_sum(summary@),
{
    let n: usize = summary.len();
    let mut total: u64 = 0;
    for i in 0..n
        invariant
            n == summary@.len(),
            unexpected_sum(summary@) <= u64::MAX,
            total == unexpected_sum(summary@.take(i as int)),
    {
        proof {
            let t = summary@.take(i + 1);
            assert(t.drop_last() == summary@.take(i as int));
            assert(t.last() == summary@[i as int]);
            lemma_sum_grows(summary@, i + 1);
        }
        if !str_eq(summary[i].0.as_str(), "expected") {
            total = total + summary[i].1;
        }
    }
    assert(summary@.take(n as int) == summary@);
    total
}

/// One line per class.
pub open spec fn class_lines(s: Seq<(String, u64)>) -> Seq<char>
    decreases s.len(),
{
    if s.len() == 0 {
        seq![]
    } else {
        class_lines(s.drop_last()) + "\n  "@ + s.last().0@ + ": "@ + decimal(s.last().1 as nat)
    }
}

/// The divergence report in words.
pub fn shadow_text(hours: u32, summary: &Vec<(String, u64)>, total: u64) -> (r: String)
    ensures
        r@ == "divergences in the last "@ + decimal(hours as nat) + "h:"@ + (if summary@.len() == 0 {
            " none"@
        } else {
            class_lines(summary@)
        }) + "\nunexpected total: "@ + decimal(total as nat),
{
    let mut out = "divergences in the last ".to_string();
    out.push_str(decimal_of(hours as u64).as_str());
    out.push_str("h:");
    let ghost start = out@;
    let n: usize = summary.len();
    if n == 0 {
        out.push_str(" none");
    }
    assert(n > 0 ==> out@ == start + class_lines(summary@.take(0)));
    for i in 0..n
        invariant
            n == summary@.len(),
            n == 0 ==> out@ == start + " none"@,
            n > 0 ==> out@ == start + class_lines(summary@.take(i as int)),
    {
        out.push_str("\n  ");
        out.push_str(summary[i].0.as_str());
        out.push_str(": ");
        out.push_str(decimal_of(summary[i].1).as_str());
        proof {
            let t = summary@.take(i + 1);
            assert(t.drop_last() == summary@.take(i as int));
            assert(t.last() == summary@[i as int]);
            assert(out@ == start + class_lines(t));
        }
    }
    assert(summary@.take(n as int) == summary@);
    out.push_str("\nunexpected total: ");
    out.push_str(decimal_of(total).as_str());
    out
}

/// The aggregates in words.
pub fn stats_text(hours: u32, s: &Stats) -> (r: String)
    ensures
        r@ == "last "@ + decimal(hours as nat) + "h: "@ + decimal(s.total as nat) + " queries, "@
            + decimal(s.blocked as nat) + " blocked, "@ + decimal(s.excepted as nat)
            + " excepted, "@ + decimal(s.cache_hits as nat) + " cache hits, "@ + decimal(
            s.upstream_failures as nat,
        ) + " upstream failures"@,
{
    let mut out = "last ".to_string();
    out.push_str(decimal_of(hours as u64).as_str());
    out.push_str("h: ");
    out.push_str(decimal_of(s.total).as_str());
    out.push_str(" queries, ");
    out.push_str(decimal_of(s.blocked).as_str());
    out.push_str(" blocked, ");
    out.push_str(decimal_of(s.excepted).as_str());
    out.push_str(" excepted, ");
    out.push_str(decimal_of(s.cache_hits).as_str());
    out.push_str(" cache hits, ");
    out.push_str(decimal_of(s.upstream_failures).as_str());
    out.push_str(" upstream failures");
    out
}

/// One line of the query log.
pub open spec fn log_words(q: QueryV) -> Seq<char> {
    signed_text(q.ts as int) + " "@ + ip_text(q.client) + " "@ + q.qname + " "@ + q.verdict.text()
        + " ("@ + q.source.text() + ", rcode "@ + decimal(q.rcode as nat) + ")"@
}

/// One line of the query log.
pub fn log_line(q: &QueryRecord) -> (r: String)
    ensures
        r@ == log_words(q@),
{
    let mut out = show_signed(q.ts);
    out.push_str(" ");
    out.push_str(show_ip(q.client).as_str());
    out.push_str(" ");
    out.push_str(q.qname.as_str());
    out.push_str(" ");
    out.push_str(q.verdict.as_str());
    out.push_str(" (");
    out.push_str(q.source.as_str());
    out.push_str(", rcode ");
    out.push_str(decimal_of(q.rcode as u64).as_str());
    out.push_str(")");
    out
}

/// The lines of some queries.
pub open spec fn log_lines(v: Seq<QueryRecord>) -> Seq<Seq<char>> {
    Seq::new(v.len(), |i: int| log_words(v[i]@))
}

/// The query log in words, a line per query.
pub fn log_text(rows: &Vec<QueryRecord>) -> (r: String)
    ensures
        r@ == join(log_lines(rows@), "\n"@),
{
    let mut lines: Vec<String> = Vec::new();
    let n: usize = rows.len();
    for i in 0..n
        invariant
            n == rows@.len(),
            texts(lines@) == log_lines(rows@).take(i as int),
    {
        let ghost before = lines@;
        lines.push(log_line(&rows[i]));
        proof {
            let all = log_lines(rows@);
            assert(texts(lines@) == texts(before).push(all[i as int]));
            assert(all.take(i + 1) == all.take(i as int).push(all[i as int]));
        }
    }
    assert(log_lines(rows@).take(n as int) == log_lines(rows@));
    joined(&lines, "\n")
}

/// Sum of numbers.
pub open spec fn sum(v: Seq<usize>) -> nat
    decreases v.len(),
{
    if v.len() == 0 {
        0
    } else {
        sum(v.drop_last()) + v.last() as nat
    }
}

/// The rules of all lists together.
pub fn total_rules(counts: &Vec<usize>) -> (r: u128)
    ensures
        r == sum(counts@),
{
    let n: usize = counts.len();
    let mut total: u128 = 0;
    for i in 0..n
        invariant
            n == counts@.len(),
            total == sum(counts@.take(i as int)),
            total <= i * usize::MAX,
    {
        proof {
            let t = counts@.take(i + 1);
            assert(t.drop_last() == counts@.take(i as int));
            assert(t.last() == counts@[i as int]);
            assert(i * usize::MAX + usize::MAX == (i + 1) * usize::MAX) by (nonlinear_arith);
            assert((i + 1) * usize::MAX <= u64::MAX * u64::MAX) by (nonlinear_arith)
                requires
                    i + 1 <= usize::MAX,
                    usize::MAX <= u64::MAX,
            ;
        }
        total = total + counts[i] as u128;
    }
    assert(counts@.take(n as int) == counts@);
    total
}

/// What `check` says of a configuration that holds.
pub fn check_text(lists: usize, rules: u128, issues: usize) -> (r: String)
    ensures
        r@ == "config OK: "@ + decimal(lists as nat) + " lists, "@ + decimal(rules as nat)
            + " rules, "@ + decimal(issues as nat) + " parse issues"@,
{
    let mut out = "config OK: ".to_string();
    out.push_str(decimal_of(lists as u64).as_str());
    out.push_str(" lists, ");
    out.push_str(crate::text::decimal_wide(rules).as_str());
    out.push_str(" rules, ");
    out.push_str(decimal_of(issues as u64).as_str());
    out.push_str(" parse issues");
    out
}

/// The profile of a name.
pub fn profile_named(name: &str) -> (r: Result<Profile, Refusal>)
    ensures
        match r {
            Ok(p) => p.name_of() == name@,
            Err(e) => name@ != Profile::Minimal.name_of() && name@ != Profile::Balanced.name_of()
                && name@ != Profile::Strict.name_of() && e.exit_code == 2 && e.message@
                == "unknown profile "@ + name@,
        },
{
    if str_eq(name, "minimal") {
        Ok(Profile::Minimal)
    } else if str_eq(name, "balanced") {
        Ok(Profile::Balanced)
    } else if str_eq(name, "strict") {
        Ok(Profile::Strict)
    } else {
        let mut message = "unknown profile ".to_string();
        message.push_str(name);
        Err(Refusal { message, exit_code: 2 })
    }
}

/// An existing file is overwritten only on request.
pub fn may_write(target: &str, present: bool, force: bool) -> (r: Result<(), Refusal>)
    ensures
        match r {
            Ok(_) => !present || force,
            Err(e) => present && !force && e.exit_code == 6 && e.message@ == target@
                + " exists; pass --force to overwrite"@,
        },
{
    if present && !force {
        let mut message = target.to_string();
        message.push_str(" exists; pass --force to overwrite");
        return Err(Refusal { message, exit_code: 6 });
    }
    Ok(())
}

/// What `migrate` says when it is done.
pub fn migrated_text(target: &str, user_rules: Option<&str>, warnings: &Vec<String>) -> (r: String)
    ensures
        r@ == "wrote "@ + target@ + (match user_rules {
            Some(p) => " and "@ + p@,
            None => seq![],
        }) + "\n"@ + decimal(warnings@.len()) + " warnings:\n  "@ + join(
            texts(warnings@),
            "\n  "@,
        ),
{
    let mut out = "wrote ".to_string();
    out.push_str(target);
    let ghost before = out@;
    if let Some(p) = user_rules {
        out.push_str(" and ");
        out.push_str(p);
    }
    assert(out@ == before + (match user_rules {
        Some(p) => " and "@ + p@,
        None => seq![],
    }));
    out.push_str("\n");
    let n: usize = warnings.len();
    out.push_str(decimal_of(n as u64).as_str());
    out.push_str(" warnings:\n  ");
    out.push_str(joined(warnings, "\n  ").as_str());
    out
}

} // verus!
