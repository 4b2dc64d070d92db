//! What the command line judges and says.
use vstd::prelude::*;
use vstd::utf8::encode_utf8;

use crate::cli::status::{age_of, counter, field_of, json_length, json_number, json_of, json_shown};
use crate::cli::status::{json_text, published_line, published_lines, recent_of, status_words, stuck_of};
use crate::cli::{class_lines, explained, finds, health_of, log_words, plausible, running_words};
use crate::cli::{may_write, signed_text, sum, unexpected_sum, upstream_text, upstreams_text};
use crate::cli::{window_start, Explanation, Refusal, UpstreamV, STALE_WARNING};
use crate::db::{DaemonStats, Heartbeat, QueryV, ResponseSource, VerdictKind};
use crate::filter::engine::{first_applies, rule_applies, some_applies, EntryV};
use crate::filter::grammar::{lemma_spells, spells};
use crate::filter::matching::{bears, law_pattern_hits, lemma_bears};
use crate::filter::RuleAction;
use crate::ip::show::ip_text;
use crate::text::decimal;

verus! {

/// A domain on the command line has 1 to 254 letters, digits, hyphens,
/// underscores, dots and stars, in any order.
pub proof fn law_plausible(d: Seq<char>)
    ensures
        plausible(d) == (1 <= d.len() <= 254 && forall|i: int|
            0 <= i < d.len() ==> 'a' <= #[trigger] d[i] <= 'z' || 'A' <= d[i] <= 'Z' || '0' <= d[i]
                <= '9' || d[i] == '-' || d[i] == '_' || d[i] == '.' || d[i] == '*'),
{
    if plausible(d) {
        assert forall|i: int| 0 <= i < d.len() implies 'a' <= #[trigger] d[i] <= 'z' || 'A' <= d[i]
            <= 'Z' || '0' <= d[i] <= '9' || d[i] == '-' || d[i] == '_' || d[i] == '.' || d[i]
            == '*' by {
            assert(crate::cli::plausible_char(d[i]));
        }
    }
}

/// What is shown of a match is a rule that matches the name, and the list it is
/// from.
pub proof fn law_explained(
    rules: Seq<EntryV>,
    names: Seq<Seq<char>>,
    id: int,
    action: RuleAction,
    n: Seq<char>,
    e: Explanation,
)
    requires
        explained(rules, names, id, action, n, e),
    ensures
        0 <= id < rules.len(),
        bears(rules[id], action, n),
        e.rule is Some && e.rule->0@ == rules[id].rule.text,
        e.list is Some && e.list->0@ == names[rules[id].list as int],
{
    assert(first_applies(rules, id, action, n));
    assert(rule_applies(rules, id, action, n));
    law_pattern_hits(rules[id].rule.pattern, n);
}

/// A daemon runs where its heartbeat is at most 150 seconds old. It is degraded
/// where it runs and either no upstream answers or events were lost since the
/// last sample. The exit code is 0 where all is well, 7 where it is degraded
/// and 5 where it does not run.
pub proof fn law_health(age: Option<i64>, stuck: Option<u64>, recent: Option<u64>)
    ensures
        ({
            let h = health_of(age, stuck, recent);
            let trouble = stuck is Some && stuck->0 > 0 || recent is Some && recent->0 > 0;
            &&& h.running == (age is Some && age->0 <= 150)
            &&& h.degraded == (h.running && trouble)
            &&& !h.running ==> h.exit_code == 5
            &&& h.running && trouble ==> h.exit_code == 7
            &&& h.running && !trouble ==> h.exit_code == 0
        }),
{
}

/// Every count is added, except that of the expected class.
pub proof fn law_unexpected(s: Seq<(String, u64)>, class: String, n: u64)
    ensures
        unexpected_sum(seq![]) == 0,
        class@ == "expected"@ ==> unexpected_sum(s.push((class, n))) == unexpected_sum(s),
        class@ != "expected"@ ==> unexpected_sum(s.push((class, n))) == unexpected_sum(s) + n,
        class_lines(seq![]).len() == 0,
        class_lines(s.push((class, n))) == class_lines(s) + "\n  "@ + class@ + ": "@ + decimal(
            n as nat,
        ),
{
    assert(s.push((class, n)).drop_last() =~= s);
}

/// Every list's rules count.
pub proof fn law_total(v: Seq<usize>, n: usize)
    ensures
        sum(seq![]) == 0,
        sum(v.push(n)) == sum(v) + n,
{
    assert(v.push(n).drop_last() =~= v);
}

/// A negative number has a minus sign in front.
pub proof fn law_signed(n: nat)
    ensures
        signed_text(n as int) == decimal(n),
        n > 0 ==> signed_text(-(n as int)) == "-"@ + decimal(n),
{
}

/// Each upstream is one more line, with its URL, its last answer and its
/// counts.
pub proof fn law_upstream_lines(us: Seq<UpstreamV>, u: UpstreamV)
    ensures
        upstreams_text(seq![]).len() == 0,
        upstreams_text(us.push(u)) == upstreams_text(us) + upstream_text(u),
        ({
            let counts = ", "@ + u.queries + " queries, "@ + u.failures + " failures, "@
                + u.reconnects + " reconnects)"@;
            &&& u.url is Some && u.last_success_secs_ago is Some ==> upstream_text(u)
                == "\nupstream "@ + u.url->0 + " ("@ + ("last answer "@ + decimal(
                u.last_success_secs_ago->0 as nat,
            ) + "s ago"@) + counts
            &&& u.url is Some && u.last_success_secs_ago is None ==> upstream_text(u)
                == "\nupstream "@ + u.url->0 + " ("@ + "never answered"@ + counts
        }),
{
    assert(us.push(u).drop_last() =~= us);
    let counts = ", "@ + u.queries + " queries, "@ + u.failures + " failures, "@ + u.reconnects
        + " reconnects)"@;
    if u.url is Some {
        let told = match u.last_success_secs_ago {
            Some(s) => "last answer "@ + decimal(s as nat) + "s ago"@,
            None => "never answered"@,
        };
        assert(upstream_text(u) =~= "\nupstream "@ + u.url->0 + " ("@ + told + counts);
    }
}

/// What is wrong with a running daemon follows what it is: that no upstream
/// answers, then the events lost since the last sample, or, where there are
/// none of those, since the start. Nothing is said of what is not wrong.
pub proof fn law_running_says(
    hb: Heartbeat,
    age: int,
    us: Seq<UpstreamV>,
    stuck: Option<u64>,
    dropped: Option<u64>,
    recent: Option<u64>,
)
    ensures
        ({
            let fine = running_words(hb, age, us, None, None, None);
            let all = running_words(hb, age, us, stuck, dropped, recent);
            let is_stuck = stuck is Some && stuck->0 > 0;
            let loses = recent is Some && recent->0 > 0;
            let lost = dropped is Some && dropped->0 > 0;
            let told = "\nERROR: every upstream is failing ("@ + decimal(stuck->0 as nat)
                + " consecutive queries unanswered)"@;
            let warned = "\nWARNING: "@ + decimal(recent->0 as nat)
                + " query-log events dropped since the last sample"@;
            let noted = "\nnote: "@ + decimal(dropped->0 as nat)
                + " query-log events dropped since start"@;
            &&& fine == "running: pid "@ + decimal(hb.pid as nat) + " (heartbeat "@ + signed_text(
                age,
            ) + "s ago)\nconfig "@ + hb.config_hash@ + "\nlists  "@ + hb.lists_hash@
                + upstreams_text(us)
            &&& !is_stuck && !loses && !lost ==> all == fine
            &&& is_stuck && !loses && !lost ==> all == fine + told
            &&& !is_stuck && loses ==> all == fine + warned
            &&& !is_stuck && !loses && lost ==> all == fine + noted
            &&& is_stuck && loses ==> all == fine + told + warned
            &&& is_stuck && !loses && lost ==> all == fine + told + noted
        }),
{
    let fine = running_words(hb, age, us, None, None, None);
    let all = running_words(hb, age, us, stuck, dropped, recent);
    let none = Seq::<char>::empty();
    assert(fine + none + none =~= fine);
    let told = "\nERROR: every upstream is failing ("@ + decimal(stuck->0 as nat)
        + " consecutive queries unanswered)"@;
    let warned = "\nWARNING: "@ + decimal(recent->0 as nat)
        + " query-log events dropped since the last sample"@;
    let noted = "\nnote: "@ + decimal(dropped->0 as nat) + " query-log events dropped since start"@;
    assert(fine + told + none =~= fine + told);
    assert(fine + none + warned =~= fine + warned);
    assert(fine + none + noted =~= fine + noted);
    let head = "running: pid "@ + decimal(hb.pid as nat) + " (heartbeat "@ + signed_text(age)
        + "s ago)\nconfig "@ + hb.config_hash@ + "\nlists  "@ + hb.lists_hash@ + upstreams_text(us);
    assert(fine =~= head);
}

/// What is read of an upstream is read from its own place among those that the
/// daemon published.
pub proof fn law_published_line(json: Seq<char>, i: nat)
    ensures
        ({
            let u = published_line(json, i);
            let at = "/upstreams/"@ + decimal(i) + "/"@;
            &&& u.url == json_text(json, at + "url"@)
            &&& u.last_success_secs_ago == json_number(json, at + "last_success_secs_ago"@)
            &&& u.queries == json_shown(json, at + "queries"@)
            &&& u.failures == json_shown(json, at + "failures"@)
            &&& u.reconnects == json_shown(json, at + "reconnects"@)
        }),
{
    reveal_strlit("/upstreams");
    reveal_strlit("/upstreams/");
    reveal_strlit("/");
    let at = "/upstreams/"@ + decimal(i) + "/"@;
    assert("/upstreams"@ + "/"@ =~= "/upstreams/"@);
    assert(field_of(i, "url"@) =~= at + "url"@);
    assert(field_of(i, "last_success_secs_ago"@) =~= at + "last_success_secs_ago"@);
    assert(field_of(i, "queries"@) =~= at + "queries"@);
    assert(field_of(i, "failures"@) =~= at + "failures"@);
    assert(field_of(i, "reconnects"@) =~= at + "reconnects"@);
}

/// What `status` says fits how the daemon is judged: one that never wrote a
/// heartbeat, or whose last is too old, does not run.
pub proof fn law_status_says(hb: &Heartbeat, stats: Option<&DaemonStats>, now: i64)
    requires
        i64::MIN <= now - hb.updated_ts <= i64::MAX,
    ensures
        status_words(None, stats, now) == "NOT running: no heartbeat recorded"@,
        age_of(None, now) is None,
        age_of(Some(hb), now)->0 + hb.updated_ts == now,
        now - hb.updated_ts > 150 ==> status_words(Some(hb), stats, now)
            == "NOT running: last heartbeat "@ + signed_text(now - hb.updated_ts)
            + "s ago (pid was "@ + decimal(hb.pid as nat) + ")"@,
        now - hb.updated_ts <= 150 && stats is None ==> status_words(Some(hb), stats, now)
            == running_words(*hb, now - hb.updated_ts, seq![], None, None, None),
        stats matches Some(s) ==> recent_of(stats) == Some(s.log_events_dropped_recent) && json_of(
            stats,
        ) == Some(s.upstreams_json@) && stuck_of(json_of(stats)) == json_number(
            s.upstreams_json@,
            "/consecutive_all_failed"@,
        ),
{
}

/// A line of the query log has the time, the client, the name, the verdict,
/// the source and the response code, in this order.
pub proof fn law_log_line(q: QueryV)
    ensures
        log_words(q) == signed_text(q.ts as int) + " "@ + ip_text(q.client) + " "@ + q.qname + " "@
            + (match q.verdict {
            VerdictKind::Allowed => "allowed"@,
            VerdictKind::Blocked => "blocked"@,
            VerdictKind::Excepted => "excepted"@,
        }) + " ("@ + (match q.source {
            ResponseSource::Synth => "synth"@,
            ResponseSource::Cache => "cache"@,
            ResponseSource::Stale => "stale"@,
            ResponseSource::Upstream => "upstream"@,
            ResponseSource::Failed => "failed"@,
        }) + ", rcode "@ + decimal(q.rcode as nat) + ")"@,
{
}

/// An explanation names the verdict, and the rule with its list where there is
/// one; it ends in a warning exactly where the daemon's lists are others.
pub proof fn law_explanation_says(e: Explanation, domain: Seq<char>)
    ensures
        ({
            let head = domain + ": "@ + e.verdict@;
            let by = if e.rule is Some && e.list is Some {
                head + " by `"@ + e.rule->0@ + "` (list "@ + e.list->0@ + ")"@
            } else {
                head
            };
            &&& e.hash_match != Some(false) ==> e.words(domain) == by
            &&& e.hash_match == Some(false) ==> e.words(domain) == by + "\nwarning: "@
                + "list hash differs from the daemon's heartbeat: the daemon may be filtering with a different rule set than this verdict"@
        }),
{
}

/// Every upstream that was published is read, in order; a counter that was
/// never published is null.
pub proof fn law_published(json: Seq<char>, at: Seq<char>)
    ensures
        json_length(json, "/upstreams"@) is None ==> published_lines(json).len() == 0,
        json_length(json, "/upstreams"@) matches Some(n) ==> published_lines(json).len() == n
            && forall|i: int|
            0 <= i < n ==> #[trigger] published_lines(json)[i] == published_line(json, i as nat),
        counter(None, at) == "null"@,
        counter(Some(json), at) == json_shown(json, at),
{
}

/// What `explain` finds about a name: an exception where one matches, with code
/// 4; else a block where a block rule matches, with code 3; else nothing, with
/// code 0. The rule shown matches the name, and the list shown is its own.
pub proof fn law_finds(
    rules: Seq<EntryV>,
    names: Seq<Seq<char>>,
    name: Seq<char>,
    n: Seq<char>,
    e: Explanation,
)
    requires
        finds(rules, names, name, e),
        spells(name, n),
        n.len() > 0,
        encode_utf8(n).len() <= 253,
    ensures
        ({
            let except = exists|id: int|
                0 <= id < rules.len() && bears(#[trigger] rules[id], RuleAction::Except, n);
            let block = exists|id: int|
                0 <= id < rules.len() && bears(#[trigger] rules[id], RuleAction::Block, n);
            &&& except ==> e.verdict@ == "excepted"@ && e.exit_code == 4
            &&& !except && block ==> e.verdict@ == "blocked"@ && e.exit_code == 3
            &&& !except && !block ==> e.verdict@ == "no-match"@ && e.exit_code == 0
            &&& !except && !block ==> e.rule is None && e.list is None
            &&& except || block ==> exists|id: int|
                {
                    &&& 0 <= id < rules.len()
                    &&& bears(
                        #[trigger] rules[id],
                        if except {
                            RuleAction::Except
                        } else {
                            RuleAction::Block
                        },
                        n,
                    )
                    &&& e.rule is Some && e.rule->0@ == rules[id].rule.text
                    &&& e.list is Some && e.list->0@ == names[rules[id].list as int]
                }
        }),
{
    lemma_spells(name, n);
    lemma_bears(rules, RuleAction::Except, n);
    lemma_bears(rules, RuleAction::Block, n);
    if some_applies(rules, RuleAction::Except, n) {
        let id = choose|id: int| #[trigger]
            explained(rules, names, id, RuleAction::Except, n, e);
        law_explained(rules, names, id, RuleAction::Except, n, e);
    } else if some_applies(rules, RuleAction::Block, n) {
        let id = choose|id: int| #[trigger] explained(rules, names, id, RuleAction::Block, n, e);
        law_explained(rules, names, id, RuleAction::Block, n, e);
    }
}

/// A report over some hours reaches back that many hours, of sixty minutes of
/// sixty seconds.
pub proof fn law_window(now: i64, hours: u32, r: i64)
    requires
        call_ensures(window_start, (now, hours), r),
    ensures
        r + 60 * (60 * hours) == now,
{
}

/// A file that is there is overwritten only by force, and a refusal names it and
/// exits with 6.
pub proof fn law_overwrites(target: &str, present: bool, force: bool, r: Result<(), Refusal>)
    requires
        call_ensures(may_write, (target, present, force), r),
    ensures
        force ==> r is Ok,
        !present ==> r is Ok,
        present && !force ==> r is Err && r->Err_0.exit_code == 6 && r->Err_0.message@ == target@
            + " exists; pass --force to overwrite"@,
{
}

/// A warning stands beside an explanation exactly where the daemon is known to
/// filter with other lists.
pub proof fn law_warning(e: &Explanation, r: Option<&'static str>)
    requires
        call_ensures(Explanation::warning, (e,), r),
    ensures
        r is Some == (e.hash_match is Some && !e.hash_match->0),
        r is Some ==> r->0@ == STALE_WARNING@,
{
}

} // verus!
