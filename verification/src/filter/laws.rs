//! What holds of the filter as a whole.
use vstd::prelude::*;

use crate::filter::engine::{decided_by, first_applies, in_subtree, matchable, rule_applies};
use crate::filter::engine::{some_applies, verdict_holds, EngineV, EntryV};
use crate::filter::glob::glob;
use crate::filter::parse::{blank_or_comment, domain_of, hosts_address, hosts_names, line_no};
use crate::filter::parse::{line_result, lines_result, list_result, name_rules, normalized};
use crate::filter::parse::{valid_domain, valid_wildcard};
use crate::filter::{issues_of, list_added, rules_of, text_added, AddedList, IssueReason, IssueV};
use crate::filter::{ListV, ParsedList, PatternV, RuleAction, RuleV, Verdict};
use crate::text::{ended_lines, ends_with, is_white, lemma_find_from, lemma_split_push, lines};
use crate::text::{lower, lower_char};
use crate::text::{split, strip_cr, trim, trim_end, trim_start};

verus! {

/// Exceptions always win: where one matches, no verdict but an exception is
/// possible, whatever block rules there are.
pub proof fn law_exception_wins(rules: Seq<EntryV>, name: Seq<char>, v: Verdict<'_>)
    requires
        verdict_holds(rules, name, v),
        matchable(normalized(name)),
        some_applies(rules, RuleAction::Except, normalized(name)),
    ensures
        v is Except,
{
}

/// Every matching query gets a verdict, and only matching ones do; which
/// variant it is depends on the rules and the name alone.
pub proof fn law_verdict_determined(rules: Seq<EntryV>, name: Seq<char>, v: Verdict<'_>)
    requires
        verdict_holds(rules, name, v),
    ensures
        ({
            let n = normalized(name);
            let except = matchable(n) && some_applies(rules, RuleAction::Except, n);
            let block = matchable(n) && some_applies(rules, RuleAction::Block, n);
            &&& (v is Except) == except
            &&& (v is Block) == (block && !except)
            &&& (v is NoMatch) == (!block && !except)
        }),
{
}

/// The verdict on a name does not depend on the case of its letters.
pub proof fn law_case_insensitive(
    rules: Seq<EntryV>,
    a: Seq<char>,
    b: Seq<char>,
    v: Verdict<'_>,
)
    requires
        lower(a) == lower(b),
    ensures
        verdict_holds(rules, a, v) == verdict_holds(rules, b, v),
{
    assert(normalized(a) == normalized(b));
}

/// One trailing dot makes no difference.
pub proof fn law_trailing_dot(rules: Seq<EntryV>, name: Seq<char>, v: Verdict<'_>)
    requires
        name.len() == 0 || name.last() != '.',
    ensures
        verdict_holds(rules, name, v) == verdict_holds(rules, name.push('.'), v),
{
    let n = name.push('.');
    assert(lower_char('.') == '.');
    assert(lower(n).drop_last() == lower(name));
    if name.len() > 0 {
        let c = name.last();
        assert(lower(name).last() == lower_char(c));
        assert(lower_char(c) != '.');
    }
    assert(normalized(n) == normalized(name));
}

/// Verdicts of the same kind.
pub open spec fn same_kind(a: Verdict<'_>, b: Verdict<'_>) -> bool {
    (a is Except) == (b is Except) && (a is Block) == (b is Block) && (a is NoMatch) == (
    b is NoMatch)
}

/// An engine has one verdict on a name: its kind and the rule it reports
/// follow from the rules and the normalized name alone.
pub proof fn law_one_verdict(
    rules: Seq<EntryV>,
    a: Seq<char>,
    b: Seq<char>,
    va: Verdict<'_>,
    vb: Verdict<'_>,
)
    requires
        normalized(a) == normalized(b),
        verdict_holds(rules, a, va),
        verdict_holds(rules, b, vb),
    ensures
        same_kind(va, vb),
        va@ == vb@,
{
    let n = normalized(a);
    law_verdict_determined(rules, a, va);
    law_verdict_determined(rules, b, vb);
    if !(va is NoMatch) {
        let action = if va is Block {
            RuleAction::Block
        } else {
            RuleAction::Except
        };
        let x = choose|id: int| #[trigger]
            first_applies(rules, id, action, n) && decided_by(rules, id, va);
        let y = choose|id: int| #[trigger]
            first_applies(rules, id, action, n) && decided_by(rules, id, vb);
        assert(rule_applies(rules, x, action, n) && rule_applies(rules, y, action, n));
        assert(x == y);
    }
}

/// The same name in other letters, or with a trailing dot that the first
/// spelling lacks.
pub open spec fn respelled(a: Seq<char>, b: Seq<char>) -> bool {
    lower(a) == lower(b) || ((a.len() == 0 || a.last() != '.') && lower(b) == lower(a.push('.')))
}

/// However a name is spelled, in whatever case and with or without a trailing
/// dot, its verdict is the same, down to the rule it reports.
pub proof fn law_spelling_irrelevant(
    rules: Seq<EntryV>,
    a: Seq<char>,
    b: Seq<char>,
    va: Verdict<'_>,
    vb: Verdict<'_>,
)
    requires
        respelled(a, b),
        verdict_holds(rules, a, va),
        verdict_holds(rules, b, vb),
    ensures
        same_kind(va, vb),
        va@ == vb@,
{
    if lower(a) == lower(b) {
        law_case_insensitive(rules, a, b, vb);
    } else {
        law_case_insensitive(rules, a.push('.'), b, vb);
        law_trailing_dot(rules, a, vb);
    }
    law_one_verdict(rules, a, a, va, vb);
}

/// The rules, wherever they are listed.
pub open spec fn unlisted(s: Seq<EntryV>) -> Seq<RuleV> {
    Seq::new(s.len(), |i: int| s[i].rule)
}

/// Neither the order of rules nor how they are spread over lists changes what
/// kind of verdict a name gets.
pub proof fn law_order_irrelevant(
    a: Seq<EntryV>,
    b: Seq<EntryV>,
    name: Seq<char>,
    va: Verdict<'_>,
    vb: Verdict<'_>,
)
    requires
        unlisted(a).to_multiset() == unlisted(b).to_multiset(),
        verdict_holds(a, name, va),
        verdict_holds(b, name, vb),
    ensures
        same_kind(va, vb),
{
    let n = normalized(name);
    lemma_applies_permuted(a, b, RuleAction::Except, n);
    lemma_applies_permuted(b, a, RuleAction::Except, n);
    lemma_applies_permuted(a, b, RuleAction::Block, n);
    lemma_applies_permuted(b, a, RuleAction::Block, n);
    law_verdict_determined(a, name, va);
    law_verdict_determined(b, name, vb);
}

proof fn lemma_applies_permuted(
    a: Seq<EntryV>,
    b: Seq<EntryV>,
    action: RuleAction,
    n: Seq<char>,
)
    requires
        unlisted(a).to_multiset() == unlisted(b).to_multiset(),
    ensures
        some_applies(a, action, n) ==> some_applies(b, action, n),
{
    let (x, y) = (unlisted(a), unlisted(b));
    x.to_multiset_ensures();
    y.to_multiset_ensures();
    if some_applies(a, action, n) {
        let id = choose|id: int| rule_applies(a, id, action, n);
        let r = x[id];
        assert(x.contains(r));
        assert(y.to_multiset().count(r) > 0);
        assert(y.contains(r));
        let k = choose|k: int| 0 <= k < y.len() && y[k] == r;
        assert(rule_applies(b, k, action, n));
    }
}

/// A subtree rule covers its domain and every subdomain, and nothing that
/// only shares the ending.
pub proof fn law_subtree(d: Seq<char>, sub: Seq<char>)
    ensures
        in_subtree(d, d),
        in_subtree(d, sub + seq!['.'] + d),
        sub.len() > 0 && sub.last() != '.' ==> !in_subtree(d, sub + d),
{
    let n = sub + seq!['.'] + d;
    let t = seq!['.'] + d;
    assert(n.skip(n.len() - t.len()) == t);
    if sub.len() > 0 && sub.last() != '.' {
        let m = sub + d;
        assert(m != d) by {
            assert(m.len() != d.len());
        }
        if ends_with(m, t) {
            assert(m.skip(m.len() - t.len())[0] == '.');
            assert(m[sub.len() - 1] == sub.last());
        }
    }
}

/// An expression without `*` matches itself only.
pub proof fn law_glob_literal(pat: Seq<char>, text: Seq<char>)
    requires
        !pat.contains('*'),
    ensures
        glob(pat, text) == (pat == text),
    decreases pat.len(),
{
    if pat.len() == 0 {
        if text.len() == 0 {
            assert(pat == text);
        }
    } else {
        assert(pat.contains(pat[0]));
        let p = pat.drop_first();
        assert(!p.contains('*')) by {
            if p.contains('*') {
                let i = choose|i: int| 0 <= i < p.len() && p[i] == '*';
                assert(pat[i + 1] == '*');
            }
        }
        if text.len() > 0 {
            law_glob_literal(p, text.drop_first());
            assert(pat == seq![pat[0]] + p);
            assert(text == seq![text[0]] + text.drop_first());
        }
    }
}

/// `*` alone matches every name, the empty one too.
pub proof fn law_glob_star(text: Seq<char>)
    ensures
        glob(seq!['*'], text),
    decreases text.len(),
{
    let p = seq!['*'];
    assert(p[0] == '*');
    assert(p.drop_first() == Seq::<char>::empty());
    if text.len() > 0 {
        law_glob_star(text.drop_first());
    } else {
        assert(glob(p.drop_first(), text));
    }
}

/// A rule or an issue with this line number and text.
pub open spec fn accounts_for(r: ListV, no: u32, text: Seq<char>) -> bool {
    ||| exists|i: int|
        0 <= i < r.rules.len() && (#[trigger] r.rules[i]).line == no && r.rules[i].text == text
    ||| exists|i: int|
        0 <= i < r.issues.len() && (#[trigger] r.issues[i]).line == no && r.issues[i].text == text
}

/// A line that carries content: no comment, and not a hosts line that only
/// names the local machine.
pub open spec fn has_content(l: Seq<char>) -> bool {
    !blank_or_comment(l) && (hosts_address(l) is Some ==> hosts_names(l).len() > 0)
}

proof fn lemma_name_rules_account(names: Seq<Seq<char>>, l: Seq<char>, no: u32)
    requires
        names.len() > 0,
    ensures
        accounts_for(name_rules(names, l, no), no, l),
{
    let r = name_rules(names, l, no);
    let before = name_rules(names.drop_last(), l, no);
    match domain_of(names.last()) {
        Some(d) => {
            assert(r.rules[before.rules.len() as int].text == l);
        },
        None => {
            assert(r.issues[before.issues.len() as int].text == l);
        },
    }
}

/// One line with content gives a rule or an issue that bears its number and
/// text.
pub proof fn law_line_never_dropped(raw: Seq<char>, no: u32)
    requires
        has_content(trim(raw)),
    ensures
        accounts_for(line_result(raw, no), no, trim(raw)),
{
    let l = trim(raw);
    let r = line_result(raw, no);
    match hosts_address(l) {
        Some(ip) => {
            if ip.unspecified() || ip.loopback() {
                lemma_name_rules_account(hosts_names(l), l, no);
            } else {
                assert(r.issues[0].text == l);
            }
        },
        None => {
            if r.rules.len() > 0 {
                assert(r.rules[0].text == l);
            } else {
                assert(r.issues[0].text == l);
            }
        },
    }
}

proof fn lemma_accounts_plus(a: ListV, b: ListV, no: u32, text: Seq<char>)
    requires
        accounts_for(a, no, text) || accounts_for(b, no, text),
    ensures
        accounts_for(a.plus(b), no, text),
{
    let r = a.plus(b);
    if accounts_for(a, no, text) {
        if exists|i: int|
            0 <= i < a.rules.len() && (#[trigger] a.rules[i]).line == no && a.rules[i].text
                == text {
            let i = choose|i: int|
                0 <= i < a.rules.len() && (#[trigger] a.rules[i]).line == no && a.rules[i].text
                    == text;
            assert(r.rules[i].line == no);
        } else {
            let i = choose|i: int|
                0 <= i < a.issues.len() && (#[trigger] a.issues[i]).line == no && a.issues[i].text
                    == text;
            assert(r.issues[i].line == no);
        }
    } else {
        if exists|i: int|
            0 <= i < b.rules.len() && (#[trigger] b.rules[i]).line == no && b.rules[i].text
                == text {
            let i = choose|i: int|
                0 <= i < b.rules.len() && (#[trigger] b.rules[i]).line == no && b.rules[i].text
                    == text;
            assert(r.rules[a.rules.len() + i].line == no);
        } else {
            let i = choose|i: int|
                0 <= i < b.issues.len() && (#[trigger] b.issues[i]).line == no && b.issues[i].text
                    == text;
            assert(r.issues[a.issues.len() + i].line == no);
        }
    }
}

proof fn lemma_lines_account(ls: Seq<Seq<char>>, i: int)
    requires
        0 <= i < ls.len(),
        has_content(trim(ls[i])),
    ensures
        accounts_for(lines_result(ls), line_no(i), trim(ls[i])),
    decreases ls.len(),
{
    let last = line_result(ls.last(), line_no(ls.len() - 1));
    if i == ls.len() - 1 {
        law_line_never_dropped(ls[i], line_no(i));
    } else {
        lemma_lines_account(ls.drop_last(), i);
    }
    lemma_accounts_plus(lines_result(ls.drop_last()), last, line_no(i), trim(ls[i]));
}

/// Parsing never drops a line silently: every line of a list that carries
/// content ends up in a rule or an issue.
pub proof fn law_never_silently_dropped(text: Seq<char>, i: int)
    requires
        0 <= i < lines(text).len(),
        has_content(trim(lines(text)[i])),
    ensures
        accounts_for(list_result(text), line_no(i), trim(lines(text)[i])),
{
    lemma_lines_account(lines(text), i);
}

/// A pattern in normal form.
pub open spec fn valid_pattern(p: PatternV) -> bool {
    match p {
        PatternV::Exact(d) => valid_domain(d),
        PatternV::Subtree(d) => valid_domain(d),
        PatternV::Wildcard { expr, .. } => valid_wildcard(expr),
    }
}

pub open spec fn all_valid(rules: Seq<RuleV>) -> bool {
    forall|i: int| 0 <= i < rules.len() ==> valid_pattern((#[trigger] rules[i]).pattern)
}

proof fn lemma_name_rules_valid(names: Seq<Seq<char>>, l: Seq<char>, no: u32)
    ensures
        all_valid(name_rules(names, l, no).rules),
    decreases names.len(),
{
    if names.len() > 0 {
        lemma_name_rules_valid(names.drop_last(), l, no);
    }
}

proof fn lemma_lines_valid(ls: Seq<Seq<char>>)
    ensures
        all_valid(lines_result(ls).rules),
    decreases ls.len(),
{
    if ls.len() > 0 {
        lemma_lines_valid(ls.drop_last());
        let no = line_no(ls.len() - 1);
        let l = trim(ls.last());
        lemma_name_rules_valid(hosts_names(l), l, no);
        assert(all_valid(line_result(ls.last(), no).rules));
    }
}

/// Every rule that parsing yields has a pattern in normal form: lowercase,
/// within the limits of DNS names.
pub proof fn law_parsed_rules_valid(text: Seq<char>)
    ensures
        all_valid(list_result(text).rules),
{
    lemma_lines_valid(lines(text));
}

/// Adding a text is parsing it and adding the rules: the same index, the same
/// number of rules, the same issues, the same engine, and from it the same
/// verdict on every name.
pub proof fn law_text_is_parsed_rules(
    before: EngineV,
    text: Seq<char>,
    parsed: ParsedList,
    list: usize,
    whole: EngineV,
    added: AddedList,
    streamed: EngineV,
    name: Seq<char>,
    v: Verdict<'_>,
    w: Verdict<'_>,
)
    requires
        parsed@ == list_result(text),
        list_added(before, rules_of(parsed.rules@), list, whole),
        text_added(before, text, added, streamed),
        verdict_holds(whole.rules, name, v),
        verdict_holds(streamed.rules, name, w),
    ensures
        added.index == list,
        added.rules == parsed.rules@.len(),
        issues_of(added.issues@) == issues_of(parsed.issues@),
        streamed == whole,
        v@ == w@,
{
    law_one_verdict(whole.rules, name, name, v, w);
}

/// An engine with the rules of some lists, added one after the other.
pub open spec fn with_lists(before: EngineV, lists: Seq<Seq<RuleV>>) -> EngineV
    decreases lists.len(),
{
    if lists.len() == 0 {
        before
    } else {
        with_lists(before, lists.drop_last()).with_list(lists.last())
    }
}

/// Rules over all lists.
pub open spec fn total_len(lists: Seq<Seq<RuleV>>) -> nat
    decreases lists.len(),
{
    if lists.len() == 0 {
        0
    } else {
        total_len(lists.drop_last()) + lists.last().len()
    }
}

/// An engine counts every list added to it and every rule in them.
pub proof fn law_counts(before: EngineV, lists: Seq<Seq<RuleV>>)
    ensures
        with_lists(before, lists).lists == before.lists + lists.len(),
        with_lists(before, lists).rules.len() == before.rules.len() + total_len(lists),
    decreases lists.len(),
{
    if lists.len() > 0 {
        law_counts(before, lists.drop_last());
    }
}

impl ListV {
    /// With every line number raised.
    pub open spec fn shifted(self, by: nat) -> ListV {
        ListV {
            rules: Seq::new(
                self.rules.len(),
                |i: int| RuleV { line: (self.rules[i].line + by) as u32, ..self.rules[i] },
            ),
            issues: Seq::new(
                self.issues.len(),
                |i: int| IssueV { line: (self.issues[i].line + by) as u32, ..self.issues[i] },
            ),
        }
    }
}

proof fn lemma_shifted_plus(a: ListV, b: ListV, by: nat)
    ensures
        a.plus(b).shifted(by) == a.shifted(by).plus(b.shifted(by)),
{
    assert(a.plus(b).shifted(by) =~= a.shifted(by).plus(b.shifted(by)));
}

proof fn lemma_name_rules_shifted(names: Seq<Seq<char>>, l: Seq<char>, no: u32, by: nat)
    requires
        no + by <= u32::MAX,
    ensures
        name_rules(names, l, (no + by) as u32) == name_rules(names, l, no).shifted(by),
    decreases names.len(),
{
    let r = name_rules(names, l, no);
    let to = (no + by) as u32;
    if names.len() > 0 {
        let before = name_rules(names.drop_last(), l, no);
        lemma_name_rules_shifted(names.drop_last(), l, no, by);
        match domain_of(names.last()) {
            Some(d) => {
                let rule = RuleV {
                    action: RuleAction::Block,
                    pattern: PatternV::Exact(d),
                    text: l,
                    line: no,
                };
                lemma_shifted_plus(before, ListV::rule(rule), by);
                assert(ListV::rule(rule).shifted(by) =~= ListV::rule(RuleV { line: to, ..rule }));
            },
            None => {
                let issue = ListV::issue(no, l, IssueReason::InvalidDomain);
                lemma_shifted_plus(before, issue, by);
                assert(issue.shifted(by) =~= ListV::issue(to, l, IssueReason::InvalidDomain));
            },
        }
    } else {
        assert(r.shifted(by) =~= ListV::empty());
    }
}

proof fn lemma_line_shifted(raw: Seq<char>, no: u32, by: nat)
    requires
        no + by <= u32::MAX,
    ensures
        line_result(raw, (no + by) as u32) == line_result(raw, no).shifted(by),
{
    let l = trim(raw);
    lemma_name_rules_shifted(hosts_names(l), l, no, by);
    assert(line_result(raw, (no + by) as u32) =~= line_result(raw, no).shifted(by));
}

proof fn lemma_lines_appended(a: Seq<Seq<char>>, b: Seq<Seq<char>>)
    requires
        a.len() + b.len() <= u32::MAX,
    ensures
        lines_result(a + b) == lines_result(a).plus(lines_result(b).shifted(a.len())),
    decreases b.len(),
{
    let ra = lines_result(a);
    if b.len() == 0 {
        assert(a + b =~= a);
        assert(ra.plus(lines_result(b).shifted(a.len())) =~= ra);
    } else {
        let t = b.drop_last();
        let last = line_result(b.last(), line_no(b.len() - 1));
        lemma_lines_appended(a, t);
        assert((a + b).drop_last() =~= a + t);
        lemma_line_shifted(b.last(), line_no(b.len() - 1), a.len());
        assert(line_no(b.len() - 1) + a.len() == line_no((a + b).len() - 1));
        lemma_shifted_plus(lines_result(t), last, a.len());
        assert(ra.plus(lines_result(t).shifted(a.len())).plus(last.shifted(a.len())) =~= ra.plus(
            lines_result(t).shifted(a.len()).plus(last.shifted(a.len())),
        ));
    }
}

/// Splitting a joined text gives the pieces of the one and of the other.
proof fn lemma_split_joined(a: Seq<char>, b: Seq<char>, sep: char)
    ensures
        split(a + seq![sep] + b, sep) == split(a, sep) + split(b, sep),
        split(b, sep).len() > 0,
    decreases b.len(),
{
    lemma_split_push(b, sep, sep);
    if b.len() == 0 {
        assert(a + seq![sep] + b =~= a.push(sep));
        lemma_split_push(a, sep, sep);
        assert(split(b, sep) =~= seq![b]);
        assert(b =~= seq![]);
        assert(split(a, sep).push(seq![]) =~= split(a, sep) + split(b, sep));
    } else {
        let t = b.drop_last();
        let c = b.last();
        assert(b =~= t.push(c));
        assert(a + seq![sep] + b =~= (a + seq![sep] + t).push(c));
        lemma_split_joined(a, t, sep);
        lemma_split_push(t, sep, c);
        lemma_split_push(a + seq![sep] + t, sep, c);
        let pa = split(a, sep);
        let pt = split(t, sep);
        if c == sep {
            assert((pa + pt).push(seq![]) =~= pa + pt.push(seq![]));
        } else {
            assert((pa + pt).drop_last().push((pa + pt).last().push(c)) =~= pa
                + pt.drop_last().push(pt.last().push(c)));
        }
    }
}

proof fn lemma_trim_start_cr(s: Seq<char>)
    ensures
        trim_start(s.push('\r')) == (if trim_start(s).len() == 0 {
            Seq::<char>::empty()
        } else {
            trim_start(s).push('\r')
        }),
    decreases s.len(),
{
    let t = s.push('\r');
    assert(is_white('\r'));
    if s.len() == 0 {
        assert(t.drop_first() =~= Seq::<char>::empty());
        assert(trim_start(t) == trim_start(t.drop_first()));
    } else if is_white(s[0]) {
        assert(t.drop_first() =~= s.drop_first().push('\r'));
        lemma_trim_start_cr(s.drop_first());
    }
}

/// A carriage return at the end of a line makes no difference.
proof fn lemma_line_strip_cr(raw: Seq<char>, no: u32)
    ensures
        line_result(strip_cr(raw), no) == line_result(raw, no),
{
    if raw.len() > 0 && raw.last() == '\r' {
        let s = raw.drop_last();
        assert(raw =~= s.push('\r'));
        lemma_trim_start_cr(s);
        let t = trim_start(s);
        if t.len() > 0 {
            assert(is_white('\r'));
            assert(t.push('\r').drop_last() =~= t);
            assert(trim_end(t.push('\r')) == trim_end(t));
        } else {
            assert(t =~= Seq::<char>::empty());
        }
    }
}

/// Parsing two texts joined by a line feed is parsing the one and then the
/// other, whose line numbers go on from where the first text ends.
pub proof fn law_parse_joined(a: Seq<char>, b: Seq<char>)
    requires
        a.len() > 0,
        a.last() != '\n',
        lines(a).len() + lines(b).len() < u32::MAX,
    ensures
        list_result(a + seq!['\n'] + b) == list_result(a).plus(
            list_result(b).shifted(lines(a).len()),
        ),
{
    let pa = split(a, '\n');
    let pb = split(b, '\n');
    lemma_split_joined(a, b, '\n');
    lemma_split_push(a.drop_last(), '\n', a.last());
    assert(a =~= a.drop_last().push(a.last()));
    let head = ended_lines(pa);
    let last = pa.last();
    assert(last.len() > 0);
    let both = head.push(strip_cr(last));
    let p = pa + pb;
    assert(ended_lines(p) =~= both + ended_lines(pb));
    assert(lines(a + seq!['\n'] + b) =~= both + lines(b));
    assert(lines(a) == head.push(last));
    lemma_lines_appended(both, lines(b));
    assert(both.drop_last() =~= head);
    assert(lines(a).drop_last() =~= head);
    lemma_line_strip_cr(last, line_no(head.len() as int));
    assert(lines_result(both) == lines_result(lines(a)));
}

/// A text without a line feed is one line, the first.
pub proof fn law_single_line(l: Seq<char>)
    requires
        l.len() > 0,
        forall|i: int| 0 <= i < l.len() ==> #[trigger] l[i] != '\n',
    ensures
        list_result(l) == line_result(l, 1),
{
    lemma_find_from(l, '\n', 0);
    assert(split(l, '\n') =~= seq![l]);
    assert(ended_lines(seq![l]) =~= Seq::<Seq<char>>::empty());
    let ls = lines(l);
    assert(ls =~= seq![l]);
    assert(ls.drop_last() =~= Seq::<Seq<char>>::empty());
    assert(lines_result(ls.drop_last()) == ListV::empty());
    let r = line_result(l, 1);
    assert(ListV::empty().plus(r) =~= r);
}

/// It makes no difference whether a line ends in a line feed or in a carriage
/// return and a line feed.
pub proof fn law_line_endings(a: Seq<char>, b: Seq<char>)
    requires
        a.len() > 0,
        a.last() != '\n',
        lines(a).len() + lines(b).len() < u32::MAX,
    ensures
        list_result(a + seq!['\r', '\n'] + b) == list_result(a + seq!['\n'] + b),
{
    let c = a.push('\r');
    assert(a + seq!['\r', '\n'] + b =~= c + seq!['\n'] + b);
    lemma_split_push(a, '\n', '\r');
    lemma_split_push(a.drop_last(), '\n', a.last());
    assert(a =~= a.drop_last().push(a.last()));
    let (pa, pc) = (split(a, '\n'), split(c, '\n'));
    assert(ended_lines(pc) =~= ended_lines(pa));
    let (la, lc) = (lines(a), lines(c));
    assert(la.drop_last() =~= ended_lines(pa));
    assert(lc.drop_last() =~= ended_lines(pa));
    let last = lc.last();
    assert(strip_cr(last) =~= la.last());
    lemma_line_strip_cr(last, line_no(lc.len() - 1));
    law_parse_joined(a, b);
    law_parse_joined(c, b);
}

} // verus!
