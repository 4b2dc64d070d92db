//! Which names rules match, and which rule decides, stated character by
//! character.
use vstd::prelude::*;
use vstd::utf8::encode_utf8;

use crate::filter::engine::{decided_by, first_applies, in_subtree, pattern_covers};
use crate::filter::engine::{precedes, rule_applies, some_applies, verdict_holds, EngineV, EntryV};
use crate::filter::glob::{glob, label_start, wildcard_covers};
use crate::filter::grammar::{lemma_spells, spells};
use crate::filter::parse::list_result;
use crate::filter::{issues_of, list_added, text_added, AddedList, PatternV, RuleAction, RuleV, Verdict};

verus! {

/// The name is the domain, or ends in it right after a dot.
pub open spec fn at_or_below(d: Seq<char>, n: Seq<char>) -> bool {
    let k = n.len() - d.len();
    &&& k == 0 || (k > 0 && n[k - 1] == '.')
    &&& forall|i: int| 0 <= i < d.len() ==> #[trigger] d[i] == n[k + i]
}

/// A subtree is the domain and what ends in it after a dot.
pub proof fn law_subtree_names(d: Seq<char>, n: Seq<char>)
    ensures
        in_subtree(d, n) == at_or_below(d, n),
{
    let t = seq!['.'] + d;
    let k = n.len() - d.len();
    if in_subtree(d, n) && n != d {
        let s = n.skip(n.len() - t.len());
        assert(s[0] == '.');
        assert forall|i: int| 0 <= i < d.len() implies #[trigger] d[i] == n[k + i] by {
            assert(s[i + 1] == t[i + 1]);
        }
    }
    if at_or_below(d, n) {
        if k == 0 {
            assert(n =~= d);
        } else {
            let s = n.skip(n.len() - t.len());
            assert forall|i: int| 0 <= i < t.len() implies s[i] == t[i] by {
                if i > 0 {
                    assert(d[i - 1] == n[k + (i - 1)]);
                }
            }
            assert(s =~= t);
        }
    }
}

proof fn lemma_star_first(b: Seq<char>, t: Seq<char>)
    ensures
        glob(seq!['*'] + b, t) == exists|j: int|
            0 <= j <= t.len() && #[trigger] glob(b, t.skip(j)),
    decreases t.len(),
{
    let p = seq!['*'] + b;
    assert(p[0] == '*');
    assert(p.drop_first() =~= b);
    assert(t.skip(0) =~= t);
    assert(glob(p, t) == (glob(b, t) || (t.len() > 0 && glob(p, t.drop_first()))));
    if t.len() > 0 {
        let u = t.drop_first();
        lemma_star_first(b, u);
        assert forall|j: int| 0 <= j <= u.len() implies #[trigger] u.skip(j) == t.skip(j + 1) by {
            assert(u.skip(j) =~= t.skip(j + 1));
        }
        if glob(p, u) {
            let j = choose|j: int| 0 <= j <= u.len() && #[trigger] glob(b, u.skip(j));
            assert(glob(b, t.skip(j + 1)));
        }
        if exists|j: int| 0 <= j <= t.len() && #[trigger] glob(b, t.skip(j)) {
            let j = choose|j: int| 0 <= j <= t.len() && #[trigger] glob(b, t.skip(j));
            if j > 0 {
                assert(u.skip(j - 1) == t.skip(j));
                assert(glob(b, u.skip(j - 1)));
            }
        }
    }
    if glob(b, t) {
        assert(glob(b, t.skip(0)));
    }
    if t.len() == 0 {
        if exists|j: int| 0 <= j <= t.len() && #[trigger] glob(b, t.skip(j)) {
            let j = choose|j: int| 0 <= j <= t.len() && #[trigger] glob(b, t.skip(j));
            assert(j == 0);
        }
    }
}

/// A star stands for any run of characters, none of them too: what comes
/// before it must stand first, and what comes after it must match some end of
/// the rest.
pub proof fn law_glob_at_star(a: Seq<char>, b: Seq<char>, t: Seq<char>)
    requires
        forall|i: int| 0 <= i < a.len() ==> #[trigger] a[i] != '*',
    ensures
        glob(a + seq!['*'] + b, t) == (a.len() <= t.len() && (forall|i: int|
            0 <= i < a.len() ==> #[trigger] t[i] == a[i]) && exists|j: int|
            a.len() <= j <= t.len() && #[trigger] glob(b, t.skip(j))),
    decreases a.len(),
{
    let p = a + seq!['*'] + b;
    if a.len() == 0 {
        assert(p =~= seq!['*'] + b);
        lemma_star_first(b, t);
    } else {
        assert(p[0] == a[0]);
        let c = a.drop_first();
        assert(p.drop_first() =~= c + seq!['*'] + b);
        if t.len() > 0 {
            let u = t.drop_first();
            assert forall|i: int| 0 <= i < c.len() implies #[trigger] c[i] != '*' by {
                assert(c[i] == a[i + 1]);
            }
            law_glob_at_star(c, b, u);
            assert forall|j: int| 0 <= j <= u.len() implies #[trigger] u.skip(j) == t.skip(
                j + 1,
            ) by {
                assert(u.skip(j) =~= t.skip(j + 1));
            }
            if glob(p, t) {
                assert forall|i: int| 0 <= i < a.len() implies #[trigger] t[i] == a[i] by {
                    if i > 0 {
                        assert(u[i - 1] == c[i - 1]);
                    }
                }
                let j = choose|j: int| c.len() <= j <= u.len() && #[trigger] glob(b, u.skip(j));
                assert(glob(b, t.skip(j + 1)));
            }
            if a.len() <= t.len() && (forall|i: int|
                0 <= i < a.len() ==> #[trigger] t[i] == a[i]) && exists|j: int|
                a.len() <= j <= t.len() && #[trigger] glob(b, t.skip(j)) {
                assert(t[0] == a[0]);
                assert forall|i: int| 0 <= i < c.len() implies #[trigger] u[i] == c[i] by {
                    assert(t[i + 1] == a[i + 1]);
                }
                let j = choose|j: int| a.len() <= j <= t.len() && #[trigger] glob(b, t.skip(j));
                assert(u.skip(j - 1) == t.skip(j));
                assert(glob(b, u.skip(j - 1)));
            }
        }
    }
}

/// A wildcard rule matches the names its expression matches; one for a subtree
/// also every name that ends in such a name after a dot.
pub proof fn law_wildcard_names(expr: Seq<char>, n: Seq<char>)
    ensures
        wildcard_covers(expr, n, false) == glob(expr, n),
        wildcard_covers(expr, n, true) == (glob(expr, n) || exists|k: int|
            0 <= k < n.len() && #[trigger] n[k] == '.' && glob(expr, n.skip(k + 1))),
{
    if exists|j: int| #[trigger] label_start(n, j) && glob(expr, n.skip(j)) {
        let j = choose|j: int| #[trigger] label_start(n, j) && glob(expr, n.skip(j));
        if j == 0 {
            assert(n.skip(0) =~= n);
        } else {
            assert(n[j - 1] == '.' && glob(expr, n.skip(j - 1 + 1)));
        }
    }
    if exists|k: int| 0 <= k < n.len() && #[trigger] n[k] == '.' && glob(expr, n.skip(k + 1)) {
        let k = choose|k: int|
            0 <= k < n.len() && #[trigger] n[k] == '.' && glob(expr, n.skip(k + 1));
        assert(label_start(n, k + 1));
    }
}

/// Whether a pattern matches a name.
pub open spec fn hits(p: PatternV, n: Seq<char>) -> bool {
    match p {
        PatternV::Exact(d) => n == d,
        PatternV::Subtree(d) => at_or_below(d, n),
        PatternV::Wildcard { expr, include_subdomains } => glob(expr, n) || (include_subdomains
            && exists|k: int|
            0 <= k < n.len() && #[trigger] n[k] == '.' && glob(expr, n.skip(k + 1))),
    }
}

/// Each kind of pattern matches what it says.
pub proof fn law_pattern_hits(p: PatternV, n: Seq<char>)
    ensures
        pattern_covers(p, n) == hits(p, n),
{
    match p {
        PatternV::Exact(_) => {},
        PatternV::Subtree(d) => law_subtree_names(d, n),
        PatternV::Wildcard { expr, .. } => law_wildcard_names(expr, n),
    }
}

/// A rule with an action that matches a name.
pub open spec fn bears(e: EntryV, action: RuleAction, n: Seq<char>) -> bool {
    e.rule.action == action && hits(e.rule.pattern, n)
}

/// Which of two matching rules is reported: an exact domain before a subtree, a
/// subtree before a wildcard, of two subtrees the one with the shorter domain;
/// otherwise the one that was added first.
pub open spec fn outranks(a: EntryV, b: EntryV) -> bool {
    match (a.rule.pattern, b.rule.pattern) {
        (PatternV::Exact(_), PatternV::Exact(_)) => false,
        (PatternV::Exact(_), _) => true,
        (PatternV::Subtree(x), PatternV::Subtree(y)) => x.len() < y.len(),
        (PatternV::Subtree(_), PatternV::Wildcard { .. }) => true,
        _ => false,
    }
}

/// Entry `id` decides: it matches with the action, nothing that does outranks
/// it, and nothing level with it was added before.
pub open spec fn decides(
    rules: Seq<EntryV>,
    id: int,
    action: RuleAction,
    n: Seq<char>,
    list: usize,
    text: Seq<char>,
    line: u32,
) -> bool {
    &&& 0 <= id < rules.len()
    &&& bears(rules[id], action, n)
    &&& list == rules[id].list && text == rules[id].rule.text && line == rules[id].rule.line
    &&& forall|k: int|
        0 <= k < rules.len() && bears(#[trigger] rules[k], action, n) ==> !outranks(
            rules[k],
            rules[id],
        ) && (k < id ==> outranks(rules[id], rules[k]))
}

/// The verdict on a name, however it is spelled. Where an exception matches,
/// it is an exception; else where a block rule matches, a block; else there is
/// none. A name that is empty or longer than 253 bytes matches nothing. What
/// is reported is the rule that decides, with its list, text and line.
pub proof fn law_verdict(rules: Seq<EntryV>, name: Seq<char>, n: Seq<char>, v: Verdict<'_>)
    requires
        verdict_holds(rules, name, v),
        spells(name, n),
    ensures
        ({
            let known = n.len() > 0 && encode_utf8(n).len() <= 253;
            let except = known && exists|id: int|
                0 <= id < rules.len() && bears(#[trigger] rules[id], RuleAction::Except, n);
            let block = known && exists|id: int|
                0 <= id < rules.len() && bears(#[trigger] rules[id], RuleAction::Block, n);
            match v {
                Verdict::Except { list, rule } => except && exists|id: int| #[trigger]
                    decides(rules, id, RuleAction::Except, n, list, rule.text@, rule.line),
                Verdict::Block { list, rule } => !except && block && exists|id: int| #[trigger]
                    decides(rules, id, RuleAction::Block, n, list, rule.text@, rule.line),
                Verdict::NoMatch => !except && !block,
            }
        }),
{
    lemma_spells(name, n);
    lemma_bears(rules, RuleAction::Except, n);
    lemma_bears(rules, RuleAction::Block, n);
    match v {
        Verdict::Except { list, rule } => {
            let id = choose|id: int| #[trigger]
                first_applies(rules, id, RuleAction::Except, n) && decided_by(rules, id, v);
            lemma_decides(rules, id, RuleAction::Except, n);
            assert(decides(rules, id, RuleAction::Except, n, list, rule.text@, rule.line));
        },
        Verdict::Block { list, rule } => {
            let id = choose|id: int| #[trigger]
                first_applies(rules, id, RuleAction::Block, n) && decided_by(rules, id, v);
            lemma_decides(rules, id, RuleAction::Block, n);
            assert(decides(rules, id, RuleAction::Block, n, list, rule.text@, rule.line));
        },
        Verdict::NoMatch => {},
    }
}

pub(crate) proof fn lemma_bears(rules: Seq<EntryV>, action: RuleAction, n: Seq<char>)
    ensures
        some_applies(rules, action, n) == exists|id: int|
            0 <= id < rules.len() && bears(#[trigger] rules[id], action, n),
        forall|id: int|
            0 <= id < rules.len() ==> #[trigger] rule_applies(rules, id, action, n) == bears(
                rules[id],
                action,
                n,
            ),
{
    assert forall|id: int| 0 <= id < rules.len() implies #[trigger] rule_applies(
        rules,
        id,
        action,
        n,
    ) == bears(rules[id], action, n) by {
        law_pattern_hits(rules[id].rule.pattern, n);
    }
    if exists|id: int| 0 <= id < rules.len() && bears(#[trigger] rules[id], action, n) {
        let id = choose|id: int| 0 <= id < rules.len() && bears(#[trigger] rules[id], action, n);
        assert(rule_applies(rules, id, action, n));
    }
}

proof fn lemma_decides(rules: Seq<EntryV>, id: int, action: RuleAction, n: Seq<char>)
    requires
        first_applies(rules, id, action, n),
    ensures
        bears(rules[id], action, n),
        forall|k: int|
            0 <= k < rules.len() && bears(#[trigger] rules[k], action, n) ==> !outranks(
                rules[k],
                rules[id],
            ) && (k < id ==> outranks(rules[id], rules[k])),
{
    lemma_bears(rules, action, n);
    assert(rule_applies(rules, id, action, n));
    assert forall|k: int|
        0 <= k < rules.len() && bears(#[trigger] rules[k], action, n) implies !outranks(
        rules[k],
        rules[id],
    ) && (k < id ==> outranks(rules[id], rules[k])) by {
        assert(rule_applies(rules, k, action, n));
        assert(precedes(rules, n, id, k));
    }
}

/// A list added to an engine comes behind what was there: every rule of it, in
/// order, under the number of lists there were before, which is one more now.
pub proof fn law_list_appended(before: EngineV, rules: Seq<RuleV>)
    ensures
        ({
            let after = before.with_list(rules);
            &&& after.lists == before.lists + 1
            &&& after.rules.len() == before.rules.len() + rules.len()
            &&& forall|i: int|
                0 <= i < before.rules.len() ==> #[trigger] after.rules[i] == before.rules[i]
            &&& forall|i: int|
                0 <= i < rules.len() ==> #[trigger] after.rules[before.rules.len() + i].rule
                    == rules[i] && after.rules[before.rules.len() + i].list == before.lists
        }),
{
}

/// What adding a list reports is where its rules are filed, and how many there
/// are.
pub proof fn law_added(
    before: EngineV,
    rules: Seq<RuleV>,
    list: usize,
    after: EngineV,
    text: Seq<char>,
    added: AddedList,
    streamed: EngineV,
)
    requires
        list_added(before, rules, list, after),
        text_added(before, text, added, streamed),
    ensures
        forall|i: int|
            before.rules.len() <= i < after.rules.len() ==> (#[trigger] after.rules[i]).list
                == list,
        after.rules.len() == before.rules.len() + rules.len(),
        forall|i: int|
            before.rules.len() <= i < streamed.rules.len() ==> (#[trigger] streamed.rules[i]).list
                == added.index,
        streamed.rules.len() == before.rules.len() + added.rules,
        added.issues@.len() == list_result(text).issues.len(),
{
    assert(issues_of(added.issues@).len() == added.issues@.len());
}

} // verus!
