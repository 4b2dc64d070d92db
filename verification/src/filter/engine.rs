//! Compact compiled matcher.
//!
//! No per-rule heap allocations: all rule text lives in one shared arena, and
//! subtree and exact rules are sorted key spans over arenas resolved by binary
//! search.
//!
//! Subtree matching uses reversed-label keys: `doubleclick.net` is stored as
//! `net.doubleclick`, and a query matches if any of its reversed
//! label-boundary prefixes equals a stored key.
use vstd::prelude::*;
use vstd::utf8::encode_utf8;

use crate::filter::glob::{label_start, wildcard_covers, wildcard_matches};
use crate::filter::index::{lemma_reversed_boundary, lemma_reversed_injective, lemma_reversed_len};
use crate::filter::index::{lemma_reversed_suffix, reversed, reversed_labels, KeyIndex};
use crate::filter::parse::{line_no, line_result, lines_result, list_result, normalized};
use crate::filter::parse::parse_raw_line;
use crate::filter::{issues_of, rules_of, IssueV, LineIssue, ListV, MatchedRule, ParsedList, Pattern};
use crate::filter::{PatternV, Rule, RuleAction, RuleV, Verdict};
use crate::text::{chars_of, ended_lines, ends_with, lemma_split_push, lowered, middle, split};
use crate::text::{string_of, strip_cr, without_cr, without_dot};

verus! {

/// One rule as an engine holds it.
#[verifier::ext_equal]
pub struct EntryV {
    pub list: nat,
    pub rule: RuleV,
}

/// Model of [`Engine`]: the rules in the order they were added, and the number
/// of lists.
#[verifier::ext_equal]
pub struct EngineV {
    pub rules: Seq<EntryV>,
    pub lists: nat,
}

/// Rules of one list.
pub open spec fn listed(list: nat, rules: Seq<RuleV>) -> Seq<EntryV> {
    Seq::new(rules.len(), |i: int| EntryV { list, rule: rules[i] })
}

impl EngineV {
    /// With the rules of one more list.
    pub open spec fn with_list(self, rules: Seq<RuleV>) -> EngineV {
        EngineV { rules: self.rules + listed(self.lists, rules), lists: self.lists + 1 }
    }
}

/// The name equals the domain or is a subdomain of it.
pub open spec fn in_subtree(d: Seq<char>, n: Seq<char>) -> bool {
    n == d || ends_with(n, seq!['.'] + d)
}

/// Does the pattern match a normalized name?
pub open spec fn pattern_covers(p: PatternV, n: Seq<char>) -> bool {
    match p {
        PatternV::Exact(d) => n == d,
        PatternV::Subtree(d) => in_subtree(d, n),
        PatternV::Wildcard { expr, include_subdomains } => wildcard_covers(
            expr,
            n,
            include_subdomains,
        ),
    }
}

/// Rule `id` has the action and matches the normalized name.
pub open spec fn rule_applies(rules: Seq<EntryV>, id: int, action: RuleAction, n: Seq<char>) -> bool {
    0 <= id < rules.len() && rules[id].rule.action == action && pattern_covers(
        rules[id].rule.pattern,
        n,
    )
}

/// Some rule with the action matches the normalized name.
pub open spec fn some_applies(rules: Seq<EntryV>, action: RuleAction, n: Seq<char>) -> bool {
    exists|id: int| rule_applies(rules, id, action, n)
}

/// Where a matching pattern stands in the search: exact domains come first,
/// then subtrees, the shortest domain first, then wildcards.
pub open spec fn rank(p: PatternV, n: Seq<char>) -> nat {
    match p {
        PatternV::Exact(_) => 0,
        PatternV::Subtree(d) => 1 + d.len(),
        PatternV::Wildcard { .. } => n.len() + 2,
    }
}

/// The search comes to rule `a` no later than to rule `b`; rules that stand
/// level are taken in the order they were added.
pub open spec fn precedes(rules: Seq<EntryV>, n: Seq<char>, a: int, b: int) -> bool {
    let x = rank(rules[a].rule.pattern, n);
    let y = rank(rules[b].rule.pattern, n);
    x < y || (x == y && a <= b)
}

/// Rule `id` is the first with the action that matches the normalized name.
pub open spec fn first_applies(
    rules: Seq<EntryV>,
    id: int,
    action: RuleAction,
    n: Seq<char>,
) -> bool {
    &&& rule_applies(rules, id, action, n)
    &&& forall|k: int| #[trigger] rule_applies(rules, k, action, n) ==> precedes(rules, n, id, k)
}

/// A normalized name that rules can match at all: 1 to 253 bytes.
pub open spec fn matchable(n: Seq<char>) -> bool {
    n.len() > 0 && encode_utf8(n).len() <= 253
}

/// Names that start a label are exactly what the subtree test looks at.
proof fn lemma_in_subtree(d: Seq<char>, n: Seq<char>)
    ensures
        in_subtree(d, n) == (exists|j: int| #[trigger] label_start(n, j) && n.skip(j) == d),
{
    if n == d {
        assert(label_start(n, 0));
        assert(n.skip(0) == n);
    } else if ends_with(n, seq!['.'] + d) {
        let t = seq!['.'] + d;
        let j = n.len() - d.len();
        assert(n.skip(n.len() - t.len())[0] == t[0]);
        assert(n.skip(j) == t.skip(1)) by {
            assert(n.skip(j) == n.skip(n.len() - t.len()).skip(1));
        }
        assert(t.skip(1) == d);
        assert(label_start(n, j));
    }
    if exists|j: int| #[trigger] label_start(n, j) && n.skip(j) == d {
        let j = choose|j: int| #[trigger] label_start(n, j) && n.skip(j) == d;
        if j == 0 {
            assert(n.skip(0) == n);
        } else {
            assert(n.skip(j - 1) == seq!['.'] + d) by {
                assert(n.skip(j - 1)[0] == '.');
                assert(n.skip(j - 1).skip(1) == d);
                assert(n.skip(j - 1) =~= seq!['.'] + n.skip(j));
            }
        }
    }
}

/// All rule texts in order.
spec fn all_text(rules: Seq<EntryV>) -> Seq<char>
    decreases rules.len(),
{
    if rules.len() == 0 {
        seq![]
    } else {
        all_text(rules.drop_last()) + rules.last().rule.text
    }
}

/// What the first rules contribute stands first.
proof fn lemma_all_text_prefix(rules: Seq<EntryV>, k: int)
    requires
        0 <= k <= rules.len(),
    ensures
        all_text(rules.take(k)).len() <= all_text(rules).len(),
        all_text(rules) == all_text(rules.take(k)) + all_text(rules).skip(
            all_text(rules.take(k)).len() as int,
        ),
    decreases rules.len(),
{
    if k == rules.len() {
        assert(rules.take(k) == rules);
    } else {
        assert(rules.drop_last().take(k) == rules.take(k));
        lemma_all_text_prefix(rules.drop_last(), k);
    }
}

/// Per-rule metadata, parallel arrays indexed by rule id.
#[derive(Debug)]
struct Store {
    /// All rule texts, concatenated.
    text_arena: String,
    /// Byte offset into `text_arena` at which rule `i`'s text ends.
    text_off: Vec<usize>,
    lines: Vec<u32>,
    lists: Vec<u16>,
    actions: Vec<RuleAction>,
}

impl Store {
    #[verifier::opaque]
    spec fn holds(self, rules: Seq<EntryV>) -> bool {
        &&& self.text_arena@ == all_text(rules)
        &&& self.text_off@.len() == rules.len()
        &&& self.lines@.len() == rules.len()
        &&& self.lists@.len() == rules.len()
        &&& self.actions@.len() == rules.len()
        &&& forall|i: int|
            #![trigger rules[i]]
            0 <= i < rules.len() ==> {
                &&& self.text_off@[i] == encode_utf8(all_text(rules.take(i + 1))).len()
                &&& self.lines@[i] == rules[i].rule.line
                &&& self.lists@[i] == rules[i].list
                &&& self.actions@[i] == rules[i].rule.action
            }
    }

    fn push(&mut self, list: u16, rule: &Rule, Ghost(rules): Ghost<Seq<EntryV>>) -> (id: usize)
        requires
            old(self).holds(rules),
        ensures
            final(self).holds(rules.push(EntryV { list: list as nat, rule: rule@ })),
            id == rules.len(),
    {
        proof {
            reveal(Store::holds);
        }
        let id: usize = self.lines.len();
        let ghost e = EntryV { list: list as nat, rule: rule@ };
        let ghost next = rules.push(e);
        self.text_arena.push_str(rule.text.as_str());
        assert(next.drop_last() == rules);
        assert(self.text_arena@ == all_text(next));
        let end: usize = self.text_arena.as_str().as_bytes().len();
        self.text_off.push(end);
        self.lines.push(rule.line);
        self.lists.push(list);
        self.actions.push(rule.action);
        proof {
            assert(next.take(next.len() as int) == next);
            assert forall|i: int| #![trigger next[i]] 0 <= i < next.len() implies {
                &&& self.text_off@[i] == encode_utf8(all_text(next.take(i + 1))).len()
                &&& self.lines@[i] == next[i].rule.line
                &&& self.lists@[i] == next[i].list
                &&& self.actions@[i] == next[i].rule.action
            } by {
                if i < rules.len() {
                    assert(next[i] == rules[i]);
                    assert(next.take(i + 1) == rules.take(i + 1));
                }
            }
        }
        id
    }

    fn is_except(&self, id: usize, Ghost(rules): Ghost<Seq<EntryV>>) -> (r: bool)
        requires
            self.holds(rules),
            id < rules.len(),
        ensures
            r == (rules[id as int].rule.action == RuleAction::Except),
    {
        proof {
            reveal(Store::holds);
            let e = rules[id as int];
        }
        match self.actions[id] {
            RuleAction::Except => true,
            RuleAction::Block => false,
        }
    }

    fn len(&self, Ghost(rules): Ghost<Seq<EntryV>>) -> (r: usize)
        requires
            self.holds(rules),
        ensures
            r == rules.len(),
    {
        proof {
            reveal(Store::holds);
        }
        self.lines.len()
    }

    fn matched(&self, id: usize, Ghost(rules): Ghost<Seq<EntryV>>) -> (r: (usize, MatchedRule<'_>))
        requires
            self.holds(rules),
            id < rules.len(),
        ensures
            r.0 == rules[id as int].list,
            r.1.action == rules[id as int].rule.action,
            r.1.text@ == rules[id as int].rule.text,
            r.1.line == rules[id as int].rule.line,
    {
        proof {
            reveal(Store::holds);
        }
        let ghost e = rules[id as int];
        let ghost a = all_text(rules.take(id as int));
        let ghost am = all_text(rules.take(id + 1));
        let ghost z = all_text(rules).skip(am.len() as int);
        proof {
            assert(rules.take(id + 1).drop_last() == rules.take(id as int));
            lemma_all_text_prefix(rules, id + 1);
            assert(a + e.rule.text == am);
            if id > 0 {
                let prev = rules[id - 1];
                assert(rules.take(id - 1 + 1) == rules.take(id as int));
            } else {
                assert(a == Seq::<char>::empty());
            }
        }
        let start: usize = if id == 0 {
            0
        } else {
            self.text_off[id - 1]
        };
        let end: usize = self.text_off[id];
        let text = middle(
            self.text_arena.as_str(),
            start,
            end,
            Ghost(a),
            Ghost(e.rule.text),
            Ghost(z),
        );
        (
            self.lists[id] as usize,
            MatchedRule { action: self.actions[id], text, line: self.lines[id] },
        )
    }
}

/// Which patterns an index holds.
enum KeyKind {
    Exact,
    Subtree,
}

spec fn pattern_key(kind: KeyKind, p: PatternV) -> Option<Seq<char>> {
    match (kind, p) {
        (KeyKind::Exact, PatternV::Exact(d)) => Some(d),
        (KeyKind::Subtree, PatternV::Subtree(d)) => Some(reversed(d)),
        _ => None,
    }
}

/// Every entry leads to a rule with that key, and every rule with a key of the
/// kind has an entry.
spec fn links(ix: KeyIndex, kind: KeyKind, rules: Seq<EntryV>) -> bool {
    &&& ix.wf()
    &&& forall|k: int|
        #![trigger ix.entries@[k]]
        0 <= k < ix.entries@.len() ==> ix.entries@[k].rule < rules.len() && pattern_key(
            kind,
            rules[ix.entries@[k].rule as int].rule.pattern,
        ) == Some(ix.key_at(k))
    &&& forall|id: int|
        #![trigger rules[id]]
        0 <= id < rules.len() && pattern_key(kind, rules[id].rule.pattern) is Some
            ==> ix.leads_to(id)
}

/// Links stay when a rule that is no concern of the index is added.
proof fn lemma_links_other(ix: KeyIndex, kind: KeyKind, rules: Seq<EntryV>, e: EntryV)
    requires
        links(ix, kind, rules),
        pattern_key(kind, e.rule.pattern) is None,
    ensures
        links(ix, kind, rules.push(e)),
{
    let next = rules.push(e);
    assert forall|id: int|
        #![trigger next[id]]
        0 <= id < next.len() && pattern_key(kind, next[id].rule.pattern) is Some implies ix.leads_to(
    id) by {
        if id < rules.len() {
            assert(rules[id] == next[id]);
        }
    }
}

/// Links after the index took in the rule that was added.
proof fn lemma_links_insert(
    ix0: KeyIndex,
    ix: KeyIndex,
    kind: KeyKind,
    rules: Seq<EntryV>,
    e: EntryV,
)
    requires
        links(ix0, kind, rules),
        ix.wf(),
        ix.entries@.len() == ix0.entries@.len() + 1,
        forall|k: int|
            0 <= k < ix0.entries@.len() ==> ix.entries@[k] == ix0.entries@[k] && ix.key_at(k)
                == #[trigger] ix0.key_at(k),
        ix.entries@.last().rule == rules.len(),
        pattern_key(kind, e.rule.pattern) == Some(ix.key_at(ix0.entries@.len() as int)),
    ensures
        links(ix, kind, rules.push(e)),
{
    let next = rules.push(e);
    assert forall|k: int| #![trigger ix.entries@[k]] 0 <= k < ix.entries@.len() implies ix.entries@[k].rule
        < next.len() && pattern_key(kind, next[ix.entries@[k].rule as int].rule.pattern) == Some(
        ix.key_at(k),
    ) by {
        if k < ix0.entries@.len() {
            let old_key = ix0.key_at(k);
            let old_entry = ix0.entries@[k];
            assert(next[old_entry.rule as int] == rules[old_entry.rule as int]);
        }
    }
    assert forall|id: int|
        #![trigger next[id]]
        0 <= id < next.len() && pattern_key(kind, next[id].rule.pattern) is Some implies ix.leads_to(
    id) by {
        if id < rules.len() {
            assert(rules[id] == next[id]);
            let k = choose|k: int|
                0 <= k < ix0.entries@.len() && (#[trigger] ix0.entries@[k]).rule == id;
            let old_key = ix0.key_at(k);
            assert(ix.entries@[k].rule == id);
        } else {
            assert(ix.entries@[ix.entries@.len() - 1].rule == id);
        }
    }
}

/// Links do not depend on the order of entries.
proof fn lemma_links_sorted(ix0: KeyIndex, ix: KeyIndex, kind: KeyKind, rules: Seq<EntryV>)
    requires
        links(ix0, kind, rules),
        ix.wf(),
        ix.arena@ == ix0.arena@,
        ix.entries@.to_multiset() == ix0.entries@.to_multiset(),
    ensures
        links(ix, kind, rules),
{
    ix.entries@.to_multiset_ensures();
    ix0.entries@.to_multiset_ensures();
    assert forall|k: int| #![trigger ix.entries@[k]] 0 <= k < ix.entries@.len() implies ix.entries@[k].rule
        < rules.len() && pattern_key(kind, rules[ix.entries@[k].rule as int].rule.pattern) == Some(
        ix.key_at(k),
    ) by {
        let e = ix.entries@[k];
        assert(ix.entries@.contains(e));
        assert(ix0.entries@.to_multiset().count(e) > 0);
        assert(ix0.entries@.contains(e));
        let j = choose|j: int| 0 <= j < ix0.entries@.len() && ix0.entries@[j] == e;
        assert(ix0.key_at(j) == ix.key_at(k));
    }
    assert forall|id: int|
        #![trigger rules[id]]
        0 <= id < rules.len() && pattern_key(kind, rules[id].rule.pattern) is Some implies ix.leads_to(
    id) by {
        let j = choose|j: int|
            0 <= j < ix0.entries@.len() && (#[trigger] ix0.entries@[j]).rule == id;
        let e = ix0.entries@[j];
        assert(ix0.entries@.contains(e));
        assert(ix.entries@.to_multiset().count(e) > 0);
        assert(ix.entries@.contains(e));
        let k = choose|k: int| 0 <= k < ix.entries@.len() && ix.entries@[k] == e;
        assert(ix.entries@[k].rule == id);
    }
}

#[derive(Debug)]
struct WildcardEntry {
    expr: Vec<char>,
    include_subdomains: bool,
    rule: usize,
}

/// Every wildcard entry is a rule's pattern, and every wildcard rule has an
/// entry.
spec fn wild_links(w: Seq<WildcardEntry>, rules: Seq<EntryV>) -> bool {
    &&& wild_sound(w, rules)
    &&& forall|id: int|
        #![trigger rules[id]]
        0 <= id < rules.len() && rules[id].rule.pattern is Wildcard ==> exists|k: int|
            0 <= k < w.len() && (#[trigger] w[k]).rule == id
}

spec fn wild_sound(w: Seq<WildcardEntry>, rules: Seq<EntryV>) -> bool {
    &&& forall|k: int|
        #![trigger w[k]]
        0 <= k < w.len() ==> w[k].rule < rules.len() && rules[w[k].rule as int].rule.pattern == (
        PatternV::Wildcard { expr: w[k].expr@, include_subdomains: w[k].include_subdomains })
    &&& forall|j: int, k: int|
        0 <= j <= k < w.len() ==> (#[trigger] w[j]).rule <= (#[trigger] w[k]).rule
}

/// Compiled matcher for a set of parsed lists.
pub struct Engine {
    store: Store,
    subtree: KeyIndex,
    exact: KeyIndex,
    wildcards: Vec<WildcardEntry>,
    list_count: usize,
    rules: Ghost<Seq<EntryV>>,
}

impl View for Engine {
    type V = EngineV;

    closed spec fn view(&self) -> EngineV {
        EngineV { rules: self.rules@, lists: self.list_count as nat }
    }
}

impl Engine {
    /// The storage holds the rules; lookups need [`Engine::wf`].
    pub closed spec fn holds_rules(&self) -> bool {
        &&& self.store.holds(self.rules@)
        &&& links(self.subtree, KeyKind::Subtree, self.rules@)
        &&& links(self.exact, KeyKind::Exact, self.rules@)
        &&& wild_links(self.wildcards@, self.rules@)
    }

    /// The storage holds the rules and is in order for lookups.
    pub closed spec fn wf(&self) -> bool {
        self.holds_rules() && self.subtree.ready() && self.exact.ready()
    }

    /// An engine without rules.
    pub(crate) fn empty() -> (r: Engine)
        ensures
            r.wf(),
            r.holds_rules(),
            r@ == (EngineV { rules: seq![], lists: 0 }),
    {
        proof {
            reveal(Store::holds);
        }
        Engine {
            store: Store {
                text_arena: String::new(),
                text_off: Vec::new(),
                lines: Vec::new(),
                lists: Vec::new(),
                actions: Vec::new(),
            },
            subtree: KeyIndex { arena: Vec::new(), entries: Vec::new() },
            exact: KeyIndex { arena: Vec::new(), entries: Vec::new() },
            wildcards: Vec::new(),
            list_count: 0,
            rules: Ghost(Seq::empty()),
        }
    }

    /// Start a new list; subsequent [`Self::add_rule`] calls belong to it.
    pub(crate) fn begin_list(&mut self) -> (list: usize)
        requires
            old(self).holds_rules(),
            old(self)@.lists <= u16::MAX,
        ensures
            final(self).holds_rules(),
            list == old(self)@.lists,
            final(self)@ == (EngineV { rules: old(self)@.rules, lists: old(self)@.lists + 1 }),
    {
        let list: usize = self.list_count;
        self.list_count = self.list_count + 1;
        list
    }

    /// Compact one rule into the current list.
    pub(crate) fn add_rule(&mut self, rule: &Rule)
        requires
            old(self).holds_rules(),
            1 <= old(self)@.lists <= u16::MAX + 1,
        ensures
            final(self).holds_rules(),
            final(self)@.lists == old(self)@.lists,
            final(self)@.rules == old(self)@.rules.push(
                EntryV { list: (old(self)@.lists - 1) as nat, rule: rule@ },
            ),
    {
        let list: u16 = (self.list_count - 1) as u16;
        let ghost rules = self.rules@;
        let ghost e = EntryV { list: list as nat, rule: rule@ };
        let id: usize = self.store.push(list, rule, Ghost(rules));
        let ghost sub0 = self.subtree;
        let ghost ex0 = self.exact;
        let ghost wild0 = self.wildcards@;
        match &rule.pattern {
            Pattern::Exact(domain) => {
                let key = chars_of(domain.as_str());
                self.exact.insert(key.as_slice(), id);
                proof {
                    lemma_links_insert(ex0, self.exact, KeyKind::Exact, rules, e);
                    lemma_links_other(self.subtree, KeyKind::Subtree, rules, e);
                }
            },
            Pattern::Subtree(domain) => {
                let d = chars_of(domain.as_str());
                let key = reversed_labels(d.as_slice());
                self.subtree.insert(key.as_slice(), id);
                proof {
                    lemma_links_insert(sub0, self.subtree, KeyKind::Subtree, rules, e);
                    lemma_links_other(self.exact, KeyKind::Exact, rules, e);
                }
            },
            Pattern::Wildcard { expr, include_subdomains } => {
                self.wildcards.push(
                    WildcardEntry {
                        expr: chars_of(expr.as_str()),
                        include_subdomains: *include_subdomains,
                        rule: id,
                    },
                );
                proof {
                    lemma_links_other(self.exact, KeyKind::Exact, rules, e);
                    lemma_links_other(self.subtree, KeyKind::Subtree, rules, e);
                }
            },
        }
        self.rules = Ghost(rules.push(e));
        proof {
            let next = rules.push(e);
            let w = self.wildcards@;
            assert forall|k: int| #![trigger w[k]] 0 <= k < w.len() implies w[k].rule < next.len()
                && next[w[k].rule as int].rule.pattern == (PatternV::Wildcard {
                expr: w[k].expr@,
                include_subdomains: w[k].include_subdomains,
            }) by {
                if k < wild0.len() {
                    assert(w[k] == wild0[k]);
                    assert(next[w[k].rule as int] == rules[w[k].rule as int]);
                }
            }
            assert forall|i: int|
                #![trigger next[i]]
                0 <= i < next.len() && next[i].rule.pattern is Wildcard implies exists|k: int|
                0 <= k < w.len() && (#[trigger] w[k]).rule == i by {
                if i < rules.len() {
                    assert(rules[i] == next[i]);
                    let k = choose|k: int| 0 <= k < wild0.len() && (#[trigger] wild0[k]).rule == i;
                    assert(w[k].rule == i);
                } else {
                    assert(w[w.len() - 1].rule == i);
                }
            }
        }
    }

    /// Compact one list's rules into the engine.
    pub(crate) fn add_list(&mut self, rules: Vec<Rule>) -> (list: usize)
        requires
            old(self).holds_rules(),
            old(self)@.lists <= u16::MAX,
        ensures
            final(self).holds_rules(),
            list == old(self)@.lists,
            final(self)@ == old(self)@.with_list(rules_of(rules@)),
    {
        let list: usize = self.begin_list();
        let n: usize = rules.len();
        let ghost before = self@.rules;
        let ghost added = listed(list as nat, rules_of(rules@));
        assert(before + added.take(0) == before);
        for i in 0..n
            invariant
                n == rules@.len(),
                self.holds_rules(),
                list <= u16::MAX,
                self@.lists == list + 1,
                added == listed(list as nat, rules_of(rules@)),
                self@.rules == before + added.take(i as int),
        {
            self.add_rule(&rules[i]);
            assert(added.take(i + 1) == added.take(i as int).push(added[i as int]));
        }
        assert(added.take(n as int) == added);
        list
    }

    /// Put the storage in order for lookups.
    pub(crate) fn finish(&mut self)
        requires
            old(self).holds_rules(),
        ensures
            final(self).wf(),
            final(self)@ == old(self)@,
    {
        let ghost sub0 = self.subtree;
        let ghost ex0 = self.exact;
        self.subtree.sort();
        self.exact.sort();
        proof {
            lemma_links_sorted(sub0, self.subtree, KeyKind::Subtree, self.rules@);
            lemma_links_sorted(ex0, self.exact, KeyKind::Exact, self.rules@);
        }
    }

    /// Number of lists compiled into this engine.
    #[must_use]
    pub fn list_count(&self) -> (r: usize)
        ensures
            r == self@.lists,
    {
        self.list_count
    }

    /// Total number of rules across all lists.
    #[must_use]
    pub fn rule_count(&self) -> (r: usize)
        requires
            self.wf(),
        ensures
            r == self@.rules.len(),
    {
        self.stored_rules()
    }

    /// Rules stored so far.
    pub(crate) fn stored_rules(&self) -> (r: usize)
        requires
            self.holds_rules(),
        ensures
            r == self@.rules.len(),
    {
        self.store.len(Ghost(self.rules@))
    }

    /// Look one key up: an exception ends the search; the first block rule is
    /// remembered.
    fn scan(&self, subtree: bool, needle: &[char], block: Option<usize>) -> (r: (
        Option<usize>,
        Option<usize>,
    ))
        requires
            self.wf(),
        ensures
            ({
                let rules = self.rules@;
                let kind = if subtree {
                    KeyKind::Subtree
                } else {
                    KeyKind::Exact
                };
                match r.0 {
                    Some(id) => first_keyed(rules, kind, needle@, RuleAction::Except, id as int),
                    None => {
                        &&& none_keyed(rules, kind, needle@, RuleAction::Except)
                        &&& block is Some ==> r.1 == block
                        &&& block is None ==> match r.1 {
                            Some(id) => first_keyed(
                                rules,
                                kind,
                                needle@,
                                RuleAction::Block,
                                id as int,
                            ),
                            None => none_keyed(rules, kind, needle@, RuleAction::Block),
                        }
                    },
                }
            }),
    {
        let ix = if subtree {
            &self.subtree
        } else {
            &self.exact
        };
        let ghost kind = if subtree {
            KeyKind::Subtree
        } else {
            KeyKind::Exact
        };
        let ghost rules = self.rules@;
        let (start, end) = ix.equal_range(needle);
        let mut found: Option<usize> = block;
        proof {
            assert forall|id: int, action: RuleAction|
                keyed(rules, kind, needle@, action, id) implies exists|j: int|
                start <= j < end && (#[trigger] ix.entries@[j]).rule == id by {
                let e = rules[id];
                assert(ix.leads_to(id));
                let j = choose|j: int|
                    0 <= j < ix.entries@.len() && (#[trigger] ix.entries@[j]).rule == id;
                assert(ix.key_at(j) == needle@);
            }
        }
        for k in start..end
            invariant
                self.wf(),
                rules == self.rules@,
                kind == (if subtree {
                    KeyKind::Subtree
                } else {
                    KeyKind::Exact
                }),
                links(*ix, kind, rules),
                start <= end <= ix.entries@.len(),
                forall|j: int|
                    0 <= j < ix.entries@.len() ==> (#[trigger] ix.key_at(j) == needle@ <==> start
                        <= j < end),
                forall|i: int, j: int|
                    start <= i <= j < end ==> (#[trigger] ix.entries@[i]).rule <= (
                    #[trigger] ix.entries@[j]).rule,
                forall|id: int, action: RuleAction| #[trigger]
                    keyed(rules, kind, needle@, action, id) ==> exists|j: int|
                        start <= j < end && (#[trigger] ix.entries@[j]).rule == id,
                forall|j: int|
                    start <= j < k ==> rules[(#[trigger] ix.entries@[j]).rule as int].rule.action
                        == RuleAction::Block,
                block is Some ==> found == block,
                block is None && k == start ==> found is None,
                block is None && k > start ==> found == Some(ix.entries@[start as int].rule),
        {
            let id: usize = ix.entries[k].rule;
            assert(ix.key_at(k as int) == needle@);
            if self.store.is_except(id, Ghost(rules)) {
                proof {
                    assert(keyed(rules, kind, needle@, RuleAction::Except, id as int));
                    assert forall|other: int| #[trigger]
                        keyed(rules, kind, needle@, RuleAction::Except, other) implies id
                        <= other by {
                        let j = choose|j: int|
                            start <= j < end && (#[trigger] ix.entries@[j]).rule == other;
                        assert(ix.entries@[k as int].rule == id);
                        if j < k {
                            assert(rules[ix.entries@[j].rule as int].rule.action
                                == RuleAction::Block);
                        }
                    }
                }
                return (Some(id), found);
            }
            if found.is_none() {
                found = Some(id);
            }
        }
        proof {
            assert forall|id: int| !#[trigger] keyed(
                rules,
                kind,
                needle@,
                RuleAction::Except,
                id,
            ) by {
                if keyed(rules, kind, needle@, RuleAction::Except, id) {
                    let j = choose|j: int|
                        start <= j < end && (#[trigger] ix.entries@[j]).rule == id;
                    assert(rules[ix.entries@[j].rule as int].rule.action == RuleAction::Block);
                }
            }
            if block is None && found is Some {
                let first = ix.entries@[start as int].rule as int;
                assert(ix.key_at(start as int) == needle@);
                assert(keyed(rules, kind, needle@, RuleAction::Block, first));
                assert forall|other: int| #[trigger]
                    keyed(rules, kind, needle@, RuleAction::Block, other) implies first
                    <= other by {
                    let j = choose|j: int|
                        start <= j < end && (#[trigger] ix.entries@[j]).rule == other;
                }
            }
        }
        (None, found)
    }

    /// Rule `id` decides the verdict.
    fn decided(&self, id: usize, action: RuleAction, Ghost(name): Ghost<Seq<char>>) -> (r: Verdict<
        '_,
    >)
        requires
            self.wf(),
            matchable(normalized(name)),
            first_applies(self.rules@, id as int, action, normalized(name)),
            action == RuleAction::Block ==> !some_applies(
                self.rules@,
                RuleAction::Except,
                normalized(name),
            ),
        ensures
            verdict_holds(self@.rules, name, r),
    {
        let (list, rule) = self.store.matched(id, Ghost(self.rules@));
        let r = match action {
            RuleAction::Except => Verdict::Except { list, rule },
            RuleAction::Block => Verdict::Block { list, rule },
        };
        assert(decided_by(self@.rules, id as int, r));
        assert(first_applies(self@.rules, id as int, action, normalized(name)));
        r
    }

    /// Exact rules.
    fn scan_exact(&self, n: &[char], block: Option<usize>) -> (r: (Option<usize>, Option<usize>))
        requires
            self.wf(),
        ensures
            scanned(self.rules@, n@, PatternClass::Exact, block, r),
    {
        let r = self.scan(false, n, block);
        let ghost rules = self.rules@;
        proof {
            assert forall|id: int, action: RuleAction| #[trigger]
                rule_applies(rules, id, action, n@) && in_class(
                    PatternClass::Exact,
                    rules[id].rule.pattern,
                ) implies keyed(rules, KeyKind::Exact, n@, action, id) by {}
        }
        r
    }

    /// Subtree rules: each label-boundary prefix of the reversed name is a
    /// candidate key.
    fn scan_subtrees(&self, n: &[char], block: Option<usize>) -> (r: (
        Option<usize>,
        Option<usize>,
    ))
        requires
            self.wf(),
        ensures
            scanned(self.rules@, n@, PatternClass::Subtree, block, r),
    {
        let rev = reversed_labels(n);
        let len: usize = rev.len();
        let ghost rules = self.rules@;
        proof {
            lemma_reversed_len(n@);
        }
        let mut found: Option<usize> = block;
        let mut end: usize = 0;
        loop
            invariant
                self.wf(),
                rules == self.rules@,
                rev@ == reversed(n@),
                len == rev@.len(),
                len == n@.len(),
                end <= len,
                none_below(rules, n@, RuleAction::Except, end as int),
                block is Some ==> found == block,
                block is None ==> match found {
                    Some(id) => first_of(
                        rules,
                        n@,
                        PatternClass::Subtree,
                        RuleAction::Block,
                        id as int,
                    ),
                    None => none_below(rules, n@, RuleAction::Block, end as int),
                },
            decreases len - end,
        {
            if end == len || rev[end] == '.' {
                let ghost key = rev@.subrange(0, end as int);
                let (except, next) = self.scan(true, &rev.as_slice()[0..end], found);
                proof {
                    lemma_level(rules, n@, key, end as int);
                    if let Some(id) = except {
                        lemma_first_level(rules, n@, key, end as int, RuleAction::Except, id as int);
                    } else {
                        lemma_none_level(rules, n@, key, end as int, RuleAction::Except);
                        if found is None {
                            if let Some(id) = next {
                                lemma_first_level(
                                    rules,
                                    n@,
                                    key,
                                    end as int,
                                    RuleAction::Block,
                                    id as int,
                                );
                            } else {
                                lemma_none_level(rules, n@, key, end as int, RuleAction::Block);
                            }
                        }
                    }
                }
                if let Some(id) = except {
                    return (Some(id), next);
                }
                found = next;
            } else {
                proof {
                    lemma_no_level(rules, n@, end as int, RuleAction::Except);
                    lemma_no_level(rules, n@, end as int, RuleAction::Block);
                }
            }
            if end == len {
                proof {
                    lemma_all_below(rules, n@, RuleAction::Except);
                    lemma_all_below(rules, n@, RuleAction::Block);
                }
                return (None, found);
            }
            end = end + 1;
        }
    }

    /// Wildcard rules.
    fn scan_wildcards(&self, n: &[char], block: Option<usize>) -> (r: (
        Option<usize>,
        Option<usize>,
    ))
        requires
            self.wf(),
        ensures
            scanned(self.rules@, n@, PatternClass::Wildcard, block, r),
    {
        let w: usize = self.wildcards.len();
        let ghost rules = self.rules@;
        let ghost wild = self.wildcards@;
        let mut found: Option<usize> = block;
        proof {
            assert forall|id: int, action: RuleAction| #[trigger]
                rule_applies(rules, id, action, n@) && in_class(
                    PatternClass::Wildcard,
                    rules[id].rule.pattern,
                ) implies exists|j: int| 0 <= j < wild.len() && (#[trigger] wild[j]).rule == id by {
                let e = rules[id];
            }
        }
        for k in 0..w
            invariant
                self.store.holds(rules),
                wild == self.wildcards@,
                w == wild.len(),
                wild_sound(wild, rules),
                rules == self.rules@,
                forall|id: int, action: RuleAction| #[trigger]
                    rule_applies(rules, id, action, n@) && in_class(
                        PatternClass::Wildcard,
                        rules[id].rule.pattern,
                    ) ==> exists|j: int| 0 <= j < wild.len() && (#[trigger] wild[j]).rule == id,
                forall|j: int|
                    #![trigger wild[j]]
                    0 <= j < k && pattern_covers(rules[wild[j].rule as int].rule.pattern, n@)
                        ==> rules[wild[j].rule as int].rule.action == RuleAction::Block,
                block is Some ==> found == block,
                block is None ==> match found {
                    Some(id) => first_of(
                        rules,
                        n@,
                        PatternClass::Wildcard,
                        RuleAction::Block,
                        id as int,
                    ),
                    None => forall|j: int|
                        #![trigger wild[j]]
                        0 <= j < k ==> !pattern_covers(rules[wild[j].rule as int].rule.pattern, n@),
                },
        {
            let entry = &self.wildcards[k];
            let id: usize = entry.rule;
            assert(wild[k as int] == *entry);
            let ghost e = rules[id as int];
            if wildcard_matches(entry.expr.as_slice(), n, entry.include_subdomains) {
                assert(pattern_covers(e.rule.pattern, n@));
                if self.store.is_except(id, Ghost(rules)) {
                    proof {
                        assert(rule_applies(rules, id as int, RuleAction::Except, n@));
                        assert forall|other: int| #[trigger]
                            rule_applies(rules, other, RuleAction::Except, n@) && in_class(
                                PatternClass::Wildcard,
                                rules[other].rule.pattern,
                            ) implies precedes(rules, n@, id as int, other) by {
                            let j = choose|j: int|
                                0 <= j < wild.len() && (#[trigger] wild[j]).rule == other;
                            assert(wild[j].rule == other && wild[k as int].rule == id);
                        }
                    }
                    return (Some(id), found);
                }
                if found.is_none() {
                    proof {
                        assert(rule_applies(rules, id as int, RuleAction::Block, n@));
                        assert forall|other: int| #[trigger]
                            rule_applies(rules, other, RuleAction::Block, n@) && in_class(
                                PatternClass::Wildcard,
                                rules[other].rule.pattern,
                            ) implies precedes(rules, n@, id as int, other) by {
                            let j = choose|j: int|
                                0 <= j < wild.len() && (#[trigger] wild[j]).rule == other;
                            assert(wild[j].rule == other && wild[k as int].rule == id);
                        }
                    }
                    found = Some(id);
                }
            }
        }
        proof {
            assert forall|id: int| #[trigger]
                rule_applies(rules, id, RuleAction::Except, n@) implies !in_class(
                PatternClass::Wildcard,
                rules[id].rule.pattern,
            ) by {
                if in_class(PatternClass::Wildcard, rules[id].rule.pattern) {
                    let j = choose|j: int| 0 <= j < wild.len() && (#[trigger] wild[j]).rule == id;
                    assert(wild[j].rule == id);
                }
            }
            if block is None && found is None {
                assert forall|id: int| #[trigger]
                    rule_applies(rules, id, RuleAction::Block, n@) implies !in_class(
                    PatternClass::Wildcard,
                    rules[id].rule.pattern,
                ) by {
                    if in_class(PatternClass::Wildcard, rules[id].rule.pattern) {
                        let j = choose|j: int|
                            0 <= j < wild.len() && (#[trigger] wild[j]).rule == id;
                        assert(wild[j].rule == id);
                    }
                }
            }
        }
        (None, found)
    }

    /// Evaluate one query name (any case, optional trailing dot).
    #[must_use]
    pub fn verdict(&self, name: &str) -> (r: Verdict<'_>)
        requires
            self.wf(),
        ensures
            verdict_holds(self@.rules, name@, r),
    {
        let raw = chars_of(name);
        let low = lowered(raw.as_slice());
        let n = without_dot(low.as_slice());
        let text = string_of(n);
        if n.len() == 0 || text.as_str().as_bytes().len() > 253 {
            return Verdict::NoMatch;
        }
        let ghost rules = self.rules@;
        proof {
            lemma_ranks(rules, n@);
        }
        let (except, first) = self.scan_exact(n, None);
        if let Some(id) = except {
            assert(first_applies(rules, id as int, RuleAction::Except, n@));
            return self.decided(id, RuleAction::Except, Ghost(name@));
        }
        let (except, second) = self.scan_subtrees(n, first);
        if let Some(id) = except {
            assert(first_applies(rules, id as int, RuleAction::Except, n@));
            return self.decided(id, RuleAction::Except, Ghost(name@));
        }
        let (except, block) = self.scan_wildcards(n, second);
        if let Some(id) = except {
            assert(first_applies(rules, id as int, RuleAction::Except, n@));
            return self.decided(id, RuleAction::Except, Ghost(name@));
        }
        match block {
            Some(id) => {
                assert(first_applies(rules, id as int, RuleAction::Block, n@));
                self.decided(id, RuleAction::Block, Ghost(name@))
            },
            None => Verdict::NoMatch,
        }
    }
}

enum PatternClass {
    Exact,
    Subtree,
    Wildcard,
}

spec fn in_class(c: PatternClass, p: PatternV) -> bool {
    match c {
        PatternClass::Exact => p is Exact,
        PatternClass::Subtree => p is Subtree,
        PatternClass::Wildcard => p is Wildcard,
    }
}

/// Rule `id` is the first of its class with the action that matches.
spec fn first_of(
    rules: Seq<EntryV>,
    n: Seq<char>,
    c: PatternClass,
    action: RuleAction,
    id: int,
) -> bool {
    &&& rule_applies(rules, id, action, n)
    &&& in_class(c, rules[id].rule.pattern)
    &&& forall|k: int| #[trigger]
        rule_applies(rules, k, action, n) && in_class(c, rules[k].rule.pattern) ==> precedes(
            rules,
            n,
            id,
            k,
        )
}

/// No rule of the class with the action matches.
spec fn none_of(rules: Seq<EntryV>, n: Seq<char>, c: PatternClass, action: RuleAction) -> bool {
    forall|k: int| #[trigger]
        rule_applies(rules, k, action, n) ==> !in_class(c, rules[k].rule.pattern)
}

/// What looking at all rules of one class establishes: the first exception
/// that matches, or that there is none and the first block rule, unless one is
/// known already.
spec fn scanned(
    rules: Seq<EntryV>,
    n: Seq<char>,
    c: PatternClass,
    block: Option<usize>,
    r: (Option<usize>, Option<usize>),
) -> bool {
    match r.0 {
        Some(id) => first_of(rules, n, c, RuleAction::Except, id as int),
        None => {
            &&& none_of(rules, n, c, RuleAction::Except)
            &&& block is Some ==> r.1 == block
            &&& block is None ==> match r.1 {
                Some(id) => first_of(rules, n, c, RuleAction::Block, id as int),
                None => none_of(rules, n, c, RuleAction::Block),
            }
        },
    }
}

/// Rule `id` has the action and this key.
spec fn keyed(
    rules: Seq<EntryV>,
    kind: KeyKind,
    key: Seq<char>,
    action: RuleAction,
    id: int,
) -> bool {
    0 <= id < rules.len() && rules[id].rule.action == action && pattern_key(
        kind,
        rules[id].rule.pattern,
    ) == Some(key)
}

spec fn first_keyed(
    rules: Seq<EntryV>,
    kind: KeyKind,
    key: Seq<char>,
    action: RuleAction,
    id: int,
) -> bool {
    &&& keyed(rules, kind, key, action, id)
    &&& forall|k: int| #[trigger] keyed(rules, kind, key, action, k) ==> id <= k
}

spec fn none_keyed(rules: Seq<EntryV>, kind: KeyKind, key: Seq<char>, action: RuleAction) -> bool {
    forall|k: int| !#[trigger] keyed(rules, kind, key, action, k)
}

/// No subtree rule with the action whose domain is shorter than `end` matches.
spec fn none_below(rules: Seq<EntryV>, n: Seq<char>, action: RuleAction, end: int) -> bool {
    forall|k: int| #[trigger]
        rule_applies(rules, k, action, n) && rules[k].rule.pattern is Subtree
            ==> rules[k].rule.pattern->Subtree_0.len() >= end
}

/// A domain whose subtree holds the name has its reversal in front of the
/// name's, up to a label boundary.
proof fn lemma_subtree_key(d: Seq<char>, n: Seq<char>)
    requires
        in_subtree(d, n),
    ensures
        d.len() <= n.len(),
        reversed(n).len() == n.len(),
        reversed(d) == reversed(n).take(d.len() as int),
        d.len() < n.len() ==> reversed(n)[d.len() as int] == '.',
{
    lemma_in_subtree(d, n);
    let j = choose|j: int| #[trigger] label_start(n, j) && n.skip(j) == d;
    lemma_reversed_suffix(n, j);
}

/// A key at a label boundary belongs to exactly the subtree rules of that
/// length that match.
proof fn lemma_level(rules: Seq<EntryV>, n: Seq<char>, key: Seq<char>, end: int)
    requires
        0 <= end <= n.len(),
        reversed(n).len() == n.len(),
        key == reversed(n).subrange(0, end),
        end < n.len() ==> reversed(n)[end] == '.',
    ensures
        forall|k: int, action: RuleAction| #[trigger]
            keyed(rules, KeyKind::Subtree, key, action, k) ==> rule_applies(rules, k, action, n)
                && rules[k].rule.pattern is Subtree && rules[k].rule.pattern->Subtree_0.len()
                == end,
        forall|k: int, action: RuleAction| #[trigger]
            rule_applies(rules, k, action, n) && rules[k].rule.pattern is Subtree
                && rules[k].rule.pattern->Subtree_0.len() == end ==> keyed(
                rules,
                KeyKind::Subtree,
                key,
                action,
                k,
            ),
{
    let at = n.len() - end;
    if end < n.len() {
        lemma_reversed_boundary(n, end);
    }
    assert(label_start(n, at));
    lemma_reversed_suffix(n, at);
    assert(key == reversed(n.skip(at)));
    assert forall|k: int, action: RuleAction| #[trigger]
        keyed(rules, KeyKind::Subtree, key, action, k) implies rule_applies(rules, k, action, n)
        && rules[k].rule.pattern is Subtree && rules[k].rule.pattern->Subtree_0.len() == end by {
        let d = rules[k].rule.pattern->Subtree_0;
        lemma_reversed_injective(d, n.skip(at));
        lemma_in_subtree(d, n);
    }
    assert forall|k: int, action: RuleAction| #[trigger]
        rule_applies(rules, k, action, n) && rules[k].rule.pattern is Subtree
            && rules[k].rule.pattern->Subtree_0.len() == end implies keyed(
        rules,
        KeyKind::Subtree,
        key,
        action,
        k,
    ) by {
        lemma_subtree_key(rules[k].rule.pattern->Subtree_0, n);
    }
}

proof fn lemma_first_level(
    rules: Seq<EntryV>,
    n: Seq<char>,
    key: Seq<char>,
    end: int,
    action: RuleAction,
    id: int,
)
    requires
        0 <= end <= n.len(),
        reversed(n).len() == n.len(),
        key == reversed(n).subrange(0, end),
        end < n.len() ==> reversed(n)[end] == '.',
        none_below(rules, n, action, end),
        first_keyed(rules, KeyKind::Subtree, key, action, id),
    ensures
        first_of(rules, n, PatternClass::Subtree, action, id),
{
    lemma_level(rules, n, key, end);
    assert(keyed(rules, KeyKind::Subtree, key, action, id));
    assert forall|k: int| #[trigger]
        rule_applies(rules, k, action, n) && in_class(
            PatternClass::Subtree,
            rules[k].rule.pattern,
        ) implies precedes(rules, n, id, k) by {
        if rules[k].rule.pattern->Subtree_0.len() == end {
            assert(keyed(rules, KeyKind::Subtree, key, action, k));
        }
    }
}

proof fn lemma_none_level(
    rules: Seq<EntryV>,
    n: Seq<char>,
    key: Seq<char>,
    end: int,
    action: RuleAction,
)
    requires
        0 <= end <= n.len(),
        reversed(n).len() == n.len(),
        key == reversed(n).subrange(0, end),
        end < n.len() ==> reversed(n)[end] == '.',
        none_below(rules, n, action, end),
        none_keyed(rules, KeyKind::Subtree, key, action),
    ensures
        none_below(rules, n, action, end + 1),
{
    lemma_level(rules, n, key, end);
    assert forall|k: int| #[trigger]
        rule_applies(rules, k, action, n)
            && rules[k].rule.pattern is Subtree implies rules[k].rule.pattern->Subtree_0.len()
        >= end + 1 by {
        if rules[k].rule.pattern->Subtree_0.len() == end {
            assert(keyed(rules, KeyKind::Subtree, key, action, k));
        }
    }
}

/// No domain ends where no label does.
proof fn lemma_no_level(rules: Seq<EntryV>, n: Seq<char>, end: int, action: RuleAction)
    requires
        0 <= end < n.len(),
        reversed(n)[end] != '.',
    ensures
        none_below(rules, n, action, end) ==> none_below(rules, n, action, end + 1),
{
    if none_below(rules, n, action, end) {
        assert forall|k: int| #[trigger]
            rule_applies(rules, k, action, n)
                && rules[k].rule.pattern is Subtree implies rules[k].rule.pattern->Subtree_0.len()
            >= end + 1 by {
            lemma_subtree_key(rules[k].rule.pattern->Subtree_0, n);
        }
    }
}

/// No domain is longer than a name in its subtree.
proof fn lemma_all_below(rules: Seq<EntryV>, n: Seq<char>, action: RuleAction)
    ensures
        none_below(rules, n, action, n.len() as int + 1) ==> none_of(
            rules,
            n,
            PatternClass::Subtree,
            action,
        ),
{
    if none_below(rules, n, action, n.len() as int + 1) {
        assert forall|k: int| #[trigger] rule_applies(rules, k, action, n) implies !in_class(
            PatternClass::Subtree,
            rules[k].rule.pattern,
        ) by {
            if rules[k].rule.pattern is Subtree {
                lemma_subtree_key(rules[k].rule.pattern->Subtree_0, n);
            }
        }
    }
}

/// Exact rules rank before subtree rules that match, and those before
/// wildcards.
proof fn lemma_ranks(rules: Seq<EntryV>, n: Seq<char>)
    ensures
        forall|k: int, action: RuleAction| #[trigger]
            rule_applies(rules, k, action, n) ==> match rules[k].rule.pattern {
                PatternV::Exact(_) => rank(rules[k].rule.pattern, n) == 0,
                PatternV::Subtree(_) => 1 <= rank(rules[k].rule.pattern, n) <= n.len() + 1,
                PatternV::Wildcard { .. } => rank(rules[k].rule.pattern, n) == n.len() + 2,
            },
{
    assert forall|k: int, action: RuleAction| #[trigger]
        rule_applies(rules, k, action, n) implies match rules[k].rule.pattern {
        PatternV::Exact(_) => rank(rules[k].rule.pattern, n) == 0,
        PatternV::Subtree(_) => 1 <= rank(rules[k].rule.pattern, n) <= n.len() + 1,
        PatternV::Wildcard { .. } => rank(rules[k].rule.pattern, n) == n.len() + 2,
    } by {
        if let PatternV::Subtree(d) = rules[k].rule.pattern {
            lemma_subtree_key(d, n);
        }
    }
}

/// The verdict reports rule `id`.
pub open spec fn decided_by(rules: Seq<EntryV>, id: int, v: Verdict<'_>) -> bool {
    match v {
        Verdict::NoMatch => false,
        Verdict::Block { list, rule } => reports(rules[id], list, rule) && rule.action
            == RuleAction::Block,
        Verdict::Except { list, rule } => reports(rules[id], list, rule) && rule.action
            == RuleAction::Except,
    }
}

/// The reported list and rule are those of the entry.
pub open spec fn reports(e: EntryV, list: usize, rule: MatchedRule<'_>) -> bool {
    list == e.list && rule.action == e.rule.action && rule.text@ == e.rule.text && rule.line
        == e.rule.line
}

/// What a verdict on a query name means: an exception wins over any block, the
/// first rule that matches is reported, and without a match there is none.
pub open spec fn verdict_holds(rules: Seq<EntryV>, name: Seq<char>, v: Verdict<'_>) -> bool {
    let n = normalized(name);
    match v {
        Verdict::NoMatch => !matchable(n) || (!some_applies(rules, RuleAction::Except, n)
            && !some_applies(rules, RuleAction::Block, n)),
        Verdict::Block { .. } => matchable(n) && !some_applies(rules, RuleAction::Except, n)
            && exists|id: int| #[trigger]
            first_applies(rules, id, RuleAction::Block, n) && decided_by(rules, id, v),
        Verdict::Except { .. } => matchable(n) && exists|id: int| #[trigger]
            first_applies(rules, id, RuleAction::Except, n) && decided_by(rules, id, v),
    }
}

/// Feed the rules of one raw line to the engine; issues are collected.
fn add_line(engine: &mut Engine, raw: &[char], no: u32, issues: &mut Vec<LineIssue>)
    requires
        old(engine).holds_rules(),
        1 <= old(engine)@.lists <= u16::MAX + 1,
    ensures
        final(engine).holds_rules(),
        final(engine)@.lists == old(engine)@.lists,
        final(engine)@.rules == old(engine)@.rules + listed(
            (old(engine)@.lists - 1) as nat,
            line_result(raw@, no).rules,
        ),
        issues_of(final(issues)@) == issues_of(old(issues)@) + line_result(raw@, no).issues,
{
    let mut scratch = ParsedList { rules: Vec::new(), issues: Vec::new() };
    assert(scratch@ == ListV::empty());
    parse_raw_line(raw, no, &mut scratch);
    assert(ListV::empty().plus(line_result(raw@, no)) == line_result(raw@, no));
    let ghost result = line_result(raw@, no);
    let ghost list = (engine@.lists - 1) as nat;
    let ghost added = listed(list, result.rules);
    let n: usize = scratch.rules.len();
    assert(engine@.rules + added.take(0) == engine@.rules);
    for i in 0..n
        invariant
            n == scratch.rules@.len(),
            engine.holds_rules(),
            engine@.lists == old(engine)@.lists,
            1 <= engine@.lists <= u16::MAX + 1,
            list == engine@.lists - 1,
            result.rules == rules_of(scratch.rules@),
            added == listed(list, result.rules),
            engine@.rules == old(engine)@.rules + added.take(i as int),
    {
        engine.add_rule(&scratch.rules[i]);
        assert(added.take(i + 1) == added.take(i as int).push(added[i as int]));
    }
    assert(added.take(n as int) == added);
    let ghost found = scratch.issues@;
    issues.append(&mut scratch.issues);
    assert(issues_of(issues@) == issues_of(old(issues)@) + issues_of(found));
}

/// Line-by-line parse that feeds each rule to the engine; issues accumulate
/// in `issues`. Holds one line at a time.
pub(crate) fn parse_list_streamed(text: &str, engine: &mut Engine, issues: &mut Vec<LineIssue>)
    requires
        old(engine).holds_rules(),
        1 <= old(engine)@.lists <= u16::MAX + 1,
    ensures
        final(engine).holds_rules(),
        final(engine)@.lists == old(engine)@.lists,
        final(engine)@.rules == old(engine)@.rules + listed(
            (old(engine)@.lists - 1) as nat,
            list_result(text@).rules,
        ),
        issues_of(final(issues)@) == issues_of(old(issues)@) + list_result(text@).issues,
{
    let ghost list = (engine@.lists - 1) as nat;
    let ghost rules0 = engine@.rules;
    let ghost issues0 = issues_of(issues@);
    let mut line: Vec<char> = Vec::new();
    let mut count: u32 = 0;
    proof {
        assert(text@.take(0) == Seq::<char>::empty());
        assert(split(Seq::<char>::empty(), '\n') == seq![Seq::<char>::empty()]);
        assert(ended_lines(seq![Seq::<char>::empty()]) == Seq::<Seq<char>>::empty());
        assert(rules0 + listed(list, seq![]) == rules0);
        assert(issues0 + Seq::<IssueV>::empty() == issues0);
    }
    for c in it: text.chars()
        invariant
            it.seq() == text@,
            engine.holds_rules(),
            engine@.lists == old(engine)@.lists,
            1 <= engine@.lists <= u16::MAX + 1,
            list == engine@.lists - 1,
            ({
                let pieces = split(text@.take(it.index() as int), '\n');
                let so_far = lines_result(ended_lines(pieces));
                &&& pieces.len() > 0
                &&& pieces.last() == line@
                &&& line_no(pieces.len() - 1) == line_no(count as int)
                &&& count < u32::MAX ==> count == pieces.len() - 1
                &&& engine@.rules == rules0 + listed(list, so_far.rules)
                &&& issues_of(issues@) == issues0 + so_far.issues
            }),
    {
        let ghost done = text@.take(it.index() as int);
        let ghost pieces = split(done, '\n');
        let ghost next = split(done.push(c), '\n');
        proof {
            assert(text@.take(it.index() + 1) == done.push(c));
            lemma_split_push(done, '\n', c);
        }
        if c == '\n' {
            let no: u32 = if count < u32::MAX {
                count + 1
            } else {
                u32::MAX
            };
            let ghost so_far = lines_result(ended_lines(pieces));
            let ghost one = line_result(strip_cr(line@), no);
            proof {
                let ls = ended_lines(next);
                assert(next.last() == Seq::<char>::empty());
                assert(ls.drop_last() == ended_lines(pieces));
                assert(ls.last() == strip_cr(line@));
                assert(lines_result(ls) == so_far.plus(one));
                assert(rules0 + listed(list, so_far.rules) + listed(list, one.rules) == rules0
                    + listed(list, so_far.rules + one.rules));
                assert(issues0 + so_far.issues + one.issues == issues0 + (so_far.issues
                    + one.issues));
            }
            add_line(engine, without_cr(line.as_slice()), no, issues);
            line = Vec::new();
            count = no;
        } else {
            proof {
                assert(ended_lines(next) == ended_lines(pieces));
            }
            line.push(c);
        }
    }
    assert(text@.take(text@.len() as int) == text@);
    let ghost pieces = split(text@, '\n');
    if line.len() > 0 {
        let no: u32 = if count < u32::MAX {
            count + 1
        } else {
            u32::MAX
        };
        let ghost so_far = lines_result(ended_lines(pieces));
        let ghost one = line_result(line@, no);
        proof {
            let ls = ended_lines(pieces).push(line@);
            assert(ls.drop_last() == ended_lines(pieces));
            assert(lines_result(ls) == so_far.plus(one));
            assert(rules0 + listed(list, so_far.rules) + listed(list, one.rules) == rules0 + listed(
                list,
                so_far.rules + one.rules,
            ));
            assert(issues0 + so_far.issues + one.issues == issues0 + (so_far.issues + one.issues));
        }
        add_line(engine, line.as_slice(), no, issues);
    }
}

} // verus!
