//! A sorted index from keys to rules, and the reversed-label keys of domains.
use vstd::prelude::*;

use crate::filter::glob::{label_start};

verus! {

/// Position of the last dot, -1 when there is none.
pub open spec fn last_dot(s: Seq<char>) -> int
    decreases s.len(),
{
    if s.len() == 0 {
        -1
    } else if s.last() == '.' {
        s.len() - 1
    } else {
        last_dot(s.drop_last())
    }
}

proof fn lemma_last_dot(s: Seq<char>)
    ensures
        -1 <= last_dot(s) < s.len(),
        last_dot(s) >= 0 ==> s[last_dot(s)] == '.',
        forall|q: int| last_dot(s) < q < s.len() ==> s[q] != '.',
    decreases s.len(),
{
    if s.len() > 0 && s.last() != '.' {
        lemma_last_dot(s.drop_last());
        assert(forall|q: int| 0 <= q < s.len() - 1 ==> s[q] == s.drop_last()[q]);
    }
}

proof fn lemma_last_dot_is(s: Seq<char>, i: int)
    requires
        -1 <= i < s.len(),
        i >= 0 ==> s[i] == '.',
        forall|q: int| i < q < s.len() ==> s[q] != '.',
    ensures
        last_dot(s) == i,
{
    lemma_last_dot(s);
    let l = last_dot(s);
    if l < i {
        assert(s[i] != '.');
    } else if i < l {
        assert(s[l] != '.');
    }
}

/// Labels in reverse order, dots kept: `doubleclick.net` gives
/// `net.doubleclick`.
pub open spec fn reversed(s: Seq<char>) -> Seq<char>
    decreases s.len(),
{
    let i = last_dot(s);
    if 0 <= i < s.len() {
        s.skip(i + 1) + seq!['.'] + reversed(s.take(i))
    } else {
        s
    }
}

pub(crate) fn reversed_labels(domain: &[char]) -> (r: Vec<char>)
    ensures
        r@ == reversed(domain@),
{
    let mut out: Vec<char> = Vec::new();
    let mut e: usize = domain.len();
    assert(domain@.take(e as int) == domain@);
    loop
        invariant
            e <= domain.len(),
            reversed(domain@) == out@ + reversed(domain@.take(e as int)),
        decreases e,
    {
        let ghost s = domain@.take(e as int);
        let mut a: usize = e;
        while a > 0 && domain[a - 1] != '.'
            invariant
                a <= e <= domain.len(),
                forall|q: int| a <= q < e ==> domain@[q] != '.',
            decreases a,
        {
            a = a - 1;
        }
        let ghost before = out@;
        for j in a..e
            invariant
                a <= e <= domain.len(),
                out@ == before + domain@.subrange(a as int, j as int),
        {
            out.push(domain[j]);
        }
        proof {
            lemma_last_dot_is(s, a - 1);
            assert(s.skip(a as int) == domain@.subrange(a as int, e as int));
        }
        if a == 0 {
            assert(s == domain@.subrange(0, e as int));
            return out;
        }
        out.push('.');
        assert(s.take(a - 1) == domain@.take(a - 1));
        assert(out@ == before + (s.skip(a as int) + seq!['.']));
        assert(out@ + reversed(s.take(a - 1)) == before + (s.skip(a as int) + seq!['.'] + reversed(
            s.take(a - 1),
        )));
        e = a - 1;
    }
}

pub proof fn lemma_reversed_len(s: Seq<char>)
    ensures
        reversed(s).len() == s.len(),
    decreases s.len(),
{
    lemma_last_dot(s);
    if last_dot(s) >= 0 {
        lemma_reversed_len(s.take(last_dot(s)));
    }
}

/// The reversal of a suffix that starts a label is the reversal's prefix of
/// that length, and the prefix ends at a label boundary.
pub proof fn lemma_reversed_suffix(n: Seq<char>, j: int)
    requires
        label_start(n, j),
    ensures
        reversed(n).len() == n.len(),
        reversed(n.skip(j)) == reversed(n).take(n.len() - j),
        j > 0 ==> reversed(n)[n.len() - j] == '.',
    decreases n.len(),
{
    lemma_reversed_len(n);
    lemma_last_dot(n);
    let i = last_dot(n);
    if i < 0 {
        if j > 0 {
            assert(n[j - 1] == '.');
        }
        assert(n.skip(0) == n);
        assert(reversed(n).take(n.len() as int) == n);
    } else if j == i + 1 {
        let s = n.skip(j);
        lemma_last_dot_is(s, -1);
        assert(reversed(s) == s);
        assert(reversed(n).take(n.len() - j) == s);
    } else {
        if j > i + 1 {
            assert(n[j - 1] != '.');
        }
        let head = n.take(i);
        let s = n.skip(j);
        lemma_last_dot_is(s, i - j);
        assert(label_start(head, j));
        lemma_reversed_suffix(head, j);
        assert(s.take(i - j) == head.skip(j));
        assert(s.skip(i - j + 1) == n.skip(i + 1));
        let r = n.skip(i + 1) + seq!['.'];
        assert(reversed(n) == r + reversed(head));
        assert(reversed(s) == r + reversed(head.skip(j)));
        assert(reversed(n).take(n.len() - j) == r + reversed(head).take(i - j));
        if j > 0 {
            assert(reversed(n)[n.len() - j] == reversed(head)[i - j]);
        }
    }
}

/// A dot in the reversal marks the start of a label.
pub proof fn lemma_reversed_boundary(n: Seq<char>, e: int)
    requires
        0 <= e < n.len(),
        reversed(n).len() == n.len(),
        reversed(n)[e] == '.',
    ensures
        label_start(n, n.len() - e),
    decreases n.len(),
{
    lemma_last_dot(n);
    lemma_reversed_len(n);
    let i = last_dot(n);
    if i < 0 {
        assert(n[e] != '.');
    } else {
        let head = n.take(i);
        lemma_reversed_len(head);
        let r = n.skip(i + 1) + seq!['.'];
        assert(reversed(n) == r + reversed(head));
        let l = n.len() - i - 1;
        if e < l {
            assert(reversed(n)[e] == n[i + 1 + e]);
        } else if e > l {
            assert(reversed(n)[e] == reversed(head)[e - l - 1]);
            lemma_reversed_boundary(head, e - l - 1);
            assert(head.len() - (e - l - 1) == n.len() - e);
        }
    }
}

/// Different names have different reversals.
pub proof fn lemma_reversed_injective(a: Seq<char>, b: Seq<char>)
    requires
        reversed(a) == reversed(b),
    ensures
        a == b,
    decreases a.len(),
{
    lemma_reversed_len(a);
    lemma_reversed_len(b);
    lemma_last_dot(a);
    lemma_last_dot(b);
    let i = last_dot(a);
    let j = last_dot(b);
    let ra = reversed(a);
    let rb = reversed(b);
    let x = a.skip(i + 1);
    let y = b.skip(j + 1);
    if i >= 0 {
        assert(ra == x + seq!['.'] + reversed(a.take(i)));
        assert(ra[a.len() - i - 1] == '.');
    }
    if j >= 0 {
        assert(rb == y + seq!['.'] + reversed(b.take(j)));
        assert(rb[b.len() - j - 1] == '.');
    }
    if i > j {
        let at = a.len() - i - 1;
        assert(rb[at] == b[j + 1 + at]) by {
            if j >= 0 {
                assert(rb[at] == y[at]);
            }
        }
    } else if i < j {
        let at = b.len() - j - 1;
        assert(ra[at] == a[i + 1 + at]) by {
            if i >= 0 {
                assert(ra[at] == x[at]);
            }
        }
    } else if i >= 0 {
        let l = a.len() - i - 1;
        assert(x == ra.take(l));
        assert(y == rb.take(l));
        assert(reversed(a.take(i)) == ra.skip(l + 1));
        assert(reversed(b.take(j)) == rb.skip(l + 1));
        lemma_reversed_injective(a.take(i), b.take(j));
        assert(a == a.take(i) + seq!['.'] + x);
        assert(b == b.take(j) + seq!['.'] + y);
    }
}

/// Lexicographic order on keys.
pub open spec fn lex_lt(a: Seq<char>, b: Seq<char>) -> bool
    decreases a.len(),
{
    if b.len() == 0 {
        false
    } else if a.len() == 0 {
        true
    } else if a[0] != b[0] {
        a[0] < b[0]
    } else {
        lex_lt(a.drop_first(), b.drop_first())
    }
}

proof fn lemma_lex_irreflexive(a: Seq<char>)
    ensures
        !lex_lt(a, a),
    decreases a.len(),
{
    if a.len() > 0 {
        lemma_lex_irreflexive(a.drop_first());
    }
}

proof fn lemma_lex_total(a: Seq<char>, b: Seq<char>)
    ensures
        lex_lt(a, b) || lex_lt(b, a) || a == b,
        !(lex_lt(a, b) && lex_lt(b, a)),
    decreases a.len(),
{
    if a.len() > 0 && b.len() > 0 && a[0] == b[0] {
        lemma_lex_total(a.drop_first(), b.drop_first());
        if a.drop_first() == b.drop_first() {
            assert(a == seq![a[0]] + a.drop_first());
            assert(b == seq![b[0]] + b.drop_first());
        }
    } else if a.len() == 0 && b.len() == 0 {
        assert(a == b);
    }
}

/// The order is transitive, also where one step or both allow equality.
proof fn lemma_lex_transitive(a: Seq<char>, b: Seq<char>, c: Seq<char>)
    ensures
        lex_lt(a, b) && !lex_lt(c, b) ==> lex_lt(a, c),
        !lex_lt(b, a) && lex_lt(b, c) ==> lex_lt(a, c),
        !lex_lt(b, a) && !lex_lt(c, b) ==> !lex_lt(c, a),
    decreases a.len() + b.len() + c.len(),
{
    if a.len() > 0 && b.len() > 0 && c.len() > 0 {
        lemma_lex_transitive(a.drop_first(), b.drop_first(), c.drop_first());
    }
}

fn key_before(a: &[char], b: &[char]) -> (r: bool)
    ensures
        r == lex_lt(a@, b@),
{
    let mut i: usize = 0;
    assert(a@.skip(0) == a@ && b@.skip(0) == b@);
    while i < a.len() && i < b.len()
        invariant
            i <= a.len(),
            i <= b.len(),
            lex_lt(a@, b@) == lex_lt(a@.skip(i as int), b@.skip(i as int)),
        decreases a.len() - i,
    {
        proof {
            let x = a@.skip(i as int);
            let y = b@.skip(i as int);
            assert(x[0] == a@[i as int] && y[0] == b@[i as int]);
            assert(x.drop_first() == a@.skip(i + 1));
            assert(y.drop_first() == b@.skip(i + 1));
        }
        if a[i] != b[i] {
            return a[i] < b[i];
        }
        i = i + 1;
    }
    i < b.len()
}

/// One key in an index: where it stands in the arena, and its rule.
#[derive(Debug, Clone, Copy, PartialEq, Eq, Structural)]
pub struct Span {
    pub off: usize,
    pub len: usize,
    pub rule: usize,
}

impl Span {
    pub open spec fn fits(self, arena: Seq<char>) -> bool {
        self.off + self.len <= arena.len()
    }

    pub open spec fn key(self, arena: Seq<char>) -> Seq<char> {
        arena.subrange(self.off as int, self.off + self.len)
    }

    /// By key, and by rule where the keys are equal.
    pub open spec fn lt(self, other: Span, arena: Seq<char>) -> bool {
        lex_lt(self.key(arena), other.key(arena)) || (self.key(arena) == other.key(arena)
            && self.rule < other.rule)
    }
}

proof fn lemma_span_total(arena: Seq<char>, a: Span, b: Span)
    ensures
        !(a.lt(b, arena) && b.lt(a, arena)),
        !a.lt(b, arena) ==> !lex_lt(a.key(arena), b.key(arena)),
{
    lemma_lex_total(a.key(arena), b.key(arena));
    lemma_lex_irreflexive(a.key(arena));
}

proof fn lemma_span_transitive(arena: Seq<char>, a: Span, b: Span, c: Span)
    requires
        !b.lt(a, arena),
        !c.lt(b, arena),
    ensures
        !c.lt(a, arena),
{
    let (x, y, z) = (a.key(arena), b.key(arena), c.key(arena));
    lemma_lex_transitive(x, y, z);
    lemma_lex_total(x, y);
    lemma_lex_total(y, z);
    lemma_lex_total(x, z);
    lemma_lex_irreflexive(x);
    if x == z {
        assert(x == y) by {
            if lex_lt(x, y) {
                lemma_lex_transitive(x, y, x);
            }
        }
    }
}

pub open spec fn fit(arena: Seq<char>, v: Seq<Span>) -> bool {
    forall|i: int| 0 <= i < v.len() ==> (#[trigger] v[i]).fits(arena)
}

pub open spec fn sorted(arena: Seq<char>, v: Seq<Span>) -> bool {
    forall|i: int, j: int|
        0 <= i < j < v.len() ==> !(#[trigger] v[j]).lt(#[trigger] v[i], arena)
}

fn key_of(arena: &Vec<char>, e: Span) -> (r: &[char])
    requires
        e.fits(arena@),
    ensures
        r@ == e.key(arena@),
{
    let all = arena.as_slice();
    let n: usize = all.len();
    assert(e.off + e.len <= n);
    &all[e.off..e.off + e.len]
}

fn span_before(arena: &Vec<char>, a: Span, b: Span) -> (r: bool)
    requires
        a.fits(arena@),
        b.fits(arena@),
    ensures
        r == a.lt(b, arena@),
{
    let x = key_of(arena, a);
    let y = key_of(arena, b);
    proof {
        lemma_lex_total(x@, y@);
        lemma_lex_irreflexive(x@);
    }
    key_before(x, y) || (!key_before(y, x) && a.rule < b.rule)
}

/// Merge two sorted runs.
fn merge(arena: &Vec<char>, a: &Vec<Span>, b: &Vec<Span>) -> (r: Vec<Span>)
    requires
        fit(arena@, a@),
        fit(arena@, b@),
        sorted(arena@, a@),
        sorted(arena@, b@),
    ensures
        fit(arena@, r@),
        sorted(arena@, r@),
        r@.to_multiset() == a@.to_multiset().add(b@.to_multiset()),
{
    let mut out: Vec<Span> = Vec::new();
    let mut i: usize = 0;
    let mut j: usize = 0;
    let n: usize = a.len();
    let m: usize = b.len();
    proof {
        a@.take(0).to_multiset_ensures();
        assert(a@.take(0) == Seq::<Span>::empty());
        assert(b@.take(0) == Seq::<Span>::empty());
        assert(out@ == Seq::<Span>::empty());
        assert(out@.to_multiset() =~= a@.take(0).to_multiset().add(b@.take(0).to_multiset()));
    }
    while i < n || j < m
        invariant
            n == a@.len(),
            m == b@.len(),
            i <= n,
            j <= m,
            fit(arena@, a@),
            fit(arena@, b@),
            sorted(arena@, a@),
            sorted(arena@, b@),
            fit(arena@, out@),
            sorted(arena@, out@),
            out@.to_multiset() =~= a@.take(i as int).to_multiset().add(
                b@.take(j as int).to_multiset(),
            ),
            i < n ==> forall|k: int|
                0 <= k < out@.len() ==> !a@[i as int].lt(#[trigger] out@[k], arena@),
            j < m ==> forall|k: int|
                0 <= k < out@.len() ==> !b@[j as int].lt(#[trigger] out@[k], arena@),
        decreases (n - i) + (m - j),
    {
        let take_b = if i >= n {
            true
        } else if j >= m {
            false
        } else {
            span_before(arena, b[j], a[i])
        };
        let ghost before = out@;
        if take_b {
            let e = b[j];
            proof {
                out@.to_multiset_ensures();
                b@.take(j as int).to_multiset_ensures();
                assert(b@.take(j + 1) == b@.take(j as int).push(e));
                if i < n {
                    lemma_span_total(arena@, a@[i as int], e);
                }
                if j + 1 < m {
                    let nx = b@[j + 1];
                    assert forall|k: int| 0 <= k < before.len() implies !nx.lt(
                        #[trigger] before[k],
                        arena@,
                    ) by {
                        lemma_span_transitive(arena@, before[k], e, nx);
                    }
                }
            }
            out.push(e);
            j = j + 1;
        } else {
            let e = a[i];
            proof {
                out@.to_multiset_ensures();
                a@.take(i as int).to_multiset_ensures();
                assert(a@.take(i + 1) == a@.take(i as int).push(e));
                if i + 1 < n {
                    let nx = a@[i + 1];
                    assert forall|k: int| 0 <= k < before.len() implies !nx.lt(
                        #[trigger] before[k],
                        arena@,
                    ) by {
                        lemma_span_transitive(arena@, before[k], e, nx);
                    }
                }
            }
            out.push(e);
            i = i + 1;
        }
        proof {
            assert forall|x: int, y: int| 0 <= x < y < out@.len() implies !(
            #[trigger] out@[y]).lt(#[trigger] out@[x], arena@) by {
                if y < before.len() {
                    assert(out@[y] == before[y] && out@[x] == before[x]);
                } else {
                    assert(out@[x] == before[x]);
                }
            }
        }
    }
    assert(a@.take(n as int) == a@);
    assert(b@.take(m as int) == b@);
    out
}

/// Merge sort.
fn merge_sort(arena: &Vec<char>, v: Vec<Span>) -> (r: Vec<Span>)
    requires
        fit(arena@, v@),
    ensures
        fit(arena@, r@),
        sorted(arena@, r@),
        r@.to_multiset() == v@.to_multiset(),
    decreases v@.len(),
{
    let n: usize = v.len();
    if n <= 1 {
        return v;
    }
    let h: usize = n / 2;
    let mut left: Vec<Span> = Vec::new();
    for i in 0..h
        invariant
            n == v@.len(),
            h <= n,
            left@ == v@.take(i as int),
    {
        left.push(v[i]);
        assert(v@.take(i + 1) == v@.take(i as int).push(v@[i as int]));
    }
    let mut right: Vec<Span> = Vec::new();
    for i in h..n
        invariant
            n == v@.len(),
            h <= n,
            right@ == v@.subrange(h as int, i as int),
    {
        right.push(v[i]);
        assert(v@.subrange(h as int, i + 1) == v@.subrange(h as int, i as int).push(v@[i as int]));
    }
    proof {
        vstd::seq_lib::lemma_multiset_commutative(left@, right@);
        assert(left@ + right@ == v@);
    }
    let a = merge_sort(arena, left);
    let b = merge_sort(arena, right);
    merge(arena, &a, &b)
}

/// Sorted map from keys to rule ids, all keys in one arena. A key may occur
/// more than once (same domain in several lists).
#[derive(Debug)]
pub struct KeyIndex {
    pub arena: Vec<char>,
    pub entries: Vec<Span>,
}

impl KeyIndex {
    pub open spec fn wf(self) -> bool {
        fit(self.arena@, self.entries@)
    }

    pub open spec fn ready(self) -> bool {
        self.wf() && sorted(self.arena@, self.entries@)
    }

    pub open spec fn key_at(self, k: int) -> Seq<char> {
        self.entries@[k].key(self.arena@)
    }

    /// Some entry leads to the rule.
    pub open spec fn leads_to(self, id: int) -> bool {
        exists|k: int| 0 <= k < self.entries@.len() && (#[trigger] self.entries@[k]).rule == id
    }

    pub(crate) fn insert(&mut self, key: &[char], rule: usize)
        requires
            old(self).wf(),
        ensures
            final(self).wf(),
            final(self).entries@.len() == old(self).entries@.len() + 1,
            forall|k: int|
                0 <= k < old(self).entries@.len() ==> final(self).entries@[k] == old(
                    self,
                ).entries@[k] && final(self).key_at(k) == #[trigger] old(self).key_at(k),
            final(self).entries@.last().rule == rule,
            final(self).key_at(old(self).entries@.len() as int) == key@,
    {
        let off: usize = self.arena.len();
        let ghost before = self.arena@;
        let len: usize = key.len();
        for i in 0..len
            invariant
                len == key@.len(),
                self.arena@ == before + key@.take(i as int),
                self.entries@ == old(self).entries@,
        {
            self.arena.push(key[i]);
            assert(key@.take(i + 1) == key@.take(i as int).push(key@[i as int]));
        }
        assert(key@.take(len as int) == key@);
        let ghost arena = self.arena@;
        self.entries.push(Span { off, len, rule });
        proof {
            assert forall|k: int| 0 <= k < old(self).entries@.len() implies self.entries@[k] == old(
                self,
            ).entries@[k] && self.key_at(k) == #[trigger] old(self).key_at(k) && self.entries@[k].fits(
            arena) by {
                assert(old(self).entries@[k].fits(before));
                assert(old(self).entries@[k].key(arena) == old(self).entries@[k].key(before));
            }
            assert(arena.subrange(off as int, off + len) == key@);
            assert forall|i: int| 0 <= i < self.entries@.len() implies (
            #[trigger] self.entries@[i]).fits(arena) by {
                if i < old(self).entries@.len() {
                    let trig = old(self).key_at(i);
                }
            }
        }
    }

    /// Put the entries in order.
    pub(crate) fn sort(&mut self)
        requires
            old(self).wf(),
        ensures
            final(self).ready(),
            final(self).arena@ == old(self).arena@,
            final(self).entries@.to_multiset() == old(self).entries@.to_multiset(),
    {
        let mut entries: Vec<Span> = Vec::new();
        std::mem::swap(&mut entries, &mut self.entries);
        self.entries = merge_sort(&self.arena, entries);
    }

    /// First and one past the last entry whose key is `needle`.
    pub(crate) fn equal_range(&self, needle: &[char]) -> (r: (usize, usize))
        requires
            self.ready(),
        ensures
            r.0 <= r.1 <= self.entries@.len(),
            forall|k: int|
                0 <= k < self.entries@.len() ==> (#[trigger] self.key_at(k) == needle@ <==> r.0 <= k
                    < r.1),
            forall|j: int, k: int|
                r.0 <= j <= k < r.1 ==> (#[trigger] self.entries@[j]).rule <= (
                #[trigger] self.entries@[k]).rule,
    {
        let n: usize = self.entries.len();
        let mut lo: usize = 0;
        let mut hi: usize = n;
        while lo < hi
            invariant
                self.ready(),
                n == self.entries@.len(),
                lo <= hi <= n,
                forall|k: int| 0 <= k < lo ==> lex_lt(#[trigger] self.key_at(k), needle@),
                forall|k: int| hi <= k < n ==> !lex_lt(#[trigger] self.key_at(k), needle@),
            decreases hi - lo,
        {
            let mid: usize = lo + (hi - lo) / 2;
            let e = self.entries[mid];
            assert(e.fits(self.arena@));
            let less = key_before(key_of(&self.arena, e), needle);
            proof {
                let c = self.key_at(mid as int);
                assert(c == e.key(self.arena@));
                if less {
                    assert forall|k: int| 0 <= k <= mid implies lex_lt(
                        #[trigger] self.key_at(k),
                        needle@,
                    ) by {
                        if k < mid {
                            lemma_span_total(
                                self.arena@,
                                self.entries@[mid as int],
                                self.entries@[k],
                            );
                            lemma_lex_transitive(self.key_at(k), c, needle@);
                        }
                    }
                } else {
                    assert forall|k: int| mid <= k < n implies !lex_lt(
                        #[trigger] self.key_at(k),
                        needle@,
                    ) by {
                        if k > mid {
                            lemma_span_total(
                                self.arena@,
                                self.entries@[k],
                                self.entries@[mid as int],
                            );
                            lemma_lex_transitive(needle@, c, self.key_at(k));
                        }
                    }
                }
            }
            if less {
                lo = mid + 1;
            } else {
                hi = mid;
            }
        }
        let start: usize = lo;
        let mut end: usize = start;
        proof {
            lemma_lex_irreflexive(needle@);
        }
        while end < n && crate::text::chars_eq(key_of(&self.arena, self.entries[end]), needle)
            invariant
                self.ready(),
                n == self.entries@.len(),
                start <= end <= n,
                forall|k: int| start <= k < end ==> #[trigger] self.key_at(k) == needle@,
            decreases n - end,
        {
            assert(self.key_at(end as int) == needle@);
            end = end + 1;
        }
        proof {
            assert forall|k: int| 0 <= k < n implies (#[trigger] self.key_at(k) == needle@ <==> start
                <= k < end) by {
                if end <= k {
                    let c = self.key_at(end as int);
                    lemma_lex_total(c, needle@);
                    if k > end {
                        lemma_span_total(
                            self.arena@,
                            self.entries@[k],
                            self.entries@[end as int],
                        );
                        lemma_lex_transitive(needle@, c, self.key_at(k));
                    }
                }
            }
        }
        proof {
            assert forall|j: int, k: int| start <= j <= k < end implies (
            #[trigger] self.entries@[j]).rule <= (#[trigger] self.entries@[k]).rule by {
                assert(self.key_at(j) == needle@ && self.key_at(k) == needle@);
                if j < k {
                    assert(!self.entries@[k].lt(self.entries@[j], self.arena@));
                }
            }
        }
        (start, end)
    }
}

} // verus!
