//! Writing an address down and reading it again.
use vstd::prelude::*;

use crate::ip::show::{colon_text, hexadecimal, ip_text, longest_run, low_segments, nibble_char};
use crate::ip::show::{octet_at, segments, v4_text, v6_text, zero_run};
use crate::ip::{double_colon, group, groups, hex_digit, hex_value, literal, octet, pack, quad};
use crate::ip::{side, v4_literal, v6_literal, Ip};
use crate::text::{decimal, digit_char, find_from, is_digit, join, lemma_decimal};
use crate::text::{lemma_find_from, lemma_split_push, split};

verus! {

/// The text has no `c`.
pub open spec fn lacks(s: Seq<char>, c: char) -> bool {
    forall|i: int| 0 <= i < s.len() ==> #[trigger] s[i] != c
}

proof fn lemma_split_one(s: Seq<char>, sep: char)
    requires
        lacks(s, sep),
    ensures
        split(s, sep) == seq![s],
{
    lemma_find_from(s, sep, 0);
}

proof fn lemma_split_more(s: Seq<char>, t: Seq<char>, sep: char)
    requires
        lacks(t, sep),
    ensures
        split(s, sep).len() > 0,
        split(s + t, sep) == split(s, sep).drop_last().push(split(s, sep).last() + t),
    decreases t.len(),
{
    let p = split(s, sep);
    lemma_split_push(s, sep, sep);
    if t.len() == 0 {
        assert(s + t == s);
        assert(p.last() + t == p.last());
        assert(p.drop_last().push(p.last()) == p);
    } else {
        let h = t.drop_last();
        let c = t.last();
        lemma_split_more(s, h, sep);
        lemma_split_push(s + h, sep, c);
        assert((s + h).push(c) == s + t);
        let q = split(s + h, sep);
        assert(q.drop_last() == p.drop_last());
        assert(q.last().push(c) == p.last() + t);
    }
}

/// A separator and a part without it are one more part.
proof fn lemma_split_part(s: Seq<char>, t: Seq<char>, sep: char)
    requires
        lacks(t, sep),
    ensures
        split(s.push(sep) + t, sep) == split(s, sep).push(t),
{
    lemma_split_push(s, sep, sep);
    lemma_split_more(s.push(sep), t, sep);
    let p = split(s.push(sep), sep);
    assert(p.last() + t == t);
    assert(p.drop_last() == split(s, sep));
}

proof fn lemma_octet(n: nat)
    requires
        n < 256,
    ensures
        octet(decimal(n)) == Some(n as u8),
        lacks(decimal(n), '.'),
        lacks(decimal(n), ':'),
        1 <= decimal(n).len() <= 3,
{
    lemma_decimal(n);
    let s = decimal(n);
    assert forall|i: int| 0 <= i < s.len() implies #[trigger] s[i] != '.' && s[i] != ':' by {
        assert(is_digit(s[i]));
    }
    reveal_with_fuel(decimal, 3);
    if n < 10 {
        assert(s == seq![digit_char(n)]);
    } else if n < 100 {
        assert(s == seq![digit_char(n / 10), digit_char(n % 10)]);
    } else {
        assert(n / 10 / 10 == n / 100);
        assert(s == seq![digit_char(n / 100), digit_char((n / 10) % 10), digit_char(n % 10)]);
    }
}

proof fn lemma_quad(a: u32)
    ensures
        quad(
            octet_at(a, 0) as u8,
            octet_at(a, 1) as u8,
            octet_at(a, 2) as u8,
            octet_at(a, 3) as u8,
        ) == a,
        forall|i: int| 0 <= i < 4 ==> #[trigger] octet_at(a, i) < 256,
{
    assert(a / 0x100_0000 < 256) by (bit_vector);
    assert(((a / 0x100_0000) as u8 as u32) << 24 | (((a / 0x1_0000) % 256) as u8 as u32) << 16
        | (((a / 0x100) % 256) as u8 as u32) << 8 | ((a % 256) as u8 as u32) == a) by (bit_vector);
}

proof fn lemma_v4(a: u32)
    ensures
        v4_literal(v4_text(a)) == Some(a),
        lacks(v4_text(a), ':'),
        split(v4_text(a), '.').len() == 4,
        split(v4_text(a), '.')[0] == decimal(octet_at(a, 0)),
        v4_text(a).len() >= 7,
        exists|i: int| 0 <= i < v4_text(a).len() && #[trigger] v4_text(a)[i] == '.',
{
    reveal_strlit(".");
    lemma_quad(a);
    let d0 = decimal(octet_at(a, 0));
    let d1 = decimal(octet_at(a, 1));
    let d2 = decimal(octet_at(a, 2));
    let d3 = decimal(octet_at(a, 3));
    lemma_octet(octet_at(a, 0));
    lemma_octet(octet_at(a, 1));
    lemma_octet(octet_at(a, 2));
    lemma_octet(octet_at(a, 3));
    let s1 = d0.push('.') + d1;
    let s2 = s1.push('.') + d2;
    let s3 = s2.push('.') + d3;
    assert(v4_text(a) =~= s3);
    assert(s3[d0.len() as int] == '.');
    lemma_split_one(d0, '.');
    lemma_split_part(d0, d1, '.');
    lemma_split_part(s1, d2, '.');
    lemma_split_part(s2, d3, '.');
    assert(split(s3, '.') =~= seq![d0, d1, d2, d3]);
}

proof fn lemma_nibble(d: nat)
    requires
        d < 16,
    ensures
        hex_digit(nibble_char(d)) == d,
        nibble_char(d) != ':',
        nibble_char(d) != '.',
{
}

proof fn lemma_hexadecimal(n: nat)
    ensures
        hexadecimal(n).len() > 0,
        hex_value(hexadecimal(n)) == n,
        forall|i: int| 0 <= i < hexadecimal(n).len() ==> hex_digit(#[trigger] hexadecimal(n)[i]) < 16,
        lacks(hexadecimal(n), ':'),
        lacks(hexadecimal(n), '.'),
    decreases n,
{
    let t = hexadecimal(n);
    if n < 16 {
        lemma_nibble(n);
        assert(t.drop_last() == Seq::<char>::empty());
        assert(hex_value(t.drop_last()) == 0);
    } else {
        lemma_hexadecimal(n / 16);
        lemma_nibble(n % 16);
        let h = hexadecimal(n / 16);
        assert(t.drop_last() == h);
    }
}

proof fn lemma_group(n: u16)
    ensures
        group(hexadecimal(n as nat)) == Some(n),
{
    lemma_hexadecimal(n as nat);
    reveal_with_fuel(hexadecimal, 4);
    let n = n as nat;
    assert(n / 16 / 16 / 16 < 16);
    assert(hexadecimal(n).len() <= 4);
}

/// Groups as their texts.
pub open spec fn group_texts(g: Seq<u16>) -> Seq<Seq<char>> {
    Seq::new(g.len(), |i: int| hexadecimal(g[i] as nat))
}

/// No colon at either end, none beside another.
pub open spec fn single_colons(s: Seq<char>) -> bool {
    &&& s.len() > 0 ==> s[0] != ':' && s.last() != ':'
    &&& forall|i: int| 0 <= i < s.len() - 1 ==> !(#[trigger] s[i] == ':' && s[i + 1] == ':')
}

proof fn lemma_colon_text(g: Seq<u16>)
    requires
        g.len() > 0,
    ensures
        colon_text(g).len() > 0,
        split(colon_text(g), ':') == group_texts(g),
        single_colons(colon_text(g)),
        lacks(colon_text(g), '.'),
    decreases g.len(),
{
    reveal_strlit(":");
    let last = hexadecimal(g.last() as nat);
    lemma_hexadecimal(g.last() as nat);
    if g.len() == 1 {
        lemma_split_one(last, ':');
        assert(group_texts(g) == seq![last]);
    } else {
        let before = g.drop_last();
        lemma_colon_text(before);
        let h = colon_text(before);
        let s = colon_text(g);
        assert(s == h.push(':') + last);
        lemma_split_part(h, last, ':');
        assert(group_texts(g) == group_texts(before).push(last));
        assert(s[0] == h[0]);
        assert(s.last() == last.last());
        assert forall|i: int| 0 <= i < s.len() - 1 implies !(#[trigger] s[i] == ':' && s[i + 1]
            == ':') by {
            if i + 1 < h.len() {
                assert(s[i] == h[i] && s[i + 1] == h[i + 1]);
            } else if i + 1 == h.len() {
                assert(s[i] == h.last());
            } else {
                assert(s[i + 1] == last[i - h.len()]);
            }
        }
        assert forall|i: int| 0 <= i < s.len() implies #[trigger] s[i] != '.' by {
            if i < h.len() {
                assert(s[i] == h[i]);
            } else if i > h.len() {
                assert(s[i] == last[i - h.len() - 1]);
            }
        }
    }
}

proof fn lemma_groups(g: Seq<u16>, quad_last: bool)
    ensures
        groups(group_texts(g), quad_last) == Some(g),
    decreases g.len(),
{
    let p = group_texts(g);
    if g.len() > 0 {
        lemma_groups(g.drop_last(), false);
        lemma_group(g.last());
        assert(p.drop_last() == group_texts(g.drop_last()));
        assert(g.drop_last().push(g.last()) == g);
    } else {
        assert(g == Seq::<u16>::empty());
    }
}

proof fn lemma_side(g: Seq<u16>, quad_last: bool)
    ensures
        side(colon_text(g), quad_last) == Some(g),
{
    if g.len() > 0 {
        lemma_colon_text(g);
        lemma_groups(g, quad_last);
    } else {
        assert(g == Seq::<u16>::empty());
    }
}

proof fn lemma_double_colon(s: Seq<char>, from: int, k: int)
    requires
        0 <= from <= k,
        k + 1 < s.len(),
        s[k] == ':' && s[k + 1] == ':',
        forall|i: int| from <= i < k ==> !(#[trigger] s[i] == ':' && s[i + 1] == ':'),
    ensures
        double_colon(s, from) == k,
    decreases k - from,
{
    if from < k {
        assert(!(s[from] == ':' && s[from + 1] == ':'));
        lemma_double_colon(s, from + 1, k);
    }
}

proof fn lemma_no_double_colon(s: Seq<char>, from: int)
    requires
        0 <= from <= s.len(),
        single_colons(s),
    ensures
        double_colon(s, from) == s.len(),
    decreases s.len() - from,
{
    if from + 1 < s.len() {
        assert(!(s[from] == ':' && s[from + 1] == ':'));
        lemma_no_double_colon(s, from + 1);
    }
}

/// Dividing by a group's weight some times.
pub open spec fn shifted(a: u128, k: nat) -> u128
    decreases k,
{
    if k == 0 {
        a
    } else {
        shifted(a / 0x1_0000, (k - 1) as nat)
    }
}

proof fn lemma_pack(a: u128, k: nat)
    requires
        shifted(a, k) == 0,
    ensures
        pack(low_segments(a, k)) == a,
        low_segments(a, k).len() == k,
    decreases k,
{
    if k > 0 {
        let high = a / 0x1_0000u128;
        lemma_pack(high, (k - 1) as nat);
        let s = low_segments(a, k);
        assert(s.drop_last() == low_segments(high, (k - 1) as nat));
        let low: u16 = (a % 0x1_0000u128) as u16;
        assert(s.last() == low);
        assert(((a / 0x1_0000) << 16) | ((a % 0x1_0000) as u16 as u128) == a) by (bit_vector);
    }
}

proof fn lemma_packed(a: u128)
    ensures
        pack(segments(a)) == a,
        segments(a).len() == 8,
{
    reveal_with_fuel(shifted, 9);
    let b = a / 0x1_0000u128 / 0x1_0000u128 / 0x1_0000u128 / 0x1_0000u128 / 0x1_0000u128
        / 0x1_0000u128 / 0x1_0000u128 / 0x1_0000u128;
    assert(shifted(a, 8) == b);
    assert(b == 0);
    lemma_pack(a, 8);
}

/// Some run of zeros starting before `n` is the first of the longest.
proof fn lemma_longest(g: Seq<u16>, n: int) -> (i: int)
    requires
        0 < n <= g.len(),
    ensures
        0 <= i < n,
        forall|j: int| 0 <= j < n ==> #[trigger] zero_run(g, j) <= zero_run(g, i),
        forall|j: int| 0 <= j < i ==> #[trigger] zero_run(g, j) < zero_run(g, i),
    decreases n,
{
    if n == 1 {
        0
    } else {
        let i = lemma_longest(g, n - 1);
        if zero_run(g, n - 1) > zero_run(g, i) {
            n - 1
        } else {
            i
        }
    }
}

proof fn lemma_zero_run(g: Seq<u16>, i: int)
    requires
        0 <= i <= g.len(),
    ensures
        0 <= zero_run(g, i) <= g.len() - i,
        forall|j: int| i <= j < i + zero_run(g, i) ==> #[trigger] g[j] == 0,
    decreases g.len() - i,
{
    if i < g.len() && g[i] == 0 {
        lemma_zero_run(g, i + 1);
    }
}

proof fn lemma_v6_mapped(a: u128)
    requires
        a / 0x1_0000_0000 == 0xffff,
    ensures
        v6_literal(v6_text(a)) == Some(a),
        v4_literal(v6_text(a)) is None,
{
    let v = (a % 0x1_0000_0000) as u32;
    let t = v4_text(v);
    let s = v6_text(a);
    lemma_v4(v);
    reveal_strlit("::ffff:");
    assert(s == "::ffff:"@ + t);
    assert(s[0] == ':' && s[1] == ':');
    lemma_double_colon(s, 0, 0);
    assert(s.take(0) == Seq::<char>::empty());
    let f = seq!['f', 'f', 'f', 'f'];
    assert(s.skip(2) =~= f.push(':') + t);
    lemma_split_one(f, ':');
    lemma_split_part(f, t, ':');
    let p = split(s.skip(2), ':');
    assert(p =~= seq![f, t]);
    // The first part is the group ffff.
    assert(hex_value(f) == 0xffff) by {
        reveal_with_fuel(hex_value, 5);
        assert(f.drop_last() =~= seq!['f', 'f', 'f']);
        assert(f.drop_last().drop_last() =~= seq!['f', 'f']);
        assert(f.drop_last().drop_last().drop_last() =~= seq!['f']);
        assert(f.drop_last().drop_last().drop_last().drop_last() =~= Seq::<char>::empty());
    }
    assert(group(f) == Some(0xffffu16));
    let h = p.drop_last();
    assert(h =~= seq![f]);
    assert(h.drop_last() =~= Seq::<Seq<char>>::empty());
    assert(groups(h.drop_last(), false) == Some(Seq::<u16>::empty()));
    assert(groups(h, false) == Some(Seq::<u16>::empty().push(0xffffu16)));
    // The second is no group but a dotted quad.
    let dot = choose|i: int| 0 <= i < t.len() && #[trigger] t[i] == '.';
    assert(hex_digit(t[dot]) >= 16);
    assert(group(t) is None);
    let hi = (v >> 16) as u16;
    let lo = (v & 0xffff) as u16;
    let r = Seq::<u16>::empty().push(0xffffu16) + seq![hi, lo];
    assert(groups(p, true) == Some(r));
    assert(side(s.skip(2), true) == Some(r));
    // Together they are the address's groups.
    let g = segments(a);
    lemma_packed(a);
    let zeros = Seq::new((8 - r.len()) as nat, |i: int| 0u16);
    assert(Seq::<u16>::empty() + zeros + r =~= g) by {
        reveal_with_fuel(low_segments, 9);
        let a1 = a / 0x1_0000u128;
        let a2 = a1 / 0x1_0000u128;
        let a3 = a2 / 0x1_0000u128;
        assert(a == 0xffff_0000_0000 + v);
        assert(lo == a % 0x1_0000 && hi == a1 % 0x1_0000) by {
            assert((v >> 16) as u16 == v / 0x1_0000) by (bit_vector);
            assert((v & 0xffff) as u16 == v % 0x1_0000) by (bit_vector);
        }
        assert(a2 == 0xffff);
        assert(a3 == 0);
    }
    // Read as a dotted quad it fails on the first part.
    let q = split(s, '.');
    lemma_split_prefix("::ffff:"@, t, '.');
    assert(q[0].len() > 3);
}

/// Text in front of the first separator stays with the first part.
proof fn lemma_split_prefix(a: Seq<char>, t: Seq<char>, sep: char)
    requires
        lacks(a, sep),
    ensures
        split(a + t, sep).len() > 0,
        split(a + t, sep)[0] == a + split(t, sep)[0],
{
    lemma_find_from(t, sep, 0);
    lemma_find_from(a + t, sep, 0);
    let k = find_from(t, sep, 0);
    let m = find_from(a + t, sep, 0);
    if k < t.len() {
        assert((a + t)[a.len() + k] == sep);
        assert(m == a.len() + k) by {
            if m < a.len() + k {
                if m < a.len() {
                    assert(a[m] != sep);
                } else {
                    assert(t[m - a.len()] == sep);
                }
            }
        }
        assert((a + t).take(m) == a + t.take(k));
    } else {
        assert(m >= (a + t).len()) by {
            if m < (a + t).len() {
                if m < a.len() {
                    assert(a[m] != sep);
                } else {
                    assert(t[m - a.len()] == sep);
                }
            }
        }
    }
}

proof fn lemma_v6_plain(a: u128)
    requires
        a / 0x1_0000_0000 != 0xffff,
    ensures
        v6_literal(v6_text(a)) == Some(a),
        v4_literal(v6_text(a)) is None,
{
    reveal_strlit("::");
    let g = segments(a);
    lemma_packed(a);
    let best = lemma_longest(g, 8);
    assert(longest_run(g, best));
    let i = choose|i: int| longest_run(g, i);
    assert(longest_run(g, i));
    lemma_zero_run(g, i);
    let run = zero_run(g, i);
    let s = v6_text(a);
    if run > 1 {
        let lg = g.take(i);
        let rg = g.skip(i + run);
        let l = colon_text(lg);
        let r = colon_text(rg);
        assert(s == l + "::"@ + r);
        let k = l.len() as int;
        if lg.len() > 0 {
            lemma_colon_text(lg);
        }
        if rg.len() > 0 {
            lemma_colon_text(rg);
        }
        assert(s[k] == ':' && s[k + 1] == ':');
        assert forall|p: int| 0 <= p < k implies !(#[trigger] s[p] == ':' && s[p + 1] == ':') by {
            assert(s[p] == l[p]);
            if p + 1 < k {
                assert(s[p + 1] == l[p + 1]);
            } else {
                assert(s[p] == l.last());
            }
        }
        lemma_double_colon(s, 0, k);
        assert(s.take(k) == l);
        assert(s.skip(k + 2) == r);
        lemma_side(lg, false);
        lemma_side(rg, true);
        let zeros = Seq::new((8 - lg.len() - rg.len()) as nat, |i: int| 0u16);
        assert(lg + zeros + rg =~= g);
        assert(lacks(s, '.')) by {
            assert forall|p: int| 0 <= p < s.len() implies #[trigger] s[p] != '.' by {
                if p < k {
                    assert(s[p] == l[p]);
                } else if p >= k + 2 {
                    assert(s[p] == r[p - k - 2]);
                }
            }
        }
    } else {
        lemma_colon_text(g);
        lemma_no_double_colon(s, 0);
        lemma_groups(g, true);
    }
    lemma_split_one(s, '.');
}

/// The text of an address is a literal of it.
pub proof fn law_ip_roundtrip(ip: Ip)
    ensures
        literal(ip_text(ip)) == Some(ip),
{
    match ip {
        Ip::V4(a) => {
            lemma_v4(a);
        },
        Ip::V6(a) => {
            if a / 0x1_0000_0000 == 0xffff {
                lemma_v6_mapped(a);
            } else {
                lemma_v6_plain(a);
            }
        },
    }
}

/// Texts that are groups, with their values.
pub open spec fn are_groups(ts: Seq<Seq<char>>, vs: Seq<u16>) -> bool {
    ts.len() == vs.len() && forall|i: int| 0 <= i < ts.len() ==> group(#[trigger] ts[i]) == Some(
        vs[i],
    )
}

proof fn lemma_group_chars(s: Seq<char>)
    requires
        group(s) is Some,
    ensures
        s.len() > 0,
        lacks(s, ':'),
        lacks(s, '.'),
{
    assert forall|i: int| 0 <= i < s.len() implies #[trigger] s[i] != ':' && s[i] != '.' by {
        assert(hex_digit(s[i]) < 16);
    }
}

proof fn lemma_joined_groups(ts: Seq<Seq<char>>, vs: Seq<u16>)
    requires
        are_groups(ts, vs),
        ts.len() > 0,
    ensures
        join(ts, ":"@).len() > 0,
        split(join(ts, ":"@), ':') == ts,
        single_colons(join(ts, ":"@)),
        lacks(join(ts, ":"@), '.'),
    decreases ts.len(),
{
    reveal_strlit(":");
    let last = ts.last();
    assert(group(ts[ts.len() - 1]) == Some(vs[ts.len() - 1]));
    lemma_group_chars(last);
    let s = join(ts, ":"@);
    if ts.len() == 1 {
        lemma_split_one(last, ':');
        assert(ts =~= seq![last]);
    } else {
        let (before, bv) = (ts.drop_last(), vs.drop_last());
        assert forall|i: int| 0 <= i < before.len() implies group(#[trigger] before[i]) == Some(
            bv[i],
        ) by {
            assert(before[i] == ts[i]);
        }
        lemma_joined_groups(before, bv);
        let h = join(before, ":"@);
        assert(s =~= h.push(':') + last);
        lemma_split_part(h, last, ':');
        assert(before.push(last) =~= ts);
        assert(s[0] == h[0]);
        assert(s.last() == last.last());
        assert forall|i: int| 0 <= i < s.len() - 1 implies !(#[trigger] s[i] == ':' && s[i + 1]
            == ':') by {
            if i + 1 < h.len() {
                assert(s[i] == h[i] && s[i + 1] == h[i + 1]);
            } else if i + 1 == h.len() {
                assert(s[i] == h.last());
            } else {
                assert(s[i + 1] == last[i - h.len()]);
            }
        }
        assert forall|i: int| 0 <= i < s.len() implies #[trigger] s[i] != '.' by {
            if i < h.len() {
                assert(s[i] == h[i]);
            } else if i > h.len() {
                assert(s[i] == last[i - h.len() - 1]);
            }
        }
    }
}

proof fn lemma_groups_read(ts: Seq<Seq<char>>, vs: Seq<u16>, quad_last: bool)
    requires
        are_groups(ts, vs),
    ensures
        groups(ts, quad_last) == Some(vs),
    decreases ts.len(),
{
    if ts.len() > 0 {
        let (before, bv) = (ts.drop_last(), vs.drop_last());
        assert forall|i: int| 0 <= i < before.len() implies group(#[trigger] before[i]) == Some(
            bv[i],
        ) by {
            assert(before[i] == ts[i]);
        }
        lemma_groups_read(before, bv, false);
        assert(group(ts[ts.len() - 1]) == Some(vs[ts.len() - 1]));
        assert(bv.push(vs.last()) =~= vs);
    } else {
        assert(vs =~= Seq::<u16>::empty());
    }
}

/// Groups as one number, each a place of sixteen bits, the first of the most
/// weight.
pub open spec fn weight_of(g: Seq<u16>) -> int
    decreases g.len(),
{
    if g.len() == 0 {
        0
    } else {
        0x1_0000 * weight_of(g.drop_last()) + g.last()
    }
}

spec fn places(k: nat) -> int
    decreases k,
{
    if k == 0 {
        1
    } else {
        0x1_0000 * places((k - 1) as nat)
    }
}

proof fn lemma_weight(g: Seq<u16>)
    requires
        g.len() <= 8,
    ensures
        pack(g) == weight_of(g),
        0 <= weight_of(g) < places(g.len()),
    decreases g.len(),
{
    if g.len() > 0 {
        let t = g.drop_last();
        lemma_weight(t);
        let (x, y) = (pack(t), g.last());
        assert(places(7) == 0x1_0000_0000_0000_0000_0000_0000_0000) by {
            reveal_with_fuel(places, 8);
        }
        assert(places(t.len()) <= places(7)) by {
            lemma_places(t.len(), 7);
        }
        assert((x << 16) | (y as u128) == 0x1_0000 * x + y) by (bit_vector)
            requires
                x < 0x1_0000_0000_0000_0000_0000_0000_0000,
        ;
    }
}

proof fn lemma_places(a: nat, b: nat)
    requires
        a <= b,
    ensures
        0 < places(a) <= places(b),
    decreases b,
{
    if a < b {
        lemma_places(a, (b - 1) as nat);
    } else if b > 0 {
        lemma_places((a - 1) as nat, (b - 1) as nat);
    }
}

/// Eight groups between colons are an IPv6 address, in either case and with
/// or without leading zeros; any other number of them is none.
pub proof fn law_eight_groups(ts: Seq<Seq<char>>, vs: Seq<u16>)
    requires
        are_groups(ts, vs),
        ts.len() > 0,
    ensures
        ts.len() == 8 ==> literal(join(ts, ":"@)) == Some(Ip::V6(weight_of(vs) as u128)),
        ts.len() != 8 ==> literal(join(ts, ":"@)) is None,
{
    let s = join(ts, ":"@);
    lemma_joined_groups(ts, vs);
    lemma_no_double_colon(s, 0);
    lemma_groups_read(ts, vs, true);
    lemma_split_one(s, '.');
    if ts.len() == 8 {
        lemma_weight(vs);
    }
}

/// One `::` stands for all the groups that are missing, at least one, wherever
/// it is; with eight or more groups around it the text is no address.
pub proof fn law_shortened_groups(
    l: Seq<Seq<char>>,
    lv: Seq<u16>,
    r: Seq<Seq<char>>,
    rv: Seq<u16>,
)
    requires
        are_groups(l, lv),
        are_groups(r, rv),
    ensures
        ({
            let s = join(l, ":"@) + "::"@ + join(r, ":"@);
            let zeros = Seq::new((8 - l.len() - r.len()) as nat, |i: int| 0u16);
            &&& l.len() + r.len() <= 7 ==> literal(s) == Some(
                Ip::V6(weight_of(lv + zeros + rv) as u128),
            )
            &&& l.len() + r.len() > 7 ==> literal(s) is None
        }),
{
    reveal_strlit("::");
    let (a, b) = (join(l, ":"@), join(r, ":"@));
    let s = a + "::"@ + b;
    let k = a.len() as int;
    if l.len() > 0 {
        lemma_joined_groups(l, lv);
    }
    if r.len() > 0 {
        lemma_joined_groups(r, rv);
    }
    assert(s[k] == ':' && s[k + 1] == ':');
    assert forall|p: int| 0 <= p < k implies !(#[trigger] s[p] == ':' && s[p + 1] == ':') by {
        assert(s[p] == a[p]);
        if p + 1 < k {
            assert(s[p + 1] == a[p + 1]);
        } else {
            assert(s[p] == a.last());
        }
    }
    lemma_double_colon(s, 0, k);
    assert(s.take(k) =~= a);
    assert(s.skip(k + 2) =~= b);
    lemma_groups_read(l, lv, false);
    lemma_groups_read(r, rv, true);
    assert(side(a, false) == Some(lv)) by {
        if l.len() == 0 {
            assert(lv =~= Seq::<u16>::empty());
        }
    }
    assert(side(b, true) == Some(rv)) by {
        if r.len() == 0 {
            assert(rv =~= Seq::<u16>::empty());
        }
    }
    assert(lacks(s, '.')) by {
        assert forall|p: int| 0 <= p < s.len() implies #[trigger] s[p] != '.' by {
            if p < k {
                assert(s[p] == a[p]);
            } else if p >= k + 2 {
                assert(s[p] == b[p - k - 2]);
            }
        }
    }
    lemma_split_one(s, '.');
    if l.len() + r.len() <= 7 {
        let zeros = Seq::new((8 - l.len() - r.len()) as nat, |i: int| 0u16);
        lemma_weight(lv + zeros + rv);
    }
}

} // verus!
