//! IP addresses as plain values: literals, networks, and the few address
//! classes the rules depend on.
use vstd::prelude::*;

pub mod forms;
pub mod laws;
pub mod show;

use crate::text::{is_digit, lower_char, lowered_char, split, split_chars};

verus! {

/// An IP address. The value is the address in network order as a number.
#[derive(Debug, Clone, Copy, PartialEq, Eq, Structural)]
pub enum Ip {
    V4(u32),
    V6(u128),
}

/// An address with a port. `scope` is the IPv6 scope (the `2` of
/// `[fe80::1%2]:53`), 0 where there is none.
#[derive(Debug, Clone, Copy, PartialEq, Eq, Structural)]
pub struct Endpoint {
    pub ip: Ip,
    pub port: u16,
    pub scope: u32,
}

/// An address block: every address that shares its first `prefix` bits. One
/// whose prefix is longer than its address covers nothing.
#[derive(Debug, Clone, Copy, PartialEq, Eq, Structural)]
pub struct Net {
    pub base: Ip,
    pub prefix: u8,
}

impl Ip {
    /// `0.0.0.0` or `::`.
    pub open spec fn unspecified(self) -> bool {
        match self {
            Ip::V4(a) => a == 0,
            Ip::V6(a) => a == 0,
        }
    }

    /// `127.0.0.0/8` or `::1`.
    pub open spec fn loopback(self) -> bool {
        match self {
            Ip::V4(a) => a >> 24 == 127,
            Ip::V6(a) => a == 1,
        }
    }

    pub fn is_unspecified(&self) -> (r: bool)
        ensures
            r == self.unspecified(),
    {
        match self {
            Ip::V4(a) => *a == 0,
            Ip::V6(a) => *a == 0,
        }
    }

    pub fn is_loopback(&self) -> (r: bool)
        ensures
            r == self.loopback(),
    {
        match self {
            Ip::V4(a) => *a >> 24 == 127,
            Ip::V6(a) => *a == 1,
        }
    }
}

impl Net {
    /// Same address family, and the first `prefix` bits agree.
    pub open spec fn covers(self, ip: Ip) -> bool {
        match (self.base, ip) {
            (Ip::V4(b), Ip::V4(a)) => self.prefix == 0 || (self.prefix <= 32 && a >> ((32
                - self.prefix) as u32) == b >> ((32 - self.prefix) as u32)),
            (Ip::V6(b), Ip::V6(a)) => self.prefix == 0 || (self.prefix <= 128 && a >> ((128
                - self.prefix) as u32) == b >> ((128 - self.prefix) as u32)),
            _ => false,
        }
    }

    pub fn contains(&self, ip: &Ip) -> (r: bool)
        ensures
            r == self.covers(*ip),
    {
        let p: u32 = self.prefix as u32;
        match (self.base, *ip) {
            (Ip::V4(b), Ip::V4(a)) => p == 0 || (p <= 32 && a >> (32 - p) == b >> (32 - p)),
            (Ip::V6(b), Ip::V6(a)) => p == 0 || (p <= 128 && a >> (128 - p) == b >> (128 - p)),
            _ => false,
        }
    }
}

/// Value of a decimal octet: one to three digits, no leading zero, at most 255.
pub open spec fn octet(s: Seq<char>) -> Option<u8> {
    if !(1 <= s.len() <= 3) || exists|i: int| 0 <= i < s.len() && !is_digit(#[trigger] s[i]) {
        None
    } else if s.len() > 1 && s[0] == '0' {
        None
    } else {
        let v = if s.len() == 1 {
            digit(s[0])
        } else if s.len() == 2 {
            10 * digit(s[0]) + digit(s[1])
        } else {
            100 * digit(s[0]) + 10 * digit(s[1]) + digit(s[2])
        };
        if v <= 255 {
            Some(v as u8)
        } else {
            None
        }
    }
}

/// Value of a decimal digit.
pub open spec fn digit(c: char) -> int {
    c as int - '0' as int
}

/// Value of a dotted-quad IPv4 literal.
pub open spec fn v4_literal(s: Seq<char>) -> Option<u32> {
    let p = split(s, '.');
    if p.len() != 4 {
        None
    } else {
        match (octet(p[0]), octet(p[1]), octet(p[2]), octet(p[3])) {
            (Some(a), Some(b), Some(c), Some(d)) => Some(quad(a, b, c, d)),
            _ => None,
        }
    }
}

/// Four octets as one number.
pub open spec fn quad(a: u8, b: u8, c: u8, d: u8) -> u32 {
    (a as u32) << 24 | (b as u32) << 16 | (c as u32) << 8 | (d as u32)
}

/// Value of a hexadecimal digit, 16 for any other character.
pub open spec fn hex_digit(c: char) -> int {
    let l = lower_char(c);
    if is_digit(l) {
        digit(l)
    } else if 'a' <= l <= 'f' {
        10 + (l as int - 'a' as int)
    } else {
        16
    }
}

/// Value of a hexadecimal number, most significant digit first.
pub open spec fn hex_value(s: Seq<char>) -> int
    decreases s.len(),
{
    if s.len() == 0 {
        0
    } else {
        16 * hex_value(s.drop_last()) + hex_digit(s.last())
    }
}

/// Value of one IPv6 group: one to four hexadecimal digits.
pub open spec fn group(s: Seq<char>) -> Option<u16> {
    if !(1 <= s.len() <= 4) || exists|i: int| 0 <= i < s.len() && hex_digit(#[trigger] s[i]) >= 16 {
        None
    } else {
        Some(hex_value(s) as u16)
    }
}

/// Values of colon-separated groups. The last may be a dotted quad, which
/// stands for two groups, where `quad_last` allows it.
pub open spec fn groups(p: Seq<Seq<char>>, quad_last: bool) -> Option<Seq<u16>>
    decreases p.len(),
{
    if p.len() == 0 {
        Some(seq![])
    } else {
        match groups(p.drop_last(), false) {
            None => None,
            Some(before) => match group(p.last()) {
                Some(g) => Some(before.push(g)),
                None => match v4_literal(p.last()) {
                    Some(v) if quad_last => Some(
                        before + seq![(v >> 16) as u16, (v & 0xffff) as u16],
                    ),
                    _ => None,
                },
            },
        }
    }
}

/// Groups on one side of `::`, where nothing at all is fine too.
pub open spec fn side(s: Seq<char>, quad_last: bool) -> Option<Seq<u16>> {
    if s.len() == 0 {
        Some(seq![])
    } else {
        groups(split(s, ':'), quad_last)
    }
}

/// Position of the first `::` at or after `from`; the length when there is none.
pub open spec fn double_colon(s: Seq<char>, from: int) -> int
    decreases s.len() - from,
{
    if from < 0 || from + 1 >= s.len() {
        s.len() as int
    } else if s[from] == ':' && s[from + 1] == ':' {
        from
    } else {
        double_colon(s, from + 1)
    }
}

/// Groups as one number, most significant first.
pub open spec fn pack(g: Seq<u16>) -> u128
    decreases g.len(),
{
    if g.len() == 0 {
        0
    } else {
        (pack(g.drop_last()) << 16) | (g.last() as u128)
    }
}

/// Value of an IPv6 literal: eight groups, of which one run of at least one
/// zero group may be written `::`.
pub open spec fn v6_literal(s: Seq<char>) -> Option<u128> {
    let k = double_colon(s, 0);
    if k >= s.len() {
        match groups(split(s, ':'), true) {
            Some(g) if g.len() == 8 => Some(pack(g)),
            _ => None,
        }
    } else {
        match (side(s.take(k), false), side(s.skip(k + 2), true)) {
            (Some(l), Some(r)) if l.len() + r.len() <= 7 => Some(
                pack(l + Seq::new((8 - l.len() - r.len()) as nat, |i: int| 0u16) + r),
            ),
            _ => None,
        }
    }
}

/// The address a literal stands for.
pub open spec fn literal(s: Seq<char>) -> Option<Ip> {
    match v4_literal(s) {
        Some(v) => Some(Ip::V4(v)),
        None => match v6_literal(s) {
            Some(v) => Some(Ip::V6(v)),
            None => None,
        },
    }
}

fn digit_of(c: char) -> (r: u16)
    requires
        is_digit(c),
    ensures
        r == digit(c),
        r <= 9,
{
    c as u16 - '0' as u16
}

fn parse_octet(s: &[char]) -> (r: Option<u8>)
    ensures
        r == octet(s@),
{
    let n: usize = s.len();
    if n < 1 || n > 3 {
        return None;
    }
    let mut v: u16 = 0;
    for i in 0..n
        invariant
            n == s.len(),
            n <= 3,
            forall|j: int| 0 <= j < i ==> is_digit(#[trigger] s@[j]),
            i == 0 ==> v == 0,
            i == 1 ==> v == digit(s@[0]),
            i == 2 ==> v == 10 * digit(s@[0]) + digit(s@[1]),
            i == 3 ==> v == 100 * digit(s@[0]) + 10 * digit(s@[1]) + digit(s@[2]),
            i <= 1 ==> v <= 9,
            i <= 2 ==> v <= 99,
            v <= 999,
    {
        let c = s[i];
        if !(c >= '0' && c <= '9') {
            assert(!is_digit(s@[i as int]));
            return None;
        }
        v = 10 * v + digit_of(c);
    }
    if n > 1 && s[0] == '0' {
        return None;
    }
    if v <= 255 {
        Some(v as u8)
    } else {
        None
    }
}

fn parse_v4(s: &[char]) -> (r: Option<u32>)
    ensures
        r == v4_literal(s@),
{
    let p = split_chars(s, '.');
    if p.len() != 4 {
        return None;
    }
    let a = parse_octet(p[0].as_slice());
    let b = parse_octet(p[1].as_slice());
    let c = parse_octet(p[2].as_slice());
    let d = parse_octet(p[3].as_slice());
    match (a, b, c, d) {
        (Some(a), Some(b), Some(c), Some(d)) => Some(
            (a as u32) << 24 | (b as u32) << 16 | (c as u32) << 8 | (d as u32),
        ),
        _ => None,
    }
}

fn hex_digit_of(c: char) -> (r: u32)
    ensures
        r == hex_digit(c),
        r <= 16,
{
    let l = lowered_char(c);
    if l >= '0' && l <= '9' {
        l as u32 - '0' as u32
    } else if l >= 'a' && l <= 'f' {
        10 + (l as u32 - 'a' as u32)
    } else {
        16
    }
}

fn parse_group(s: &[char]) -> (r: Option<u16>)
    ensures
        r == group(s@),
{
    let n: usize = s.len();
    if n < 1 || n > 4 {
        return None;
    }
    let mut v: u32 = 0;
    for i in 0..n
        invariant
            n == s.len(),
            n <= 4,
            forall|j: int| 0 <= j < i ==> hex_digit(#[trigger] s@[j]) < 16,
            v == hex_value(s@.take(i as int)),
            i == 0 ==> v < 1,
            i == 1 ==> v < 0x10,
            i == 2 ==> v < 0x100,
            i == 3 ==> v < 0x1000,
            v < 0x1_0000,
    {
        let d = hex_digit_of(s[i]);
        if d >= 16 {
            assert(hex_digit(s@[i as int]) >= 16);
            return None;
        }
        assert(s@.take(i + 1).drop_last() == s@.take(i as int));
        v = 16 * v + d;
    }
    assert(s@.take(n as int) == s@);
    Some(v as u16)
}

/// The contents of a list of texts.
pub open spec fn views(p: Seq<Vec<char>>) -> Seq<Seq<char>> {
    Seq::new(p.len(), |i: int| p[i]@)
}

/// A prefix of well-formed groups is well formed.
proof fn lemma_groups_none(p: Seq<Seq<char>>, k: int, quad_last: bool)
    requires
        0 <= k < p.len(),
        groups(p.take(k), false) is None,
    ensures
        groups(p, quad_last) is None,
    decreases p.len(),
{
    if k == p.len() - 1 {
        assert(p.drop_last() == p.take(k));
    } else {
        assert(p.drop_last().take(k) == p.take(k));
        lemma_groups_none(p.drop_last(), k, false);
    }
}

fn parse_groups(p: &Vec<Vec<char>>, quad_last: bool) -> (r: Option<Vec<u16>>)
    ensures
        (r is Some) == (groups(views(p@), quad_last) is Some),
        r is Some ==> r->0@ == groups(views(p@), quad_last)->0 && p@.len() <= r->0@.len()
            <= p@.len() + 1,
{
    let n: usize = p.len();
    let mut out: Vec<u16> = Vec::new();
    let ghost parts = views(p@);
    for i in 0..n
        invariant
            n == p.len(),
            parts == views(p@),
            out@.len() == i,
            groups(parts.take(i as int), false) == Some(out@),
    {
        assert(parts.take(i + 1).drop_last() == parts.take(i as int));
        assert(parts.take(i + 1).last() == p@[i as int]@);
        match parse_group(p[i].as_slice()) {
            Some(g) => {
                out.push(g);
            },
            None => {
                assert(groups(parts.take(i + 1), false) is None);
                if i + 1 == n && quad_last {
                    assert(parts.take(i + 1) == parts);
                    match parse_v4(p[i].as_slice()) {
                        Some(v) => {
                            let ghost before = out@;
                            out.push((v >> 16) as u16);
                            out.push((v & 0xffff) as u16);
                            assert(out@ == before + seq![(v >> 16) as u16, (v & 0xffff) as u16]);
                            return Some(out);
                        },
                        None => {
                            return None;
                        },
                    }
                }
                proof {
                    if i + 1 == n {
                        assert(parts.take(i + 1) == parts);
                    } else {
                        lemma_groups_none(parts, i + 1, quad_last);
                    }
                }
                return None;
            },
        }
    }
    assert(parts.take(n as int) == parts);
    proof {
        lemma_groups_quad(parts);
    }
    Some(out)
}

/// Groups that are well formed without a trailing quad stay so when one is allowed.
proof fn lemma_groups_quad(p: Seq<Seq<char>>)
    requires
        groups(p, false) is Some,
    ensures
        groups(p, true) == groups(p, false),
{
}

fn parse_side(s: &[char], quad_last: bool) -> (r: Option<Vec<u16>>)
    ensures
        (r is Some) == (side(s@, quad_last) is Some),
        r is Some ==> r->0@ == side(s@, quad_last)->0,
{
    if s.len() == 0 {
        let none: Vec<u16> = Vec::new();
        return Some(none);
    }
    let p = split_chars(s, ':');
    assert(views(p@) == split(s@, ':'));
    parse_groups(&p, quad_last)
}

fn pack_groups(g: &Vec<u16>) -> (r: u128)
    ensures
        r == pack(g@),
{
    let mut acc: u128 = 0;
    let n: usize = g.len();
    for i in 0..n
        invariant
            n == g.len(),
            acc == pack(g@.take(i as int)),
    {
        assert(g@.take(i + 1).drop_last() == g@.take(i as int));
        acc = (acc << 16) | (g[i] as u128);
    }
    assert(g@.take(n as int) == g@);
    acc
}

fn find_double_colon(s: &[char]) -> (r: usize)
    ensures
        r == double_colon(s@, 0),
        r <= s.len(),
        r < s.len() ==> r + 2 <= s.len(),
{
    let n: usize = s.len();
    let mut i: usize = 0;
    while i < n && i + 1 < n
        invariant
            n == s.len(),
            i <= n,
            double_colon(s@, 0) == double_colon(s@, i as int),
        decreases n - i,
    {
        if s[i] == ':' && s[i + 1] == ':' {
            return i;
        }
        i = i + 1;
    }
    n
}

fn parse_v6(s: &[char]) -> (r: Option<u128>)
    ensures
        r == v6_literal(s@),
{
    let k = find_double_colon(s);
    if k >= s.len() {
        let p = split_chars(s, ':');
        assert(views(p@) == split(s@, ':'));
        match parse_groups(&p, true) {
            Some(g) => {
                if g.len() == 8 {
                    Some(pack_groups(&g))
                } else {
                    None
                }
            },
            None => None,
        }
    } else {
        let l = parse_side(&s[0..k], false);
        let r = parse_side(&s[k + 2..s.len()], true);
        assert(s@.subrange(0, k as int) == s@.take(k as int));
        assert(s@.subrange(k + 2, s@.len() as int) == s@.skip(k + 2));
        match (l, r) {
            (Some(l), Some(r)) => {
                if l.len() > 7 || r.len() > 7 - l.len() {
                    return None;
                }
                let mut g: Vec<u16> = l;
                let ghost left = g@;
                let mut left_over: usize = 8 - g.len() - r.len();
                let ghost zeros = left_over;
                while left_over > 0
                    invariant
                        left_over <= zeros,
                        g@ == left + Seq::new((zeros - left_over) as nat, |i: int| 0u16),
                    decreases left_over,
                {
                    g.push(0);
                    left_over = left_over - 1;
                }
                let m: usize = r.len();
                let ghost front = g@;
                for i in 0..m
                    invariant
                        m == r.len(),
                        g@ == front + r@.take(i as int),
                {
                    g.push(r[i]);
                }
                assert(g@ == left + Seq::new((8 - left.len() - r@.len()) as nat, |i: int| 0u16)
                    + r@);
                Some(pack_groups(&g))
            },
            _ => None,
        }
    }
}

/// Parse an address literal.
pub fn parse_ip(s: &[char]) -> (r: Option<Ip>)
    ensures
        r == literal(s@),
{
    match parse_v4(s) {
        Some(v) => Some(Ip::V4(v)),
        None => match parse_v6(s) {
            Some(v) => Some(Ip::V6(v)),
            None => None,
        },
    }
}

} // verus!
