//! Which texts are addresses, and which addresses a network holds.
use vstd::arithmetic::power2::pow2;
use vstd::bits::{lemma_u128_shr_is_div, lemma_u32_shr_is_div};
use vstd::prelude::*;

use crate::ip::laws::law_ip_roundtrip;
use crate::ip::show::{colon_text, endpoint_text, ip_text, longest_run, octet_at, segments};
use crate::ip::show::zero_run;
use crate::ip::{digit, group, hex_digit, hex_value, literal, octet, v4_literal, Ip, Net};
use crate::text::{decimal, digit_char, find_from, lemma_find_from, lower_char, split};

verus! {

/// A network holds the addresses of its kind that agree with its own in the
/// first bits, as many as its prefix says; dividing by a power of two leaves
/// just those bits.
pub proof fn law_network_v4(base: u32, prefix: u8, a: u32)
    ensures
        ({
            let n = Net { base: Ip::V4(base), prefix };
            let rest = pow2((32 - prefix) as nat);
            &&& 0 < prefix <= 32 ==> n.covers(Ip::V4(a)) == (a as nat / rest == base as nat / rest)
            &&& prefix > 32 ==> !n.covers(Ip::V4(a))
            &&& prefix == 0 ==> n.covers(Ip::V4(a))
            &&& prefix == 32 ==> n.covers(Ip::V4(a)) == (a == base)
        }),
{
    if 0 < prefix <= 32 {
        let s = (32 - prefix) as u32;
        lemma_u32_shr_is_div(a, s);
        lemma_u32_shr_is_div(base, s);
        assert(s as nat == (32 - prefix) as nat);
    }
    assert(a >> 0u32 == a && base >> 0u32 == base) by (bit_vector);
}

/// So does one of IPv6 addresses.
pub proof fn law_network_v6(base: u128, prefix: u8, a: u128)
    ensures
        ({
            let n = Net { base: Ip::V6(base), prefix };
            let rest = pow2((128 - prefix) as nat);
            &&& 0 < prefix <= 128 ==> n.covers(Ip::V6(a)) == (a as nat / rest == base as nat
                / rest)
            &&& prefix > 128 ==> !n.covers(Ip::V6(a))
            &&& prefix == 0 ==> n.covers(Ip::V6(a))
            &&& prefix == 128 ==> n.covers(Ip::V6(a)) == (a == base)
        }),
{
    if 0 < prefix <= 128 {
        let s = (128 - prefix) as u128;
        lemma_u128_shr_is_div(a, s);
        lemma_u128_shr_is_div(base, s);
        assert(s as nat == (128 - prefix) as nat);
    }
    assert(a >> 0u32 == a && base >> 0u32 == base) by (bit_vector);
}

/// No network holds an address of the other kind.
pub proof fn law_network_kind(base: Ip, prefix: u8, a: Ip)
    requires
        base is V4 != a is V4,
    ensures
        !(Net { base, prefix }).covers(a),
{
}

/// The unspecified addresses are those with no bit set, the loopback addresses
/// those that start with 127, and `::1`.
pub proof fn law_address_classes(a: u32, b: u128)
    ensures
        Ip::V4(a).unspecified() == (a == 0),
        Ip::V6(b).unspecified() == (b == 0),
        Ip::V4(a).loopback() == (0x7f00_0000 <= a < 0x8000_0000),
        Ip::V6(b).loopback() == (b == 1),
{
    assert((a >> 24 == 127) == (0x7f00_0000 <= a && a < 0x8000_0000)) by (bit_vector);
}

/// Four numbers below 256 between dots are an IPv4 address, the first of the
/// most weight.
pub proof fn law_dotted_quad(a: u8, b: u8, c: u8, d: u8)
    ensures
        literal(
            decimal(a as nat) + "."@ + decimal(b as nat) + "."@ + decimal(c as nat) + "."@
                + decimal(d as nat),
        ) == Some(Ip::V4((a * 0x100_0000 + b * 0x1_0000 + c * 0x100 + d) as u32)),
{
    let v = (a * 0x100_0000 + b * 0x1_0000 + c * 0x100 + d) as u32;
    lemma_octets(a as int, b as int, c as int, d as int);
    assert(octet_at(v, 0) == a && octet_at(v, 1) == b && octet_at(v, 2) == c && octet_at(v, 3)
        == d);
    law_ip_roundtrip(Ip::V4(v));
}

proof fn lemma_octets(a: int, b: int, c: int, d: int)
    requires
        0 <= a < 256 && 0 <= b < 256 && 0 <= c < 256 && 0 <= d < 256,
    ensures
        ({
            let v = a * 0x100_0000 + b * 0x1_0000 + c * 0x100 + d;
            &&& 0 <= v < 0x1_0000_0000
            &&& v / 0x100_0000 == a
            &&& (v / 0x1_0000) % 256 == b
            &&& (v / 0x100) % 256 == c
            &&& v % 256 == d
        }),
{
    let v = a * 0x100_0000 + b * 0x1_0000 + c * 0x100 + d;
    assert(v / 0x1_0000 == a * 0x100 + b);
    assert(v / 0x100 == a * 0x1_0000 + b * 0x100 + c);
}

/// Pieces with dots between them.
spec fn dotted(p: Seq<Seq<char>>) -> Seq<char>
    decreases p.len(),
{
    if p.len() == 0 {
        seq![]
    } else if p.len() == 1 {
        p[0]
    } else {
        p[0] + "."@ + dotted(p.drop_first())
    }
}

proof fn lemma_dotted(s: Seq<char>)
    ensures
        dotted(split(s, '.')) == s,
        split(s, '.').len() > 0,
    decreases s.len(),
{
    reveal_strlit(".");
    lemma_find_from(s, '.', 0);
    let k = find_from(s, '.', 0);
    let p = split(s, '.');
    if k < s.len() {
        let t = s.skip(k + 1);
        lemma_dotted(t);
        assert(p.drop_first() =~= split(t, '.'));
        assert(p[0] == s.take(k));
        assert(s.take(k) + "."@ + t =~= s);
    }
}

proof fn lemma_octet_text(s: Seq<char>)
    requires
        octet(s) is Some,
    ensures
        s == decimal(octet(s)->0 as nat),
{
    let v = octet(s)->0 as nat;
    reveal_with_fuel(decimal, 3);
    assert forall|i: int| 0 <= i < s.len() implies '0' <= #[trigger] s[i] <= '9' by {}
    assert forall|i: int| 0 <= i < s.len() implies #[trigger] s[i] == digit_char(
        digit(s[i]) as nat,
    ) by {}
    if s.len() == 1 {
        assert(s[0] == digit_char(v));
        assert(decimal(v) =~= s);
    } else if s.len() == 2 {
        assert(digit(s[0]) > 0 && digit(s[1]) < 10);
        assert(v / 10 == digit(s[0]) && v % 10 == digit(s[1]));
        assert(decimal(v) =~= s);
    } else {
        assert(digit(s[0]) > 0 && digit(s[1]) < 10 && digit(s[2]) < 10);
        assert(v / 10 == 10 * digit(s[0]) + digit(s[1]) && v % 10 == digit(s[2]));
        assert((v / 10) / 10 == digit(s[0]) && (v / 10) % 10 == digit(s[1]));
        assert(s[0] == digit_char(digit(s[0]) as nat));
        assert(s[1] == digit_char(digit(s[1]) as nat));
        assert(s[2] == digit_char(digit(s[2]) as nat));
        assert(decimal(v) =~= s);
    }
}

/// Nothing else is one: no other number of parts, no leading zero, no number
/// above 255.
pub proof fn law_only_dotted_quads(s: Seq<char>)
    requires
        literal(s) is Some,
        literal(s)->0 is V4,
    ensures
        exists|a: u8, b: u8, c: u8, d: u8|
            s == #[trigger] decimal(a as nat) + "."@ + #[trigger] decimal(b as nat) + "."@
                + #[trigger] decimal(c as nat) + "."@ + #[trigger] decimal(d as nat),
{
    let p = split(s, '.');
    assert(v4_literal(s) is Some);
    lemma_dotted(s);
    lemma_octet_text(p[0]);
    lemma_octet_text(p[1]);
    lemma_octet_text(p[2]);
    lemma_octet_text(p[3]);
    let (a, b, c, d) = (octet(p[0])->0, octet(p[1])->0, octet(p[2])->0, octet(p[3])->0);
    let (p1, p2) = (p.drop_first(), p.drop_first().drop_first());
    let p3 = p2.drop_first();
    reveal_with_fuel(dotted, 4);
    assert(p1[0] == p[1] && p2[0] == p[2] && p3[0] == p[3]);
    assert(s =~= decimal(a as nat) + "."@ + decimal(b as nat) + "."@ + decimal(c as nat) + "."@
        + decimal(d as nat));
}

/// The value of a hexadecimal digit in either case.
pub open spec fn nibble(c: char) -> int {
    if '0' <= c <= '9' {
        c as int - '0' as int
    } else if 'a' <= c <= 'f' {
        c as int - 'a' as int + 10
    } else if 'A' <= c <= 'F' {
        c as int - 'A' as int + 10
    } else {
        16
    }
}

proof fn lemma_nibble(c: char)
    ensures
        hex_digit(c) == nibble(c),
{
    if 'A' <= c <= 'Z' {
        assert(lower_char(c) as int == c as int + 32);
    }
}

/// A group of an IPv6 address is one to four hexadecimal digits in either
/// case, the first of the most weight.
pub proof fn law_group(s: Seq<char>)
    ensures
        group(s) is Some == (1 <= s.len() <= 4 && forall|i: int|
            0 <= i < s.len() ==> nibble(#[trigger] s[i]) < 16),
        group(s) is Some ==> group(s)->0 == if s.len() == 1 {
            nibble(s[0])
        } else if s.len() == 2 {
            16 * nibble(s[0]) + nibble(s[1])
        } else if s.len() == 3 {
            256 * nibble(s[0]) + 16 * nibble(s[1]) + nibble(s[2])
        } else {
            4096 * nibble(s[0]) + 256 * nibble(s[1]) + 16 * nibble(s[2]) + nibble(s[3])
        },
{
    assert forall|i: int| 0 <= i < s.len() implies hex_digit(#[trigger] s[i]) == nibble(s[i]) by {
        lemma_nibble(s[i]);
    }
    reveal_with_fuel(hex_value, 5);
    if 1 <= s.len() <= 4 {
        let n = s.len() as int;
        let t = s.drop_last();
        assert(s.last() == s[n - 1]);
        if n > 1 {
            assert(t.last() == s[n - 2]);
            if n > 2 {
                assert(t.drop_last().last() == s[n - 3]);
                if n > 3 {
                    assert(t.drop_last().drop_last().last() == s[n - 4]);
                }
            }
        }
    }
}

proof fn lemma_zero_run(g: Seq<u16>, i: int, n: int)
    requires
        0 <= i && 0 <= n && i + n <= g.len(),
        forall|k: int| i <= k < i + n ==> #[trigger] g[k] == 0,
        i + n == g.len() || g[i + n] != 0,
    ensures
        zero_run(g, i) == n,
    decreases n,
{
    if n > 0 {
        assert(g[i] == 0);
        lemma_zero_run(g, i + 1, n - 1);
    }
}

proof fn lemma_zero_run_bound(g: Seq<u16>, i: int)
    requires
        0 <= i <= g.len(),
    ensures
        0 <= zero_run(g, i) && i + zero_run(g, i) <= g.len(),
        forall|k: int| i <= k < i + zero_run(g, i) ==> #[trigger] g[k] == 0,
    decreases g.len() - i,
{
    if i < g.len() && g[i] == 0 {
        lemma_zero_run_bound(g, i + 1);
    }
}

/// An IPv6 address is written with its longest run of two or more zero groups
/// as `::`, the first of them where there are several.
pub proof fn law_zeros_shortened(a: u128, i: int, n: int)
    requires
        a / 0x1_0000_0000 != 0xffff,
        ({
            let g = segments(a);
            &&& g.len() == 8
            &&& n >= 2 && 0 <= i && i + n <= 8
            &&& forall|k: int| i <= k < i + n ==> #[trigger] g[k] == 0
            &&& i + n == 8 || g[i + n] != 0
            &&& i == 0 || g[i - 1] != 0
            &&& forall|j: int, m: int|
                0 <= j && j + m <= 8 && (forall|k: int| j <= k < j + m ==> #[trigger] g[k] == 0)
                    ==> m <= n && (#[trigger] (j + m) < i + n ==> m < n || j >= i)
        }),
    ensures
        ip_text(Ip::V6(a)) == colon_text(segments(a).take(i)) + "::"@ + colon_text(
            segments(a).skip(i + n),
        ),
{
    let g = segments(a);
    lemma_zero_run(g, i, n);
    assert forall|j: int| 0 <= j < 8 implies #[trigger] zero_run(g, j) <= n && (j < i ==> zero_run(
        g,
        j,
    ) < n) by {
        lemma_zero_run_bound(g, j);
        let m = zero_run(g, j);
        assert(j + m <= 8);
        if j < i {
            assert(g[i - 1] != 0);
            assert(j + m < i + n);
        }
    }
    assert(longest_run(g, i));
    let x = choose|x: int| longest_run(g, x);
    assert(longest_run(g, x));
    assert(zero_run(g, x) == n);
    if x < i {
        assert(zero_run(g, x) < zero_run(g, i));
    } else if x > i {
        assert(zero_run(g, i) < zero_run(g, x));
    }
}

/// A socket is its address and its port with a colon between; an IPv6 address
/// stands in brackets.
pub proof fn law_endpoint_text(ip: Ip, port: u16)
    ensures
        ip is V4 ==> endpoint_text(ip, port) == ip_text(ip) + ":"@ + decimal(port as nat),
        ip is V6 ==> endpoint_text(ip, port) == "["@ + ip_text(ip) + "]:"@ + decimal(port as nat),
{
}

} // verus!
