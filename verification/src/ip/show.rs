//! Addresses as text.
use vstd::prelude::*;

use crate::ip::Ip;
use crate::text::{decimal, decimal_of};

verus! {

/// One octet of an IPv4 address, the first has index 0.
pub open spec fn octet_at(a: u32, i: int) -> nat {
    if i == 0 {
        (a / 0x100_0000) as nat
    } else if i == 1 {
        ((a / 0x1_0000) % 256) as nat
    } else if i == 2 {
        ((a / 0x100) % 256) as nat
    } else {
        (a % 256) as nat
    }
}

/// Dotted-quad text.
pub open spec fn v4_text(a: u32) -> Seq<char> {
    decimal(octet_at(a, 0)) + "."@ + decimal(octet_at(a, 1)) + "."@ + decimal(octet_at(a, 2))
        + "."@ + decimal(octet_at(a, 3))
}

/// A hexadecimal digit, lowercase.
pub open spec fn nibble_char(d: nat) -> char {
    if d < 10 {
        (('0' as u8) + d) as u8 as char
    } else {
        (('a' as u8) + (d - 10)) as u8 as char
    }
}

/// Hexadecimal digits without leading zeros.
pub open spec fn hexadecimal(n: nat) -> Seq<char>
    decreases n,
{
    if n < 16 {
        seq![nibble_char(n)]
    } else {
        hexadecimal(n / 16).push(nibble_char(n % 16))
    }
}

/// The eight groups of an IPv6 address, the first of the most weight.
pub open spec fn segments(a: u128) -> Seq<u16>
{
    low_segments(a, 8)
}

/// The last `k` groups.
pub open spec fn low_segments(a: u128, k: nat) -> Seq<u16>
    decreases k,
{
    if k == 0 {
        seq![]
    } else {
        low_segments(a / 0x1_0000, (k - 1) as nat).push((a % 0x1_0000) as u16)
    }
}

/// Number of zero groups from `i` on.
pub open spec fn zero_run(g: Seq<u16>, i: int) -> int
    decreases g.len() - i,
{
    if i < 0 || i >= g.len() || g[i] != 0 {
        0
    } else {
        1 + zero_run(g, i + 1)
    }
}

/// Where the first of the longest runs of zero groups starts.
pub open spec fn longest_run(g: Seq<u16>, i: int) -> bool {
    &&& 0 <= i < g.len()
    &&& forall|j: int| 0 <= j < g.len() ==> #[trigger] zero_run(g, j) <= zero_run(g, i)
    &&& forall|j: int| 0 <= j < i ==> #[trigger] zero_run(g, j) < zero_run(g, i)
}

/// Groups joined by colons.
pub open spec fn colon_text(g: Seq<u16>) -> Seq<char>
    decreases g.len(),
{
    if g.len() == 0 {
        seq![]
    } else if g.len() == 1 {
        hexadecimal(g[0] as nat)
    } else {
        colon_text(g.drop_last()) + ":"@ + hexadecimal(g.last() as nat)
    }
}

/// Text of an IPv6 address: lowercase groups without leading zeros, the first
/// of the longest runs of two or more zero groups written `::`, and
/// IPv4-mapped addresses with a dotted quad.
pub open spec fn v6_text(a: u128) -> Seq<char> {
    if a / 0x1_0000_0000 == 0xffff {
        "::ffff:"@ + v4_text((a % 0x1_0000_0000) as u32)
    } else {
        let g = segments(a);
        let i = choose|i: int| longest_run(g, i);
        if zero_run(g, i) > 1 {
            colon_text(g.take(i)) + "::"@ + colon_text(g.skip(i + zero_run(g, i)))
        } else {
            colon_text(g)
        }
    }
}

/// Text of an address.
pub open spec fn ip_text(ip: Ip) -> Seq<char> {
    match ip {
        Ip::V4(a) => v4_text(a),
        Ip::V6(a) => v6_text(a),
    }
}

/// Text of an address with a port.
pub open spec fn endpoint_text(ip: Ip, port: u16) -> Seq<char> {
    match ip {
        Ip::V4(a) => v4_text(a) + ":"@ + decimal(port as nat),
        Ip::V6(a) => "["@ + v6_text(a) + "]:"@ + decimal(port as nat),
    }
}

fn show_v4(a: u32) -> (r: String)
    ensures
        r@ == v4_text(a),
{
    let mut out = decimal_of((a / 0x100_0000) as u64);
    out.push_str(".");
    out.push_str(decimal_of(((a / 0x1_0000) % 256) as u64).as_str());
    out.push_str(".");
    out.push_str(decimal_of(((a / 0x100) % 256) as u64).as_str());
    out.push_str(".");
    out.push_str(decimal_of((a % 256) as u64).as_str());
    out
}

fn show_hexadecimal(n: u16) -> (r: String)
    ensures
        r@ == hexadecimal(n as nat),
    decreases n,
{
    let d: u8 = (n % 16) as u8;
    let c = if d < 10 {
        ('0' as u8 + d) as char
    } else {
        ('a' as u8 + (d - 10)) as char
    };
    let mut out = if n < 16 {
        String::new()
    } else {
        show_hexadecimal(n / 16)
    };
    out.push(c);
    out
}

fn show_groups(g: &[u16]) -> (r: String)
    ensures
        r@ == colon_text(g@),
{
    let mut out = String::new();
    let n: usize = g.len();
    for i in 0..n
        invariant
            n == g@.len(),
            out@ == colon_text(g@.take(i as int)),
    {
        let ghost before = out@;
        if i > 0 {
            out.push_str(":");
        }
        out.push_str(show_hexadecimal(g[i]).as_str());
        proof {
            let t = g@.take(i + 1);
            assert(t.drop_last() == g@.take(i as int));
            assert(t.last() == g@[i as int]);
            if i == 0 {
                assert(before + hexadecimal(g@[0] as nat) == hexadecimal(g@[0] as nat));
            }
        }
    }
    assert(g@.take(n as int) == g@);
    out
}

fn split_groups(a: u128, k: usize) -> (r: Vec<u16>)
    ensures
        r@ == low_segments(a, k as nat),
    decreases k,
{
    if k == 0 {
        return Vec::new();
    }
    let mut out = split_groups(a / 0x1_0000, k - 1);
    out.push((a % 0x1_0000) as u16);
    out
}

fn run_from(g: &Vec<u16>, i: usize) -> (r: usize)
    requires
        i <= g@.len(),
    ensures
        r == zero_run(g@, i as int),
        i + r <= g@.len(),
    decreases g@.len() - i,
{
    let n: usize = g.len();
    if i >= n || g[i] != 0 {
        0
    } else {
        1 + run_from(g, i + 1)
    }
}

proof fn lemma_segments(a: u128, k: nat)
    ensures
        low_segments(a, k).len() == k,
    decreases k,
{
    if k > 0 {
        lemma_segments(a / 0x1_0000, (k - 1) as nat);
    }
}

/// Text of an IPv6 address.
fn show_v6(a: u128) -> (r: String)
    ensures
        r@ == v6_text(a),
{
    if a / 0x1_0000_0000 == 0xffff {
        let mut out = "::ffff:".to_string();
        out.push_str(show_v4((a % 0x1_0000_0000) as u32).as_str());
        return out;
    }
    let g = split_groups(a, 8);
    proof {
        lemma_segments(a, 8);
    }
    let mut best: usize = 0;
    let mut run: usize = run_from(&g, 0);
    for i in 1..8usize
        invariant
            g@ == segments(a),
            g@.len() == 8,
            0 <= best < i,
            run == zero_run(g@, best as int),
            best + run <= 8,
            forall|j: int| 0 <= j < i ==> #[trigger] zero_run(g@, j) <= run,
            forall|j: int| 0 <= j < best ==> #[trigger] zero_run(g@, j) < run,
    {
        let here: usize = run_from(&g, i);
        if here > run {
            best = i;
            run = here;
        }
    }
    proof {
        assert(longest_run(g@, best as int));
        let i = choose|i: int| longest_run(g@, i);
        assert(longest_run(g@, i));
        assert(i == best) by {
            if i < best {
                assert(zero_run(g@, i) < zero_run(g@, best as int));
            }
            if best < i {
                assert(zero_run(g@, best as int) < zero_run(g@, i));
            }
        }
    }
    if run > 1 {
        let mut out = show_groups(&g.as_slice()[0..best]);
        out.push_str("::");
        out.push_str(show_groups(&g.as_slice()[best + run..8]).as_str());
        proof {
            assert(g@.subrange(0, best as int) == g@.take(best as int));
            assert(g@.subrange(best + run, 8) == g@.skip(best + run));
        }
        out
    } else {
        show_groups(g.as_slice())
    }
}

/// Text of an address.
pub fn show_ip(ip: Ip) -> (r: String)
    ensures
        r@ == ip_text(ip),
{
    match ip {
        Ip::V4(a) => show_v4(a),
        Ip::V6(a) => show_v6(a),
    }
}

/// Text of an address with a port.
pub fn show_endpoint(ip: Ip, port: u16) -> (r: String)
    ensures
        r@ == endpoint_text(ip, port),
{
    match ip {
        Ip::V4(a) => {
            let mut out = show_v4(a);
            out.push_str(":");
            out.push_str(decimal_of(port as u64).as_str());
            out
        },
        Ip::V6(a) => {
            let mut out = "[".to_string();
            out.push_str(show_v6(a).as_str());
            out.push_str("]:");
            out.push_str(decimal_of(port as u64).as_str());
            out
        },
    }
}

} // verus!
