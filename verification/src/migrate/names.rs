//! List names and durations of an `AdGuard Home` configuration.
use vstd::prelude::*;

use crate::text::{chars_of, decimal, decimal_wide, ends_with, has_suffix, is_alnum, lemma_decimal};
use crate::text::{lower, lowered, number, parse_number, str_eq, string_of, texts};

verus! {

/// Letters and digits as they are, each run of other characters between them
/// as one dash.
pub open spec fn dashed(s: Seq<char>) -> Seq<char>
    decreases s.len(),
{
    if s.len() == 0 {
        seq![]
    } else {
        let p = dashed(s.drop_last());
        if is_alnum(s.last()) {
            p.push(s.last())
        } else if p.len() == 0 || p.last() == '-' {
            p
        } else {
            p.push('-')
        }
    }
}

/// Without a dash at the end.
pub open spec fn undashed(s: Seq<char>) -> Seq<char> {
    if s.len() > 0 && s.last() == '-' {
        s.drop_last()
    } else {
        s
    }
}

/// A name in lowercase letters, digits and single inner dashes.
pub open spec fn slugged(name: Seq<char>) -> Seq<char> {
    undashed(dashed(lower(name)))
}

/// A name in lowercase letters, digits and single inner dashes.
pub fn slug(name: &str) -> (r: String)
    ensures
        r@ == slugged(name@),
{
    let cs = chars_of(name);
    let low = lowered(cs.as_slice());
    let n: usize = low.len();
    let mut out: Vec<char> = Vec::new();
    for i in 0..n
        invariant
            n == low@.len(),
            out@ == dashed(low@.take(i as int)),
    {
        let c = low[i];
        proof {
            let t = low@.take(i + 1);
            assert(t.drop_last() == low@.take(i as int));
            assert(t.last() == c);
        }
        let k: usize = out.len();
        if (c >= 'a' && c <= 'z') || (c >= 'A' && c <= 'Z') || (c >= '0' && c <= '9') {
            out.push(c);
        } else if k > 0 && out[k - 1] != '-' {
            out.push('-');
        }
    }
    assert(low@.take(n as int) == low@);
    let k: usize = out.len();
    if k > 0 && out[k - 1] == '-' {
        out.pop();
    }
    string_of(out.as_slice())
}

/// A slug starts and ends with a letter or digit, and has no two dashes in a
/// row. It is lowercase, keeps every letter and digit of the name in order, and
/// is its own slug.
pub proof fn law_slug(name: Seq<char>)
    ensures
        ({
            let s = slugged(name);
            &&& forall|i: int|
                0 <= i < s.len() ==> is_alnum(#[trigger] s[i]) || (s[i] == '-' && 0 < i < s.len()
                    - 1 && is_alnum(s[i - 1]) && is_alnum(s[i + 1]))
            &&& lower(s) == s
            &&& s.filter(|c: char| is_alnum(c)) == lower(name).filter(|c: char| is_alnum(c))
            &&& slugged(s) == s
        }),
{
    let low = lower(name);
    let d = dashed(low);
    let s = slugged(name);
    lemma_dashed(low);
    assert(lower(low) =~= low);
    lemma_dashed_lower(low);
    assert(lower(s) =~= s) by {
        assert forall|i: int| 0 <= i < s.len() implies lower(s)[i] == s[i] by {
            assert(s[i] == d[i] && lower(d)[i] == d[i]);
        }
    }
    lemma_dashed_keeps(low);
    if d.len() > 0 && d.last() == '-' {
        reveal(Seq::filter);
        assert(s == d.drop_last());
    }
    assert(dash_form(s)) by {
        assert forall|i: int| 0 <= i < s.len() implies is_alnum(#[trigger] s[i]) || (s[i] == '-'
            && 0 < i && is_alnum(s[i - 1])) by {
            assert(s[i] == d[i]);
        }
    }
    lemma_dash_form(s);
}

/// Letters and digits, and dashes behind those.
spec fn dash_form(s: Seq<char>) -> bool {
    forall|i: int|
        0 <= i < s.len() ==> is_alnum(#[trigger] s[i]) || (s[i] == '-' && 0 < i && is_alnum(
            s[i - 1],
        ))
}

proof fn lemma_dash_form(s: Seq<char>)
    requires
        dash_form(s),
    ensures
        dashed(s) == s,
    decreases s.len(),
{
    if s.len() > 0 {
        let t = s.drop_last();
        assert(dash_form(t)) by {
            assert forall|i: int| 0 <= i < t.len() implies is_alnum(#[trigger] t[i]) || (t[i] == '-'
                && 0 < i && is_alnum(t[i - 1])) by {
                assert(t[i] == s[i]);
            }
        }
        lemma_dash_form(t);
        let i = s.len() - 1;
        assert(is_alnum(s[i]) || (s[i] == '-' && 0 < i && is_alnum(s[i - 1])));
        assert(s =~= t.push(s.last()));
    } else {
        assert(dashed(s) =~= s);
    }
}

proof fn lemma_dashed_lower(s: Seq<char>)
    requires
        lower(s) == s,
    ensures
        lower(dashed(s)) == dashed(s),
    decreases s.len(),
{
    let d = dashed(s);
    if s.len() > 0 {
        let t = s.drop_last();
        assert(lower(t) =~= t) by {
            assert forall|i: int| 0 <= i < t.len() implies lower(t)[i] == t[i] by {
                assert(lower(s)[i] == s[i]);
            }
        }
        lemma_dashed_lower(t);
        let p = dashed(t);
        assert(lower(s)[s.len() - 1] == s.last());
        assert forall|i: int| 0 <= i < d.len() implies lower(d)[i] == d[i] by {
            if i < p.len() {
                assert(d[i] == p[i] && lower(p)[i] == p[i]);
            }
        }
    }
    assert(lower(d) =~= d);
}

proof fn lemma_dashed_keeps(s: Seq<char>)
    ensures
        dashed(s).filter(|c: char| is_alnum(c)) == s.filter(|c: char| is_alnum(c)),
    decreases s.len(),
{
    reveal(Seq::filter);
    if s.len() > 0 {
        let p = dashed(s.drop_last());
        lemma_dashed_keeps(s.drop_last());
        assert(p.push(s.last()).drop_last() =~= p);
        assert(p.push('-').drop_last() =~= p);
    }
}

proof fn lemma_dashed(s: Seq<char>)
    ensures
        ({
            let d = dashed(s);
            forall|i: int|
                0 <= i < d.len() ==> is_alnum(#[trigger] d[i]) || (d[i] == '-' && 0 < i
                    && is_alnum(d[i - 1]) && (i + 1 < d.len() ==> is_alnum(d[i + 1])))
        }),
    decreases s.len(),
{
    if s.len() > 0 {
        lemma_dashed(s.drop_last());
        let p = dashed(s.drop_last());
        let d = dashed(s);
        assert forall|i: int| 0 <= i < d.len() implies is_alnum(#[trigger] d[i]) || (d[i] == '-'
            && 0 < i && is_alnum(d[i - 1]) && (i + 1 < d.len() ==> is_alnum(d[i + 1]))) by {
            if i < p.len() {
                assert(d[i] == p[i]);
                if 0 < i {
                    assert(d[i - 1] == p[i - 1]);
                }
                if i + 1 < p.len() {
                    assert(d[i + 1] == p[i + 1]);
                }
            } else {
                assert(p.len() > 0 ==> d[i - 1] == p.last());
            }
        }
    }
}

/// Milliseconds of a duration in whole seconds or milliseconds.
pub open spec fn go_duration(s: Seq<char>) -> Option<nat> {
    if ends_with(s, "ms"@) {
        match number(s.take(s.len() - 2), u64::MAX) {
            Some(ms) => Some(ms as nat),
            None => None,
        }
    } else if ends_with(s, "s"@) {
        match number(s.take(s.len() - 1), u64::MAX) {
            Some(secs) => Some((secs * 1000) as nat),
            None => None,
        }
    } else {
        None
    }
}

/// The duration's milliseconds fit in 64 bits, where it is one.
pub open spec fn duration_fits(s: Seq<char>) -> bool {
    go_duration(s) is Some ==> go_duration(s)->0 <= u64::MAX
}

fn seconds_of(cs: &[char]) -> (r: Option<u64>)
    requires
        ends_with(cs@, "s"@),
        !ends_with(cs@, "ms"@),
    ensures
        r == number(cs@.take(cs@.len() - 1), u64::MAX),
{
    proof {
        reveal_strlit("s");
    }
    let n: usize = cs.len();
    let head = &cs[0..n - 1];
    assert(head@ == cs@.take(cs@.len() - 1));
    parse_number(head, 0xffff_ffff_ffff_ffff)
}

/// Whether a duration's milliseconds fit in 64 bits, where it is one.
pub fn duration_is_small(s: &str) -> (r: bool)
    ensures
        r == duration_fits(s@),
{
    let cs = chars_of(s);
    let ms = chars_of("ms");
    let sec = chars_of("s");
    if has_suffix(cs.as_slice(), ms.as_slice()) || !has_suffix(cs.as_slice(), sec.as_slice()) {
        return true;
    }
    match seconds_of(cs.as_slice()) {
        Some(secs) => secs <= 18_446_744_073_709_551,
        None => true,
    }
}

/// Parse a duration in whole seconds (`5s`) or milliseconds (`5000ms`).
pub fn parse_go_duration_ms(s: &str) -> (r: Option<u64>)
    requires
        duration_fits(s@),
    ensures
        match go_duration(s@) {
            Some(ms) => r is Some && r->0 == ms,
            None => r is None,
        },
{
    let cs = chars_of(s);
    let ms = chars_of("ms");
    if has_suffix(cs.as_slice(), ms.as_slice()) {
        proof {
            reveal_strlit("ms");
        }
        let n: usize = cs.len();
        let head = &cs.as_slice()[0..n - 2];
        assert(head@ == s@.take(s@.len() - 2));
        return parse_number(head, 0xffff_ffff_ffff_ffff);
    }
    let sec = chars_of("s");
    if has_suffix(cs.as_slice(), sec.as_slice()) {
        return match seconds_of(cs.as_slice()) {
            Some(secs) => Some(secs * 1000),
            None => None,
        };
    }
    None
}

/// A name with a number behind it.
pub open spec fn suffixed(base: Seq<char>, n: nat) -> Seq<char> {
    base + "-"@ + decimal(n)
}

/// The least number from 2 on that gives a name not in use.
pub open spec fn free_suffix(used: Seq<Seq<char>>, base: Seq<char>, n: nat) -> bool {
    &&& n >= 2
    &&& !used.contains(suffixed(base, n))
    &&& forall|m: nat| 2 <= m < n ==> used.contains(#[trigger] suffixed(base, m))
}

/// The name itself where it is not in use, else with the least free number.
pub open spec fn free_name(used: Seq<Seq<char>>, base: Seq<char>) -> Seq<char> {
    if !used.contains(base) {
        base
    } else {
        suffixed(base, choose|n: nat| free_suffix(used, base, n))
    }
}

/// Names with different numbers differ.
proof fn lemma_suffixed(base: Seq<char>, a: nat, b: nat)
    requires
        suffixed(base, a) == suffixed(base, b),
    ensures
        a == b,
{
    lemma_decimal(a);
    lemma_decimal(b);
    let head = base + "-"@;
    assert(suffixed(base, a).skip(head.len() as int) == decimal(a));
    assert(suffixed(base, b).skip(head.len() as int) == decimal(b));
}

/// As many names as are in use cannot all be taken by one more number.
proof fn lemma_taken(used: Seq<Seq<char>>, base: Seq<char>, n: nat)
    requires
        n >= 2,
        forall|m: nat| 2 <= m < n ==> used.contains(#[trigger] suffixed(base, m)),
    ensures
        n - 2 <= used.len(),
{
    let f = |m: int| suffixed(base, m as nat);
    let x = vstd::set_lib::set_int_range(2, n as int);
    vstd::set_lib::lemma_int_range(2, n as int);
    assert forall|a: int, b: int| x.contains(a) && x.contains(b) && #[trigger] f(a)
        == #[trigger] f(b) implies a == b by {
        lemma_suffixed(base, a as nat, b as nat);
    }
    let y = x.map(f);
    vstd::set_lib::lemma_map_size(x, y, f);
    assert(y.subset_of(used.to_set())) by {
        assert forall|t: Seq<char>| y.contains(t) implies used.to_set().contains(t) by {
            let m = choose|m: int| x.contains(m) && f(m) == t;
            assert(used.contains(suffixed(base, m as nat)));
        }
    }
    vstd::seq_lib::seq_to_set_is_finite(used);
    vstd::set_lib::lemma_len_subset(y, used.to_set());
    used.lemma_cardinality_of_set();
}

pub(crate) fn has_name(used: &Vec<String>, name: &str) -> (r: bool)
    ensures
        r == texts(used@).contains(name@),
{
    let n: usize = used.len();
    for i in 0..n
        invariant
            n == used@.len(),
            forall|j: int| 0 <= j < i ==> (#[trigger] texts(used@)[j]) != name@,
    {
        if str_eq(used[i].as_str(), name) {
            assert(texts(used@)[i as int] == name@);
            return true;
        }
    }
    false
}

/// A name that is not in use.
pub fn pick_name(used: &Vec<String>, base: &str) -> (r: String)
    ensures
        r@ == free_name(texts(used@), base@),
        !texts(used@).contains(r@),
{
    if !has_name(used, base) {
        return base.to_string();
    }
    let ghost u = texts(used@);
    let in_use: usize = used.len();
    let mut n: u128 = 2;
    loop
        invariant
            u == texts(used@),
            u.len() == in_use,
            u.contains(base@),
            2 <= n <= in_use + 2,
            forall|m: nat| 2 <= m < n ==> u.contains(#[trigger] suffixed(base@, m)),
        decreases in_use + 2 - n,
    {
        let mut name = base.to_string();
        name.push_str("-");
        name.push_str(decimal_wide(n).as_str());
        assert(name@ == suffixed(base@, n as nat));
        if !has_name(used, name.as_str()) {
            proof {
                assert(free_suffix(u, base@, n as nat));
                let c = choose|k: nat| free_suffix(u, base@, k);
                assert(free_suffix(u, base@, c));
                if c < n {
                    assert(u.contains(suffixed(base@, c)));
                }
                if n < c {
                    assert(u.contains(suffixed(base@, n as nat)));
                }
            }
            return name;
        }
        proof {
            assert forall|m: nat| 2 <= m < n + 1 implies u.contains(
                #[trigger] suffixed(base@, m),
            ) by {
                if m == n {
                    assert(u.contains(suffixed(base@, n as nat)));
                }
            }
            lemma_taken(u, base@, (n + 1) as nat);
        }
        n = n + 1;
    }
}

/// A free name exists: numbers do not run out.
pub(crate) proof fn lemma_free_from(used: Seq<Seq<char>>, base: Seq<char>, n: nat)
    requires
        n >= 2,
        forall|m: nat| 2 <= m < n ==> used.contains(#[trigger] suffixed(base, m)),
    ensures
        exists|k: nat| free_suffix(used, base, k),
    decreases used.len() + 2 - n,
{
    lemma_taken(used, base, n);
    if used.contains(suffixed(base, n)) {
        assert forall|m: nat| 2 <= m < n + 1 implies used.contains(
            #[trigger] suffixed(base, m),
        ) by {}
        lemma_taken(used, base, n + 1);
        lemma_free_from(used, base, n + 1);
    } else {
        assert(free_suffix(used, base, n));
    }
}

/// The name given out is never one in use, and is not empty where the name
/// asked for is not.
pub proof fn law_free_name(used: Seq<Seq<char>>, base: Seq<char>)
    ensures
        !used.contains(free_name(used, base)),
        base.len() > 0 ==> free_name(used, base).len() > 0,
{
    if used.contains(base) {
        lemma_free_from(used, base, 2);
        let n = choose|n: nat| free_suffix(used, base, n);
        assert(free_suffix(used, base, n));
    }
}

} // verus!
