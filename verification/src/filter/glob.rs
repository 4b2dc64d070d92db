//! Wildcard expressions: `*` stands for any sequence of characters.
use vstd::prelude::*;

verus! {

/// Does `pat`, in which `*` stands for any sequence, match `text`?
pub open spec fn glob(pat: Seq<char>, text: Seq<char>) -> bool
    decreases pat.len() + text.len(),
{
    if pat.len() == 0 {
        text.len() == 0
    } else if pat[0] == '*' {
        glob(pat.drop_first(), text) || (text.len() > 0 && glob(pat, text.drop_first()))
    } else {
        text.len() > 0 && text[0] == pat[0] && glob(pat.drop_first(), text.drop_first())
    }
}

/// `pat` matches some suffix of `text` that starts at `from` or later.
spec fn glob_later(pat: Seq<char>, text: Seq<char>, from: int) -> bool {
    exists|k: int| from <= k <= text.len() && #[trigger] glob(pat, text.skip(k))
}

/// A leading `*` consumes any number of characters.
proof fn lemma_glob_star(pat: Seq<char>, text: Seq<char>, p: int, t: int)
    requires
        0 <= p < pat.len(),
        pat[p] == '*',
        0 <= t <= text.len(),
    ensures
        glob(pat.skip(p), text.skip(t)) == glob_later(pat.skip(p + 1), text, t),
    decreases text.len() - t,
{
    let a = pat.skip(p);
    let b = text.skip(t);
    let rest = pat.skip(p + 1);
    assert(a[0] == '*');
    assert(a.drop_first() == rest);
    assert(glob(a, b) == (glob(rest, b) || (b.len() > 0 && glob(a, b.drop_first()))));
    if t < text.len() {
        assert(b.drop_first() == text.skip(t + 1));
        lemma_glob_star(pat, text, p, t + 1);
    }
    if glob(a, b) && !glob(rest, b) {
        let k = choose|k: int| t + 1 <= k <= text.len() && #[trigger] glob(rest, text.skip(k));
        assert(glob(rest, text.skip(k)));
        assert(glob_later(rest, text, t));
    }
    if glob_later(rest, text, t) {
        let k = choose|k: int| t <= k <= text.len() && #[trigger] glob(rest, text.skip(k));
        if k > t {
            assert(glob_later(rest, text, t + 1));
        }
    }
}

/// A run of literal characters must be matched one by one.
proof fn lemma_glob_literal(pat: Seq<char>, text: Seq<char>, a: int, b: int, k: int)
    requires
        0 <= a <= b <= pat.len(),
        forall|q: int| a <= q < b ==> pat[q] != '*',
        0 <= k <= text.len(),
    ensures
        glob(pat.skip(a), text.skip(k)) == (k + (b - a) <= text.len() && (forall|q: int|
            a <= q < b ==> #[trigger] pat[q] == text[k + (q - a)]) && glob(
            pat.skip(b),
            text.skip(k + (b - a)),
        )),
    decreases b - a,
{
    if a < b {
        let x = pat.skip(a);
        let y = text.skip(k);
        assert(x[0] == pat[a]);
        assert(x.drop_first() == pat.skip(a + 1));
        if k < text.len() {
            assert(y[0] == text[k]);
            assert(y.drop_first() == text.skip(k + 1));
            lemma_glob_literal(pat, text, a + 1, b, k + 1);
            if glob(x, y) {
                assert forall|q: int| a <= q < b implies #[trigger] pat[q] == text[k + (q - a)] by {
                    if q > a {
                        assert(pat[q] == text[k + 1 + (q - (a + 1))]);
                    }
                }
            }
            if k + (b - a) <= text.len() && (forall|q: int|
                a <= q < b ==> #[trigger] pat[q] == text[k + (q - a)]) {
                assert(pat[a] == text[k + (a - a)]);
                assert forall|q: int| a + 1 <= q < b implies #[trigger] pat[q] == text[k + 1 + (q - (
                a + 1))] by {
                    assert(pat[q] == text[k + (q - a)]);
                }
            }
        }
    }
}

/// What is left of the pattern matches nothing only if it is all stars.
proof fn lemma_glob_empty(pat: Seq<char>, text: Seq<char>, p: int)
    requires
        0 <= p <= pat.len(),
    ensures
        p < pat.len() && pat[p] == '*' ==> glob(pat.skip(p), text.skip(text.len() as int)) == glob(
            pat.skip(p + 1),
            text.skip(text.len() as int),
        ),
        p < pat.len() && pat[p] != '*' ==> !glob(pat.skip(p), text.skip(text.len() as int)),
        p == pat.len() ==> glob(pat.skip(p), text.skip(text.len() as int)),
{
    if p < pat.len() {
        assert(pat.skip(p).drop_first() == pat.skip(p + 1));
        assert(pat.skip(p)[0] == pat[p]);
    }
}

/// What the matcher's state says of the whole match.
spec fn glob_state(
    pat: Seq<char>,
    text: Seq<char>,
    p: int,
    t: int,
    star: Option<(usize, usize)>,
) -> bool {
    &&& 0 <= p <= pat.len()
    &&& 0 <= t <= text.len()
    &&& match star {
        None => glob(pat, text) == glob(pat.skip(p), text.skip(t)),
        Some((sp, st)) => {
            &&& sp < p
            &&& pat[sp as int] == '*'
            &&& st <= t
            &&& t - st == p - (sp + 1)
            &&& forall|q: int|
                sp < q < p ==> #[trigger] pat[q] != '*' && pat[q] == text[st + (q - (sp + 1))]
            &&& glob(pat, text) == glob_later(pat.skip(sp + 1), text, st as int)
        },
    }
}

/// Entering a star: everything matched before it is settled.
proof fn lemma_state_star(
    pat: Seq<char>,
    text: Seq<char>,
    p: int,
    t: int,
    star: Option<(usize, usize)>,
)
    requires
        glob_state(pat, text, p, t, star),
        p < pat.len(),
        pat[p] == '*',
    ensures
        glob(pat, text) == glob_later(pat.skip(p + 1), text, t),
{
    match star {
        None => {
            lemma_glob_star(pat, text, p, t);
        },
        Some((sp, st)) => {
            let lit = pat.skip(sp + 1);
            if glob_later(lit, text, st as int) {
                let k = choose|k: int| st <= k <= text.len() && #[trigger] glob(lit, text.skip(k));
                lemma_glob_literal(pat, text, sp + 1, p, k);
                let m = k + (p - (sp + 1));
                lemma_glob_star(pat, text, p, m);
                let j = choose|j: int|
                    m <= j <= text.len() && #[trigger] glob(pat.skip(p + 1), text.skip(j));
                assert(glob(pat.skip(p + 1), text.skip(j)));
            }
            if glob_later(pat.skip(p + 1), text, t) {
                lemma_glob_star(pat, text, p, t);
                lemma_glob_literal(pat, text, sp + 1, p, st as int);
                assert(glob(lit, text.skip(st as int)));
            }
        },
    }
}

/// A mismatch after a star: the star must consume one more character.
proof fn lemma_state_retry(
    pat: Seq<char>,
    text: Seq<char>,
    p: int,
    t: int,
    sp: usize,
    st: usize,
)
    requires
        glob_state(pat, text, p, t, Some((sp, st))),
        t < text.len(),
        p == pat.len() || (pat[p] != '*' && pat[p] != text[t]),
    ensures
        glob(pat, text) == glob_later(pat.skip(sp + 1), text, st + 1),
{
    let lit = pat.skip(sp + 1);
    lemma_glob_literal(pat, text, sp + 1, p, st as int);
    assert(!glob(pat.skip(p), text.skip(t))) by {
        assert(text.skip(t)[0] == text[t]);
        if p < pat.len() {
            assert(pat.skip(p)[0] == pat[p]);
        }
    }
    assert(!glob(lit, text.skip(st as int)));
    if glob_later(lit, text, st as int) {
        let k = choose|k: int| st <= k <= text.len() && #[trigger] glob(lit, text.skip(k));
        assert(k != st);
        assert(glob(lit, text.skip(k)));
    }
    if glob_later(lit, text, st + 1) {
        let k = choose|k: int| st + 1 <= k <= text.len() && #[trigger] glob(lit, text.skip(k));
        assert(glob(lit, text.skip(k)));
    }
}

/// All text consumed: the rest of the pattern decides.
proof fn lemma_state_end(
    pat: Seq<char>,
    text: Seq<char>,
    p: int,
    star: Option<(usize, usize)>,
)
    requires
        glob_state(pat, text, p, text.len() as int, star),
    ensures
        glob(pat, text) == glob(pat.skip(p), text.skip(text.len() as int)),
{
    match star {
        None => {},
        Some((sp, st)) => {
            let lit = pat.skip(sp + 1);
            lemma_glob_literal(pat, text, sp + 1, p, st as int);
            if glob_later(lit, text, st as int) {
                let k = choose|k: int| st <= k <= text.len() && #[trigger] glob(lit, text.skip(k));
                lemma_glob_literal(pat, text, sp + 1, p, k);
                assert(k == st);
            }
            if glob(pat.skip(p), text.skip(text.len() as int)) {
                assert(glob(lit, text.skip(st as int)));
            }
        },
    }
}

/// Two-pointer glob matcher; `*` matches any character sequence.
fn glob_match(pat: &[char], text: &[char]) -> (r: bool)
    ensures
        r == glob(pat@, text@),
{
    let mut p: usize = 0;
    let mut t: usize = 0;
    let mut star: Option<(usize, usize)> = None;
    assert(pat@.skip(0) == pat@ && text@.skip(0) == text@);
    while t < text.len()
        invariant
            glob_state(pat@, text@, p as int, t as int, star),
        decreases
                text.len() - (if let Some((_, st)) = star {
                    st as int
                } else {
                    0
                }),
                pat.len() - (if let Some((sp, _)) = star {
                    sp as int
                } else {
                    -1
                }),
                text.len() - t,
    {
        if p < pat.len() && pat[p] == '*' {
            proof {
                lemma_state_star(pat@, text@, p as int, t as int, star);
            }
            star = Some((p, t));
            p = p + 1;
        } else if p < pat.len() && pat[p] == text[t] {
            proof {
                if star is None {
                    let x = pat@.skip(p as int);
                    let y = text@.skip(t as int);
                    assert(x[0] == pat@[p as int] && y[0] == text@[t as int]);
                    assert(x.drop_first() == pat@.skip(p + 1));
                    assert(y.drop_first() == text@.skip(t + 1));
                }
            }
            p = p + 1;
            t = t + 1;
        } else if let Some((sp, st)) = star {
            proof {
                lemma_state_retry(pat@, text@, p as int, t as int, sp, st);
            }
            p = sp + 1;
            t = st + 1;
            star = Some((sp, st + 1));
        } else {
            proof {
                assert(text@.skip(t as int)[0] == text@[t as int]);
                if p < pat.len() {
                    assert(pat@.skip(p as int)[0] == pat@[p as int]);
                }
            }
            return false;
        }
    }
    proof {
        lemma_state_end(pat@, text@, p as int, star);
        lemma_glob_empty(pat@, text@, p as int);
    }
    while p < pat.len() && pat[p] == '*'
        invariant
            p <= pat.len(),
            glob(pat@, text@) == glob(pat@.skip(p as int), text@.skip(text@.len() as int)),
        decreases pat.len() - p,
    {
        proof {
            lemma_glob_empty(pat@, text@, p as int);
        }
        p = p + 1;
    }
    proof {
        lemma_glob_empty(pat@, text@, p as int);
    }
    p == pat.len()
}

/// A suffix that starts at `j` starts a label.
pub open spec fn label_start(n: Seq<char>, j: int) -> bool {
    0 <= j <= n.len() && (j == 0 || n[j - 1] == '.')
}

/// Does the wildcard match the name, or, with `include_subdomains`, a parent
/// of the name?
pub open spec fn wildcard_covers(
    expr: Seq<char>,
    n: Seq<char>,
    include_subdomains: bool,
) -> bool {
    glob(expr, n) || (include_subdomains && exists|j: int| #[trigger]
        label_start(n, j) && glob(expr, n.skip(j)))
}

pub(crate) fn wildcard_matches(expr: &[char], name: &[char], include_subdomains: bool) -> (r: bool)
    ensures
        r == wildcard_covers(expr@, name@, include_subdomains),
{
    if glob_match(expr, name) {
        return true;
    }
    if include_subdomains {
        assert(name@.skip(0) == name@);
        let len: usize = name.len();
        let mut j: usize = 0;
        while j < len
            invariant
                j <= len,
                len == name.len(),
                include_subdomains,
                forall|i: int| #[trigger]
                    label_start(name@, i) && i <= j ==> !glob(expr@, name@.skip(i)),
            decreases len - j,
        {
            if name[j] == '.' {
                assert(name@.subrange(j + 1, len as int) == name@.skip(j + 1));
                if glob_match(expr, &name[j + 1..len]) {
                    assert(label_start(name@, j + 1));
                    return true;
                }
            }
            j = j + 1;
        }
    }
    false
}

} // verus!
