//! Character sequences: the operations on text that every other module is
//! stated over.
//!
//! Executable code works on slices of `char`; contracts speak of
//! `Seq<char>`, the view of a string.
use vstd::prelude::*;
use vstd::utf8::{encode_scalar, encode_utf8, encode_utf8_decode_utf8, encode_utf8_first_scalar};
use vstd::utf8::{encode_utf8_valid_utf8, is_char_boundary, is_char_boundary_start_end_of_seq};
use vstd::utf8::pop_first_scalar;

verus! {

/// `String::push` appends one character.
pub assume_specification[ String::push ](s: &mut String, c: char)
    ensures
        final(s)@ == old(s)@.push(c),
;

/// `String::push_str` appends a string slice.
pub assume_specification[ String::push_str ](s: &mut String, t: &str)
    ensures
        final(s)@ == old(s)@ + t@,
;

/// The characters with the Unicode `White_Space` property.
pub open spec fn is_white(c: char) -> bool {
    let u = c as u32;
    ||| 0x09 <= u <= 0x0d
    ||| u == 0x20
    ||| u == 0x85
    ||| u == 0xa0
    ||| u == 0x1680
    ||| 0x2000 <= u <= 0x200a
    ||| u == 0x2028
    ||| u == 0x2029
    ||| u == 0x202f
    ||| u == 0x205f
    ||| u == 0x3000
}

/// `char::is_whitespace`: whether the character has the Unicode
/// `White_Space` property, claimed here as its fixed list of code points.
#[verifier::external_body]
pub(crate) fn white(c: char) -> (r: bool)
    ensures
        r == is_white(c),
{
    c.is_whitespace()
}

/// ASCII lowercase of one character; every other character is unchanged.
pub open spec fn lower_char(c: char) -> char {
    if 'A' <= c <= 'Z' {
        ((c as u8) + 32) as u8 as char
    } else {
        c
    }
}

/// ASCII lowercase of a text.
pub open spec fn lower(s: Seq<char>) -> Seq<char> {
    Seq::new(s.len(), |i: int| lower_char(s[i]))
}

pub open spec fn is_alpha(c: char) -> bool {
    'a' <= c <= 'z' || 'A' <= c <= 'Z'
}

pub open spec fn is_digit(c: char) -> bool {
    '0' <= c <= '9'
}

pub open spec fn is_alnum(c: char) -> bool {
    is_alpha(c) || is_digit(c)
}

/// The text without one trailing `.`, if it has one.
pub open spec fn strip_dot(s: Seq<char>) -> Seq<char> {
    if s.len() > 0 && s.last() == '.' {
        s.drop_last()
    } else {
        s
    }
}

pub open spec fn starts_with(s: Seq<char>, p: Seq<char>) -> bool {
    p.len() <= s.len() && s.take(p.len() as int) == p
}

pub open spec fn ends_with(s: Seq<char>, p: Seq<char>) -> bool {
    p.len() <= s.len() && s.skip(s.len() - p.len()) == p
}

/// `p` occurs in `s` at position `i`.
pub open spec fn occurs_at(s: Seq<char>, p: Seq<char>, i: int) -> bool {
    0 <= i && i + p.len() <= s.len() && s.subrange(i, i + p.len()) == p
}

/// `p` occurs somewhere in `s`.
pub open spec fn contains_text(s: Seq<char>, p: Seq<char>) -> bool {
    exists|i: int| occurs_at(s, p, i)
}

/// Position of the first `c` at or after `from`; the length when there is none.
pub open spec fn find_from(s: Seq<char>, c: char, from: int) -> int
    decreases s.len() - from,
{
    if from < 0 || from >= s.len() {
        s.len() as int
    } else if s[from] == c {
        from
    } else {
        find_from(s, c, from + 1)
    }
}

/// The pieces of `s` between occurrences of `sep`; never empty.
pub open spec fn split(s: Seq<char>, sep: char) -> Seq<Seq<char>>
    decreases s.len(),
{
    let k = find_from(s, sep, 0);
    if 0 <= k < s.len() {
        seq![s.take(k)] + split(s.skip(k + 1), sep)
    } else {
        seq![s]
    }
}

pub open spec fn trim_start(s: Seq<char>) -> Seq<char>
    decreases s.len(),
{
    if s.len() > 0 && is_white(s[0]) {
        trim_start(s.drop_first())
    } else {
        s
    }
}

pub open spec fn trim_end(s: Seq<char>) -> Seq<char>
    decreases s.len(),
{
    if s.len() > 0 && is_white(s.last()) {
        trim_end(s.drop_last())
    } else {
        s
    }
}

/// The text without leading and trailing whitespace.
pub open spec fn trim(s: Seq<char>) -> Seq<char> {
    trim_end(trim_start(s))
}

/// Length of the longest whitespace-free prefix.
pub open spec fn word_len(s: Seq<char>) -> nat
    decreases s.len(),
{
    if s.len() == 0 || is_white(s[0]) {
        0
    } else {
        1 + word_len(s.drop_first())
    }
}

/// The maximal whitespace-free runs, in order.
pub open spec fn words(s: Seq<char>) -> Seq<Seq<char>>
    decreases s.len(),
{
    if s.len() == 0 {
        seq![]
    } else if is_white(s[0]) {
        words(s.drop_first())
    } else {
        let k = word_len(s) as int;
        if 0 < k <= s.len() {
            seq![s.take(k)] + words(s.skip(k))
        } else {
            seq![]
        }
    }
}

/// One line's content without the carriage return of a `\r\n` ending.
pub open spec fn strip_cr(s: Seq<char>) -> Seq<char> {
    if s.len() > 0 && s.last() == '\r' {
        s.drop_last()
    } else {
        s
    }
}

/// The lines of a text: what stands between line feeds, each without its line
/// ending; a final line ending is optional.
pub open spec fn lines(s: Seq<char>) -> Seq<Seq<char>> {
    let p = split(s, '\n');
    let ended = ended_lines(p);
    if p.last().len() == 0 {
        ended
    } else {
        ended.push(p.last())
    }
}

/// The pieces that a line feed follows, without a carriage return before it.
pub open spec fn ended_lines(p: Seq<Seq<char>>) -> Seq<Seq<char>> {
    Seq::new((p.len() - 1) as nat, |i: int| strip_cr(p[i]))
}

/// `parts` with `sep` between neighbours.
pub open spec fn join(parts: Seq<Seq<char>>, sep: Seq<char>) -> Seq<char>
    decreases parts.len(),
{
    if parts.len() == 0 {
        seq![]
    } else if parts.len() == 1 {
        parts[0]
    } else {
        join(parts.drop_last(), sep) + sep + parts.last()
    }
}

/// The text of an optional string.
pub open spec fn opt_text(s: Option<String>) -> Option<Seq<char>> {
    match s {
        Some(s) => Some(s@),
        None => None,
    }
}

/// The texts of a sequence of strings.
pub open spec fn texts(v: Seq<String>) -> Seq<Seq<char>> {
    Seq::new(v.len(), |i: int| v[i]@)
}

pub proof fn lemma_find_from(s: Seq<char>, c: char, from: int)
    requires
        0 <= from <= s.len(),
    ensures
        from <= find_from(s, c, from) <= s.len(),
        find_from(s, c, from) < s.len() ==> s[find_from(s, c, from)] == c,
        forall|j: int| from <= j < find_from(s, c, from) ==> s[j] != c,
    decreases s.len() - from,
{
    if from < s.len() && s[from] != c {
        lemma_find_from(s, c, from + 1);
    }
}

/// The first occurrence is characterised by what comes before it.
pub proof fn lemma_find_from_is(s: Seq<char>, c: char, from: int, k: int)
    requires
        0 <= from <= k <= s.len(),
        k < s.len() ==> s[k] == c,
        forall|j: int| from <= j < k ==> s[j] != c,
    ensures
        find_from(s, c, from) == k,
{
    lemma_find_from(s, c, from);
    let f = find_from(s, c, from);
    if f < k {
        assert(s[f] != c);
    } else if k < f {
        assert(s[k] != c);
    }
}

/// The characters of a string.
pub fn chars_of(s: &str) -> (r: Vec<char>)
    ensures
        r@ == s@,
{
    let mut out: Vec<char> = Vec::new();
    for c in it: s.chars()
        invariant
            out@ == it.seq().take(it.index() as int),
            it.seq() == s@,
    {
        out.push(c);
    }
    out
}

/// The string made of the given characters.
pub fn string_of(cs: &[char]) -> (r: String)
    ensures
        r@ == cs@,
{
    let mut out = String::new();
    let n: usize = cs.len();
    for i in 0..n
        invariant
            n == cs.len(),
            out@ == cs@.take(i as int),
    {
        out.push(cs[i]);
        assert(cs@.take(i + 1) == cs@.take(i as int).push(cs@[i as int]));
    }
    assert(cs@.take(n as int) == cs@);
    out
}

/// Equal as text.
pub fn str_eq(a: &str, b: &str) -> (r: bool)
    ensures
        r == (a@ == b@),
{
    let x = a.as_bytes();
    let y = b.as_bytes();
    proof {
        encode_utf8_decode_utf8(a@);
        encode_utf8_decode_utf8(b@);
    }
    if x.len() != y.len() {
        return false;
    }
    let n: usize = x.len();
    for i in 0..n
        invariant
            n == x.len(),
            n == y.len(),
            x@ == encode_utf8(a@),
            y@ == encode_utf8(b@),
            forall|j: int| 0 <= j < i ==> x@[j] == y@[j],
    {
        if x[i] != y[i] {
            assert(x@ != y@);
            return false;
        }
    }
    assert(x@ == y@);
    true
}

/// Equal as character sequences.
pub fn chars_eq(a: &[char], b: &[char]) -> (r: bool)
    ensures
        r == (a@ == b@),
{
    if a.len() != b.len() {
        return false;
    }
    let n: usize = a.len();
    for i in 0..n
        invariant
            n == a.len(),
            n == b.len(),
            forall|j: int| 0 <= j < i ==> a@[j] == b@[j],
    {
        if a[i] != b[i] {
            return false;
        }
    }
    assert(a@ == b@);
    true
}

/// Whether the characters spell the given string.
pub fn chars_are(a: &[char], b: &str) -> (r: bool)
    ensures
        r == (a@ == b@),
{
    let w = chars_of(b);
    chars_eq(a, w.as_slice())
}

pub fn lowered_char(c: char) -> (r: char)
    ensures
        r == lower_char(c),
{
    if 'A' <= c && c <= 'Z' {
        ((c as u8) + 32) as char
    } else {
        c
    }
}

/// ASCII-lowercased copy.
pub fn lowered(cs: &[char]) -> (r: Vec<char>)
    ensures
        r@ == lower(cs@),
{
    let mut out: Vec<char> = Vec::new();
    let n: usize = cs.len();
    for i in 0..n
        invariant
            n == cs.len(),
            out@ == lower(cs@).take(i as int),
    {
        out.push(lowered_char(cs[i]));
    }
    out
}

/// The slice without one trailing dot.
pub fn without_dot(cs: &[char]) -> (r: &[char])
    ensures
        r@ == strip_dot(cs@),
{
    let n: usize = cs.len();
    if n > 0 && cs[n - 1] == '.' {
        &cs[0..n - 1]
    } else {
        cs
    }
}

pub fn has_prefix(s: &[char], p: &[char]) -> (r: bool)
    ensures
        r == starts_with(s@, p@),
{
    s.len() >= p.len() && chars_eq(&s[0..p.len()], p)
}

pub fn has_suffix(s: &[char], p: &[char]) -> (r: bool)
    ensures
        r == ends_with(s@, p@),
{
    s.len() >= p.len() && chars_eq(&s[s.len() - p.len()..s.len()], p)
}

pub fn starts_with_str(s: &[char], p: &str) -> (r: bool)
    ensures
        r == starts_with(s@, p@),
{
    let w = chars_of(p);
    has_prefix(s, w.as_slice())
}

/// Whether `c` occurs in `s`.
pub fn has_char(s: &[char], c: char) -> (r: bool)
    ensures
        r == s@.contains(c),
{
    let n: usize = s.len();
    for i in 0..n
        invariant
            n == s.len(),
            forall|j: int| 0 <= j < i ==> s@[j] != c,
    {
        if s[i] == c {
            return true;
        }
    }
    false
}

/// Whether the text `p` occurs in `s`.
pub fn has_text(s: &[char], p: &str) -> (r: bool)
    ensures
        r == contains_text(s@, p@),
{
    let w = chars_of(p);
    let n: usize = s.len();
    let m: usize = w.len();
    if m > n {
        return false;
    }
    let mut i: usize = 0;
    loop
        invariant
            n == s.len(),
            m == w.len(),
            i + m <= n,
            w@ == p@,
            forall|j: int| 0 <= j < i ==> !occurs_at(s@, p@, j),
        decreases n - i,
    {
        if chars_eq(&s[i..i + m], w.as_slice()) {
            assert(occurs_at(s@, p@, i as int));
            return true;
        }
        assert(!occurs_at(s@, p@, i as int));
        if i == n - m {
            return false;
        }
        i = i + 1;
    }
}

/// Index of the first `c` at or after `from`; the length when there is none.
pub fn find_char(s: &[char], c: char, from: usize) -> (r: usize)
    requires
        from <= s.len(),
    ensures
        r == find_from(s@, c, from as int),
        from <= r <= s.len(),
{
    let mut i: usize = from;
    while i < s.len() && s[i] != c
        invariant
            from <= i <= s.len(),
            forall|j: int| from <= j < i ==> s@[j] != c,
        decreases s.len() - i,
    {
        i = i + 1;
    }
    proof {
        lemma_find_from_is(s@, c, from as int, i as int);
    }
    i
}

/// The pieces between occurrences of `sep`.
pub fn split_chars(s: &[char], sep: char) -> (r: Vec<Vec<char>>)
    ensures
        r@.len() == split(s@, sep).len(),
        r@.len() > 0,
        forall|i: int| 0 <= i < r@.len() ==> (#[trigger] r@[i])@ == split(s@, sep)[i],
{
    let mut out: Vec<Vec<char>> = Vec::new();
    let mut start: usize = 0;
    assert(s@.skip(0) == s@);
    loop
        invariant
            start <= s.len(),
            split(s@, sep).len() == out@.len() + split(s@.skip(start as int), sep).len(),
            forall|i: int| 0 <= i < out@.len() ==> (#[trigger] out@[i])@ == split(s@, sep)[i],
            forall|i: int|
                0 <= i < split(s@.skip(start as int), sep).len() ==> split(s@, sep)[out@.len() + i]
                    == #[trigger] split(s@.skip(start as int), sep)[i],
        decreases s.len() - start,
    {
        let k = find_char(s, sep, start);
        let ghost rest = s@.skip(start as int);
        proof {
            lemma_find_from(s@, sep, start as int);
            lemma_find_from_is(rest, sep, 0, k - start);
        }
        let mut piece: Vec<char> = Vec::new();
        for j in start..k
            invariant
                start <= k <= s.len(),
                piece@ == s@.subrange(start as int, j as int),
        {
            piece.push(s[j]);
        }
        let ghost before = out@;
        if k < s.len() {
            assert(piece@ == rest.take(k - start));
            assert(rest.skip(k - start + 1) == s@.skip(k + 1));
            let ghost tail = split(s@.skip(k + 1), sep);
            assert(split(rest, sep) == seq![rest.take(k - start)] + tail);
            assert(split(rest, sep)[0] == piece@);
            assert forall|i: int| 0 <= i < tail.len() implies split(s@, sep)[before.len() + 1 + i]
                == #[trigger] tail[i] by {
                assert(split(rest, sep)[i + 1] == tail[i]);
            }
            out.push(piece);
            start = k + 1;
        } else {
            assert(piece@ == rest);
            assert(split(rest, sep) == seq![rest]);
            assert(split(rest, sep)[0] == piece@);
            out.push(piece);
            return out;
        }
    }
}

/// The slice without leading and trailing whitespace.
pub fn trimmed(s: &[char]) -> (r: &[char])
    ensures
        r@ == trim(s@),
{
    let mut a: usize = 0;
    assert(s@.skip(0) == s@);
    while a < s.len() && white(s[a])
        invariant
            a <= s.len(),
            trim_start(s@.skip(a as int)) == trim_start(s@),
        decreases s.len() - a,
    {
        assert(s@.skip(a as int).drop_first() == s@.skip(a + 1));
        a = a + 1;
    }
    assert(trim_start(s@.skip(a as int)) == s@.skip(a as int));
    let mut b: usize = s.len();
    assert(s@.subrange(a as int, b as int) == s@.skip(a as int));
    while a < b && white(s[b - 1])
        invariant
            a <= b <= s.len(),
            trim_end(s@.subrange(a as int, b as int)) == trim(s@),
        decreases b - a,
    {
        assert(s@.subrange(a as int, b as int).drop_last() == s@.subrange(a as int, b - 1));
        b = b - 1;
    }
    assert(trim_end(s@.subrange(a as int, b as int)) == s@.subrange(a as int, b as int));
    &s[a..b]
}

proof fn lemma_word_len(s: Seq<char>, k: int)
    requires
        0 <= k <= s.len(),
        forall|j: int| 0 <= j < k ==> !is_white(#[trigger] s[j]),
        k < s.len() ==> is_white(s[k]),
    ensures
        word_len(s) == k,
    decreases k,
{
    if k > 0 {
        assert forall|j: int| 0 <= j < k - 1 implies !is_white(#[trigger] s.drop_first()[j]) by {
            assert(s.drop_first()[j] == s[j + 1]);
        }
        lemma_word_len(s.drop_first(), k - 1);
    }
}

/// The whitespace-separated words.
pub fn words_of(s: &[char]) -> (r: Vec<Vec<char>>)
    ensures
        r@.len() == words(s@).len(),
        forall|i: int| 0 <= i < r@.len() ==> (#[trigger] r@[i])@ == words(s@)[i],
{
    let mut out: Vec<Vec<char>> = Vec::new();
    let mut a: usize = 0;
    assert(s@.skip(0) == s@);
    while a < s.len()
        invariant
            a <= s.len(),
            words(s@).len() == out@.len() + words(s@.skip(a as int)).len(),
            forall|i: int| 0 <= i < out@.len() ==> (#[trigger] out@[i])@ == words(s@)[i],
            forall|i: int|
                0 <= i < words(s@.skip(a as int)).len() ==> words(s@)[out@.len() + i]
                    == #[trigger] words(s@.skip(a as int))[i],
        decreases s.len() - a,
    {
        let ghost rest = s@.skip(a as int);
        if white(s[a]) {
            assert(rest.drop_first() == s@.skip(a + 1));
            a = a + 1;
        } else {
            let mut b: usize = a;
            let mut word: Vec<char> = Vec::new();
            while b < s.len() && !white(s[b])
                invariant
                    a <= b <= s.len(),
                    word@ == s@.subrange(a as int, b as int),
                    forall|j: int| a <= j < b ==> !is_white(#[trigger] s@[j]),
                decreases s.len() - b,
            {
                word.push(s[b]);
                b = b + 1;
            }
            proof {
                assert forall|j: int| 0 <= j < b - a implies !is_white(#[trigger] rest[j]) by {
                    assert(rest[j] == s@[a + j]);
                }
                lemma_word_len(rest, b - a);
                assert(b > a) by {
                    if b == a {
                        assert(!is_white(rest[0]));
                    }
                }
                assert(rest.take(b - a) == word@);
                assert(rest.skip(b - a) == s@.skip(b as int));
                let tail = words(s@.skip(b as int));
                assert(words(rest) == seq![word@] + tail);
                assert(words(rest)[0] == word@);
                assert forall|i: int| 0 <= i < tail.len() implies words(s@)[out@.len() + 1 + i]
                    == #[trigger] tail[i] by {
                    assert(words(rest)[i + 1] == tail[i]);
                }
            }
            out.push(word);
            a = b;
        }
    }
    assert(s@.skip(a as int).len() == 0);
    out
}

/// Splitting one more character: it ends a piece or extends the last one.
pub proof fn lemma_split_push(s: Seq<char>, sep: char, c: char)
    ensures
        split(s, sep).len() > 0,
        split(s.push(c), sep) == if c == sep {
            split(s, sep).push(seq![])
        } else {
            split(s, sep).drop_last().push(split(s, sep).last().push(c))
        },
    decreases s.len(),
{
    let k = find_from(s, sep, 0);
    lemma_find_from(s, sep, 0);
    let t = s.push(c);
    if k < s.len() {
        lemma_find_from_is(t, sep, 0, k);
        assert(t.take(k) == s.take(k));
        assert(t.skip(k + 1) == s.skip(k + 1).push(c));
        lemma_split_push(s.skip(k + 1), sep, c);
        let head = seq![s.take(k)];
        let rest = split(s.skip(k + 1), sep);
        assert(split(s, sep) == head + rest);
        if c == sep {
            assert(head + rest.push(seq![]) == (head + rest).push(seq![]));
        } else {
            assert(head + rest.drop_last().push(rest.last().push(c)) == (
            head + rest).drop_last().push((head + rest).last().push(c)));
        }
    } else if c == sep {
        lemma_find_from_is(t, sep, 0, s.len() as int);
        assert(t.take(s.len() as int) == s);
        assert(t.skip(s.len() as int + 1) == Seq::<char>::empty());
        assert(split(Seq::<char>::empty(), sep) == seq![Seq::<char>::empty()]);
        assert(split(t, sep) == seq![s] + seq![Seq::<char>::empty()]);
    } else {
        lemma_find_from_is(t, sep, 0, t.len() as int);
        assert(split(s, sep) == seq![s]);
        assert(split(t, sep) == seq![t]);
        assert(split(s, sep).drop_last().push(s.push(c)) == seq![t]);
    }
}

/// The slice without one trailing carriage return.
pub fn without_cr(cs: &[char]) -> (r: &[char])
    ensures
        r@ == strip_cr(cs@),
{
    let n: usize = cs.len();
    if n > 0 && cs[n - 1] == '\r' {
        &cs[0..n - 1]
    } else {
        cs
    }
}

/// A digit as a character.
pub open spec fn digit_char(d: nat) -> char {
    (('0' as u8) + d) as u8 as char
}

/// Decimal digits of a number.
pub open spec fn decimal(n: nat) -> Seq<char>
    decreases n,
{
    if n < 10 {
        seq![digit_char(n)]
    } else {
        decimal(n / 10).push(digit_char(n % 10))
    }
}

/// Decimal digits of a number.
pub fn decimal_of(n: u64) -> (r: String)
    ensures
        r@ == decimal(n as nat),
{
    decimal_wide(n as u128)
}

/// Decimal digits of a wide number.
pub fn decimal_wide(n: u128) -> (r: String)
    ensures
        r@ == decimal(n as nat),
    decreases n,
{
    let d = ('0' as u8 + (n % 10) as u8) as char;
    if n < 10 {
        let mut out = String::new();
        out.push(d);
        out
    } else {
        let mut out = decimal_wide(n / 10);
        out.push(d);
        out
    }
}

/// What `{:?}` writes for a string.
pub uninterp spec fn debug_text(s: Seq<char>) -> Seq<char>;

/// Printable ASCII without quotation marks and backslashes.
pub open spec fn plain_text(s: Seq<char>) -> bool {
    forall|i: int|
        0 <= i < s.len() ==> ' ' <= #[trigger] s[i] <= '~' && s[i] != '"' && s[i] != '\\'
}

/// The `Debug` formatting of `str`: a function of the string, which stands in
/// quotation marks; a plain string is otherwise left as it is. How other
/// characters are escaped is left unsaid.
#[verifier::external_body]
pub(crate) fn debug_of(s: &str) -> (r: String)
    ensures
        r@ == debug_text(s@),
        plain_text(s@) ==> r@ == "\""@ + s@ + "\""@,
{
    format!("{s:?}")
}

/// The text after an optional plus sign.
pub open spec fn without_plus(s: Seq<char>) -> Seq<char> {
    if s.len() > 0 && s[0] == '+' {
        s.skip(1)
    } else {
        s
    }
}

pub open spec fn all_digits(s: Seq<char>) -> bool {
    forall|i: int| 0 <= i < s.len() ==> is_digit(#[trigger] s[i])
}

/// Value of decimal digits.
pub open spec fn digits_value(s: Seq<char>) -> nat
    decreases s.len(),
{
    if s.len() == 0 {
        0
    } else {
        digits_value(s.drop_last()) * 10 + (s.last() as nat - '0' as nat) as nat
    }
}

/// Value of an optional plus sign and decimal digits, if it is at most `max`.
pub open spec fn number(s: Seq<char>, max: u64) -> Option<u64> {
    let d = without_plus(s);
    if d.len() == 0 || !all_digits(d) || digits_value(d) > max {
        None
    } else {
        Some(digits_value(d) as u64)
    }
}

/// Parse a number of at most `max`.
pub fn parse_number(all: &[char], max: u64) -> (r: Option<u64>)
    ensures
        r == number(all@, max),
{
    let n: usize = all.len();
    let start: usize = if n > 0 && all[0] == '+' {
        1
    } else {
        0
    };
    let d = &all[start..n];
    assert(d@ == without_plus(all@));
    let k: usize = d.len();
    if k == 0 {
        return None;
    }
    let mut v: u128 = 0;
    let mut big = false;
    for i in 0..k
        invariant
            k == d@.len(),
            d@ == without_plus(all@),
            d@.len() > 0,
            forall|j: int| 0 <= j < i ==> is_digit(#[trigger] d@[j]),
            !big ==> v == digits_value(d@.take(i as int)) && v <= max,
            big ==> digits_value(d@.take(i as int)) > max,
    {
        let c = d[i];
        assert(d@.take(i + 1).drop_last() == d@.take(i as int));
        assert(d@.take(i + 1).last() == c);
        if !(c >= '0' && c <= '9') {
            assert(!is_digit(d@[i as int]));
            return None;
        }
        if !big {
            v = v * 10 + (c as u128 - '0' as u128);
            if v > max as u128 {
                big = true;
            }
        }
    }
    assert(d@.take(k as int) == d@);
    if big {
        None
    } else {
        Some(v as u64)
    }
}

/// A number's digits have its value.
pub proof fn lemma_decimal(n: nat)
    ensures
        decimal(n).len() > 0,
        all_digits(decimal(n)),
        digits_value(decimal(n)) == n,
    decreases n,
{
    let t = decimal(n);
    if n < 10 {
        assert(t == seq![digit_char(n)]);
        assert(t.drop_last() == Seq::<char>::empty());
        assert(digits_value(t.drop_last()) == 0);
    } else {
        lemma_decimal(n / 10);
        let h = decimal(n / 10);
        assert(t == h.push(digit_char(n % 10)));
        assert(t.drop_last() == h);
    }
}

/// The strings joined with `sep`.
pub fn joined(parts: &Vec<String>, sep: &str) -> (r: String)
    ensures
        r@ == join(texts(parts@), sep@),
{
    let mut out = String::new();
    let n: usize = parts.len();
    for i in 0..n
        invariant
            n == parts.len(),
            out@ == join(texts(parts@).take(i as int), sep@),
    {
        proof {
            let t = texts(parts@).take(i + 1);
            assert(t.drop_last() == texts(parts@).take(i as int));
            assert(t.last() == parts@[i as int]@);
        }
        if i > 0 {
            out.push_str(sep);
        } else {
            assert(texts(parts@).take(0) == Seq::<Seq<char>>::empty());
        }
        let ghost before = out@;
        out.push_str(parts[i].as_str());
        if i == 0 {
            assert(before + parts@[0]@ == parts@[0]@);
        }
    }
    assert(texts(parts@).take(n as int) == texts(parts@));
    out
}

/// Encoding distributes over concatenation.
pub proof fn lemma_encode_concat(a: Seq<char>, b: Seq<char>)
    ensures
        encode_utf8(a + b) == encode_utf8(a) + encode_utf8(b),
    decreases a.len(),
{
    if a.len() == 0 {
        assert(a + b == b);
    } else {
        assert((a + b).drop_first() == a.drop_first() + b);
        lemma_encode_concat(a.drop_first(), b);
    }
}

/// The end of a prefix's encoding is a character boundary.
proof fn lemma_encode_boundary(a: Seq<char>, b: Seq<char>)
    ensures
        is_char_boundary(encode_utf8(a + b), encode_utf8(a).len() as int),
    decreases a.len(),
{
    let s = a + b;
    encode_utf8_valid_utf8(s);
    if a.len() == 0 {
        is_char_boundary_start_end_of_seq(encode_utf8(s));
    } else {
        assert(s.drop_first() == a.drop_first() + b);
        lemma_encode_concat(a, b);
        encode_utf8_first_scalar(s);
        assert(s[0] == a[0]);
        lemma_encode_boundary(a.drop_first(), b);
        let w = encode_scalar(s[0] as u32);
        assert(encode_utf8(s) == w + encode_utf8(s.drop_first()));
        assert(pop_first_scalar(encode_utf8(s)) == encode_utf8(s.drop_first()));
    }
}

/// Texts with the same encoding are the same.
pub proof fn lemma_encode_injective(a: Seq<char>, b: Seq<char>)
    requires
        encode_utf8(a) == encode_utf8(b),
    ensures
        a == b,
{
    encode_utf8_decode_utf8(a);
    encode_utf8_decode_utf8(b);
}

/// The middle part of a string, by byte offsets.
pub(crate) fn middle<'a>(
    s: &'a str,
    start: usize,
    end: usize,
    Ghost(a): Ghost<Seq<char>>,
    Ghost(m): Ghost<Seq<char>>,
    Ghost(z): Ghost<Seq<char>>,
) -> (r: &'a str)
    requires
        s@ == a + m + z,
        start == encode_utf8(a).len(),
        end == encode_utf8(a + m).len(),
    ensures
        r@ == m,
{
    proof {
        lemma_encode_boundary(a + m, z);
        lemma_encode_concat(a + m, z);
        lemma_encode_boundary(a, m);
        lemma_encode_concat(a, m);
    }
    let head = s.split_at(end).0;
    assert(encode_utf8(head@) == encode_utf8(a + m));
    proof {
        lemma_encode_injective(head@, a + m);
    }
    let r = head.split_at(start).1;
    assert(encode_utf8(r@) == encode_utf8(m));
    proof {
        lemma_encode_injective(r@, m);
    }
    r
}

/// A number is read from its decimal digits, with or without a plus sign in
/// front, where it is no more than it may be; and from nothing that has
/// another character in it.
pub proof fn law_number(n: nat, max: u64, s: Seq<char>, i: int)
    ensures
        number(decimal(n), max) == (if n <= max {
            Some(n as u64)
        } else {
            None
        }),
        number("+"@ + decimal(n), max) == number(decimal(n), max),
        0 <= i < s.len() && !('0' <= s[i] <= '9') && !(i == 0 && s[i] == '+') ==> number(s, max)
            is None,
        number(seq![], max) is None,
{
    reveal_strlit("+");
    lemma_decimal(n);
    let t = decimal(n);
    assert(is_digit(t[0]));
    assert(without_plus(t) == t);
    let u = "+"@ + t;
    assert(u[0] == '+');
    assert(without_plus(u) =~= t);
    if 0 <= i < s.len() && !('0' <= s[i] <= '9') && !(i == 0 && s[i] == '+') {
        let d = without_plus(s);
        let k = if s[0] == '+' {
            i - 1
        } else {
            i
        };
        assert(d[k] == s[i]);
        assert(!all_digits(d)) by {
            if all_digits(d) {
                assert(is_digit(d[k]));
            }
        }
    }
}

/// Decimal digits stand for the number and have no zero in front.
pub proof fn law_decimal(n: nat)
    ensures
        digits_value(decimal(n)) == n,
        decimal(n)[0] == '0' ==> n == 0 && decimal(n).len() == 1,
    decreases n,
{
    lemma_decimal(n);
    if n >= 10 {
        law_decimal(n / 10);
        assert(decimal(n)[0] == decimal(n / 10)[0]);
    }
}

} // verus!
