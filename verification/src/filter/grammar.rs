//! The grammar of rule lines, stated character by character.
use vstd::prelude::*;

use crate::filter::parse::{adblock_result, cosmetic, hosts_address, label_bounds, label_char};
use crate::filter::parse::{domain_of, line_result, local_name, name_rules, normalized};
use crate::filter::parse::LOCALHOST_NAMES;
use crate::filter::parse::{pattern_of, strip_caret, valid_domain, valid_label, valid_wildcard};
use crate::filter::{IssueReason, ListV, PatternV, RuleAction};
use crate::ip::{double_colon, group, groups, literal, octet, v4_literal, Ip};
use crate::text::{contains_text, find_from, is_alnum, is_white, lemma_find_from, lemma_find_from_is};
use crate::text::{lower, lower_char, occurs_at, split, starts_with, trim, trim_end, trim_start, word_len, words};

verus! {

/// A stretch of a text from one dot, or the start, to the next, or the end.
pub open spec fn between_dots(s: Seq<char>, a: int, b: int) -> bool {
    &&& 0 <= a <= b <= s.len()
    &&& a == 0 || s[a - 1] == '.'
    &&& b == s.len() || s[b] == '.'
    &&& forall|i: int| a <= i < b ==> s[i] != '.'
}

/// A host name in lower case: 1 to 253 letters, digits, hyphens, underscores
/// and dots, and between dots 1 to 63 characters without a hyphen at either
/// end.
pub open spec fn hostname(s: Seq<char>) -> bool {
    &&& 1 <= s.len() <= 253
    &&& forall|i: int|
        0 <= i < s.len() ==> 'a' <= #[trigger] s[i] <= 'z' || '0' <= s[i] <= '9' || s[i] == '-'
            || s[i] == '_' || s[i] == '.'
    &&& forall|a: int, b: int| #[trigger]
        between_dots(s, a, b) ==> 1 <= b - a <= 63 && s[a] != '-' && s[b - 1] != '-'
}

/// A name in lower case with stars in it: at least one letter or digit, and
/// between dots a star or what a host name has there.
pub open spec fn starred(s: Seq<char>) -> bool {
    &&& 1 <= s.len() <= 253
    &&& forall|i: int|
        0 <= i < s.len() ==> 'a' <= #[trigger] s[i] <= 'z' || '0' <= s[i] <= '9' || s[i] == '-'
            || s[i] == '_' || s[i] == '.' || s[i] == '*'
    &&& exists|i: int|
        0 <= i < s.len() && ('a' <= #[trigger] s[i] <= 'z' || '0' <= s[i] <= '9')
    &&& forall|a: int, b: int| #[trigger]
        between_dots(s, a, b) ==> (exists|i: int| a <= i < b && #[trigger] s[i] == '*') || (1 <= b
            - a <= 63 && s[a] != '-' && s[b - 1] != '-')
}

/// `t` spells `n`: capitals for small letters, and perhaps one dot more at
/// the end.
pub open spec fn spells(t: Seq<char>, n: Seq<char>) -> bool {
    &&& t.len() == n.len() && (n.len() == 0 || n.last() != '.') || t.len() == n.len() + 1
        && t.last() == '.'
    &&& forall|i: int|
        0 <= i < n.len() ==> if 'A' <= #[trigger] t[i] <= 'Z' {
            n[i] as int == t[i] as int + 32
        } else {
            n[i] == t[i]
        }
}

/// Where a piece of a split text stands.
proof fn lemma_piece_at(s: Seq<char>, i: int) -> (r: (int, int))
    requires
        0 <= i < split(s, '.').len(),
    ensures
        between_dots(s, r.0, r.1),
        split(s, '.')[i] == s.subrange(r.0, r.1),
    decreases s.len(),
{
    let k = find_from(s, '.', 0);
    lemma_find_from(s, '.', 0);
    if k < s.len() {
        if i == 0 {
            assert(s.take(k) =~= s.subrange(0, k));
            (0, k)
        } else {
            let t = s.skip(k + 1);
            let r = lemma_piece_at(t, i - 1);
            assert(split(s, '.')[i] == split(t, '.')[i - 1]);
            assert(t.subrange(r.0, r.1) =~= s.subrange(r.0 + k + 1, r.1 + k + 1));
            assert forall|j: int| r.0 + k + 1 <= j < r.1 + k + 1 implies s[j] != '.' by {
                assert(t[j - k - 1] != '.');
            }
            (r.0 + k + 1, r.1 + k + 1)
        }
    } else {
        assert(s =~= s.subrange(0, s.len() as int));
        (0, s.len() as int)
    }
}

/// Every stretch between dots is a piece of the split text.
proof fn lemma_piece_of(s: Seq<char>, a: int, b: int) -> (i: int)
    requires
        between_dots(s, a, b),
    ensures
        0 <= i < split(s, '.').len(),
        split(s, '.')[i] == s.subrange(a, b),
    decreases s.len(),
{
    let k = find_from(s, '.', 0);
    lemma_find_from(s, '.', 0);
    if k < s.len() {
        if a == 0 {
            assert(b == k) by {
                if b < k && b < s.len() {
                    assert(s[b] != '.');
                }
            }
            assert(s.take(k) =~= s.subrange(0, k));
            0
        } else {
            assert(a - 1 >= k);
            let t = s.skip(k + 1);
            assert forall|j: int| a - k - 1 <= j < b - k - 1 implies t[j] != '.' by {
                assert(s[j + k + 1] != '.');
            }
            assert(a - k - 1 > 0 ==> t[a - k - 2] == s[a - 1]);
            let i = lemma_piece_of(t, a - k - 1, b - k - 1);
            assert(t.subrange(a - k - 1, b - k - 1) =~= s.subrange(a, b));
            i + 1
        }
    } else {
        assert(a == 0 && b == s.len());
        assert(s =~= s.subrange(0, s.len() as int));
        0
    }
}

/// The names that rules may hold are the host names, no fewer and no more.
pub proof fn law_domains_are_hostnames(s: Seq<char>)
    ensures
        valid_domain(s) == hostname(s),
{
    let p = split(s, '.');
    if valid_domain(s) {
        assert forall|a: int, b: int| #[trigger] between_dots(s, a, b) implies 1 <= b - a <= 63
            && s[a] != '-' && s[b - 1] != '-' by {
            let i = lemma_piece_of(s, a, b);
            assert(valid_label(p[i]));
        }
        assert forall|i: int| 0 <= i < s.len() && #[trigger] s[i] != '.' implies label_char(
            s[i],
        ) by {
            let (a, b) = lemma_stretch_around(s, i);
            let k = lemma_piece_of(s, a, b);
            assert(valid_label(p[k]));
            assert(p[k][i - a] == s[i]);
        }
    }
    if hostname(s) {
        assert forall|i: int| 0 <= i < p.len() implies valid_label(#[trigger] p[i]) by {
            let (a, b) = lemma_piece_at(s, i);
            assert forall|j: int| 0 <= j < p[i].len() implies label_char(#[trigger] p[i][j]) by {
                assert(p[i][j] == s[a + j]);
            }
            assert(p[i].last() == s[b - 1]);
        }
    }
}

/// The stretch that a character stands in.
proof fn lemma_stretch_around(s: Seq<char>, i: int) -> (r: (int, int))
    requires
        0 <= i < s.len(),
        s[i] != '.',
    ensures
        between_dots(s, r.0, r.1),
        r.0 <= i < r.1,
{
    (lemma_stretch_start(s, i), lemma_stretch_end(s, i))
}

proof fn lemma_stretch_start(s: Seq<char>, i: int) -> (a: int)
    requires
        0 <= i < s.len(),
        s[i] != '.',
    ensures
        0 <= a <= i,
        a == 0 || s[a - 1] == '.',
        forall|j: int| a <= j <= i ==> s[j] != '.',
    decreases i,
{
    if i == 0 || s[i - 1] == '.' {
        i
    } else {
        lemma_stretch_start(s, i - 1)
    }
}

proof fn lemma_stretch_end(s: Seq<char>, i: int) -> (b: int)
    requires
        0 <= i < s.len(),
        s[i] != '.',
    ensures
        i < b <= s.len(),
        b == s.len() || s[b] == '.',
        forall|j: int| i <= j < b ==> s[j] != '.',
    decreases s.len() - i,
{
    if i + 1 == s.len() || s[i + 1] == '.' {
        i + 1
    } else {
        lemma_stretch_end(s, i + 1)
    }
}

/// The expressions that wildcard rules may hold are the starred names, no
/// fewer and no more.
pub proof fn law_wildcards_are_starred(s: Seq<char>)
    ensures
        valid_wildcard(s) == starred(s),
{
    let p = split(s, '.');
    if valid_wildcard(s) {
        let w = choose|i: int| 0 <= i < s.len() && is_alnum(#[trigger] s[i]);
        assert(label_char(s[w]) || s[w] == '.' || s[w] == '*');
        assert('a' <= s[w] <= 'z' || '0' <= s[w] <= '9');
        assert forall|a: int, b: int| #[trigger] between_dots(s, a, b) implies (exists|i: int|
            a <= i < b && #[trigger] s[i] == '*') || (1 <= b - a <= 63 && s[a] != '-' && s[b - 1]
            != '-') by {
            let i = lemma_piece_of(s, a, b);
            if p[i].contains('*') {
                let j = choose|j: int| 0 <= j < p[i].len() && p[i][j] == '*';
                assert(s[a + j] == '*');
            } else {
                assert(label_bounds(p[i]));
            }
        }
    }
    if starred(s) {
        let w = choose|i: int|
            0 <= i < s.len() && ('a' <= #[trigger] s[i] <= 'z' || '0' <= s[i] <= '9');
        assert(is_alnum(s[w]));
        assert forall|i: int| 0 <= i < p.len() implies (#[trigger] p[i]).contains('*')
            || label_bounds(p[i]) by {
            let (a, b) = lemma_piece_at(s, i);
            if exists|j: int| a <= j < b && #[trigger] s[j] == '*' {
                let j = choose|j: int| a <= j < b && #[trigger] s[j] == '*';
                assert(p[i][j - a] == '*');
            } else {
                assert(p[i].last() == s[b - 1]);
            }
        }
    }
}

/// What a text spells is its normal form.
pub(crate) proof fn lemma_spells(t: Seq<char>, n: Seq<char>)
    requires
        spells(t, n),
    ensures
        normalized(t) == n,
{
    let l = lower(t);
    assert forall|i: int| 0 <= i < n.len() implies #[trigger] l[i] == n[i] by {
        let c = t[i];
        if 'A' <= c <= 'Z' {
            assert(l[i] as int == c as int + 32);
        }
    }
    if t.len() == n.len() {
        assert(l =~= n);
    } else {
        assert(lower_char('.') == '.');
        assert(l.drop_last() =~= n);
    }
}

/// Nothing that starts otherwise than an address does is an address.
proof fn lemma_no_octet(s: Seq<char>)
    requires
        s.len() > 0,
        s[0] == '|' || s[0] == '@',
    ensures
        octet(s) is None,
        group(s) is None,
        v4_literal(s) is None,
{
    assert(lower_char(s[0]) == s[0]);
    lemma_find_from(s, '.', 0);
    let p = split(s, '.')[0];
    assert(p.len() > 0 && p[0] == s[0]);
    assert(octet(p) is None);
}

proof fn lemma_no_groups(p: Seq<Seq<char>>, quad_last: bool)
    requires
        p.len() > 0,
        p[0].len() > 0,
        p[0][0] == '|' || p[0][0] == '@',
    ensures
        groups(p, quad_last) is None,
    decreases p.len(),
{
    if p.len() == 1 {
        lemma_no_octet(p[0]);
    } else {
        lemma_no_groups(p.drop_last(), false);
    }
}

proof fn lemma_double_colon_at(s: Seq<char>, from: int)
    requires
        0 <= from <= s.len(),
    ensures
        from <= double_colon(s, from) <= s.len(),
        double_colon(s, from) < s.len() ==> s[double_colon(s, from)] == ':',
    decreases s.len() - from,
{
    if from + 1 < s.len() && !(s[from] == ':' && s[from + 1] == ':') {
        lemma_double_colon_at(s, from + 1);
    }
}

proof fn lemma_no_literal(s: Seq<char>)
    requires
        s.len() > 0,
        s[0] == '|' || s[0] == '@',
    ensures
        literal(s) is None,
{
    lemma_no_octet(s);
    lemma_double_colon_at(s, 0);
    let k = double_colon(s, 0);
    let head = if k >= s.len() {
        s
    } else {
        s.take(k)
    };
    assert(head.len() > 0 && head[0] == s[0]);
    lemma_find_from(head, ':', 0);
    let p = split(head, ':');
    assert(p[0].len() > 0 && p[0][0] == s[0]);
    lemma_no_groups(p, k >= s.len());
    lemma_no_groups(p, false);
}

/// A text without white space is one word, and stays as it is when trimmed.
proof fn lemma_one_word(s: Seq<char>)
    requires
        s.len() > 0,
        forall|i: int| 0 <= i < s.len() ==> !is_white(#[trigger] s[i]),
    ensures
        trim(s) == s,
        words(s) == seq![s],
{
    assert(trim_start(s) == s);
    assert(!is_white(s.last()));
    lemma_word_len(s);
    assert(s.take(s.len() as int) =~= s);
    assert(s.skip(s.len() as int) =~= Seq::<char>::empty());
    assert(words(Seq::<char>::empty()) =~= Seq::<Seq<char>>::empty());
    assert(seq![s] + Seq::<Seq<char>>::empty() =~= seq![s]);
}

proof fn lemma_word_len(s: Seq<char>)
    requires
        forall|i: int| 0 <= i < s.len() ==> !is_white(#[trigger] s[i]),
    ensures
        word_len(s) == s.len(),
    decreases s.len(),
{
    if s.len() > 0 {
        let t = s.drop_first();
        assert forall|i: int| 0 <= i < t.len() implies !is_white(#[trigger] t[i]) by {
            assert(t[i] == s[i + 1]);
        }
        lemma_word_len(t);
    }
}

/// A rule line: `[@@][||]name[^]`.
pub open spec fn written(except: bool, subtree: bool, caret: bool, t: Seq<char>) -> Seq<char> {
    (if except {
        seq!['@', '@']
    } else {
        seq![]
    }) + (if subtree {
        seq!['|', '|']
    } else {
        seq![]
    }) + t + (if caret {
        seq!['^']
    } else {
        seq![]
    })
}

/// A text that could be a rule's name: no white space, and none of the
/// characters that mean something else in a list.
pub open spec fn nameable(t: Seq<char>) -> bool {
    &&& t.len() > 0
    &&& forall|i: int|
        0 <= i < t.len() ==> !is_white(#[trigger] t[i]) && t[i] != '#' && t[i] != '$' && t[i] != '^'
            && t[i] != '|' && t[i] != '@'
}

/// A text that a rule's prefix can stand before.
spec fn prefixable(t: Seq<char>) -> bool {
    &&& t.len() > 0
    &&& t[0] != '|' && t[0] != '@'
    &&& forall|i: int|
        0 <= i < t.len() ==> !is_white(#[trigger] t[i]) && t[i] != '#' && t[i] != '$'
}

proof fn lemma_written_chars(except: bool, subtree: bool, caret: bool, t: Seq<char>)
    requires
        prefixable(t),
    ensures
        ({
            let l = written(except, subtree, caret, t);
            &&& l.len() >= t.len()
            &&& l[0] == if except {
                '@'
            } else if subtree {
                '|'
            } else {
                t[0]
            }
            &&& forall|i: int|
                0 <= i < l.len() ==> !is_white(#[trigger] l[i]) && l[i] != '#' && l[i] != '$'
        }),
{
    let l = written(except, subtree, caret, t);
    let k = (if except {
        2int
    } else {
        0
    }) + (if subtree {
        2int
    } else {
        0
    });
    assert forall|i: int| 0 <= i < l.len() implies !is_white(#[trigger] l[i]) && l[i] != '#' && l[i]
        != '$' by {
        if k <= i < k + t.len() {
            assert(l[i] == t[i - k]);
        }
    }
    if k == 0 {
        assert(l[0] == t[0]);
    }
}

/// The parts that a rule line is taken apart into.
proof fn lemma_written_parts(except: bool, subtree: bool, caret: bool, t: Seq<char>)
    requires
        prefixable(t),
    ensures
        ({
            let l = written(except, subtree, caret, t);
            let body = if except {
                l.skip(2)
            } else {
                l
            };
            let tail = if subtree {
                body.skip(2)
            } else {
                body
            };
            &&& starts_with(l, "@@"@) == except
            &&& starts_with(body, "||"@) == subtree
            &&& strip_caret(tail) == if caret {
                t
            } else {
                strip_caret(t)
            }
        }),
{
    reveal_strlit("@@");
    reveal_strlit("||");
    let l = written(except, subtree, caret, t);
    let body = written(false, subtree, caret, t);
    let tail = written(false, false, caret, t);
    if except {
        assert(l.take(2) =~= "@@"@);
        assert(l.skip(2) =~= body);
    } else {
        lemma_written_chars(except, subtree, caret, t);
        if starts_with(l, "@@"@) {
            assert(l.take(2)[0] == '@');
        }
    }
    if subtree {
        assert(body.take(2) =~= "||"@);
        assert(body.skip(2) =~= tail);
    } else {
        lemma_written_chars(false, false, caret, t);
        if starts_with(body, "||"@) {
            assert(body.take(2)[0] == '|');
        }
    }
    if caret {
        assert(tail.drop_last() =~= t);
    } else {
        assert(tail =~= t);
    }
}

/// A line that is one word, and neither a comment, an address, a cosmetic
/// rule nor one with a modifier.
proof fn lemma_plain_line(l: Seq<char>, no: u32)
    requires
        l.len() > 0,
        l[0] != '!' && l[0] != '/',
        forall|i: int| 0 <= i < l.len() ==> !is_white(#[trigger] l[i]) && l[i] != '#' && l[i] != '$',
        literal(split(l, '%')[0]) is None,
    ensures
        line_result(l, no) == adblock_result(l, no),
{
    lemma_one_word(l);
    assert forall|p: Seq<char>, i: int| p.len() > 0 && p[0] == '#' implies !#[trigger] occurs_at(
        l,
        p,
        i,
    ) by {
        if occurs_at(l, p, i) {
            assert(l.subrange(i, i + p.len())[0] == l[i]);
        }
    }
    reveal_strlit("##");
    reveal_strlit("#@#");
    reveal_strlit("#?#");
    reveal_strlit("#$#");
    reveal_strlit("#%#");
    assert(!cosmetic(l));
    assert(!l.contains('$'));
    assert(hosts_address(l) is None);
}

/// A rule line means what it says, for every name: `||` blocks the name and
/// all below it, its absence the name alone; `@@` makes it an exception; a
/// closing `^` changes nothing. The rule holds the name in lower case and
/// without a closing dot, the line's text and its number. What is no host
/// name, and with stars no starred name, gives no rule but an issue.
pub proof fn law_rule_line(
    except: bool,
    subtree: bool,
    caret: bool,
    t: Seq<char>,
    n: Seq<char>,
    no: u32,
)
    requires
        nameable(t),
        spells(t, n),
        !except && !subtree ==> {
            &&& t[0] != '!' && t[0] != '/'
            &&& literal(split(written(except, subtree, caret, t), '%')[0]) is None
        },
    ensures
        ({
            let l = written(except, subtree, caret, t);
            let r = line_result(l, no);
            let star = exists|i: int| 0 <= i < t.len() && #[trigger] t[i] == '*';
            if star && starred(n) || !star && hostname(n) {
                &&& r.issues.len() == 0 && r.rules.len() == 1
                &&& r.rules[0].action == if except {
                    RuleAction::Except
                } else {
                    RuleAction::Block
                }
                &&& r.rules[0].pattern == if star {
                    PatternV::Wildcard { expr: n, include_subdomains: subtree }
                } else if subtree {
                    PatternV::Subtree(n)
                } else {
                    PatternV::Exact(n)
                }
                &&& r.rules[0].text == l && r.rules[0].line == no
            } else {
                &&& r.rules.len() == 0 && r.issues.len() == 1
                &&& r.issues[0].reason == IssueReason::InvalidDomain
                &&& r.issues[0].text == l && r.issues[0].line == no
            }
        }),
{
    let l = written(except, subtree, caret, t);
    let star = exists|i: int| 0 <= i < t.len() && #[trigger] t[i] == '*';
    lemma_written_chars(except, subtree, caret, t);
    lemma_find_from(l, '%', 0);
    if except || subtree {
        let first = split(l, '%')[0];
        assert(first.len() > 0 && first[0] == l[0]);
        lemma_no_literal(first);
    }
    lemma_plain_line(l, no);
    lemma_written_parts(except, subtree, caret, t);
    assert(!t.contains('^'));
    assert(strip_caret(t) == t);
    assert(t.contains('*') == star);
    lemma_spells(t, n);
    law_domains_are_hostnames(n);
    law_wildcards_are_starred(n);
    assert(pattern_of(t, subtree) is Some == (star && starred(n) || !star && hostname(n)));
}

proof fn lemma_trim_pad(pre: Seq<char>, l: Seq<char>, post: Seq<char>)
    requires
        l.len() > 0,
        !is_white(l[0]) && !is_white(l.last()),
        forall|i: int| 0 <= i < pre.len() ==> is_white(#[trigger] pre[i]),
        forall|i: int| 0 <= i < post.len() ==> is_white(#[trigger] post[i]),
    ensures
        trim(pre + l + post) == l,
    decreases pre.len() + post.len(),
{
    let s = pre + l + post;
    if pre.len() > 0 {
        let q = pre.drop_first();
        assert(s[0] == pre[0]);
        assert(s.drop_first() =~= q + l + post);
        assert forall|i: int| 0 <= i < q.len() implies is_white(#[trigger] q[i]) by {
            assert(q[i] == pre[i + 1]);
        }
        lemma_trim_pad(q, l, post);
    } else {
        assert(s[0] == l[0]);
        assert(trim_start(s) == s);
        if post.len() > 0 {
            let q = post.drop_last();
            assert(s.last() == post.last());
            assert(s.drop_last() =~= pre + l + q);
            lemma_trim_pad(pre, l, q);
            assert((pre + l + q)[0] == l[0]);
            assert(trim_start(pre + l + q) == pre + l + q);
        } else {
            assert(s =~= l);
        }
    }
}

/// White space around a line makes no difference.
pub proof fn law_padding(pre: Seq<char>, l: Seq<char>, post: Seq<char>, no: u32)
    requires
        l.len() > 0,
        !is_white(l[0]) && !is_white(l.last()),
        forall|i: int| 0 <= i < pre.len() ==> is_white(#[trigger] pre[i]),
        forall|i: int| 0 <= i < post.len() ==> is_white(#[trigger] post[i]),
    ensures
        line_result(pre + l + post, no) == line_result(l, no),
{
    lemma_trim_pad(pre, l, post);
    lemma_trim_pad(seq![], l, seq![]);
    assert(seq![] + l + seq![] =~= l);
}

proof fn lemma_all_white(s: Seq<char>)
    requires
        forall|i: int| 0 <= i < s.len() ==> is_white(#[trigger] s[i]),
    ensures
        trim(s).len() == 0,
    decreases s.len(),
{
    if s.len() > 0 {
        let t = s.drop_first();
        assert forall|i: int| 0 <= i < t.len() implies is_white(#[trigger] t[i]) by {
            assert(t[i] == s[i + 1]);
        }
        lemma_all_white(t);
    }
}

/// A blank line gives nothing.
pub proof fn law_blank_line(s: Seq<char>, no: u32)
    requires
        forall|i: int| 0 <= i < s.len() ==> is_white(#[trigger] s[i]),
    ensures
        line_result(s, no).rules.len() == 0 && line_result(s, no).issues.len() == 0,
{
    lemma_all_white(s);
}

/// A line that starts with `!` is a comment. So is one that starts with `#`,
/// unless it is a cosmetic rule without a domain: `##` and then neither `#`
/// nor white space, or `#@#`, `#?#`, `#$#`, `#%#`.
pub proof fn law_comment_line(l: Seq<char>, no: u32)
    requires
        l.len() > 0,
        l[0] == '!' || l[0] == '#',
        !is_white(l.last()),
    ensures
        ({
            let r = line_result(l, no);
            let rule = l[0] == '#' && l.len() > 2 && (l[1] == '#' && l[2] != '#' && !is_white(l[2])
                || l[2] == '#' && (l[1] == '@' || l[1] == '?' || l[1] == '$' || l[1] == '%'));
            &&& r.rules.len() == 0
            &&& if rule {
                r.issues.len() == 1 && r.issues[0].reason == IssueReason::CosmeticRule
                    && r.issues[0].text == l && r.issues[0].line == no
            } else {
                r.issues.len() == 0
            }
        }),
{
    reveal_strlit("#@#");
    reveal_strlit("#?#");
    reveal_strlit("#$#");
    reveal_strlit("#%#");
    assert(!is_white('!') && !is_white('#'));
    lemma_trim_pad(seq![], l, seq![]);
    assert(seq![] + l + seq![] =~= l);
    lemma_three(l, "#@#"@);
    lemma_three(l, "#?#"@);
    lemma_three(l, "#$#"@);
    lemma_three(l, "#%#"@);
}

proof fn lemma_three(l: Seq<char>, p: Seq<char>)
    requires
        p.len() == 3,
    ensures
        starts_with(l, p) == (l.len() > 2 && l[0] == p[0] && l[1] == p[1] && l[2] == p[2]),
{
    if starts_with(l, p) {
        assert(l.take(3)[0] == p[0] && l.take(3)[1] == p[1] && l.take(3)[2] == p[2]);
    }
    if l.len() > 2 && l[0] == p[0] && l[1] == p[1] && l[2] == p[2] {
        assert(l.take(3) =~= p);
    }
}

/// A cosmetic mark stands at a position: `##`, `#@#`, `#?#`, `#$#` or `#%#`.
pub open spec fn cosmetic_at(l: Seq<char>, i: int) -> bool {
    &&& 0 <= i && i + 1 < l.len()
    &&& l[i] == '#'
    &&& l[i + 1] == '#' || (i + 2 < l.len() && l[i + 2] == '#' && (l[i + 1] == '@' || l[i + 1]
        == '?' || l[i + 1] == '$' || l[i + 1] == '%'))
}

proof fn lemma_occurs_three(l: Seq<char>, p: Seq<char>, i: int)
    requires
        p.len() == 3,
    ensures
        occurs_at(l, p, i) == (0 <= i && i + 2 < l.len() && l[i] == p[0] && l[i + 1] == p[1] && l[i
            + 2] == p[2]),
{
    if 0 <= i && i + 2 < l.len() {
        let s = l.subrange(i, i + 3);
        assert(s[0] == l[i] && s[1] == l[i + 1] && s[2] == l[i + 2]);
        if l[i] == p[0] && l[i + 1] == p[1] && l[i + 2] == p[2] {
            assert(s =~= p);
        }
    }
}

proof fn lemma_contains_three(l: Seq<char>, p: Seq<char>, c: char)
    requires
        p == seq!['#', c, '#'],
    ensures
        contains_text(l, p) == exists|i: int|
            0 <= i && i + 2 < l.len() && #[trigger] l[i] == '#' && l[i + 1] == c && l[i + 2] == '#',
{
    assert forall|i: int| #[trigger] occurs_at(l, p, i) == (0 <= i && i + 2 < l.len() && l[i] == '#'
        && l[i + 1] == c && l[i + 2] == '#') by {
        lemma_occurs_three(l, p, i);
    }
    if exists|i: int|
        0 <= i && i + 2 < l.len() && #[trigger] l[i] == '#' && l[i + 1] == c && l[i + 2] == '#' {
        let i = choose|i: int|
            0 <= i && i + 2 < l.len() && #[trigger] l[i] == '#' && l[i + 1] == c && l[i + 2] == '#';
        assert(occurs_at(l, p, i));
    }
}

proof fn lemma_contains_two(l: Seq<char>)
    ensures
        contains_text(l, "##"@) == exists|i: int|
            0 <= i && i + 1 < l.len() && #[trigger] l[i] == '#' && l[i + 1] == '#',
{
    reveal_strlit("##");
    let p = "##"@;
    assert forall|i: int| #[trigger] occurs_at(l, p, i) == (0 <= i && i + 1 < l.len() && l[i] == '#'
        && l[i + 1] == '#') by {
        if 0 <= i && i + 1 < l.len() {
            let s = l.subrange(i, i + 2);
            assert(s[0] == l[i] && s[1] == l[i + 1]);
            if l[i] == '#' && l[i + 1] == '#' {
                assert(s =~= p);
            }
        }
    }
    if exists|i: int| 0 <= i && i + 1 < l.len() && #[trigger] l[i] == '#' && l[i + 1] == '#' {
        let i = choose|i: int|
            0 <= i && i + 1 < l.len() && #[trigger] l[i] == '#' && l[i + 1] == '#';
        assert(occurs_at(l, p, i));
    }
}

proof fn lemma_cosmetic(l: Seq<char>)
    ensures
        cosmetic(l) == exists|i: int| cosmetic_at(l, i),
{
    reveal_strlit("#@#");
    reveal_strlit("#?#");
    reveal_strlit("#$#");
    reveal_strlit("#%#");
    assert("#@#"@ =~= seq!['#', '@', '#'] && "#?#"@ =~= seq!['#', '?', '#'] && "#$#"@ =~= seq![
        '#',
        '$',
        '#',
    ] && "#%#"@ =~= seq!['#', '%', '#']);
    lemma_contains_two(l);
    lemma_contains_three(l, "#@#"@, '@');
    lemma_contains_three(l, "#?#"@, '?');
    lemma_contains_three(l, "#$#"@, '$');
    lemma_contains_three(l, "#%#"@, '%');
    if cosmetic(l) {
        let i = if contains_text(l, "##"@) {
            choose|i: int| 0 <= i && i + 1 < l.len() && #[trigger] l[i] == '#' && l[i + 1] == '#'
        } else {
            choose|i: int|
                0 <= i && i + 2 < l.len() && #[trigger] l[i] == '#' && l[i + 2] == '#' && (l[i + 1]
                    == '@' || l[i + 1] == '?' || l[i + 1] == '$' || l[i + 1] == '%')
        };
        assert(cosmetic_at(l, i));
    }
    if exists|i: int| cosmetic_at(l, i) {
        let i = choose|i: int| cosmetic_at(l, i);
        assert(l[i] == '#');
    }
}

/// A line that gives one issue and nothing else.
pub open spec fn refused(l: Seq<char>, no: u32, reason: IssueReason) -> bool {
    let r = line_result(l, no);
    r.rules.len() == 0 && r.issues.len() == 1 && r.issues[0].reason == reason && r.issues[0].text
        == l && r.issues[0].line == no
}

/// A `^` that is not the last character of a rule is refused, and so is a `|`
/// where the name would start.
pub proof fn law_anchors_refused(
    except: bool,
    subtree: bool,
    t: Seq<char>,
    no: u32,
)
    requires
        except || subtree,
        t.len() > 1,
        forall|i: int|
            0 <= i < t.len() ==> !is_white(#[trigger] t[i]) && t[i] != '#' && t[i] != '$',
        t[0] != '|' && t[0] != '@',
        exists|i: int| 0 <= i < t.len() - 1 && #[trigger] t[i] == '^',
    ensures
        refused(written(except, subtree, false, t), no, IssueReason::UnsupportedSyntax),
{
    let l = written(except, subtree, false, t);
    lemma_written_chars(except, subtree, false, t);
    lemma_find_from(l, '%', 0);
    let first = split(l, '%')[0];
    assert(first.len() > 0 && first[0] == l[0]);
    lemma_no_literal(first);
    lemma_plain_line(l, no);
    lemma_written_parts(except, subtree, false, t);
    let i = choose|i: int| 0 <= i < t.len() - 1 && #[trigger] t[i] == '^';
    assert(strip_caret(t)[i] == '^');
    assert(strip_caret(t).contains('^'));
}

/// The names that hosts files give the machine they are on.
pub open spec fn machine_name(n: Seq<char>) -> bool {
    n == "localhost"@ || n == "localhost.localdomain"@ || n == "local"@ || n == "broadcasthost"@
        || n == "ip6-localhost"@ || n == "ip6-loopback"@ || n == "ip6-localnet"@ || n
        == "ip6-mcastprefix"@ || n == "ip6-allnodes"@ || n == "ip6-allrouters"@ || n
        == "ip6-allhosts"@
}

proof fn lemma_machine_name(t: Seq<char>, n: Seq<char>)
    requires
        spells(t, n),
    ensures
        local_name(t) == machine_name(n),
{
    lemma_spells(t, n);
    let s = LOCALHOST_NAMES@;
    assert(s[0]@ == "localhost"@ && s[1]@ == "localhost.localdomain"@ && s[2]@ == "local"@ && s[3]@
        == "broadcasthost"@ && s[4]@ == "ip6-localhost"@ && s[5]@ == "ip6-loopback"@ && s[6]@
        == "ip6-localnet"@ && s[7]@ == "ip6-mcastprefix"@ && s[8]@ == "ip6-allnodes"@ && s[9]@
        == "ip6-allrouters"@ && s[10]@ == "ip6-allhosts"@);
}

/// An address and names behind it, each name with white space before it.
pub open spec fn hosts_text(
    addr: Seq<char>,
    gaps: Seq<Seq<char>>,
    names: Seq<Seq<char>>,
) -> Seq<char>
    decreases names.len(),
{
    if names.len() == 0 {
        addr
    } else {
        hosts_text(addr, gaps.drop_last(), names.drop_last()) + gaps.last() + names.last()
    }
}

/// A word: not empty, no white space, and nothing that starts a comment.
pub open spec fn bare_word(w: Seq<char>) -> bool {
    w.len() > 0 && forall|i: int|
        0 <= i < w.len() ==> !is_white(#[trigger] w[i]) && w[i] != '#'
}

/// White space, and some of it.
pub open spec fn blank(g: Seq<char>) -> bool {
    g.len() > 0 && forall|i: int| 0 <= i < g.len() ==> is_white(#[trigger] g[i])
}

proof fn lemma_word_len_before(a: Seq<char>, g: Seq<char>, w: Seq<char>)
    requires
        blank(g),
    ensures
        word_len(a + g + w) == word_len(a),
        word_len(a) <= a.len(),
    decreases a.len(),
{
    let s = a + g + w;
    if a.len() == 0 {
        assert(s[0] == g[0]);
    } else {
        assert(s[0] == a[0]);
        assert(s.drop_first() =~= a.drop_first() + g + w);
        lemma_word_len_before(a.drop_first(), g, w);
    }
}

proof fn lemma_words_after_blank(g: Seq<char>, w: Seq<char>)
    requires
        bare_word(w),
        forall|i: int| 0 <= i < g.len() ==> is_white(#[trigger] g[i]),
    ensures
        words(g + w) == seq![w],
    decreases g.len(),
{
    let s = g + w;
    if g.len() == 0 {
        assert(s =~= w);
        lemma_one_word(w);
    } else {
        let t = g.drop_first();
        assert(s[0] == g[0]);
        assert(s.drop_first() =~= t + w);
        assert forall|i: int| 0 <= i < t.len() implies is_white(#[trigger] t[i]) by {
            assert(t[i] == g[i + 1]);
        }
        lemma_words_after_blank(t, w);
    }
}

proof fn lemma_words_push(a: Seq<char>, g: Seq<char>, w: Seq<char>)
    requires
        bare_word(w),
        blank(g),
    ensures
        words(a + g + w) == words(a).push(w),
    decreases a.len(),
{
    let s = a + g + w;
    if a.len() == 0 {
        assert(s =~= g + w);
        lemma_words_after_blank(g, w);
        assert(words(a).push(w) =~= seq![w]);
    } else if is_white(a[0]) {
        assert(s[0] == a[0]);
        assert(s.drop_first() =~= a.drop_first() + g + w);
        lemma_words_push(a.drop_first(), g, w);
    } else {
        assert(s[0] == a[0]);
        let k = word_len(a) as int;
        lemma_word_len_before(a, g, w);
        assert(s.take(k) =~= a.take(k));
        assert(s.skip(k) =~= a.skip(k) + g + w);
        lemma_words_push(a.skip(k), g, w);
        assert(seq![a.take(k)] + words(a.skip(k)).push(w) =~= (seq![a.take(k)] + words(
            a.skip(k),
        )).push(w));
    }
}

proof fn lemma_hosts_words(addr: Seq<char>, gaps: Seq<Seq<char>>, names: Seq<Seq<char>>)
    requires
        bare_word(addr),
        gaps.len() == names.len(),
        forall|i: int| 0 <= i < gaps.len() ==> blank(#[trigger] gaps[i]),
        forall|i: int| 0 <= i < names.len() ==> bare_word(#[trigger] names[i]),
    ensures
        ({
            let l = hosts_text(addr, gaps, names);
            &&& words(l) == seq![addr] + names
            &&& l.len() > 0 && l[0] == addr[0] && !is_white(l.last())
            &&& forall|i: int| 0 <= i < l.len() ==> #[trigger] l[i] != '#'
        }),
    decreases names.len(),
{
    let l = hosts_text(addr, gaps, names);
    if names.len() == 0 {
        lemma_one_word(addr);
        assert(seq![addr] + names =~= seq![addr]);
    } else {
        let t = names.drop_last();
        let u = gaps.drop_last();
        let w = names.last();
        let g = gaps.last();
        let before = hosts_text(addr, u, t);
        assert forall|i: int| 0 <= i < t.len() implies bare_word(#[trigger] t[i]) by {
            assert(t[i] == names[i]);
        }
        assert forall|i: int| 0 <= i < u.len() implies blank(#[trigger] u[i]) by {
            assert(u[i] == gaps[i]);
        }
        assert(bare_word(names[names.len() - 1]));
        assert(blank(gaps[gaps.len() - 1]));
        lemma_hosts_words(addr, u, t);
        lemma_words_push(before, g, w);
        assert((seq![addr] + t).push(w) =~= seq![addr] + names);
        assert(l[0] == before[0]);
        assert(l.last() == w.last());
        assert forall|i: int| 0 <= i < l.len() implies #[trigger] l[i] != '#' by {
            let k = before.len() as int;
            let m = k + g.len();
            if i < k {
                assert(l[i] == before[i]);
            } else if i < m {
                assert(l[i] == g[i - k]);
                assert(!is_white('#'));
            } else {
                assert(l[i] == w[i - m]);
            }
        }
    }
}

/// The rules and issues of names on a hosts line, as they are stated for the
/// names it spells.
pub open spec fn blocks_names(r: ListV, ns: Seq<Seq<char>>, l: Seq<char>, no: u32) -> bool {
    let good = ns.filter(|n: Seq<char>| !machine_name(n) && hostname(n));
    let bad = ns.filter(|n: Seq<char>| !machine_name(n) && !hostname(n));
    &&& r.rules.len() == good.len()
    &&& forall|i: int|
        0 <= i < good.len() ==> (#[trigger] r.rules[i]).action == RuleAction::Block
            && r.rules[i].pattern == PatternV::Exact(good[i]) && r.rules[i].text == l
            && r.rules[i].line == no
    &&& r.issues.len() == bad.len()
    &&& forall|i: int|
        0 <= i < bad.len() ==> (#[trigger] r.issues[i]).reason == IssueReason::InvalidDomain
            && r.issues[i].text == l && r.issues[i].line == no
}

proof fn lemma_names_blocked(ts: Seq<Seq<char>>, ns: Seq<Seq<char>>, l: Seq<char>, no: u32)
    requires
        ts.len() == ns.len(),
        forall|i: int| 0 <= i < ts.len() ==> spells(#[trigger] ts[i], ns[i]),
    ensures
        blocks_names(name_rules(ts.filter(|n: Seq<char>| !local_name(n)), l, no), ns, l, no),
        (ts.filter(|n: Seq<char>| !local_name(n)).len() == 0) == (forall|i: int|
            0 <= i < ns.len() ==> machine_name(#[trigger] ns[i])),
    decreases ts.len(),
{
    reveal(Seq::filter);
    let keep = |n: Seq<char>| !local_name(n);
    if ts.len() > 0 {
        let (a, b) = (ts.drop_last(), ns.drop_last());
        let (t, n) = (ts.last(), ns.last());
        assert forall|i: int| 0 <= i < a.len() implies spells(#[trigger] a[i], b[i]) by {
            assert(a[i] == ts[i] && b[i] == ns[i]);
        }
        assert(spells(ts[ts.len() - 1], ns[ts.len() - 1]));
        lemma_names_blocked(a, b, l, no);
        lemma_machine_name(t, n);
        lemma_spells(t, n);
        law_domains_are_hostnames(n);
        let before = a.filter(keep);
        let all = ts.filter(keep);
        if local_name(t) {
            assert(all == before);
        } else {
            assert(all == before.push(t));
            assert(all.drop_last() =~= before);
            assert(all.last() == t);
            assert(domain_of(t) is Some == hostname(n));
        }
        assert((forall|i: int| 0 <= i < ns.len() ==> machine_name(#[trigger] ns[i])) == ((forall|
            i: int,
        |
            0 <= i < b.len() ==> machine_name(#[trigger] b[i])) && machine_name(n))) by {
            if (forall|i: int| 0 <= i < b.len() ==> machine_name(#[trigger] b[i])) && machine_name(
                n,
            ) {
                assert forall|i: int| 0 <= i < ns.len() implies machine_name(#[trigger] ns[i]) by {
                    if i < b.len() {
                        assert(b[i] == ns[i]);
                    }
                }
            }
            if forall|i: int| 0 <= i < ns.len() ==> machine_name(#[trigger] ns[i]) {
                assert(machine_name(ns[ns.len() - 1]));
                assert forall|i: int| 0 <= i < b.len() implies machine_name(#[trigger] b[i]) by {
                    assert(b[i] == ns[i]);
                }
            }
        }
    }
}

/// A comment at the end of a hosts line, a space before it; or nothing.
pub open spec fn hosts_comment(c: Seq<char>) -> bool {
    c.len() == 0 || (c.len() >= 2 && c[0] == ' ' && c[1] == '#' && !is_white(c.last()))
}

proof fn lemma_first_word(w: Seq<char>, rest: Seq<char>)
    requires
        w.len() > 0,
        forall|i: int| 0 <= i < w.len() ==> !is_white(#[trigger] w[i]),
        rest.len() == 0 || is_white(rest[0]),
    ensures
        words(w + rest).len() > 0,
        words(w + rest)[0] == w,
{
    let s = w + rest;
    lemma_word_len_exact(w, rest);
    assert(s[0] == w[0]);
    assert(s.take(w.len() as int) =~= w);
}

proof fn lemma_word_len_exact(w: Seq<char>, rest: Seq<char>)
    requires
        forall|i: int| 0 <= i < w.len() ==> !is_white(#[trigger] w[i]),
        rest.len() == 0 || is_white(rest[0]),
    ensures
        word_len(w + rest) == w.len(),
    decreases w.len(),
{
    let s = w + rest;
    if w.len() == 0 {
        assert(s =~= rest);
    } else {
        let t = w.drop_first();
        assert(s[0] == w[0]);
        assert(s.drop_first() =~= t + rest);
        assert forall|i: int| 0 <= i < t.len() implies !is_white(#[trigger] t[i]) by {
            assert(t[i] == w[i + 1]);
        }
        lemma_word_len_exact(t, rest);
    }
}

proof fn lemma_hosts_start(addr: Seq<char>, gaps: Seq<Seq<char>>, names: Seq<Seq<char>>) -> (rest:
    Seq<char>)
    requires
        gaps.len() == names.len(),
        forall|i: int| 0 <= i < gaps.len() ==> blank(#[trigger] gaps[i]),
    ensures
        hosts_text(addr, gaps, names) == addr + rest,
        rest.len() == 0 || is_white(rest[0]),
    decreases names.len(),
{
    if names.len() == 0 {
        assert(addr + Seq::<char>::empty() =~= addr);
        Seq::empty()
    } else {
        let u = gaps.drop_last();
        assert forall|i: int| 0 <= i < u.len() implies blank(#[trigger] u[i]) by {
            assert(u[i] == gaps[i]);
        }
        assert(blank(gaps[gaps.len() - 1]));
        let r = lemma_hosts_start(addr, u, names.drop_last());
        let rest = r + gaps.last() + names.last();
        assert(hosts_text(addr, gaps, names) =~= addr + rest);
        rest
    }
}

/// A hosts line blocks its names. With an unspecified or a loopback address in
/// front, each name that is no name of the machine itself gives a rule for
/// exactly that name, in order, or an issue where it is no host name. With any
/// other address the line is refused. One with names of the machine only gives
/// nothing. A comment behind the names changes nothing.
pub proof fn law_hosts_line(
    addr: Seq<char>,
    ip: Ip,
    gaps: Seq<Seq<char>>,
    ts: Seq<Seq<char>>,
    ns: Seq<Seq<char>>,
    comment: Seq<char>,
    no: u32,
)
    requires
        bare_word(addr),
        addr[0] != '!',
        literal(split(addr, '%')[0]) == Some(ip),
        hosts_comment(comment),
        gaps.len() == ts.len(),
        ts.len() == ns.len(),
        forall|i: int| 0 <= i < gaps.len() ==> blank(#[trigger] gaps[i]),
        forall|i: int| 0 <= i < ts.len() ==> bare_word(#[trigger] ts[i]),
        forall|i: int| 0 <= i < ts.len() ==> spells(#[trigger] ts[i], ns[i]),
    ensures
        ({
            let l = hosts_text(addr, gaps, ts) + comment;
            let r = line_result(l, no);
            let sink = match ip {
                Ip::V4(a) => a == 0 || a / 0x100_0000 == 127,
                Ip::V6(a) => a == 0 || a == 1,
            };
            if forall|i: int| 0 <= i < ns.len() ==> machine_name(#[trigger] ns[i]) {
                r.rules.len() == 0 && r.issues.len() == 0
            } else if sink {
                blocks_names(r, ns, l, no)
            } else {
                refused(l, no, IssueReason::UnsupportedHostsEntry)
            }
        }),
{
    let h = hosts_text(addr, gaps, ts);
    let l = h + comment;
    lemma_hosts_words(addr, gaps, ts);
    let empty = Seq::<char>::empty();
    let rest = lemma_hosts_start(addr, gaps, ts);
    assert(is_white(' '));
    assert(l =~= addr + (rest + comment));
    lemma_first_word(addr, rest + comment);
    assert(l[0] == addr[0]);
    assert(!is_white(l.last()));
    lemma_trim_pad(empty, l, empty);
    assert(empty + l + empty =~= l);
    lemma_trim_pad(empty, h, empty);
    assert(empty + h + empty =~= h);
    if comment.len() == 0 {
        assert(l =~= h);
        lemma_find_from(l, '#', 0);
        assert(split(l, '#') =~= seq![l]);
    } else {
        let k = h.len() as int + 1;
        assert(l[k] == '#');
        assert forall|j: int| 0 <= j < k implies l[j] != '#' by {
            if j < h.len() {
                assert(l[j] == h[j]);
            }
        }
        lemma_find_from_is(l, '#', 0, k);
        assert(split(l, '#')[0] =~= h + seq![' ']);
        lemma_trim_pad(empty, h, seq![' ']);
        assert(empty + h + seq![' '] =~= h + seq![' ']);
    }
    assert(trim(split(l, '#')[0]) == h);
    let w = words(h);
    assert(w[0] == addr);
    assert(w.skip(1) =~= ts);
    lemma_names_blocked(ts, ns, l, no);
    if let Ip::V4(a) = ip {
        assert(a >> 24 == a / 0x100_0000) by (bit_vector);
    }
}

/// Two words that are no hosts line are no rule: no name has white space in it.
pub proof fn law_no_name_of_two_words(w: Seq<char>, c: char, rest: Seq<char>, no: u32)
    requires
        bare_word(w),
        is_white(c),
        rest.len() > 0,
        !is_white(rest.last()),
        w[0] != '!' && w[0] != '/' && w[0] != '|' && w[0] != '@',
        literal(split(w, '%')[0]) is None,
        forall|i: int| 0 <= i < w.len() ==> #[trigger] w[i] != '$' && w[i] != '^',
        forall|i: int|
            0 <= i < rest.len() ==> #[trigger] rest[i] != '#' && rest[i] != '$' && rest[i] != '^',
    ensures
        refused(w.push(c) + rest, no, IssueReason::InvalidDomain),
{
    let l = w.push(c) + rest;
    let tail = seq![c] + rest;
    let empty = Seq::<char>::empty();
    assert(l =~= w + tail);
    lemma_first_word(w, tail);
    assert(l[0] == w[0] && l.last() == rest.last());
    lemma_trim_pad(empty, l, empty);
    assert(empty + l + empty =~= l);
    let k = w.len() as int;
    assert(l[k] == c);
    assert forall|i: int| 0 <= i < l.len() implies #[trigger] l[i] != '#' && l[i] != '$' && l[i]
        != '^' by {
        if i < k {
            assert(l[i] == w[i]);
        } else if i > k {
            assert(l[i] == rest[i - k - 1]);
        }
    }
    lemma_cosmetic(l);
    assert(!cosmetic(l)) by {
        if cosmetic(l) {
            let i = choose|i: int| cosmetic_at(l, i);
            assert(l[i] == '#');
        }
    }
    assert(!l.contains('$') && !l.contains('^'));
    assert(line_result(l, no) == adblock_result(l, no));
    reveal_strlit("@@");
    reveal_strlit("||");
    if starts_with(l, "@@"@) {
        assert(l.take(2)[0] == '@');
    }
    if starts_with(l, "||"@) {
        assert(l.take(2)[0] == '|');
    }
    assert(strip_caret(l) == l);
    let n = normalized(l);
    assert(lower(l)[k] == lower_char(c));
    assert(lower_char(c) == c);
    assert(n[k] == c);
    law_domains_are_hostnames(n);
    law_wildcards_are_starred(n);
    if hostname(n) || starred(n) {
        assert('a' <= n[k] <= 'z' || '0' <= n[k] <= '9' || n[k] == '-' || n[k] == '_' || n[k] == '.'
            || n[k] == '*');
    }
    assert(pattern_of(l, false) is None);
}

/// What a list may hold that is no rule of ours is refused by its kind,
/// whatever else is on the line: one with a cosmetic mark, one with a modifier
/// (`$`), and one between slashes. The first word must be no address, which
/// would make it a hosts line.
pub proof fn law_refused_line(w: Seq<char>, rest: Seq<char>, no: u32)
    requires
        w.len() > 0,
        forall|i: int| 0 <= i < w.len() ==> !is_white(#[trigger] w[i]),
        rest.len() == 0 || (is_white(rest[0]) && !is_white(rest.last())),
        w[0] != '!' && w[0] != '#',
        literal(split(w, '%')[0]) is None,
    ensures
        ({
            let l = w + rest;
            let marked = exists|i: int| cosmetic_at(l, i);
            let dollar = exists|i: int| 0 <= i < l.len() && #[trigger] l[i] == '$';
            &&& marked ==> refused(l, no, IssueReason::CosmeticRule)
            &&& !marked && dollar ==> refused(l, no, IssueReason::UnsupportedModifier)
            &&& !marked && !dollar && l.len() > 1 && l[0] == '/' && l.last() == '/' ==> refused(
                l,
                no,
                IssueReason::UnsupportedSyntax,
            )
        }),
{
    let l = w + rest;
    let empty = Seq::<char>::empty();
    lemma_first_word(w, rest);
    assert(l[0] == w[0]);
    assert(!is_white(l.last()));
    lemma_trim_pad(empty, l, empty);
    assert(empty + l + empty =~= l);
    lemma_cosmetic(l);
    assert(l.contains('$') == exists|i: int| 0 <= i < l.len() && #[trigger] l[i] == '$');
}

/// Every text spells its normal form.
pub proof fn law_spelled(t: Seq<char>)
    ensures
        spells(t, normalized(t)),
{
    let l = lower(t);
    let n = normalized(t);
    if t.len() > 0 {
        assert(l.last() == lower_char(t.last()));
        if l.last() == '.' {
            assert(t.last() == '.');
        }
    }
    assert forall|i: int| 0 <= i < n.len() implies if 'A' <= #[trigger] t[i] <= 'Z' {
        n[i] as int == t[i] as int + 32
    } else {
        n[i] == t[i]
    } by {
        assert(n[i] == l[i]);
    }
}

/// Nothing else is a rule: a line whose first word is no address and that
/// gives a rule is a rule line around a text that spells the rule's name, and
/// it gives that one rule.
pub proof fn law_only_rule_lines(l: Seq<char>, no: u32)
    requires
        l.len() > 0,
        !is_white(l[0]) && !is_white(l.last()),
        words(l).len() > 0 ==> literal(split(words(l)[0], '%')[0]) is None,
        line_result(l, no).rules.len() > 0,
    ensures
        ({
            let r = line_result(l, no);
            &&& r.rules.len() == 1 && r.issues.len() == 0
            &&& exists|except: bool, subtree: bool, caret: bool, t: Seq<char>|
                {
                    &&& l == #[trigger] written(except, subtree, caret, t)
                    &&& r.rules[0].action == if except {
                        RuleAction::Except
                    } else {
                        RuleAction::Block
                    }
                    &&& match r.rules[0].pattern {
                        PatternV::Exact(n) => !subtree && hostname(n) && spells(t, n),
                        PatternV::Subtree(n) => subtree && hostname(n) && spells(t, n),
                        PatternV::Wildcard { expr, include_subdomains } => include_subdomains
                            == subtree && starred(expr) && spells(t, expr),
                    }
                }
        }),
{
    let empty = Seq::<char>::empty();
    lemma_trim_pad(empty, l, empty);
    assert(empty + l + empty =~= l);
    let except = starts_with(l, "@@"@);
    let body = if except {
        l.skip(2)
    } else {
        l
    };
    let subtree = starts_with(body, "||"@);
    let tail = if subtree {
        body.skip(2)
    } else {
        body
    };
    let caret = tail.len() > 0 && tail.last() == '^';
    let t = strip_caret(tail);
    lemma_taken_apart(l);
    assert(l == written(except, subtree, caret, t));
    assert(line_result(l, no) == adblock_result(l, no));
    law_spelled(t);
    law_domains_are_hostnames(normalized(t));
    law_wildcards_are_starred(normalized(t));
}

proof fn lemma_after_prefix(s: Seq<char>, p: Seq<char>)
    requires
        starts_with(s, p),
    ensures
        s == p + s.skip(p.len() as int),
{
    assert(s =~= s.take(p.len() as int) + s.skip(p.len() as int));
}

/// A line is what its parts make when they are put together again.
proof fn lemma_taken_apart(l: Seq<char>)
    ensures
        ({
            let except = starts_with(l, "@@"@);
            let body = if except {
                l.skip(2)
            } else {
                l
            };
            let subtree = starts_with(body, "||"@);
            let tail = if subtree {
                body.skip(2)
            } else {
                body
            };
            let caret = tail.len() > 0 && tail.last() == '^';
            l == written(except, subtree, caret, strip_caret(tail))
        }),
{
    reveal_strlit("@@");
    reveal_strlit("||");
    let empty = Seq::<char>::empty();
    let (at, bar) = (seq!['@', '@'], seq!['|', '|']);
    assert("@@"@ =~= at && "||"@ =~= bar);
    let except = starts_with(l, "@@"@);
    let body = if except {
        l.skip(2)
    } else {
        l
    };
    let subtree = starts_with(body, "||"@);
    let tail = if subtree {
        body.skip(2)
    } else {
        body
    };
    let caret = tail.len() > 0 && tail.last() == '^';
    let t = strip_caret(tail);
    let a = if except {
        at
    } else {
        empty
    };
    let b = if subtree {
        bar
    } else {
        empty
    };
    let c = if caret {
        seq!['^']
    } else {
        empty
    };
    if except {
        lemma_after_prefix(l, "@@"@);
    }
    if subtree {
        lemma_after_prefix(body, "||"@);
    }
    assert(l =~= a + body);
    assert(body =~= b + tail);
    assert(tail =~= t + c);
    assert(a + (b + (t + c)) =~= a + b + t + c);
}

} // verus!
