//! Blocklist parser: ABP-DNS subset and hosts format, mixed per line.
use vstd::prelude::*;

use crate::filter::{IssueReason, ListV, ParsedList, Pattern, PatternV, Rule, RuleAction, RuleV};
use crate::ip::{literal, parse_ip, Ip};
use crate::text::{chars_are, has_char, has_text, lowered};
use crate::text::{contains_text, is_alnum, is_white, lower, starts_with, strip_dot};
use crate::text::{ended_lines, lemma_split_push, lines, split, strip_cr, trim, words};
use crate::text::{split_chars, starts_with_str, string_of, trimmed, white, without_cr, without_dot};
use crate::text::words_of;

verus! {

/// Hostnames in hosts files that describe the local machine, not a block.
pub const LOCALHOST_NAMES: [&'static str; 11] = [
    "localhost",
    "localhost.localdomain",
    "local",
    "broadcasthost",
    "ip6-localhost",
    "ip6-loopback",
    "ip6-localnet",
    "ip6-mcastprefix",
    "ip6-allnodes",
    "ip6-allrouters",
    "ip6-allhosts",
];

/// Lowercase, without one trailing dot.
pub open spec fn normalized(s: Seq<char>) -> Seq<char> {
    strip_dot(lower(s))
}

pub open spec fn label_char(c: char) -> bool {
    'a' <= c <= 'z' || '0' <= c <= '9' || c == '-' || c == '_'
}

/// One to 63 characters, not starting or ending with a hyphen.
pub open spec fn label_bounds(l: Seq<char>) -> bool {
    1 <= l.len() <= 63 && l[0] != '-' && l.last() != '-'
}

pub open spec fn valid_label(l: Seq<char>) -> bool {
    label_bounds(l) && forall|i: int| 0 <= i < l.len() ==> label_char(#[trigger] l[i])
}

/// A DNS name in normal form: at most 253 characters, every label valid.
pub open spec fn valid_domain(s: Seq<char>) -> bool {
    &&& 1 <= s.len() <= 253
    &&& forall|i: int| 0 <= i < split(s, '.').len() ==> valid_label(#[trigger] split(s, '.')[i])
}

/// The domain a rule's text names.
pub open spec fn domain_of(s: Seq<char>) -> Option<Seq<char>> {
    if valid_domain(normalized(s)) {
        Some(normalized(s))
    } else {
        None
    }
}

/// A wildcard expression in normal form: at least one letter or digit, and
/// every segment without a `*` within a label's bounds.
pub open spec fn valid_wildcard(s: Seq<char>) -> bool {
    &&& 1 <= s.len() <= 253
    &&& exists|i: int| 0 <= i < s.len() && is_alnum(#[trigger] s[i])
    &&& forall|i: int|
        0 <= i < s.len() ==> label_char(#[trigger] s[i]) || s[i] == '.' || s[i] == '*'
    &&& forall|i: int|
        0 <= i < split(s, '.').len() ==> (#[trigger] split(s, '.')[i]).contains('*')
            || label_bounds(split(s, '.')[i])
}

/// The expression a wildcard rule's text names.
pub open spec fn wildcard_of(s: Seq<char>) -> Option<Seq<char>> {
    if valid_wildcard(normalized(s)) {
        Some(normalized(s))
    } else {
        None
    }
}

/// Whether the name describes the local machine.
pub open spec fn local_name(s: Seq<char>) -> bool {
    exists|i: int|
        0 <= i < LOCALHOST_NAMES@.len() && (#[trigger] LOCALHOST_NAMES@[i])@ == normalized(s)
}

/// A domainless cosmetic rule: `##.banner`, `#@#…`, `#?#…`, `#$#…`, `#%#…`;
/// `## heading` and `####` banners are comments.
pub open spec fn domainless_cosmetic(l: Seq<char>) -> bool {
    ||| starts_with(l, "#@#"@)
    ||| starts_with(l, "#?#"@)
    ||| starts_with(l, "#$#"@)
    ||| starts_with(l, "#%#"@)
    ||| l.len() > 2 && l[0] == '#' && l[1] == '#' && l[2] != '#' && !is_white(l[2])
}

pub open spec fn cosmetic(l: Seq<char>) -> bool {
    ||| contains_text(l, "##"@)
    ||| contains_text(l, "#@#"@)
    ||| contains_text(l, "#?#"@)
    ||| contains_text(l, "#$#"@)
    ||| contains_text(l, "#%#"@)
}

/// Blank, or starting with `!` or `#`.
pub open spec fn blank_or_comment(l: Seq<char>) -> bool {
    l.len() == 0 || l[0] == '!' || l[0] == '#'
}

/// The address a line starts with, which makes it a hosts line. The address
/// may carry a `%zone` suffix.
pub open spec fn hosts_address(l: Seq<char>) -> Option<Ip> {
    let w = words(l);
    if w.len() == 0 {
        None
    } else {
        literal(split(w[0], '%')[0])
    }
}

/// The names on a hosts line that do not describe the local machine.
pub open spec fn hosts_names(l: Seq<char>) -> Seq<Seq<char>> {
    let w = words(trim(split(l, '#')[0]));
    if w.len() == 0 {
        seq![]
    } else {
        w.skip(1).filter(|n: Seq<char>| !local_name(n))
    }
}

/// One exact block rule per name, an issue for each name that is no domain.
pub open spec fn name_rules(names: Seq<Seq<char>>, l: Seq<char>, no: u32) -> ListV
    decreases names.len(),
{
    if names.len() == 0 {
        ListV::empty()
    } else {
        name_rules(names.drop_last(), l, no).plus(
            match domain_of(names.last()) {
                Some(d) => ListV::rule(
                    RuleV {
                        action: RuleAction::Block,
                        pattern: PatternV::Exact(d),
                        text: l,
                        line: no,
                    },
                ),
                None => ListV::issue(no, l, IssueReason::InvalidDomain),
            },
        )
    }
}

/// What a hosts line gives.
pub open spec fn hosts_result(l: Seq<char>, ip: Ip, no: u32) -> ListV {
    let names = hosts_names(l);
    if names.len() == 0 {
        ListV::empty()
    } else if !(ip.unspecified() || ip.loopback()) {
        ListV::issue(no, l, IssueReason::UnsupportedHostsEntry)
    } else {
        name_rules(names, l, no)
    }
}

/// `rest` without one trailing `^`.
pub open spec fn strip_caret(s: Seq<char>) -> Seq<char> {
    if s.len() > 0 && s.last() == '^' {
        s.drop_last()
    } else {
        s
    }
}

/// What an adblock rule line gives: `[@@][||]domain[^]`.
pub open spec fn adblock_result(l: Seq<char>, no: u32) -> ListV {
    let except = starts_with(l, "@@"@);
    let body = if except {
        l.skip(2)
    } else {
        l
    };
    let subtree = starts_with(body, "||"@);
    let rest = strip_caret(
        if subtree {
            body.skip(2)
        } else {
            body
        },
    );
    if rest.contains('^') || (rest.len() > 0 && rest[0] == '|') {
        ListV::issue(no, l, IssueReason::UnsupportedSyntax)
    } else {
        match pattern_of(rest, subtree) {
            Some(pattern) => ListV::rule(
                RuleV {
                    action: if except {
                        RuleAction::Except
                    } else {
                        RuleAction::Block
                    },
                    pattern,
                    text: l,
                    line: no,
                },
            ),
            None => ListV::issue(no, l, IssueReason::InvalidDomain),
        }
    }
}

/// The pattern that a rule's domain part stands for.
pub open spec fn pattern_of(rest: Seq<char>, subtree: bool) -> Option<PatternV> {
    if rest.contains('*') {
        match wildcard_of(rest) {
            Some(expr) => Some(PatternV::Wildcard { expr, include_subdomains: subtree }),
            None => None,
        }
    } else {
        match domain_of(rest) {
            Some(d) if subtree => Some(PatternV::Subtree(d)),
            Some(d) => Some(PatternV::Exact(d)),
            None => None,
        }
    }
}

/// What a trimmed line that is neither blank nor a comment gives.
pub open spec fn rule_line_result(l: Seq<char>, no: u32) -> ListV {
    match hosts_address(l) {
        Some(ip) => hosts_result(l, ip, no),
        None => if cosmetic(l) {
            ListV::issue(no, l, IssueReason::CosmeticRule)
        } else if l.contains('$') {
            ListV::issue(no, l, IssueReason::UnsupportedModifier)
        } else if l.len() > 1 && l[0] == '/' && l.last() == '/' {
            ListV::issue(no, l, IssueReason::UnsupportedSyntax)
        } else {
            adblock_result(l, no)
        },
    }
}

/// What one line of a list gives.
pub open spec fn line_result(raw: Seq<char>, no: u32) -> ListV {
    let l = trim(raw);
    if blank_or_comment(l) {
        if l.len() > 0 && l[0] == '#' && domainless_cosmetic(l) {
            ListV::issue(no, l, IssueReason::CosmeticRule)
        } else {
            ListV::empty()
        }
    } else {
        rule_line_result(l, no)
    }
}

/// 1-based line number, saturating.
pub open spec fn line_no(index: int) -> u32 {
    if index < u32::MAX {
        (index + 1) as u32
    } else {
        u32::MAX
    }
}

/// What a sequence of lines gives, in order.
pub open spec fn lines_result(ls: Seq<Seq<char>>) -> ListV
    decreases ls.len(),
{
    if ls.len() == 0 {
        ListV::empty()
    } else {
        lines_result(ls.drop_last()).plus(line_result(ls.last(), line_no(ls.len() - 1)))
    }
}

/// What a whole list gives.
pub open spec fn list_result(text: Seq<char>) -> ListV {
    lines_result(lines(text))
}

fn is_label_char(c: char) -> (r: bool)
    ensures
        r == label_char(c),
{
    (c >= 'a' && c <= 'z') || (c >= '0' && c <= '9') || c == '-' || c == '_'
}

fn label_in_bounds(l: &[char]) -> (r: bool)
    ensures
        r == label_bounds(l@),
{
    let n: usize = l.len();
    n >= 1 && n <= 63 && l[0] != '-' && l[n - 1] != '-'
}

fn label_valid(l: &[char]) -> (r: bool)
    ensures
        r == valid_label(l@),
{
    if !label_in_bounds(l) {
        return false;
    }
    let n: usize = l.len();
    for i in 0..n
        invariant
            n == l.len(),
            forall|j: int| 0 <= j < i ==> label_char(#[trigger] l@[j]),
    {
        if !is_label_char(l[i]) {
            assert(!label_char(l@[i as int]));
            return false;
        }
    }
    true
}

/// Lowercase, strip one trailing dot, validate as a DNS name.
pub fn normalize_domain(s: &[char]) -> (r: Option<String>)
    ensures
        match r {
            Some(d) => domain_of(s@) == Some(d@),
            None => domain_of(s@) is None,
        },
{
    let low = lowered(s);
    let n = without_dot(low.as_slice());
    if n.len() == 0 || n.len() > 253 {
        return None;
    }
    let labels = split_chars(n, '.');
    let k: usize = labels.len();
    for i in 0..k
        invariant
            k == labels@.len(),
            n@ == normalized(s@),
            labels@.len() == split(n@, '.').len(),
            forall|j: int| 0 <= j < labels@.len() ==> (#[trigger] labels@[j])@ == split(n@, '.')[j],
            forall|j: int| 0 <= j < i ==> valid_label(#[trigger] split(n@, '.')[j]),
    {
        assert(labels@[i as int]@ == split(n@, '.')[i as int]);
        if !label_valid(labels[i].as_slice()) {
            assert(!valid_label(split(n@, '.')[i as int]));
            return None;
        }
    }
    Some(string_of(n))
}

/// Like [`normalize_domain`] but the expression may contain `*`.
///
/// Requires at least one letter or digit: a rule matching purely on stars and
/// separators is a list bug, not a filter. Segments without a `*` are real
/// labels and must obey label rules.
fn normalize_wildcard(s: &[char]) -> (r: Option<String>)
    ensures
        match r {
            Some(d) => wildcard_of(s@) == Some(d@),
            None => wildcard_of(s@) is None,
        },
{
    let low = lowered(s);
    let n = without_dot(low.as_slice());
    let len: usize = n.len();
    if len == 0 || len > 253 {
        return None;
    }
    let mut alnum = false;
    for i in 0..len
        invariant
            len == n.len(),
            n@ == normalized(s@),
            alnum == exists|j: int| 0 <= j < i && is_alnum(#[trigger] n@[j]),
            forall|j: int|
                0 <= j < i ==> label_char(#[trigger] n@[j]) || n@[j] == '.' || n@[j] == '*',
    {
        let c = n[i];
        if !(is_label_char(c) || c == '.' || c == '*') {
            assert(!label_char(n@[i as int]));
            return None;
        }
        if (c >= 'a' && c <= 'z') || (c >= 'A' && c <= 'Z') || (c >= '0' && c <= '9') {
            assert(is_alnum(n@[i as int]));
            alnum = true;
        }
    }
    if !alnum {
        return None;
    }
    let segments = split_chars(n, '.');
    let k: usize = segments.len();
    for i in 0..k
        invariant
            k == segments@.len(),
            n@ == normalized(s@),
            segments@.len() == split(n@, '.').len(),
            forall|j: int|
                0 <= j < segments@.len() ==> (#[trigger] segments@[j])@ == split(n@, '.')[j],
            forall|j: int|
                0 <= j < i ==> (#[trigger] split(n@, '.')[j]).contains('*') || label_bounds(
                    split(n@, '.')[j],
                ),
    {
        assert(segments@[i as int]@ == split(n@, '.')[i as int]);
        if !has_char(segments[i].as_slice(), '*') && !label_in_bounds(segments[i].as_slice()) {
            let ghost bad = split(n@, '.')[i as int];
            assert(!bad.contains('*') && !label_bounds(bad));
            return None;
        }
    }
    Some(string_of(n))
}

fn is_local_name(s: &[char]) -> (r: bool)
    ensures
        r == local_name(s@),
{
    let low = lowered(s);
    let bare = without_dot(low.as_slice());
    for i in 0..11usize
        invariant
            bare@ == normalized(s@),
            forall|j: int| 0 <= j < i ==> (#[trigger] LOCALHOST_NAMES@[j])@ != bare@,
    {
        if chars_are(bare, LOCALHOST_NAMES[i]) {
            assert(LOCALHOST_NAMES@[i as int]@ == normalized(s@));
            return true;
        }
    }
    false
}

/// True when the line is blank or a comment. Domainless cosmetic rules are
/// reported.
fn skip_or_report_comment(line: &[char], no: u32, out: &mut ParsedList) -> (r: bool)
    ensures
        r == blank_or_comment(line@),
        final(out)@ == old(out)@.plus(
            if line@.len() > 0 && line@[0] == '#' && domainless_cosmetic(line@) {
                ListV::issue(no, line@, IssueReason::CosmeticRule)
            } else {
                ListV::empty()
            },
        ),
{
    assert(out@.plus(ListV::empty()) == out@);
    if line.len() == 0 || line[0] == '!' {
        return true;
    }
    if line[0] == '#' {
        let marked = starts_with_str(line, "#@#") || starts_with_str(line, "#?#")
            || starts_with_str(line, "#$#") || starts_with_str(line, "#%#");
        if marked || (line.len() > 2 && line[1] == '#' && line[2] != '#' && !white(line[2])) {
            out.push_issue(no, string_of(line), IssueReason::CosmeticRule);
        }
        return true;
    }
    false
}

fn parse_hosts_line(line: &[char], ip: Ip, no: u32, out: &mut ParsedList)
    ensures
        final(out)@ == old(out)@.plus(hosts_result(line@, ip, no)),
{
    let pieces = split_chars(line, '#');
    let effective = trimmed(pieces[0].as_slice());
    let w = words_of(effective);
    let ghost ws = words(trim(split(line@, '#')[0]));
    let ghost keep = |n: Seq<char>| !local_name(n);
    let mut names: Vec<Vec<char>> = Vec::new();
    let n: usize = w.len();
    let mut i: usize = 1;
    if n == 0 {
        assert(hosts_result(line@, ip, no) == ListV::empty());
        assert(out@.plus(ListV::empty()) == out@);
        return ;
    }
    proof {
        reveal(Seq::filter);
        assert(ws.skip(1).take(0) == Seq::<Seq<char>>::empty());
    }
    while i < n
        invariant
            1 <= i <= n,
            n == w@.len(),
            w@.len() == ws.len(),
            keep == (|n: Seq<char>| !local_name(n)),
            forall|j: int| 0 <= j < w@.len() ==> (#[trigger] w@[j])@ == ws[j],
            crate::ip::views(names@) == ws.skip(1).take(i - 1).filter(keep),
        decreases n - i,
    {
        proof {
            reveal(Seq::filter);
            let t = ws.skip(1).take(i as int);
            assert(t.drop_last() == ws.skip(1).take(i - 1));
            assert(t.last() == w@[i as int]@);
        }
        let ghost before = names@;
        if !is_local_name(w[i].as_slice()) {
            names.push(w[i].clone());
            assert(crate::ip::views(names@) == crate::ip::views(before).push(w@[i as int]@));
        }
        i = i + 1;
    }
    assert(ws.skip(1).take(n - 1) == ws.skip(1));
    assert(crate::ip::views(names@) == hosts_names(line@));
    if names.len() == 0 {
        assert(out@.plus(ListV::empty()) == out@);
        return ;
    }
    if !(ip.is_unspecified() || ip.is_loopback()) {
        out.push_issue(no, string_of(line), IssueReason::UnsupportedHostsEntry);
        return ;
    }
    let m: usize = names.len();
    let ghost all = hosts_names(line@);
    let ghost start = out@;
    assert(start.plus(ListV::empty()) == start);
    assert(all.take(0) == Seq::<Seq<char>>::empty());
    for k in 0..m
        invariant
            m == names@.len(),
            crate::ip::views(names@) == all,
            out@ == start.plus(name_rules(all.take(k as int), line@, no)),
    {
        proof {
            let t = all.take(k + 1);
            assert(t.drop_last() == all.take(k as int));
            assert(t.last() == names@[k as int]@);
        }
        let ghost so_far = name_rules(all.take(k as int), line@, no);
        match normalize_domain(names[k].as_slice()) {
            Some(domain) => {
                let rule = Rule {
                    action: RuleAction::Block,
                    pattern: Pattern::Exact(domain),
                    text: string_of(line),
                    line: no,
                };
                proof {
                    assert(start.plus(so_far).plus(ListV::rule(rule@)) == start.plus(
                        so_far.plus(ListV::rule(rule@)),
                    ));
                }
                out.push_rule(rule);
            },
            None => {
                proof {
                    let one = ListV::issue(no, line@, IssueReason::InvalidDomain);
                    assert(start.plus(so_far).plus(one) == start.plus(so_far.plus(one)));
                }
                out.push_issue(no, string_of(line), IssueReason::InvalidDomain);
            },
        }
    }
    assert(all.take(m as int) == all);
}

/// Parse one trimmed line that is neither blank nor a comment.
fn parse_line(line: &[char], no: u32, out: &mut ParsedList)
    ensures
        final(out)@ == old(out)@.plus(rule_line_result(line@, no)),
{
    let w = words_of(line);
    if w.len() > 0 {
        let first = split_chars(w[0].as_slice(), '%');
        match parse_ip(first[0].as_slice()) {
            Some(ip) => {
                parse_hosts_line(line, ip, no, out);
                return ;
            },
            None => {},
        }
    }
    if has_text(line, "##") || has_text(line, "#@#") || has_text(line, "#?#") || has_text(
        line,
        "#$#",
    ) || has_text(line, "#%#") {
        out.push_issue(no, string_of(line), IssueReason::CosmeticRule);
        return ;
    }
    if has_char(line, '$') {
        out.push_issue(no, string_of(line), IssueReason::UnsupportedModifier);
        return ;
    }
    let len: usize = line.len();
    if len > 1 && line[0] == '/' && line[len - 1] == '/' {
        out.push_issue(no, string_of(line), IssueReason::UnsupportedSyntax);
        return ;
    }
    proof {
        reveal_strlit("@@");
        reveal_strlit("||");
    }
    let except = starts_with_str(line, "@@");
    let body = if except {
        &line[2..len]
    } else {
        line
    };
    assert(except ==> body@ == line@.skip(2));
    let subtree = starts_with_str(body, "||");
    let tail = if subtree {
        &body[2..body.len()]
    } else {
        body
    };
    assert(subtree ==> tail@ == body@.skip(2));
    let t: usize = tail.len();
    let rest = if t > 0 && tail[t - 1] == '^' {
        &tail[0..t - 1]
    } else {
        tail
    };
    assert(rest@ == strip_caret(tail@));
    if has_char(rest, '^') || (rest.len() > 0 && rest[0] == '|') {
        out.push_issue(no, string_of(line), IssueReason::UnsupportedSyntax);
        return ;
    }
    let pattern: Option<Pattern> = if has_char(rest, '*') {
        match normalize_wildcard(rest) {
            Some(expr) => Some(Pattern::Wildcard { expr, include_subdomains: subtree }),
            None => None,
        }
    } else {
        match normalize_domain(rest) {
            Some(domain) => if subtree {
                Some(Pattern::Subtree(domain))
            } else {
                Some(Pattern::Exact(domain))
            },
            None => None,
        }
    };
    match pattern {
        Some(pattern) => {
            let action = if except {
                RuleAction::Except
            } else {
                RuleAction::Block
            };
            out.push_rule(Rule { action, pattern, text: string_of(line), line: no });
        },
        None => {
            out.push_issue(no, string_of(line), IssueReason::InvalidDomain);
        },
    }
}

/// Parse one raw line.
pub fn parse_raw_line(raw: &[char], no: u32, out: &mut ParsedList)
    ensures
        final(out)@ == old(out)@.plus(line_result(raw@, no)),
{
    let line = trimmed(raw);
    let ghost start = out@;
    if !skip_or_report_comment(line, no, out) {
        assert(start.plus(ListV::empty()) == start);
        parse_line(line, no, out);
    }
}

/// Parse a whole list.
pub fn parse_list(text: &str) -> (r: ParsedList)
    ensures
        r@ == list_result(text@),
{
    let mut out = ParsedList { rules: Vec::new(), issues: Vec::new() };
    let mut line: Vec<char> = Vec::new();
    let mut count: u32 = 0;
    proof {
        assert(out@ == ListV::empty());
        assert(text@.take(0) == Seq::<char>::empty());
        assert(split(Seq::<char>::empty(), '\n') == seq![Seq::<char>::empty()]);
        assert(ended_lines(seq![Seq::<char>::empty()]) == Seq::<Seq<char>>::empty());
    }
    for c in it: text.chars()
        invariant
            it.seq() == text@,
            ({
                let pieces = split(text@.take(it.index() as int), '\n');
                &&& pieces.len() > 0
                &&& pieces.last() == line@
                &&& line_no(pieces.len() - 1) == line_no(count as int)
                &&& count < u32::MAX ==> count == pieces.len() - 1
                &&& out@ == lines_result(ended_lines(pieces))
            }),
    {
        let ghost done = text@.take(it.index() as int);
        let ghost pieces = split(done, '\n');
        let ghost next = split(done.push(c), '\n');
        proof {
            assert(text@.take(it.index() + 1) == done.push(c));
            lemma_split_push(done, '\n', c);
        }
        if c == '\n' {
            let no: u32 = if count < u32::MAX {
                count + 1
            } else {
                u32::MAX
            };
            proof {
                let ls = ended_lines(next);
                assert(next.last() == Seq::<char>::empty());
                assert(ls.drop_last() == ended_lines(pieces));
                assert(ls.last() == strip_cr(line@));
            }
            parse_raw_line(without_cr(line.as_slice()), no, &mut out);
            line = Vec::new();
            count = no;
        } else {
            proof {
                assert(ended_lines(next) == ended_lines(pieces));
            }
            line.push(c);
        }
    }
    assert(text@.take(text@.len() as int) == text@);
    let ghost pieces = split(text@, '\n');
    if line.len() > 0 {
        let no: u32 = if count < u32::MAX {
            count + 1
        } else {
            u32::MAX
        };
        proof {
            let ls = ended_lines(pieces).push(line@);
            assert(ls.drop_last() == ended_lines(pieces));
        }
        parse_raw_line(line.as_slice(), no, &mut out);
    }
    out
}

} // verus!
