//! DNS filter engine.
//!
//! Parses an ABP-DNS rule subset (`||domain^`, exact domains, `@@` exceptions,
//! wildcards) plus hosts-file lines, and matches query names against the
//! compiled rule set.
//!
//! # Rule syntax
//!
//! One rule per line. Leading and trailing whitespace is trimmed. Empty lines
//! and comment lines (starting with `!` or `#`) are skipped silently. `!`
//! after a rule is not a comment (domains cannot contain `!`, so a trailing
//! `!...` makes the line invalid); hosts lines may carry a trailing
//! `# comment`.
//!
//! - `||example.com^` blocks `example.com` and every subdomain. The trailing
//!   `^` is optional.
//! - `example.com` blocks exactly `example.com`. One trailing `^` is stripped
//!   from any rule form; a `^` anywhere else is unsupported syntax.
//! - `@@` in front of either form makes it an exception. Exceptions always
//!   win over block rules.
//! - `*` anywhere in the domain part makes the rule a wildcard; `*` matches
//!   any sequence of characters, the empty one and dots included. `||` on a
//!   wildcard rule also covers subdomains of any match.
//! - Hosts lines: `IP name [name...]`. If the IP is unspecified or loopback,
//!   each name becomes an exact block rule. Well-known localhost names are
//!   skipped silently. Any other IP is reported.
//!
//! Everything else is rejected with a [`LineIssue`], never silently dropped.
//!
//! # Name normalization
//!
//! Rule domains and query names are ASCII-lowercased and stripped of one
//! trailing dot before matching. A query name that is empty or longer than
//! 253 bytes matches nothing.
//!
//! # Precedence
//!
//! Exception rules always beat block rules. When several rules of the same
//! action match, an exact domain is reported before a subtree, a shorter
//! subtree domain before a longer one, and either before a wildcard; among
//! those that stand level, the rule that was added first.
pub mod engine;
pub mod glob;
pub mod grammar;
pub mod index;
pub mod laws;
pub mod matching;
pub mod parse;

use vstd::prelude::*;

pub use crate::filter::engine::Engine;

use crate::filter::engine::{parse_list_streamed, EngineV};
use crate::filter::parse::list_result;
use crate::text::{decimal, decimal_of};

verus! {

/// What a rule does when its pattern matches.
#[derive(Debug, Clone, Copy, PartialEq, Eq, Structural)]
pub enum RuleAction {
    /// Block the query.
    Block,
    /// Exception (`@@`): never block, overrides every block rule.
    Except,
}

/// How a rule's domain expression matches a query name.
#[derive(Debug, Clone, PartialEq, Eq)]
pub enum Pattern {
    /// Matches exactly this domain (normalized lowercase, no trailing dot).
    Exact(String),
    /// Matches this domain and every subdomain (`||domain^`).
    Subtree(String),
    /// Expression containing `*`, which matches any character sequence. With
    /// `include_subdomains` (from `||`), subdomains of any matching name
    /// match too.
    Wildcard { expr: String, include_subdomains: bool },
}

/// One parsed rule.
#[derive(Debug, Clone, PartialEq, Eq)]
pub struct Rule {
    pub action: RuleAction,
    pub pattern: Pattern,
    /// Rule text as written, trimmed.
    pub text: String,
    /// 1-based line number in the source list.
    pub line: u32,
}

/// Why a line was rejected.
#[derive(Debug, Clone, Copy, PartialEq, Eq, Structural)]
#[non_exhaustive]
pub enum IssueReason {
    /// Cosmetic / element-hiding rule (`##`, `#@#`, `#?#`, `#$#`, `#%#`).
    CosmeticRule,
    /// Rule carries `$modifiers`.
    UnsupportedModifier,
    /// Hosts entry mapping to a real address.
    UnsupportedHostsEntry,
    /// Recognized adblock syntax outside the subset (regex, anchors, ...).
    UnsupportedSyntax,
    /// The domain part is not a valid DNS name.
    InvalidDomain,
}

/// A rejected line.
#[derive(Debug, Clone, PartialEq, Eq)]
pub struct LineIssue {
    /// 1-based line number in the source list.
    pub line: u32,
    /// The offending line, trimmed.
    pub text: String,
    pub reason: IssueReason,
}

/// The matching rule: a view into the storage of the engine.
#[derive(Debug, Clone, Copy, PartialEq, Eq)]
pub struct MatchedRule<'a> {
    pub action: RuleAction,
    /// Rule text as written, trimmed.
    pub text: &'a str,
    /// 1-based line number in the source list.
    pub line: u32,
}

/// The verdict for one query name.
#[derive(Debug, Clone, Copy, PartialEq, Eq)]
pub enum Verdict<'a> {
    /// No rule matched.
    NoMatch,
    /// A block rule matched, and no exception did. `list` is the index of the
    /// list, in the order of [`EngineBuilder::add_list`] calls.
    Block { list: usize, rule: MatchedRule<'a> },
    /// An exception rule matched; overrides any block.
    Except { list: usize, rule: MatchedRule<'a> },
}

/// Result of parsing one list.
#[derive(Debug, Clone, PartialEq, Eq)]
pub struct ParsedList {
    pub rules: Vec<Rule>,
    pub issues: Vec<LineIssue>,
}

/// Model of [`Pattern`].
#[verifier::ext_equal]
pub enum PatternV {
    Exact(Seq<char>),
    Subtree(Seq<char>),
    Wildcard { expr: Seq<char>, include_subdomains: bool },
}

/// Model of [`Rule`].
#[verifier::ext_equal]
pub struct RuleV {
    pub action: RuleAction,
    pub pattern: PatternV,
    pub text: Seq<char>,
    pub line: u32,
}

/// Model of [`LineIssue`].
#[verifier::ext_equal]
pub struct IssueV {
    pub line: u32,
    pub text: Seq<char>,
    pub reason: IssueReason,
}

/// Model of [`ParsedList`].
#[verifier::ext_equal]
pub struct ListV {
    pub rules: Seq<RuleV>,
    pub issues: Seq<IssueV>,
}

impl ListV {
    pub open spec fn empty() -> ListV {
        ListV { rules: seq![], issues: seq![] }
    }

    pub open spec fn rule(r: RuleV) -> ListV {
        ListV { rules: seq![r], issues: seq![] }
    }

    pub open spec fn issue(line: u32, text: Seq<char>, reason: IssueReason) -> ListV {
        ListV { rules: seq![], issues: seq![IssueV { line, text, reason }] }
    }

    pub open spec fn plus(self, o: ListV) -> ListV {
        ListV { rules: self.rules + o.rules, issues: self.issues + o.issues }
    }
}

impl View for Pattern {
    type V = PatternV;

    open spec fn view(&self) -> PatternV {
        match *self {
            Pattern::Exact(d) => PatternV::Exact(d@),
            Pattern::Subtree(d) => PatternV::Subtree(d@),
            Pattern::Wildcard { expr, include_subdomains } => PatternV::Wildcard {
                expr: expr@,
                include_subdomains,
            },
        }
    }
}

impl View for Rule {
    type V = RuleV;

    open spec fn view(&self) -> RuleV {
        RuleV {
            action: self.action,
            pattern: self.pattern@,
            text: self.text@,
            line: self.line,
        }
    }
}

impl View for LineIssue {
    type V = IssueV;

    open spec fn view(&self) -> IssueV {
        IssueV { line: self.line, text: self.text@, reason: self.reason }
    }
}

/// The models of a sequence of rules.
pub open spec fn rules_of(v: Seq<Rule>) -> Seq<RuleV> {
    Seq::new(v.len(), |i: int| v[i]@)
}

/// The models of a sequence of issues.
pub open spec fn issues_of(v: Seq<LineIssue>) -> Seq<IssueV> {
    Seq::new(v.len(), |i: int| v[i]@)
}

impl View for ParsedList {
    type V = ListV;

    open spec fn view(&self) -> ListV {
        ListV { rules: rules_of(self.rules@), issues: issues_of(self.issues@) }
    }
}

impl ParsedList {
    pub(crate) fn push_rule(&mut self, rule: Rule)
        ensures
            final(self)@ == old(self)@.plus(ListV::rule(rule@)),
    {
        self.rules.push(rule);
        assert(self@.rules == old(self)@.rules + seq![rule@]);
        assert(self@.issues == old(self)@.issues + Seq::<IssueV>::empty());
    }

    pub(crate) fn push_issue(&mut self, line: u32, text: String, reason: IssueReason)
        ensures
            final(self)@ == old(self)@.plus(ListV::issue(line, text@, reason)),
    {
        let issue = LineIssue { line, text, reason };
        self.issues.push(issue);
        assert(self@.rules == old(self)@.rules + Seq::<RuleV>::empty());
        assert(self@.issues == old(self)@.issues + seq![issue@]);
    }
}

impl Default for ParsedList {
    fn default() -> (r: ParsedList)
        ensures
            r@ == ListV::empty(),
    {
        let r = ParsedList { rules: Vec::new(), issues: Vec::new() };
        assert(r@ == ListV::empty());
        r
    }
}

/// Parse a whole blocklist (ABP-DNS subset and hosts format, mixed).
///
/// Never fails: unparseable lines land in [`ParsedList::issues`].
#[must_use]
pub fn parse_list(text: &str) -> (r: ParsedList)
    ensures
        r@ == list_result(text@),
{
    parse::parse_list(text)
}

impl IssueReason {
    /// The reason in words.
    pub open spec fn words(self) -> Seq<char> {
        match self {
            IssueReason::CosmeticRule => "cosmetic rule (not DNS filtering)"@,
            IssueReason::UnsupportedModifier => "rule modifiers are not supported"@,
            IssueReason::UnsupportedHostsEntry => "hosts entry maps to a real address"@,
            IssueReason::UnsupportedSyntax => "syntax outside the supported subset"@,
            IssueReason::InvalidDomain => "not a valid DNS name"@,
        }
    }

    /// The reason in words.
    pub fn message(&self) -> (r: String)
        ensures
            r@ == self.words(),
    {
        match self {
            IssueReason::CosmeticRule => "cosmetic rule (not DNS filtering)".to_string(),
            IssueReason::UnsupportedModifier => "rule modifiers are not supported".to_string(),
            IssueReason::UnsupportedHostsEntry => "hosts entry maps to a real address".to_string(),
            IssueReason::UnsupportedSyntax => "syntax outside the supported subset".to_string(),
            IssueReason::InvalidDomain => "not a valid DNS name".to_string(),
        }
    }
}

impl LineIssue {
    /// `line N: TEXT (REASON)`.
    pub fn message(&self) -> (r: String)
        ensures
            r@ == "line "@ + decimal(self.line as nat) + ": "@ + self.text@ + " ("@
                + self.reason.words() + ")"@,
    {
        let mut out = "line ".to_string();
        out.push_str(decimal_of(self.line as u64).as_str());
        out.push_str(": ");
        out.push_str(self.text.as_str());
        out.push_str(" (");
        out.push_str(self.reason.message().as_str());
        out.push_str(")");
        out
    }
}

/// The rule behind a verdict, detached from the engine.
#[derive(Debug, Clone, PartialEq, Eq)]
pub struct RuleHit {
    /// Index of the list (order of [`EngineBuilder::add_list`] calls).
    pub list: usize,
    /// 1-based line number of the rule in its list.
    pub line: u32,
    /// Rule text as written.
    pub text: String,
}

/// A verdict that owns its data.
#[derive(Debug, Clone, PartialEq, Eq)]
pub enum OwnedVerdict {
    NoMatch,
    Block(RuleHit),
    Except(RuleHit),
}

/// Model of [`RuleHit`].
#[verifier::ext_equal]
pub struct HitV {
    pub list: usize,
    pub line: u32,
    pub text: Seq<char>,
}

/// Model of a verdict, in an engine's borrow or not. The action of a reported
/// rule is the verdict's own kind.
#[verifier::ext_equal]
pub enum VerdictV {
    NoMatch,
    Block(HitV),
    Except(HitV),
}

impl View for OwnedVerdict {
    type V = VerdictV;

    open spec fn view(&self) -> VerdictV {
        match *self {
            OwnedVerdict::NoMatch => VerdictV::NoMatch,
            OwnedVerdict::Block(h) => VerdictV::Block(
                HitV { list: h.list, line: h.line, text: h.text@ },
            ),
            OwnedVerdict::Except(h) => VerdictV::Except(
                HitV { list: h.list, line: h.line, text: h.text@ },
            ),
        }
    }
}

impl View for Verdict<'_> {
    type V = VerdictV;

    open spec fn view(&self) -> VerdictV {
        match *self {
            Verdict::NoMatch => VerdictV::NoMatch,
            Verdict::Block { list, rule } => VerdictV::Block(
                HitV { list, line: rule.line, text: rule.text@ },
            ),
            Verdict::Except { list, rule } => VerdictV::Except(
                HitV { list, line: rule.line, text: rule.text@ },
            ),
        }
    }
}

impl Verdict<'_> {
    /// Copy the verdict out of the engine borrow.
    #[must_use]
    pub fn detach(&self) -> (r: OwnedVerdict)
        ensures
            r@ == self@,
    {
        match self {
            Verdict::NoMatch => OwnedVerdict::NoMatch,
            Verdict::Block { list, rule } => OwnedVerdict::Block(
                RuleHit { list: *list, line: rule.line, text: rule.text.to_string() },
            ),
            Verdict::Except { list, rule } => OwnedVerdict::Except(
                RuleHit { list: *list, line: rule.line, text: rule.text.to_string() },
            ),
        }
    }
}

/// Result of streaming one list into an [`EngineBuilder`].
#[derive(Debug)]
pub struct AddedList {
    /// List index used in [`Verdict`].
    pub index: usize,
    /// Number of rules compacted into the engine.
    pub rules: usize,
    /// Rejected lines.
    pub issues: Vec<LineIssue>,
}

/// What adding a list's rules comes to: the list's index, and the rules behind
/// those there were.
pub open spec fn list_added(
    before: EngineV,
    rules: Seq<RuleV>,
    list: usize,
    after: EngineV,
) -> bool {
    list == before.lists && after == before.with_list(rules)
}

/// What adding a list's text comes to: its rules in the engine, counted, and
/// its issues.
pub open spec fn text_added(
    before: EngineV,
    text: Seq<char>,
    added: AddedList,
    after: EngineV,
) -> bool {
    &&& added.index == before.lists
    &&& added.rules == list_result(text).rules.len()
    &&& issues_of(added.issues@) == list_result(text).issues
    &&& after == before.with_list(list_result(text).rules)
}

/// Builds an [`Engine`] from parsed lists. Each list is compacted as it is
/// added.
pub struct EngineBuilder {
    engine: Engine,
}

impl View for EngineBuilder {
    type V = EngineV;

    closed spec fn view(&self) -> EngineV {
        self.engine@
    }
}

impl EngineBuilder {
    pub closed spec fn wf(&self) -> bool {
        self.engine.holds_rules()
    }

    #[must_use]
    pub fn new() -> (r: EngineBuilder)
        ensures
            r.wf(),
            r@ == (EngineV { rules: seq![], lists: 0 }),
    {
        EngineBuilder { engine: Engine::empty() }
    }

    /// Add one list's rules; returns the list index used in [`Verdict`]. An
    /// engine holds at most 65536 lists.
    pub fn add_list(&mut self, rules: Vec<Rule>) -> (list: usize)
        requires
            old(self).wf(),
            old(self)@.lists <= u16::MAX,
        ensures
            final(self).wf(),
            list_added(old(self)@, rules_of(rules@), list, final(self)@),
    {
        self.engine.add_list(rules)
    }

    /// Parse a whole list directly into compact storage, line by line. The
    /// rules and issues are those that [`parse_list`] gives.
    pub fn add_list_text(&mut self, text: &str) -> (added: AddedList)
        requires
            old(self).wf(),
            old(self)@.lists <= u16::MAX,
        ensures
            final(self).wf(),
            text_added(old(self)@, text@, added, final(self)@),
    {
        let index: usize = self.engine.begin_list();
        let before: usize = self.engine.stored_rules();
        let mut issues: Vec<LineIssue> = Vec::new();
        parse_list_streamed(text, &mut self.engine, &mut issues);
        let after: usize = self.engine.stored_rules();
        assert(issues_of(issues@) == list_result(text@).issues);
        AddedList { index, rules: after - before, issues }
    }

    /// Compile all added lists into a matcher.
    #[must_use]
    pub fn build(self) -> (r: Engine)
        requires
            self.wf(),
        ensures
            r.wf(),
            r@ == self@,
    {
        let mut engine = self.engine;
        engine.finish();
        engine
    }
}

impl Default for EngineBuilder {
    fn default() -> (r: EngineBuilder)
        ensures
            r.wf(),
            r@ == (EngineV { rules: seq![], lists: 0 }),
    {
        EngineBuilder::new()
    }
}

} // verus!
