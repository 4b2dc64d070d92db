//! Blocklist acquisition and engine building. Fail loud.
//!
//! For each [`ListSource`]:
//! - `path` set: the file is read; unreadable is an error.
//! - `url` set: it is fetched with `If-None-Match` against the stored `ETag`.
//!   Success stores body and `ETag`. A failed fetch falls back to the stored
//!   copy; a failed fetch with no stored copy is a [`ListError`]: nothing
//!   starts half-filtering.
//! - Both set: `path` seeds the first run, `url` refreshes thereafter.
//!
//! The functions here decide; who calls them reads, writes and fetches.
pub mod fetch;

use vstd::prelude::*;

use crate::config::{hex, hex_encode, sha256, sha256_of, ListSource};
use crate::filter::engine::{listed, EngineV};
use crate::filter::parse::list_result;
use crate::filter::{issues_of, parse_list, Engine, EngineBuilder, IssueV, LineIssue};
use crate::text::{chars_of, decimal, decimal_of, string_of, trim, trimmed};

verus! {

#[derive(Debug, PartialEq, Eq)]
pub enum ListError {
    /// The list cannot be fetched and no copy of it is there.
    Unavailable { name: String, url: String, reason: String },
    /// A file cannot be read.
    Read { name: String, path: String, reason: String },
    /// The list has neither `url` nor `path`.
    NoSource { name: String },
    /// The directory for stored copies is missing or cannot be written.
    ListDir(String),
    /// It could not be created.
    ListDirCreate { path: String, reason: String },
}

impl ListError {
    /// The error in words.
    pub open spec fn words(self) -> Seq<char> {
        match self {
            ListError::Unavailable { name, url, reason } => "list "@ + name@ + ": cannot fetch "@
                + url@ + " and no stored copy exists: "@ + reason@,
            ListError::Read { name, path, reason } => "list "@ + name@ + ": cannot read "@ + path@
                + ": "@ + reason@,
            ListError::NoSource { name } => "list "@ + name@ + ": has neither url nor path"@,
            ListError::ListDir(path) => "list_dir "@ + path@
                + " does not exist or is not writable"@,
            ListError::ListDirCreate { path, reason } => "list_dir "@ + path@
                + " could not be created: "@ + reason@,
        }
    }

    /// The error in words.
    pub fn message(&self) -> (r: String)
        ensures
            r@ == self.words(),
    {
        let mut out: String;
        match self {
            ListError::Unavailable { name, url, reason } => {
                out = "list ".to_string();
                out.push_str(name.as_str());
                out.push_str(": cannot fetch ");
                out.push_str(url.as_str());
                out.push_str(" and no stored copy exists: ");
                out.push_str(reason.as_str());
            },
            ListError::Read { name, path, reason } => {
                out = "list ".to_string();
                out.push_str(name.as_str());
                out.push_str(": cannot read ");
                out.push_str(path.as_str());
                out.push_str(": ");
                out.push_str(reason.as_str());
            },
            ListError::NoSource { name } => {
                out = "list ".to_string();
                out.push_str(name.as_str());
                out.push_str(": has neither url nor path");
            },
            ListError::ListDir(path) => {
                out = "list_dir ".to_string();
                out.push_str(path.as_str());
                out.push_str(" does not exist or is not writable");
            },
            ListError::ListDirCreate { path, reason } => {
                out = "list_dir ".to_string();
                out.push_str(path.as_str());
                out.push_str(" could not be created: ");
                out.push_str(reason.as_str());
            },
        }
        out
    }
}

/// Whether the directory for stored copies is to be created first. Working
/// offline creates nothing, so that a wrong path is reported.
pub fn creates_list_dir(offline: bool, is_dir: bool) -> (r: bool)
    ensures
        r == (!offline && !is_dir),
{
    !offline && !is_dir
}

/// Judge the directory for stored copies: what creating it came to (`Ok`
/// where it was not tried), whether it is one now, and whether a file could be
/// written into it (of no matter offline).
pub fn check_list_dir(
    path: &str,
    offline: bool,
    created: Result<(), String>,
    is_dir: bool,
    writable: bool,
) -> (r: Result<(), ListError>)
    ensures
        match r {
            Ok(_) => created is Ok && is_dir && (offline || writable),
            Err(ListError::ListDirCreate { path: p, reason }) => p@ == path@ && created is Err
                && reason@ == created->Err_0@,
            Err(ListError::ListDir(p)) => p@ == path@ && created is Ok && (!is_dir || (!offline
                && !writable)),
            Err(_) => false,
        },
{
    if let Err(reason) = created {
        return Err(ListError::ListDirCreate { path: path.to_string(), reason });
    }
    if !is_dir || (!offline && !writable) {
        return Err(ListError::ListDir(path.to_string()));
    }
    Ok(())
}

fn named(name: &str, suffix: &str) -> (r: String)
    ensures
        r@ == name@ + suffix@,
{
    let mut out = name.to_string();
    out.push_str(suffix);
    out
}

/// File name of a list's stored copy.
pub fn stored_file(name: &str) -> (r: String)
    ensures
        r@ == name@ + ".txt"@,
{
    named(name, ".txt")
}

/// File name of a list's stored `ETag`.
pub fn etag_file(name: &str) -> (r: String)
    ensures
        r@ == name@ + ".etag"@,
{
    named(name, ".etag")
}

/// How a list's text is got.
#[derive(Debug, PartialEq, Eq)]
pub enum Acquisition {
    /// Read this file; not being able to is a [`ListError::Read`].
    Read(String),
    /// Fetch this URL.
    Fetch(String),
    /// There is nothing to get it from.
    Fail(ListError),
}

/// The copy to use when nothing is fetched: the stored one, else the seed,
/// else none.
pub open spec fn fallback_is(
    source: ListSource,
    stored: Seq<char>,
    stored_is_file: bool,
    seed_is_file: bool,
    reason: Seq<char>,
    r: Acquisition,
) -> bool {
    if stored_is_file {
        r matches Acquisition::Read(p) && p@ == stored
    } else if source.path is Some && seed_is_file {
        r matches Acquisition::Read(p) && p@ == source.path->0@
    } else {
        r matches Acquisition::Fail(ListError::Unavailable { name, url, reason: why }) && name@
            == source.name@ && why@ == reason && match source.url {
            Some(u) => url@ == u@,
            None => url@.len() == 0,
        }
    }
}

fn fallback(
    source: &ListSource,
    stored: &str,
    stored_is_file: bool,
    seed_is_file: bool,
    reason: String,
) -> (r: Acquisition)
    ensures
        fallback_is(*source, stored@, stored_is_file, seed_is_file, reason@, r),
{
    if stored_is_file {
        return Acquisition::Read(stored.to_string());
    }
    if seed_is_file {
        if let Some(path) = &source.path {
            return Acquisition::Read(path.clone());
        }
    }
    let url = match &source.url {
        Some(u) => u.clone(),
        None => String::new(),
    };
    Acquisition::Fail(ListError::Unavailable { name: source.name.clone(), url, reason })
}

/// Where a list's text comes from.
pub open spec fn acquired(
    source: ListSource,
    stored: Seq<char>,
    offline: bool,
    stored_is_file: bool,
    seed_is_file: bool,
    r: Acquisition,
) -> bool {
    match (source.url, source.path) {
        (None, None) => r matches Acquisition::Fail(ListError::NoSource { name }) && name@
            == source.name@,
        (None, Some(path)) => r matches Acquisition::Read(p) && p@ == path@,
        (Some(url), _) => if offline {
            fallback_is(source, stored, stored_is_file, seed_is_file, "offline"@, r)
        } else {
            r matches Acquisition::Fetch(u) && u@ == url@
        },
    }
}

/// Decide where a list's text comes from. `stored` is the path of its stored
/// copy; the two flags say whether that path, and the source's own, are files.
pub fn acquire_list(
    source: &ListSource,
    stored: &str,
    offline: bool,
    stored_is_file: bool,
    seed_is_file: bool,
) -> (r: Acquisition)
    ensures
        acquired(*source, stored@, offline, stored_is_file, seed_is_file, r),
        match (source.url, source.path) {
            (None, None) => r matches Acquisition::Fail(ListError::NoSource { name }) && name@
                == source.name@,
            (None, Some(path)) => r matches Acquisition::Read(p) && p@ == path@,
            (Some(url), _) => if offline {
                fallback_is(*source, stored@, stored_is_file, seed_is_file, "offline"@, r)
            } else {
                r matches Acquisition::Fetch(u) && u@ == url@
            },
        },
{
    match &source.url {
        None => match &source.path {
            None => Acquisition::Fail(ListError::NoSource { name: source.name.clone() }),
            Some(path) => Acquisition::Read(path.clone()),
        },
        Some(url) => if offline {
            fallback(source, stored, stored_is_file, seed_is_file, "offline".to_string())
        } else {
            Acquisition::Fetch(url.clone())
        },
    }
}

/// Decide what is used instead of a fetch that failed.
pub fn after_failed_fetch(
    source: &ListSource,
    stored: &str,
    stored_is_file: bool,
    seed_is_file: bool,
    reason: String,
) -> (r: Acquisition)
    ensures
        fallback_is(*source, stored@, stored_is_file, seed_is_file, reason@, r),
{
    fallback(source, stored, stored_is_file, seed_is_file, reason)
}

/// Take in what reading a list's file came to.
pub fn after_read(name: &str, path: &str, read: Result<String, String>) -> (r: Result<
    String,
    ListError,
>)
    ensures
        match read {
            Ok(text) => r is Ok && r->Ok_0@ == text@,
            Err(reason) => r is Err && r->Err_0 is Read && r->Err_0->Read_name@ == name@
                && r->Err_0->Read_path@ == path@ && r->Err_0->Read_reason@ == reason@,
        },
{
    match read {
        Ok(text) => Ok(text),
        Err(reason) => Err(
            ListError::Read { name: name.to_string(), path: path.to_string(), reason },
        ),
    }
}

/// The `If-None-Match` value to send, given what the `ETag` file holds.
pub fn etag_to_send(stored: Option<&str>) -> (r: Option<String>)
    ensures
        match stored {
            Some(s) if trim(s@).len() > 0 => r is Some && r->0@ == trim(s@),
            _ => r is None,
        },
{
    match stored {
        Some(s) => {
            let cs = chars_of(s);
            let t = trimmed(cs.as_slice());
            if t.len() == 0 {
                None
            } else {
                Some(string_of(t))
            }
        },
        None => None,
    }
}

/// What an HTTP status means for a fetch.
#[derive(Debug, PartialEq, Eq)]
pub enum StatusStep {
    /// Not modified: use the stored copy.
    UseStored,
    /// Read the body.
    ReadBody,
    /// Fail.
    Refuse(String),
}

/// Judge an HTTP status; `words` is the status as the client writes it.
pub fn judge_status(status: u16, words: &str) -> (r: StatusStep)
    ensures
        if status == 304 {
            r is UseStored
        } else if 200 <= status < 300 {
            r is ReadBody
        } else {
            r matches StatusStep::Refuse(why) && why@ == "HTTP "@ + words@
        },
{
    if status == 304 {
        StatusStep::UseStored
    } else if 200 <= status && status < 300 {
        StatusStep::ReadBody
    } else {
        let mut why = "HTTP ".to_string();
        why.push_str(words);
        StatusStep::Refuse(why)
    }
}

/// Take in the stored copy after a status that said it is current.
pub fn judge_stored(read: Result<String, String>) -> (r: Result<String, String>)
    ensures
        match read {
            Ok(text) => r is Ok && r->Ok_0@ == text@,
            Err(e) => r is Err && r->Err_0@ == "304 but stored copy unreadable: "@ + e@,
        },
{
    match read {
        Ok(text) => Ok(text),
        Err(e) => {
            let mut why = "304 but stored copy unreadable: ".to_string();
            why.push_str(e.as_str());
            Err(why)
        },
    }
}

/// Why a body without rules is refused.
pub open spec fn refusal(body: Seq<char>) -> Seq<char> {
    "fetched content contains no rules ("@ + decimal(list_result(body).issues.len())
        + " rejected lines) — refusing to store it"@
}

/// Check a fetched body before it is stored: a captive portal's page would
/// otherwise replace the last good copy and silently disable filtering.
pub fn judge_body(body: &str) -> (r: Result<(), String>)
    ensures
        match r {
            Ok(_) => list_result(body@).rules.len() > 0,
            Err(why) => list_result(body@).rules.len() == 0 && why@ == refusal(body@),
        },
{
    let parsed = parse_list(body);
    let n: usize = parsed.rules.len();
    proof {
        assert(parsed@.rules.len() == parsed.rules@.len());
        assert(parsed@.issues.len() == parsed.issues@.len());
    }
    if n > 0 {
        return Ok(());
    }
    let k: usize = parsed.issues.len();
    let mut why = "fetched content contains no rules (".to_string();
    why.push_str(decimal_of(k as u64).as_str());
    why.push_str(" rejected lines) — refusing to store it");
    Err(why)
}

/// What happens to the `ETag` file after a body was fetched.
#[derive(Debug, PartialEq, Eq)]
pub enum EtagStep {
    Write(String),
    Keep,
    Remove,
}

/// A stored `ETag` without a stored body would make every later fetch find
/// nothing new and nothing stored, so it goes when the body could not be
/// written.
pub fn after_store(body_stored: bool, etag: Option<String>) -> (r: EtagStep)
    ensures
        match (body_stored, etag) {
            (false, _) => r is Remove,
            (true, Some(e)) => r matches EtagStep::Write(w) && w@ == e@,
            (true, None) => r is Keep,
        },
{
    if !body_stored {
        return EtagStep::Remove;
    }
    match etag {
        Some(e) => EtagStep::Write(e),
        None => EtagStep::Keep,
    }
}

/// A built engine plus provenance.
pub struct LoadedLists {
    pub engine: Engine,
    /// List names, in the engine's list order.
    pub names: Vec<String>,
    /// SHA-256, in hexadecimal, over all lists' raw bytes, in order.
    pub hash: String,
    /// Parse issues with the name of their list.
    pub issues: Vec<(String, LineIssue)>,
    /// Per-list rule counts, in the order of `names`.
    pub rule_counts: Vec<usize>,
}

/// Every rule is filed under one of the first `names` lists.
pub open spec fn filed(e: EngineV, names: nat) -> bool {
    forall|k: int| 0 <= k < e.rules.len() ==> (#[trigger] e.rules[k]).list < names
}

impl LoadedLists {
    /// The engine is in order and every list in it has a name.
    pub open spec fn wf(&self) -> bool {
        self.engine.wf() && filed(self.engine@, self.names@.len())
    }
}

/// Lists on their way into an engine.
pub struct Loader {
    builder: EngineBuilder,
    names: Vec<String>,
    issues: Vec<(String, LineIssue)>,
    rule_counts: Vec<usize>,
    raw: Vec<u8>,
}

/// What some lists come to, each a name and its text.
#[verifier::ext_equal]
pub struct LoadV {
    pub engine: EngineV,
    pub names: Seq<Seq<char>>,
    pub issues: Seq<(Seq<char>, IssueV)>,
    pub counts: Seq<nat>,
    pub raw: Seq<u8>,
}

pub open spec fn named_issues(name: Seq<char>, issues: Seq<IssueV>) -> Seq<(Seq<char>, IssueV)> {
    Seq::new(issues.len(), |i: int| (name, issues[i]))
}

pub open spec fn tagged(v: Seq<(String, LineIssue)>) -> Seq<(Seq<char>, IssueV)> {
    Seq::new(v.len(), |i: int| (v[i].0@, v[i].1@))
}

pub open spec fn counts_of(v: Seq<usize>) -> Seq<nat> {
    Seq::new(v.len(), |i: int| v[i] as nat)
}

/// One more list.
pub open spec fn load_one(s: LoadV, name: Seq<char>, text: Seq<char>) -> LoadV {
    let found = list_result(text);
    LoadV {
        engine: EngineV {
            rules: s.engine.rules + listed(s.engine.lists, found.rules),
            lists: s.engine.lists + 1,
        },
        names: s.names.push(name),
        issues: s.issues + named_issues(name, found.issues),
        counts: s.counts.push(found.rules.len()),
        raw: s.raw + vstd::utf8::encode_utf8(text),
    }
}

/// No list.
pub open spec fn load_none() -> LoadV {
    LoadV {
        engine: EngineV { rules: seq![], lists: 0 },
        names: seq![],
        issues: seq![],
        counts: seq![],
        raw: seq![],
    }
}

/// All of some lists, in order.
pub open spec fn load_all(lists: Seq<(Seq<char>, Seq<char>)>) -> LoadV
    decreases lists.len(),
{
    if lists.len() == 0 {
        load_none()
    } else {
        load_one(load_all(lists.drop_last()), lists.last().0, lists.last().1)
    }
}

impl View for Loader {
    type V = LoadV;

    closed spec fn view(&self) -> LoadV {
        LoadV {
            engine: self.builder@,
            names: crate::text::texts(self.names@),
            issues: tagged(self.issues@),
            counts: counts_of(self.rule_counts@),
            raw: self.raw@,
        }
    }
}

fn append_bytes(out: &mut Vec<u8>, more: &[u8])
    ensures
        final(out)@ == old(out)@ + more@,
{
    let n: usize = more.len();
    let ghost before = out@;
    for i in 0..n
        invariant
            n == more@.len(),
            out@ == before + more@.take(i as int),
    {
        out.push(more[i]);
        assert(more@.take(i + 1) == more@.take(i as int).push(more@[i as int]));
    }
    assert(more@.take(n as int) == more@);
}

impl Loader {
    pub closed spec fn wf(&self) -> bool {
        self.builder.wf() && self.builder@.lists == self.names@.len() && filed(
            self.builder@,
            self.names@.len(),
        )
    }

    pub fn new() -> (r: Loader)
        ensures
            r.wf(),
            r@ == load_none(),
    {
        let r = Loader {
            builder: EngineBuilder::new(),
            names: Vec::new(),
            issues: Vec::new(),
            rule_counts: Vec::new(),
            raw: Vec::new(),
        };
        assert(r@ == load_none());
        r
    }

    /// Parse one list into the engine. An engine holds at most 65536 lists.
    pub fn load(&mut self, name: &str, text: &str)
        requires
            old(self).wf(),
            old(self)@.engine.lists <= u16::MAX,
        ensures
            final(self).wf(),
            final(self)@ == load_one(old(self)@, name@, text@),
    {
        let ghost before = self@;
        let ghost named = self.names@.len();
        let ghost found = list_result(text@);
        append_bytes(&mut self.raw, text.as_bytes());
        let added = self.builder.add_list_text(text);
        let ghost listed_issues = added.issues@;
        let ghost old_issues = self.issues@;
        for issue in it: added.issues
            invariant
                it.seq() == listed_issues,
                issues_of(listed_issues) == found.issues,
                tagged(self.issues@) == tagged(old_issues) + named_issues(
                    name@,
                    found.issues,
                ).take(it.index() as int),
                self.builder@ == load_one(before, name@, text@).engine,
                self.builder.wf(),
                self.names@ == old(self).names@,
                self.rule_counts@ == old(self).rule_counts@,
                self.raw@ == before.raw + vstd::utf8::encode_utf8(text@),
        {
            let ghost i = it.index() as int;
            let ghost sofar = self.issues@;
            self.issues.push((name.to_string(), issue));
            proof {
                let all = named_issues(name@, found.issues);
                assert(found.issues[i] == issue@);
                assert(all.take(i + 1) == all.take(i).push((name@, issue@)));
                assert(tagged(self.issues@) == tagged(sofar).push((name@, issue@)));
            }
        }
        self.rule_counts.push(added.rules);
        self.names.push(name.to_string());
        proof {
            let all = named_issues(name@, found.issues);
            assert(all.take(all.len() as int) == all);
            assert(self@ == load_one(before, name@, text@));
            let rules = self.builder@.rules;
            assert forall|k: int| 0 <= k < rules.len() implies (#[trigger] rules[k]).list
                < named + 1 by {
                if k < before.engine.rules.len() {
                    assert(rules[k] == before.engine.rules[k]);
                } else {
                    assert(rules[k] == listed(named, found.rules)[k
                        - before.engine.rules.len()]);
                }
            }
        }
    }

    /// Build the engine.
    pub fn finish(self) -> (r: LoadedLists)
        requires
            self.wf(),
        ensures
            r.wf(),
            r.engine@ == self@.engine,
            crate::text::texts(r.names@) == self@.names,
            r.hash@ == hex(sha256(self@.raw)),
            tagged(r.issues@) == self@.issues,
            counts_of(r.rule_counts@) == self@.counts,
    {
        let digest = sha256_of(self.raw.as_slice());
        LoadedLists {
            engine: self.builder.build(),
            names: self.names,
            hash: hex_encode(digest.as_slice()),
            issues: self.issues,
            rule_counts: self.rule_counts,
        }
    }
}

/// Loading keeps the lists apart: names and counts stand in the order of the
/// lists, and every rule of the engine is a rule of the list it is filed
/// under, counted there.
pub proof fn law_provenance(lists: Seq<(Seq<char>, Seq<char>)>)
    ensures
        load_all(lists).engine.lists == lists.len(),
        load_all(lists).names.len() == lists.len(),
        load_all(lists).counts.len() == lists.len(),
        forall|i: int|
            0 <= i < lists.len() ==> #[trigger] load_all(lists).names[i] == lists[i].0,
        forall|i: int|
            0 <= i < lists.len() ==> #[trigger] load_all(lists).counts[i] == list_result(
                lists[i].1,
            ).rules.len(),
        forall|k: int|
            0 <= k < load_all(lists).engine.rules.len() ==> {
                let e = #[trigger] load_all(lists).engine.rules[k];
                e.list < lists.len() && list_result(lists[e.list as int].1).rules.contains(e.rule)
            },
    decreases lists.len(),
{
    if lists.len() > 0 {
        let prev = lists.drop_last();
        law_provenance(prev);
        let s = load_all(prev);
        let found = list_result(lists.last().1);
        let all = load_all(lists);
        assert forall|k: int| 0 <= k < all.engine.rules.len() implies {
            let e = #[trigger] all.engine.rules[k];
            e.list < lists.len() && list_result(lists[e.list as int].1).rules.contains(e.rule)
        } by {
            let e = all.engine.rules[k];
            let n = s.engine.rules.len() as int;
            if k < n {
                assert(e == s.engine.rules[k]);
                assert(prev[e.list as int] == lists[e.list as int]);
            } else {
                assert(e == listed(s.engine.lists, found.rules)[k - n]);
                assert(e.rule == found.rules[k - n]);
            }
        }
    }
}

/// A list whose fetch failed is never skipped: its text is read from a copy
/// that is there, or loading fails with the fetch's reason.
pub proof fn law_never_half_filtering(
    source: ListSource,
    stored: Seq<char>,
    stored_is_file: bool,
    seed_is_file: bool,
    reason: Seq<char>,
    r: Acquisition,
)
    requires
        fallback_is(source, stored, stored_is_file, seed_is_file, reason, r),
    ensures
        match r {
            Acquisition::Read(p) => (stored_is_file && p@ == stored) || (seed_is_file
                && source.path is Some && p@ == source.path->0@),
            Acquisition::Fail(e) => e is Unavailable && e->Unavailable_reason@ == reason
                && !stored_is_file && !(seed_is_file && source.path is Some),
            Acquisition::Fetch(_) => false,
        },
{
}

/// What one more list adds: its name, the number of its rules, every rule of
/// it behind those there were, filed under its place, every issue of it under
/// its name, and its bytes to what the fingerprint is made of.
pub proof fn law_list_loaded(s: LoadV, name: Seq<char>, text: Seq<char>)
    ensures
        ({
            let r = load_one(s, name, text);
            let found = list_result(text);
            let n = s.engine.rules.len();
            let k = s.issues.len();
            &&& r.engine.lists == s.engine.lists + 1
            &&& r.engine.rules.len() == n + found.rules.len()
            &&& forall|i: int| 0 <= i < n ==> #[trigger] r.engine.rules[i] == s.engine.rules[i]
            &&& forall|i: int|
                0 <= i < found.rules.len() ==> (#[trigger] r.engine.rules[n + i]).rule
                    == found.rules[i] && r.engine.rules[n + i].list == s.engine.lists
            &&& r.names == s.names.push(name)
            &&& r.counts == s.counts.push(found.rules.len())
            &&& r.issues.len() == k + found.issues.len()
            &&& forall|i: int| 0 <= i < k ==> #[trigger] r.issues[i] == s.issues[i]
            &&& forall|i: int|
                0 <= i < found.issues.len() ==> (#[trigger] r.issues[k + i]).0 == name
                    && r.issues[k + i].1 == found.issues[i]
            &&& r.raw == s.raw + vstd::utf8::encode_utf8(text)
        }),
{
}

/// Without a list there is nothing.
pub proof fn law_nothing_loaded()
    ensures
        ({
            let r = load_all(seq![]);
            &&& r.engine.lists == 0 && r.engine.rules.len() == 0
            &&& r.names.len() == 0 && r.issues.len() == 0 && r.counts.len() == 0
            &&& r.raw.len() == 0
        }),
{
}

/// Lists are loaded one behind the other: all of some lists and then one more
/// is all of them.
pub proof fn law_loaded_in_order(lists: Seq<(Seq<char>, Seq<char>)>, more: (Seq<char>, Seq<char>))
    ensures
        load_all(lists.push(more)) == load_one(load_all(lists), more.0, more.1),
{
    assert(lists.push(more).drop_last() =~= lists);
}

/// What stands in for a list that is not fetched: its stored copy, else the
/// file it was seeded from, else nothing, and then the failure is told with
/// the list's name, its URL and the reason.
pub proof fn law_fallback(
    source: ListSource,
    stored: Seq<char>,
    stored_is_file: bool,
    seed_is_file: bool,
    reason: Seq<char>,
    r: Acquisition,
)
    requires
        fallback_is(source, stored, stored_is_file, seed_is_file, reason, r),
    ensures
        !(r is Fetch),
        stored_is_file ==> r is Read && r->Read_0@ == stored,
        !stored_is_file && seed_is_file && source.path is Some ==> r is Read && r->Read_0@
            == source.path->0@,
        !stored_is_file && (!seed_is_file || source.path is None) ==> {
            &&& r is Fail && r->Fail_0 is Unavailable
            &&& r->Fail_0->Unavailable_name@ == source.name@
            &&& r->Fail_0->Unavailable_reason@ == reason
            &&& source.url is Some ==> r->Fail_0->Unavailable_url@ == source.url->0@
        },
{
}

/// Errors in words.
pub proof fn law_error_words(name: String, url: String, path: String, reason: String)
    ensures
        (ListError::Unavailable { name, url, reason }).words() == "list "@ + name@
            + ": cannot fetch "@ + url@ + " and no stored copy exists: "@ + reason@,
        (ListError::Read { name, path, reason }).words() == "list "@ + name@ + ": cannot read "@
            + path@ + ": "@ + reason@,
        (ListError::NoSource { name }).words() == "list "@ + name@ + ": has neither url nor path"@,
        ListError::ListDir(path).words() == "list_dir "@ + path@
            + " does not exist or is not writable"@,
        (ListError::ListDirCreate { path, reason }).words() == "list_dir "@ + path@
            + " could not be created: "@ + reason@,
{
}

/// A body without rules is refused with the number of its lines that were
/// rejected.
pub proof fn law_refusal_words(body: Seq<char>)
    ensures
        refusal(body) == "fetched content contains no rules ("@ + decimal(
            list_result(body).issues.len(),
        ) + " rejected lines) — refusing to store it"@,
{
}

/// Where a list comes from: from its file where it has no URL; from the URL
/// where it has one; and offline from what stands in for that.
pub proof fn law_acquired(
    source: ListSource,
    stored: Seq<char>,
    offline: bool,
    stored_is_file: bool,
    seed_is_file: bool,
    r: Acquisition,
)
    requires
        acquired(source, stored, offline, stored_is_file, seed_is_file, r),
    ensures
        source.url is None && source.path is None ==> r is Fail && r->Fail_0 is NoSource
            && r->Fail_0->NoSource_name@ == source.name@,
        source.url is None && source.path is Some ==> r is Read && r->Read_0@ == source.path->0@,
        source.url is Some && !offline ==> r is Fetch && r->Fetch_0@ == source.url->0@,
        source.url is Some && offline ==> !(r is Fetch),
        source.url is Some && offline && stored_is_file ==> r is Read && r->Read_0@ == stored,
        source.url is Some && offline && !stored_is_file && !seed_is_file ==> r is Fail
            && r->Fail_0 is Unavailable,
{
}

/// What is asked of the list directory: it is made where it is missing, unless
/// offline; and it passes exactly where making it did not fail, it is there, and
/// it can be written to or need not be. The failure of making it comes first.
pub proof fn law_list_dir(
    path: &str,
    offline: bool,
    created: Result<(), String>,
    is_dir: bool,
    writable: bool,
    creates: bool,
    r: Result<(), ListError>,
)
    requires
        call_ensures(creates_list_dir, (offline, is_dir), creates),
        call_ensures(check_list_dir, (path, offline, created, is_dir, writable), r),
    ensures
        creates ==> !offline && !is_dir,
        !creates ==> offline || is_dir,
        r is Ok ==> created is Ok && is_dir,
        r is Ok && !offline ==> writable,
        created is Ok && is_dir && offline ==> r is Ok,
        created is Ok && is_dir && writable ==> r is Ok,
        created is Err ==> r is Err && r->Err_0 is ListDirCreate && r->Err_0->ListDirCreate_path@ == path@
            && r->Err_0->ListDirCreate_reason@ == created->Err_0@,
        created is Ok && r is Err ==> r->Err_0 is ListDir && r->Err_0->ListDir_0@ == path@,
{
}

/// A list's text and its tag are kept in two files of the list's name, which no
/// other list shares.
pub proof fn law_list_files(
    name: &str,
    other: &str,
    stored: String,
    tag: String,
    stored_other: String,
    tag_other: String,
)
    requires
        call_ensures(stored_file, (name,), stored),
        call_ensures(etag_file, (name,), tag),
        call_ensures(stored_file, (other,), stored_other),
        call_ensures(etag_file, (other,), tag_other),
    ensures
        stored@.len() == name@.len() + 4 && stored@.take(name@.len() as int) == name@,
        tag@.len() == name@.len() + 5 && tag@.take(name@.len() as int) == name@,
        stored@.skip(name@.len() as int) == ".txt"@,
        tag@.skip(name@.len() as int) == ".etag"@,
        stored@ == stored_other@ ==> name@ == other@,
        tag@ == tag_other@ ==> name@ == other@,
        stored@ != tag_other@,
{
    reveal_strlit(".txt");
    reveal_strlit(".etag");
    let n = name@.len() as int;
    assert(stored@.take(n) =~= name@ && tag@.take(n) =~= name@);
    assert(stored@.skip(n) =~= ".txt"@ && tag@.skip(n) =~= ".etag"@);
    assert(stored_other@.take(other@.len() as int) =~= other@);
    assert(tag_other@.take(other@.len() as int) =~= other@);
    if stored@ == tag_other@ {
        assert(stored@.last() == 't' && tag_other@.last() == 'g');
    }
}

/// Reading a list's file gives its text, or an error that names the list, the
/// file and the reason.
pub proof fn law_read_list(
    name: &str,
    path: &str,
    read: Result<String, String>,
    r: Result<String, ListError>,
)
    requires
        call_ensures(after_read, (name, path, read), r),
    ensures
        r is Ok == read is Ok,
        r is Ok ==> r->Ok_0@ == read->Ok_0@,
        r is Err ==> r->Err_0 is Read,
        r is Err ==> r->Err_0->Read_name@ == name@ && r->Err_0->Read_path@ == path@,
        r is Err ==> r->Err_0->Read_reason@ == read->Err_0@,
{
}

} // verus!
