//! Safe-search rewrite table.
//!
//! When enabled, certain search-engine query names are rewritten to their
//! safe-search CNAME targets before upstream resolution.
use vstd::prelude::*;

use crate::text::{chars_are, chars_of, is_alpha, starts_with, starts_with_str, str_eq};

verus! {

/// Two-part country-code suffixes of Google domains.
pub const TWO_PART_TLDS: [&'static str; 6] = [
    "com.br",
    "co.uk",
    "com.au",
    "com.mx",
    "co.jp",
    "co.in",
];

/// Configuration error of the safe-search table.
#[derive(Debug, Clone)]
pub enum ConfigError {
    /// An unknown provider name was supplied.
    Invalid(String),
}

impl ConfigError {
    /// The error in words.
    pub fn message(&self) -> (r: String)
        ensures
            r@ == self->Invalid_0@,
    {
        match self {
            ConfigError::Invalid(msg) => msg.clone(),
        }
    }
}

/// The providers whose search is enforced.
#[derive(Debug, Clone, Copy, PartialEq, Eq, Structural)]
pub struct SafeSearch {
    google: bool,
    youtube: bool,
    bing: bool,
    duckduckgo: bool,
}

/// Model of [`SafeSearch`].
pub struct ProvidersV {
    pub google: bool,
    pub youtube: bool,
    pub bing: bool,
    pub duckduckgo: bool,
}

impl View for SafeSearch {
    type V = ProvidersV;

    closed spec fn view(&self) -> ProvidersV {
        ProvidersV {
            google: self.google,
            youtube: self.youtube,
            bing: self.bing,
            duckduckgo: self.duckduckgo,
        }
    }
}

/// Whether the provider name is known.
pub open spec fn supported(p: Seq<char>) -> bool {
    p == "google"@ || p == "youtube"@ || p == "bing"@ || p == "duckduckgo"@
}

/// The texts of string slices.
pub open spec fn strs(v: Seq<&str>) -> Seq<Seq<char>> {
    Seq::new(v.len(), |i: int| v[i]@)
}

pub open spec fn lists_provider(providers: Seq<Seq<char>>, p: Seq<char>) -> bool {
    exists|i: int| 0 <= i < providers.len() && (#[trigger] providers[i]) == p
}

/// The table for a set of provider names: no name means all of them.
pub open spec fn providers_on(providers: Seq<Seq<char>>) -> ProvidersV {
    ProvidersV {
        google: providers.len() == 0 || lists_provider(providers, "google"@),
        youtube: providers.len() == 0 || lists_provider(providers, "youtube"@),
        bing: providers.len() == 0 || lists_provider(providers, "bing"@),
        duckduckgo: providers.len() == 0 || lists_provider(providers, "duckduckgo"@),
    }
}

/// The first unknown name, or the length when all are known.
pub open spec fn first_unknown(providers: Seq<Seq<char>>, from: int) -> int
    decreases providers.len() - from,
{
    if from < 0 || from >= providers.len() {
        providers.len() as int
    } else if !supported(providers[from]) {
        from
    } else {
        first_unknown(providers, from + 1)
    }
}

/// The message about an unknown name.
pub open spec fn unknown_message(p: Seq<char>) -> Seq<char> {
    "unknown safe-search provider \""@ + p
        + "\"; supported: google, youtube, bing, duckduckgo"@
}

/// A table can be built: nothing is to be enforced, or every name is known.
pub open spec fn accepted(enabled: bool, providers: Seq<Seq<char>>) -> bool {
    !enabled || first_unknown(providers, 0) == providers.len()
}

/// What building a table gives: disabled, nothing is enforced; a name that is
/// not known is an error about it.
pub open spec fn made(
    enabled: bool,
    providers: Seq<Seq<char>>,
    r: Result<SafeSearch, ConfigError>,
) -> bool {
    let unknown = first_unknown(providers, 0);
    match r {
        Ok(s) => if enabled {
            unknown == providers.len() && s@ == providers_on(providers)
        } else {
            s@ == (ProvidersV { google: false, youtube: false, bing: false, duckduckgo: false })
        },
        Err(e) => enabled && unknown < providers.len() && e->Invalid_0@ == unknown_message(
            providers[unknown],
        ),
    }
}

/// Names of YouTube front ends.
pub open spec fn youtube_name(q: Seq<char>) -> bool {
    q == "www.youtube.com"@ || q == "m.youtube.com"@ || q == "youtubei.googleapis.com"@ || q
        == "youtube.googleapis.com"@ || q == "www.youtube-nocookie.com"@
}

/// `www.google.` followed by a known two-part suffix or by two to six letters.
pub open spec fn google_name(q: Seq<char>) -> bool {
    starts_with(q, "www.google."@) && plausible_tld(q.skip("www.google."@.len() as int))
}

pub open spec fn plausible_tld(t: Seq<char>) -> bool {
    ||| exists|i: int| 0 <= i < 6 && (#[trigger] TWO_PART_TLDS@[i])@ == t
    ||| 2 <= t.len() <= 6 && forall|i: int| 0 <= i < t.len() ==> is_alpha(#[trigger] t[i])
}

/// Where a query name is sent, if anywhere. The name is normalized: lowercase,
/// no trailing dot.
pub open spec fn rewritten(p: ProvidersV, q: Seq<char>) -> Option<Seq<char>> {
    if p.youtube && youtube_name(q) {
        Some("restrictmoderate.youtube.com"@)
    } else if p.bing && q == "www.bing.com"@ {
        Some("strict.bing.com"@)
    } else if p.duckduckgo && (q == "duckduckgo.com"@ || q == "www.duckduckgo.com"@) {
        Some("safe.duckduckgo.com"@)
    } else if p.google && google_name(q) {
        Some("forcesafesearch.google.com"@)
    } else {
        None
    }
}

impl SafeSearch {
    /// Build a rewrite table.
    ///
    /// Disabled, it rewrites nothing. Enabled without provider names, all
    /// providers are active. An unknown name is an error that names it and
    /// lists the supported ones.
    pub fn new(enabled: bool, providers: &[&str]) -> (r: Result<SafeSearch, ConfigError>)
        ensures
            made(enabled, strs(providers@), r),
    {
        if !enabled {
            return Ok(
                SafeSearch { google: false, youtube: false, bing: false, duckduckgo: false },
            );
        }
        let n: usize = providers.len();
        let ghost names = strs(providers@);
        let mut s = SafeSearch { google: false, youtube: false, bing: false, duckduckgo: false };
        for i in 0..n
            invariant
                enabled,
                n == providers@.len(),
                names == strs(providers@),
                first_unknown(names, 0) == first_unknown(names, i as int),
                s.google == exists|j: int| 0 <= j < i && (#[trigger] names[j]) == "google"@,
                s.youtube == exists|j: int| 0 <= j < i && (#[trigger] names[j]) == "youtube"@,
                s.bing == exists|j: int| 0 <= j < i && (#[trigger] names[j]) == "bing"@,
                s.duckduckgo == exists|j: int|
                    0 <= j < i && (#[trigger] names[j]) == "duckduckgo"@,
        {
            let p = providers[i];
            assert(names[i as int] == p@);
            proof {
                reveal_strlit("google");
                reveal_strlit("youtube");
                reveal_strlit("bing");
                reveal_strlit("duckduckgo");
                assert("google"@[0] != "youtube"@[0] && "google"@[0] != "bing"@[0] && "google"@[0]
                    != "duckduckgo"@[0] && "youtube"@[0] != "bing"@[0] && "youtube"@[0]
                    != "duckduckgo"@[0] && "bing"@[0] != "duckduckgo"@[0]);
            }
            if str_eq(p, "google") {
                s.google = true;
            } else if str_eq(p, "youtube") {
                s.youtube = true;
            } else if str_eq(p, "bing") {
                s.bing = true;
            } else if str_eq(p, "duckduckgo") {
                s.duckduckgo = true;
            } else {
                let mut msg = "unknown safe-search provider \"".to_string();
                msg.push_str(p);
                msg.push_str("\"; supported: google, youtube, bing, duckduckgo");
                return Err(ConfigError::Invalid(msg));
            }
        }
        if n == 0 {
            return Ok(SafeSearch { google: true, youtube: true, bing: true, duckduckgo: true });
        }
        Ok(s)
    }

    /// The CNAME target if the name is one of a provider that is enforced. The
    /// name is normalized: lowercase, no trailing dot.
    #[must_use]
    pub fn rewrite(&self, qname: &str) -> (r: Option<&'static str>)
        ensures
            match r {
                Some(t) => rewritten(self@, qname@) == Some(t@),
                None => rewritten(self@, qname@) is None,
            },
    {
        if self.youtube && (str_eq(qname, "www.youtube.com") || str_eq(qname, "m.youtube.com")
            || str_eq(qname, "youtubei.googleapis.com") || str_eq(qname, "youtube.googleapis.com")
            || str_eq(qname, "www.youtube-nocookie.com")) {
            return Some("restrictmoderate.youtube.com");
        }
        if self.bing && str_eq(qname, "www.bing.com") {
            return Some("strict.bing.com");
        }
        if self.duckduckgo && (str_eq(qname, "duckduckgo.com") || str_eq(
            qname,
            "www.duckduckgo.com",
        )) {
            return Some("safe.duckduckgo.com");
        }
        if self.google && is_google_search_domain(qname) {
            return Some("forcesafesearch.google.com");
        }
        None
    }
}

/// Whether the name is `www.google.<tld>` with a plausible suffix.
fn is_google_search_domain(qname: &str) -> (r: bool)
    ensures
        r == google_name(qname@),
{
    let q = chars_of(qname);
    if !starts_with_str(q.as_slice(), "www.google.") {
        return false;
    }
    let p = chars_of("www.google.");
    let len: usize = q.len();
    let rest = &q.as_slice()[p.len()..len];
    assert(rest@ == qname@.skip("www.google."@.len() as int));
    for i in 0..6usize
        invariant
            rest@ == qname@.skip("www.google."@.len() as int),
            starts_with(qname@, "www.google."@),
            forall|j: int| 0 <= j < i ==> (#[trigger] TWO_PART_TLDS@[j])@ != rest@,
    {
        if chars_are(rest, TWO_PART_TLDS[i]) {
            assert(TWO_PART_TLDS@[i as int]@ == rest@);
            return true;
        }
    }
    let n: usize = rest.len();
    if n < 2 || n > 6 {
        return false;
    }
    for i in 0..n
        invariant
            n == rest@.len(),
            2 <= n <= 6,
            rest@ == qname@.skip("www.google."@.len() as int),
            starts_with(qname@, "www.google."@),
            forall|j: int| 0 <= j < 6 ==> (#[trigger] TWO_PART_TLDS@[j])@ != rest@,
            forall|j: int| 0 <= j < i ==> is_alpha(#[trigger] rest@[j]),
    {
        let c = rest[i];
        if !((c >= 'a' && c <= 'z') || (c >= 'A' && c <= 'Z')) {
            assert(!is_alpha(rest@[i as int]));
            return false;
        }
    }
    true
}

/// A disabled table rewrites nothing.
pub proof fn law_disabled_rewrites_nothing(q: Seq<char>)
    ensures
        rewritten(
            ProvidersV { google: false, youtube: false, bing: false, duckduckgo: false },
            q,
        ) is None,
{
}

/// What a table rewrites, a table with more providers rewrites too, to some
/// enforced endpoint.
pub proof fn law_more_providers_rewrite_more(a: ProvidersV, b: ProvidersV, q: Seq<char>)
    requires
        a.google ==> b.google,
        a.youtube ==> b.youtube,
        a.bing ==> b.bing,
        a.duckduckgo ==> b.duckduckgo,
        rewritten(a, q) is Some,
    ensures
        rewritten(b, q) is Some,
{
}

/// An endpoint is final: no table rewrites what some table rewrites to.
pub proof fn law_endpoints_final(a: ProvidersV, b: ProvidersV, q: Seq<char>)
    requires
        rewritten(a, q) is Some,
    ensures
        rewritten(b, rewritten(a, q)->0) is None,
{
    reveal_strlit("restrictmoderate.youtube.com");
    reveal_strlit("strict.bing.com");
    reveal_strlit("safe.duckduckgo.com");
    reveal_strlit("forcesafesearch.google.com");
    reveal_strlit("www.youtube.com");
    reveal_strlit("m.youtube.com");
    reveal_strlit("youtubei.googleapis.com");
    reveal_strlit("youtube.googleapis.com");
    reveal_strlit("www.youtube-nocookie.com");
    reveal_strlit("www.bing.com");
    reveal_strlit("duckduckgo.com");
    reveal_strlit("www.duckduckgo.com");
    reveal_strlit("www.google.");
    let t = rewritten(a, q)->0;
    assert(t[0] == 'r' || t[0] == 's' || t[0] == 'f');
    if starts_with(t, "www.google."@) {
        assert(t.take("www.google."@.len() as int)[0] == t[0]);
    }
}

/// A suffix that Google answers searches under: one of six in two parts, or
/// two to six letters.
pub open spec fn google_suffix(t: Seq<char>) -> bool {
    ||| t == "com.br"@ || t == "co.uk"@ || t == "com.au"@ || t == "com.mx"@ || t == "co.jp"@ || t
        == "co.in"@
    ||| 2 <= t.len() <= 6 && forall|i: int|
        0 <= i < t.len() ==> 'a' <= #[trigger] t[i] <= 'z' || 'A' <= t[i] <= 'Z'
}

/// Whose search a name belongs to, and where it is sent if that is enforced.
/// Everything else goes where it would.
pub proof fn law_rewrites(p: ProvidersV, q: Seq<char>, t: Seq<char>)
    ensures
        ({
            let youtube = q == "www.youtube.com"@ || q == "m.youtube.com"@ || q
                == "youtubei.googleapis.com"@ || q == "youtube.googleapis.com"@ || q
                == "www.youtube-nocookie.com"@;
            let bing = q == "www.bing.com"@;
            let duckduckgo = q == "duckduckgo.com"@ || q == "www.duckduckgo.com"@;
            let r = rewritten(p, q);
            &&& youtube && p.youtube ==> r == Some("restrictmoderate.youtube.com"@)
            &&& bing && p.bing ==> r == Some("strict.bing.com"@)
            &&& duckduckgo && p.duckduckgo ==> r == Some("safe.duckduckgo.com"@)
            &&& q == "www.google."@ + t && google_suffix(t) && p.google ==> r == Some(
                "forcesafesearch.google.com"@,
            )
            &&& r is Some ==> youtube && p.youtube || bing && p.bing || duckduckgo && p.duckduckgo
                || p.google && exists|u: Seq<char>|
                google_suffix(u) && #[trigger] ("www.google."@ + u) == q
        }),
{
    reveal_strlit("www.youtube.com");
    reveal_strlit("m.youtube.com");
    reveal_strlit("youtubei.googleapis.com");
    reveal_strlit("youtube.googleapis.com");
    reveal_strlit("www.youtube-nocookie.com");
    reveal_strlit("www.bing.com");
    reveal_strlit("duckduckgo.com");
    reveal_strlit("www.duckduckgo.com");
    reveal_strlit("www.google.");
    let w = "www.google."@;
    assert("www.youtube.com"@.len() == 15 && "m.youtube.com"@.len() == 13
        && "youtubei.googleapis.com"@.len() == 23 && "youtube.googleapis.com"@.len() == 22
        && "www.youtube-nocookie.com"@.len() == 24 && "www.bing.com"@.len() == 12
        && "duckduckgo.com"@.len() == 14 && "www.duckduckgo.com"@.len() == 18);
    assert("m.youtube.com"@[0] == 'm' && "youtubei.googleapis.com"@[0] == 'y'
        && "duckduckgo.com"@[0] == 'd' && "www.youtube.com"@[4] == 'y'
        && "www.youtube-nocookie.com"@[4] == 'y' && "www.bing.com"@[4] == 'b'
        && "www.duckduckgo.com"@[4] == 'd' && w[4] == 'g' && w[0] == 'w');
    if q == w + t {
        assert(q[0] == 'w' && q[4] == 'g');
        assert(q.take(w.len() as int) =~= w);
        assert(q.skip(w.len() as int) =~= t);
        lemma_suffix(t);
    }
    if google_name(q) {
        let u = q.skip(w.len() as int);
        assert(q.take(w.len() as int) == w);
        assert(q =~= w + u);
        lemma_suffix(u);
        assert(google_suffix(u) && (w + u) == q);
    }
}

proof fn lemma_suffix(t: Seq<char>)
    ensures
        plausible_tld(t) == google_suffix(t),
{
    let s = TWO_PART_TLDS@;
    assert(s[0]@ == "com.br"@ && s[1]@ == "co.uk"@ && s[2]@ == "com.au"@ && s[3]@ == "com.mx"@
        && s[4]@ == "co.jp"@ && s[5]@ == "co.in"@);
    if google_suffix(t) {
        assert(2 <= t.len() <= 6 && (forall|i: int|
            0 <= i < t.len() ==> 'a' <= #[trigger] t[i] <= 'z' || 'A' <= t[i] <= 'Z') ==> forall|
            i: int,
        |
            0 <= i < t.len() ==> is_alpha(#[trigger] t[i]));
    }
    if plausible_tld(t) {
        assert(2 <= t.len() <= 6 && (forall|i: int|
            0 <= i < t.len() ==> is_alpha(#[trigger] t[i])) ==> forall|i: int|
            0 <= i < t.len() ==> 'a' <= #[trigger] t[i] <= 'z' || 'A' <= t[i] <= 'Z');
    }
}

/// What is enforced: nothing where it is switched off; all four providers
/// where none is named; otherwise each one that is named. A name that is none
/// of the four is refused, the first such name in words.
pub proof fn law_providers(
    enabled: bool,
    names: Seq<Seq<char>>,
    r: Result<SafeSearch, ConfigError>,
    bad: int,
)
    requires
        made(enabled, names, r),
        0 <= bad <= names.len(),
        forall|i: int|
            0 <= i < bad ==> (#[trigger] names[i]) == "google"@ || names[i] == "youtube"@
                || names[i] == "bing"@ || names[i] == "duckduckgo"@,
        bad < names.len() ==> names[bad] != "google"@ && names[bad] != "youtube"@ && names[bad]
            != "bing"@ && names[bad] != "duckduckgo"@,
    ensures
        accepted(enabled, names) == (!enabled || bad == names.len()),
        !enabled ==> r is Ok && !r->Ok_0@.google && !r->Ok_0@.youtube && !r->Ok_0@.bing
            && !r->Ok_0@.duckduckgo,
        enabled && bad < names.len() ==> r is Err && r->Err_0->Invalid_0@
            == "unknown safe-search provider \""@ + names[bad]
            + "\"; supported: google, youtube, bing, duckduckgo"@,
        enabled && bad == names.len() ==> {
            &&& r is Ok
            &&& r->Ok_0@.google == (bad == 0 || exists|i: int|
                0 <= i < bad && #[trigger] names[i] == "google"@)
            &&& r->Ok_0@.youtube == (bad == 0 || exists|i: int|
                0 <= i < bad && #[trigger] names[i] == "youtube"@)
            &&& r->Ok_0@.bing == (bad == 0 || exists|i: int|
                0 <= i < bad && #[trigger] names[i] == "bing"@)
            &&& r->Ok_0@.duckduckgo == (bad == 0 || exists|i: int|
                0 <= i < bad && #[trigger] names[i] == "duckduckgo"@)
        },
{
    lemma_first_unknown(names, 0, bad);
}

proof fn lemma_first_unknown(names: Seq<Seq<char>>, from: int, bad: int)
    requires
        0 <= from <= bad <= names.len(),
        forall|i: int| from <= i < bad ==> supported(#[trigger] names[i]),
        bad < names.len() ==> !supported(names[bad]),
    ensures
        first_unknown(names, from) == bad,
    decreases bad - from,
{
    if from < bad {
        assert(supported(names[from]));
        lemma_first_unknown(names, from + 1, bad);
    }
}

} // verus!
