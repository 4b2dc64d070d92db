//! Configuration: validation, profiles, fingerprint. Fail loud.
//!
//! Required fields have no defaults. Validation goes beyond syntax: non-empty
//! binds, allowlist and upstreams, list sources that can be had, absolute
//! paths.
pub mod laws;

use vstd::prelude::*;

use crate::ip::{Endpoint, Ip, Net};
use crate::text::{chars_of, decimal, decimal_of, opt_text, starts_with, starts_with_str, str_eq};
use crate::text::texts;

verus! {

/// Why a configuration was refused.
#[derive(Debug)]
pub enum ConfigError {
    /// The file could not be read.
    Read { path: String, reason: String },
    /// The text is not the expected TOML.
    Parse { path: String, reason: String },
    /// Semantic validation failure.
    Invalid(String),
}

impl ConfigError {
    /// The error in words.
    pub open spec fn words(self) -> Seq<char> {
        match self {
            ConfigError::Read { path, reason } => "cannot read "@ + path@ + ": "@ + reason@,
            ConfigError::Parse { path, reason } => "cannot parse "@ + path@ + ": "@ + reason@,
            ConfigError::Invalid(msg) => "invalid config: "@ + msg@,
        }
    }

    /// The error in words.
    pub fn message(&self) -> (r: String)
        ensures
            r@ == self.words(),
    {
        match self {
            ConfigError::Read { path, reason } => {
                let mut out = "cannot read ".to_string();
                out.push_str(path.as_str());
                out.push_str(": ");
                out.push_str(reason.as_str());
                out
            },
            ConfigError::Parse { path, reason } => {
                let mut out = "cannot parse ".to_string();
                out.push_str(path.as_str());
                out.push_str(": ");
                out.push_str(reason.as_str());
                out
            },
            ConfigError::Invalid(msg) => {
                let mut out = "invalid config: ".to_string();
                out.push_str(msg.as_str());
                out
            },
        }
    }
}

/// Runtime configuration.
#[derive(Debug, PartialEq)]
pub struct Config {
    pub server: ServerConfig,
    pub filtering: FilteringConfig,
    pub upstreams: UpstreamsConfig,
    pub database: DatabaseConfig,
    pub safe_search: SafeSearchConfig,
}

#[derive(Debug, PartialEq)]
pub struct ServerConfig {
    /// Sockets to bind, v4 and v6.
    pub bind: Vec<Endpoint>,
    /// Client networks allowed to query. Everything else is refused.
    pub allow: Vec<Net>,
}

#[derive(Debug, PartialEq)]
pub struct FilteringConfig {
    /// Base profile expanding to named lists; `lists` adds to it or, by
    /// reusing a name, overrides individual entries.
    pub profile: Option<Profile>,
    pub lists: Vec<ListSource>,
    /// Directory holding downloaded list copies (absolute).
    pub list_dir: String,
}

#[derive(Debug, Clone, Copy, PartialEq, Eq, Structural)]
pub enum Profile {
    Minimal,
    Balanced,
    Strict,
}

/// One blocklist: a stable name plus where it comes from.
#[derive(Debug, PartialEq, Eq)]
pub struct ListSource {
    pub name: String,
    /// HTTPS URL to fetch; `None` for purely local lists.
    pub url: Option<String>,
    /// Local file path (absolute); used instead of, or as seed for, `url`.
    pub path: Option<String>,
}

#[derive(Debug, PartialEq)]
pub struct UpstreamsConfig {
    /// Upstream resolver URLs, `https://` or `quic://`.
    pub servers: Vec<String>,
    /// Plain IPs used to resolve the upstream hostnames themselves.
    pub bootstrap: Vec<Ip>,
    /// Per-attempt timeout in milliseconds.
    pub timeout_ms: u64,
}

#[derive(Debug, PartialEq)]
pub struct DatabaseConfig {
    /// Database file path (absolute).
    pub path: String,
}

#[derive(Debug, PartialEq, Eq)]
pub struct SafeSearchConfig {
    pub enabled: bool,
    /// Providers to force; empty and enabled means all supported ones.
    pub providers: Vec<String>,
}

/// Model of [`ListSource`].
#[verifier::ext_equal]
pub struct ListV {
    pub name: Seq<char>,
    pub url: Option<Seq<char>>,
    pub path: Option<Seq<char>>,
}

impl View for ListSource {
    type V = ListV;

    open spec fn view(&self) -> ListV {
        ListV { name: self.name@, url: opt_text(self.url), path: opt_text(self.path) }
    }
}

pub open spec fn lists_of(v: Seq<ListSource>) -> Seq<ListV> {
    Seq::new(v.len(), |i: int| v[i]@)
}

fn copy_opt(s: &Option<String>) -> (r: Option<String>)
    ensures
        opt_text(r) == opt_text(*s),
{
    match s {
        Some(s) => Some(s.clone()),
        None => None,
    }
}

impl Clone for ListSource {
    fn clone(&self) -> (r: ListSource)
        ensures
            r@ == self@,
    {
        ListSource {
            name: self.name.clone(),
            url: copy_opt(&self.url),
            path: copy_opt(&self.path),
        }
    }
}

impl SafeSearchConfig {
    /// Disabled and without providers, as when the section is left out.
    pub fn is_default(&self) -> (r: bool)
        ensures
            r == (!self.enabled && self.providers@.len() == 0),
    {
        is_default_safe_search(self)
    }
}

impl Default for SafeSearchConfig {
    fn default() -> (r: SafeSearchConfig)
        ensures
            !r.enabled,
            r.providers@.len() == 0,
    {
        SafeSearchConfig { enabled: false, providers: Vec::new() }
    }
}

fn is_default_safe_search(s: &SafeSearchConfig) -> (r: bool)
    ensures
        r == (!s.enabled && s.providers@.len() == 0),
{
    !s.enabled && s.providers.len() == 0
}

pub const LIGHT_URL: &'static str =
    "https://raw.githubusercontent.com/hagezi/dns-blocklists/main/adblock/light.txt";

pub const PRO_URL: &'static str =
    "https://raw.githubusercontent.com/hagezi/dns-blocklists/main/adblock/pro.txt";

pub const TIF_URL: &'static str =
    "https://raw.githubusercontent.com/hagezi/dns-blocklists/main/adblock/tif.txt";

/// A list that is fetched.
pub open spec fn fetched(name: Seq<char>, url: Seq<char>) -> ListV {
    ListV { name, url: Some(url), path: None }
}

/// The lists a profile stands for.
pub open spec fn profile_lists(p: Profile) -> Seq<ListV> {
    match p {
        Profile::Minimal => seq![fetched("hagezi-light"@, LIGHT_URL@)],
        Profile::Balanced => seq![fetched("hagezi-pro"@, PRO_URL@)],
        Profile::Strict => seq![fetched("hagezi-pro"@, PRO_URL@), fetched("hagezi-tif"@, TIF_URL@)],
    }
}

impl Profile {
    /// The named lists this profile expands to.
    #[must_use]
    pub fn lists(self) -> (r: Vec<ListSource>)
        ensures
            lists_of(r@) == profile_lists(self),
    {
        let mut out: Vec<ListSource> = Vec::new();
        match self {
            Profile::Minimal => {
                out.push(hagezi_light());
            },
            Profile::Balanced => {
                out.push(hagezi_pro());
            },
            Profile::Strict => {
                out.push(hagezi_pro());
                out.push(hagezi_tif());
            },
        }
        assert(lists_of(out@) =~= profile_lists(self));
        out
    }

    /// The name of the profile in configuration files.
    pub open spec fn name_of(self) -> Seq<char> {
        match self {
            Profile::Minimal => "minimal"@,
            Profile::Balanced => "balanced"@,
            Profile::Strict => "strict"@,
        }
    }

    /// The name of the profile in configuration files.
    pub fn name(self) -> (r: &'static str)
        ensures
            r@ == self.name_of(),
    {
        match self {
            Profile::Minimal => "minimal",
            Profile::Balanced => "balanced",
            Profile::Strict => "strict",
        }
    }
}

fn fetched_list(name: &str, url: &str) -> (r: ListSource)
    ensures
        r@ == fetched(name@, url@),
{
    ListSource { name: name.to_string(), url: Some(url.to_string()), path: None }
}

fn hagezi_light() -> (r: ListSource)
    ensures
        r@ == fetched("hagezi-light"@, LIGHT_URL@),
{
    fetched_list("hagezi-light", LIGHT_URL)
}

fn hagezi_pro() -> (r: ListSource)
    ensures
        r@ == fetched("hagezi-pro"@, PRO_URL@),
{
    fetched_list("hagezi-pro", PRO_URL)
}

fn hagezi_tif() -> (r: ListSource)
    ensures
        r@ == fetched("hagezi-tif"@, TIF_URL@),
{
    fetched_list("hagezi-tif", TIF_URL)
}

/// Position of the first list with the name; the length when there is none.
pub open spec fn name_pos(s: Seq<ListV>, name: Seq<char>, from: int) -> int
    decreases s.len() - from,
{
    if from < 0 || from >= s.len() {
        s.len() as int
    } else if s[from].name == name {
        from
    } else {
        name_pos(s, name, from + 1)
    }
}

/// A list put over others: it takes the place of the one with its name, or
/// comes last.
pub open spec fn put_over(s: Seq<ListV>, e: ListV) -> Seq<ListV> {
    let p = name_pos(s, e.name, 0);
    if 0 <= p < s.len() {
        s.update(p, e)
    } else {
        s.push(e)
    }
}

/// Lists put over others one by one.
pub open spec fn overlaid(base: Seq<ListV>, extras: Seq<ListV>) -> Seq<ListV>
    decreases extras.len(),
{
    if extras.len() == 0 {
        base
    } else {
        put_over(overlaid(base, extras.drop_last()), extras.last())
    }
}

impl FilteringConfig {
    /// The lists in effect.
    pub open spec fn effective(self) -> Seq<ListV> {
        overlaid(
            match self.profile {
                Some(p) => profile_lists(p),
                None => seq![],
            },
            lists_of(self.lists@),
        )
    }
}

proof fn lemma_name_pos(s: Seq<ListV>, name: Seq<char>, from: int)
    requires
        0 <= from <= s.len(),
    ensures
        from <= name_pos(s, name, from) <= s.len(),
        name_pos(s, name, from) < s.len() ==> s[name_pos(s, name, from)].name == name,
        forall|i: int| from <= i < name_pos(s, name, from) ==> (#[trigger] s[i]).name != name,
    decreases s.len() - from,
{
    if from < s.len() && s[from].name != name {
        lemma_name_pos(s, name, from + 1);
    }
}

fn find_name(v: &Vec<ListSource>, name: &str) -> (r: usize)
    ensures
        r == name_pos(lists_of(v@), name@, 0),
        r <= v@.len(),
{
    let n: usize = v.len();
    let mut i: usize = 0;
    while i < n
        invariant
            n == v@.len(),
            i <= n,
            name_pos(lists_of(v@), name@, 0) == name_pos(lists_of(v@), name@, i as int),
        decreases n - i,
    {
        if str_eq(v[i].name.as_str(), name) {
            return i;
        }
        i = i + 1;
    }
    n
}

pub open spec fn absolute(path: Seq<char>) -> bool {
    path.len() > 0 && path[0] == '/'
}

fn is_absolute(path: &str) -> (r: bool)
    ensures
        r == absolute(path@),
{
    let cs = chars_of(path);
    cs.len() > 0 && cs[0] == '/'
}

fn begins(s: &str, p: &str) -> (r: bool)
    ensures
        r == starts_with(s@, p@),
{
    let cs = chars_of(s);
    starts_with_str(cs.as_slice(), p)
}

/// What is wrong with the upstream URLs from `i` on.
pub open spec fn servers_error(s: Seq<Seq<char>>, i: int) -> Option<Seq<char>>
    decreases s.len() - i,
{
    if i < 0 || i >= s.len() {
        None
    } else if !starts_with(s[i], "https://"@) && !starts_with(s[i], "quic://"@) {
        Some("upstreams.servers: "@ + s[i] + ": must use https:// or quic:// scheme"@)
    } else {
        servers_error(s, i + 1)
    }
}

/// What is wrong with the names of the configured lists from `i` on. Reusing
/// the name of a profile's list is how it is overridden; two configured lists
/// with one name would silently drop one.
pub open spec fn names_error(s: Seq<ListV>, i: int) -> Option<Seq<char>>
    decreases s.len() - i,
{
    if i < 0 || i >= s.len() {
        None
    } else if s[i].name.len() == 0 {
        Some("filtering.lists: a list has an empty name"@)
    } else if exists|j: int| 0 <= j < i && (#[trigger] s[j]).name == s[i].name {
        Some("filtering.lists: duplicate list name '"@ + s[i].name + "'"@)
    } else {
        names_error(s, i + 1)
    }
}

/// What is wrong with one list's source.
pub open spec fn source_error(l: ListV) -> Option<Seq<char>> {
    if l.url is None && l.path is None {
        Some("filtering.lists: '"@ + l.name + "' has neither url nor path"@)
    } else if l.url is Some && !starts_with(l.url->0, "https://"@) {
        Some("filtering.lists: '"@ + l.name + "' url '"@ + l.url->0 + "' must use https://"@)
    } else if l.path is Some && !absolute(l.path->0) {
        Some("filtering.lists: '"@ + l.name + "' path "@ + l.path->0 + " must be absolute"@)
    } else {
        None
    }
}

/// What is wrong with the sources from `i` on.
pub open spec fn sources_error(s: Seq<ListV>, i: int) -> Option<Seq<char>>
    decreases s.len() - i,
{
    if i < 0 || i >= s.len() {
        None
    } else if source_error(s[i]) is Some {
        source_error(s[i])
    } else {
        sources_error(s, i + 1)
    }
}

/// The first thing that is wrong with a configuration.
pub open spec fn config_error(c: Config) -> Option<Seq<char>> {
    let servers = texts(c.upstreams.servers@);
    let effective = c.filtering.effective();
    if c.server.bind@.len() == 0 {
        Some("server.bind: must not be empty"@)
    } else if c.server.allow@.len() == 0 {
        Some("server.allow: must not be empty"@)
    } else if servers.len() == 0 {
        Some("upstreams.servers: must not be empty"@)
    } else if servers_error(servers, 0) is Some {
        servers_error(servers, 0)
    } else if c.upstreams.bootstrap@.len() == 0 {
        Some("upstreams.bootstrap: must not be empty"@)
    } else if !(100 <= c.upstreams.timeout_ms <= 30_000) {
        Some(
            "upstreams.timeout_ms: "@ + decimal(c.upstreams.timeout_ms as nat)
                + " is not in 100..=30000"@,
        )
    } else if !absolute(c.database.path@) {
        Some("database.path: "@ + c.database.path@ + " must be absolute"@)
    } else if !absolute(c.filtering.list_dir@) {
        Some("filtering.list_dir: "@ + c.filtering.list_dir@ + " must be absolute"@)
    } else if effective.len() == 0 {
        Some("filtering: must have at least one list (set profile or lists)"@)
    } else if names_error(lists_of(c.filtering.lists@), 0) is Some {
        names_error(lists_of(c.filtering.lists@), 0)
    } else {
        sources_error(effective, 0)
    }
}

/// Text before, between and after parts of a message.
fn message3(a: &str, b: &str, c: &str) -> (r: String)
    ensures
        r@ == a@ + b@ + c@,
{
    let mut out = a.to_string();
    out.push_str(b);
    out.push_str(c);
    out
}

fn message5(a: &str, b: &str, c: &str, d: &str, e: &str) -> (r: String)
    ensures
        r@ == a@ + b@ + c@ + d@ + e@,
{
    let mut out = message3(a, b, c);
    out.push_str(d);
    out.push_str(e);
    out
}

fn check_servers(v: &Vec<String>) -> (r: Option<String>)
    ensures
        opt_text(r) == servers_error(texts(v@), 0),
{
    let n: usize = v.len();
    let ghost s = texts(v@);
    for i in 0..n
        invariant
            n == v@.len(),
            s == texts(v@),
            servers_error(s, 0) == servers_error(s, i as int),
    {
        let u = v[i].as_str();
        if !begins(u, "https://") && !begins(u, "quic://") {
            return Some(
                message3("upstreams.servers: ", u, ": must use https:// or quic:// scheme"),
            );
        }
    }
    None
}

fn check_names(v: &Vec<ListSource>) -> (r: Option<String>)
    ensures
        opt_text(r) == names_error(lists_of(v@), 0),
{
    let n: usize = v.len();
    let ghost s = lists_of(v@);
    for i in 0..n
        invariant
            n == v@.len(),
            s == lists_of(v@),
            names_error(s, 0) == names_error(s, i as int),
    {
        let name = v[i].name.as_str();
        let cs = chars_of(name);
        if cs.len() == 0 {
            return Some("filtering.lists: a list has an empty name".to_string());
        }
        let at: usize = find_name(v, name);
        proof {
            lemma_name_pos(s, name@, 0);
            assert(s[i as int].name == name@);
        }
        if at < i {
            assert(s[at as int].name == s[i as int].name);
            return Some(message3("filtering.lists: duplicate list name '", name, "'"));
        }
    }
    None
}

fn check_source(l: &ListSource) -> (r: Option<String>)
    ensures
        opt_text(r) == source_error(l@),
{
    if l.url.is_none() && l.path.is_none() {
        return Some(
            message3("filtering.lists: '", l.name.as_str(), "' has neither url nor path"),
        );
    }
    if let Some(url) = &l.url {
        if !begins(url.as_str(), "https://") {
            return Some(
                message5(
                    "filtering.lists: '",
                    l.name.as_str(),
                    "' url '",
                    url.as_str(),
                    "' must use https://",
                ),
            );
        }
    }
    if let Some(path) = &l.path {
        if !is_absolute(path.as_str()) {
            return Some(
                message5(
                    "filtering.lists: '",
                    l.name.as_str(),
                    "' path ",
                    path.as_str(),
                    " must be absolute",
                ),
            );
        }
    }
    None
}

fn check_sources(v: &Vec<ListSource>) -> (r: Option<String>)
    ensures
        opt_text(r) == sources_error(lists_of(v@), 0),
{
    let n: usize = v.len();
    let ghost s = lists_of(v@);
    for i in 0..n
        invariant
            n == v@.len(),
            s == lists_of(v@),
            sources_error(s, 0) == sources_error(s, i as int),
    {
        assert(s[i as int] == v@[i as int]@);
        let e = check_source(&v[i]);
        if e.is_some() {
            return e;
        }
    }
    None
}

impl Config {
    /// The effective list set: profile expansion with `lists` put over it (the
    /// same name replaces the profile's entry). Profile lists first, then
    /// extras, in configuration order.
    #[must_use]
    pub fn effective_lists(&self) -> (r: Vec<ListSource>)
        ensures
            lists_of(r@) == self.filtering.effective(),
    {
        let mut result: Vec<ListSource> = match self.filtering.profile {
            Some(p) => p.lists(),
            None => Vec::new(),
        };
        let ghost base = lists_of(result@);
        let ghost extras = lists_of(self.filtering.lists@);
        assert(base == (match self.filtering.profile {
            Some(p) => profile_lists(p),
            None => seq![],
        }));
        let n: usize = self.filtering.lists.len();
        assert(extras.take(0) == Seq::<ListV>::empty());
        for i in 0..n
            invariant
                n == self.filtering.lists@.len(),
                extras == lists_of(self.filtering.lists@),
                lists_of(result@) == overlaid(base, extras.take(i as int)),
        {
            let extra = &self.filtering.lists[i];
            let at: usize = find_name(&result, extra.name.as_str());
            let ghost before = lists_of(result@);
            proof {
                assert(extras.take(i + 1).drop_last() == extras.take(i as int));
                assert(extras.take(i + 1).last() == extra@);
            }
            let copy = extra.clone();
            if at < result.len() {
                result.set(at, copy);
                assert(lists_of(result@) == before.update(at as int, extra@));
            } else {
                result.push(copy);
                assert(lists_of(result@) == before.push(extra@));
            }
        }
        assert(extras.take(n as int) == extras);
        result
    }

    /// Semantic validation.
    pub fn validate(&self) -> (r: Result<(), ConfigError>)
        ensures
            match r {
                Ok(_) => config_error(*self) is None,
                Err(e) => e is Invalid && config_error(*self) == Some(e->Invalid_0@),
            },
    {
        if self.server.bind.len() == 0 {
            return Err(ConfigError::Invalid("server.bind: must not be empty".to_string()));
        }
        if self.server.allow.len() == 0 {
            return Err(ConfigError::Invalid("server.allow: must not be empty".to_string()));
        }
        if self.upstreams.servers.len() == 0 {
            return Err(ConfigError::Invalid("upstreams.servers: must not be empty".to_string()));
        }
        if let Some(msg) = check_servers(&self.upstreams.servers) {
            return Err(ConfigError::Invalid(msg));
        }
        if self.upstreams.bootstrap.len() == 0 {
            return Err(ConfigError::Invalid("upstreams.bootstrap: must not be empty".to_string()));
        }
        let timeout: u64 = self.upstreams.timeout_ms;
        if timeout < 100 || timeout > 30_000 {
            return Err(
                ConfigError::Invalid(
                    message3(
                        "upstreams.timeout_ms: ",
                        decimal_of(timeout).as_str(),
                        " is not in 100..=30000",
                    ),
                ),
            );
        }
        if !is_absolute(self.database.path.as_str()) {
            return Err(
                ConfigError::Invalid(
                    message3("database.path: ", self.database.path.as_str(), " must be absolute"),
                ),
            );
        }
        if !is_absolute(self.filtering.list_dir.as_str()) {
            return Err(
                ConfigError::Invalid(
                    message3(
                        "filtering.list_dir: ",
                        self.filtering.list_dir.as_str(),
                        " must be absolute",
                    ),
                ),
            );
        }
        let effective = self.effective_lists();
        if effective.len() == 0 {
            return Err(
                ConfigError::Invalid(
                    "filtering: must have at least one list (set profile or lists)".to_string(),
                ),
            );
        }
        if let Some(msg) = check_names(&self.filtering.lists) {
            return Err(ConfigError::Invalid(msg));
        }
        if let Some(msg) = check_sources(&effective) {
            return Err(ConfigError::Invalid(msg));
        }
        Ok(())
    }

    /// Fingerprint of the configuration's canonical text: its SHA-256, in
    /// hexadecimal.
    #[must_use]
    pub fn hash(canonical: &str) -> (r: String)
        ensures
            r@ == hex(sha256(vstd::utf8::encode_utf8(canonical@))),
    {
        hex_encode(sha256_of(canonical.as_bytes()).as_slice())
    }
}

/// The SHA-256 digest.
pub uninterp spec fn sha256(data: Seq<u8>) -> Seq<u8>;

/// `Sha256::digest` of sha2: the SHA-256 digest of the data, 32 bytes.
#[verifier::external_body]
pub(crate) fn sha256_of(data: &[u8]) -> (r: Vec<u8>)
    ensures
        r@ == sha256(data@),
        r@.len() == 32,
{
    <sha2::Sha256 as sha2::Digest>::digest(data).to_vec()
}

/// A hexadecimal digit, lowercase.
pub open spec fn hex_char(d: u8) -> char {
    if d < 10 {
        (('0' as u8) + d) as u8 as char
    } else {
        (('a' as u8) + (d - 10)) as u8 as char
    }
}

/// Two lowercase hexadecimal digits per byte.
pub open spec fn hex(b: Seq<u8>) -> Seq<char> {
    Seq::new(
        2 * b.len(),
        |i: int|
            if i % 2 == 0 {
                hex_char(b[i / 2] / 16)
            } else {
                hex_char(b[i / 2] % 16)
            },
    )
}

fn hex_digit(d: u8) -> (r: char)
    requires
        d < 16,
    ensures
        r == hex_char(d),
{
    if d < 10 {
        ('0' as u8 + d) as char
    } else {
        ('a' as u8 + (d - 10)) as char
    }
}

pub fn hex_encode(bytes: &[u8]) -> (r: String)
    ensures
        r@ == hex(bytes@),
{
    let mut s = String::new();
    let n: usize = bytes.len();
    for i in 0..n
        invariant
            n == bytes@.len(),
            s@ == hex(bytes@).take(2 * i),
    {
        let b: u8 = bytes[i];
        let ghost before = s@;
        s.push(hex_digit(b / 16));
        s.push(hex_digit(b % 16));
        proof {
            let h = hex(bytes@);
            assert(h[2 * i] == hex_char(b / 16)) by {
                assert((2 * i) % 2 == 0 && (2 * i) / 2 == i);
            }
            assert(h[2 * i + 1] == hex_char(b % 16)) by {
                assert((2 * i + 1) % 2 == 1 && (2 * i + 1) / 2 == i);
            }
            assert(h.take(2 * (i + 1)) == h.take(2 * i).push(h[2 * i]).push(h[2 * i + 1]));
        }
    }
    assert(hex(bytes@).take(2 * n) == hex(bytes@));
    s
}

/// The starter configuration up to the profile's first mention.
pub const STARTER_HEAD: &'static str = "# sumidero configuration\n# Generated for profile: ";

/// Between the two mentions of the profile.
pub const STARTER_MIDDLE: &'static str = "\n# See DESIGN.md for details.\n\n[server]\n# Sockets to bind (v4 + v6).\nbind = [\"0.0.0.0:53\", \"[::]:53\"]\n# Client networks allowed to query; everything else is refused.\nallow = [\"192.168.0.0/16\", \"127.0.0.0/8\", \"::1/128\"]\n\n[filtering]\n# Base profile: minimal, balanced, or strict.\n# Each profile expands to a curated set of blocklists (hagezi tiers).\nprofile = \"";

/// After the last mention of the profile.
pub const STARTER_TAIL: &'static str = "\"\n# Additional or overriding lists:\n# [[filtering.lists]]\n# name = \"my-custom-list\"\n# url = \"https://example.com/list.txt\"\n# Directory for downloaded list copies (must be absolute).\nlist_dir = \"/var/lib/sumidero/lists\"\n\n[upstreams]\n# DoH / DoQ upstream resolvers, queried in parallel.\nservers = [\n  \"https://dns.cloudflare.com/dns-query\",\n  \"https://dns.google/dns-query\",\n]\n# Plain IPs for bootstrapping upstream hostname resolution.\nbootstrap = [\"1.1.1.1\", \"9.9.9.9\"]\n# Per-attempt timeout in milliseconds (100..=30000).\ntimeout_ms = 3000\n\n[database]\n# SQLite file for query log and stats (must be absolute).\npath = \"/var/lib/sumidero/sumidero.sqlite\"\n";

/// Render a commented starter configuration.
#[must_use]
pub fn starter_config(profile: Profile) -> (r: String)
    ensures
        r@ == STARTER_HEAD@ + profile.name_of() + STARTER_MIDDLE@ + profile.name_of()
            + STARTER_TAIL@,
{
    message5(STARTER_HEAD, profile.name(), STARTER_MIDDLE, profile.name(), STARTER_TAIL)
}

/// What a valid configuration guarantees, and nothing less makes it valid.
pub proof fn law_valid_config(c: Config)
    ensures
        config_error(c) is None <==> {
            let servers = texts(c.upstreams.servers@);
            let extras = lists_of(c.filtering.lists@);
            let effective = c.filtering.effective();
            &&& c.server.bind@.len() > 0
            &&& c.server.allow@.len() > 0
            &&& servers.len() > 0
            &&& forall|i: int|
                0 <= i < servers.len() ==> starts_with(#[trigger] servers[i], "https://"@)
                    || starts_with(servers[i], "quic://"@)
            &&& c.upstreams.bootstrap@.len() > 0
            &&& 100 <= c.upstreams.timeout_ms <= 30_000
            &&& absolute(c.database.path@)
            &&& absolute(c.filtering.list_dir@)
            &&& effective.len() > 0
            &&& forall|i: int| 0 <= i < extras.len() ==> (#[trigger] extras[i]).name.len() > 0
            &&& forall|i: int, j: int|
                0 <= j < i < extras.len() ==> (#[trigger] extras[i]).name != (
                #[trigger] extras[j]).name
            &&& forall|i: int|
                0 <= i < effective.len() ==> source_error(#[trigger] effective[i]) is None
        },
{
    lemma_servers(texts(c.upstreams.servers@), 0);
    lemma_names(lists_of(c.filtering.lists@), 0);
    lemma_sources(c.filtering.effective(), 0);
}

proof fn lemma_servers(s: Seq<Seq<char>>, i: int)
    requires
        0 <= i <= s.len(),
    ensures
        servers_error(s, i) is None <==> forall|k: int|
            i <= k < s.len() ==> starts_with(#[trigger] s[k], "https://"@) || starts_with(
                s[k],
                "quic://"@,
            ),
    decreases s.len() - i,
{
    if i < s.len() {
        lemma_servers(s, i + 1);
    }
}

proof fn lemma_names(s: Seq<ListV>, i: int)
    requires
        0 <= i <= s.len(),
    ensures
        names_error(s, i) is None <==> (forall|k: int|
            i <= k < s.len() ==> (#[trigger] s[k]).name.len() > 0) && (forall|k: int, j: int|
            i <= k < s.len() && 0 <= j < k ==> (#[trigger] s[k]).name != (#[trigger] s[j]).name),
    decreases s.len() - i,
{
    if i < s.len() {
        lemma_names(s, i + 1);
    }
}

proof fn lemma_sources(s: Seq<ListV>, i: int)
    requires
        0 <= i <= s.len(),
    ensures
        sources_error(s, i) is None <==> forall|k: int|
            i <= k < s.len() ==> source_error(#[trigger] s[k]) is None,
    decreases s.len() - i,
{
    if i < s.len() {
        lemma_sources(s, i + 1);
    }
}

pub open spec fn names_distinct(s: Seq<ListV>) -> bool {
    forall|i: int, j: int| 0 <= i < j < s.len() ==> (#[trigger] s[i]).name != (#[trigger] s[j]).name
}

pub open spec fn has_list(s: Seq<ListV>, l: ListV) -> bool {
    exists|i: int| 0 <= i < s.len() && s[i] == l
}

proof fn lemma_put_over(s: Seq<ListV>, e: ListV)
    requires
        names_distinct(s),
    ensures
        names_distinct(put_over(s, e)),
        has_list(put_over(s, e), e),
        forall|l: ListV| has_list(s, l) && l.name != e.name ==> #[trigger] has_list(
            put_over(s, e),
            l,
        ),
        s.len() <= put_over(s, e).len(),
        forall|i: int| 0 <= i < s.len() ==> (#[trigger] put_over(s, e)[i]).name == s[i].name,
{
    let r = put_over(s, e);
    let p = name_pos(s, e.name, 0);
    lemma_name_pos(s, e.name, 0);
    if p < s.len() {
        assert(r[p] == e);
    } else {
        assert(r[s.len() as int] == e);
    }
    assert forall|l: ListV| has_list(s, l) && l.name != e.name implies #[trigger] has_list(r, l) by {
        let i = choose|i: int| 0 <= i < s.len() && s[i] == l;
        assert(r[i] == l);
    }
}

/// The effective set has every configured list and no name twice, and keeps
/// the profile's order at the front.
pub proof fn law_overlaid(base: Seq<ListV>, extras: Seq<ListV>)
    requires
        names_distinct(base),
        names_distinct(extras),
    ensures
        names_distinct(overlaid(base, extras)),
        forall|k: int| 0 <= k < extras.len() ==> has_list(overlaid(base, extras), #[trigger] extras[k]),
        base.len() <= overlaid(base, extras).len(),
        forall|i: int|
            0 <= i < base.len() ==> (#[trigger] overlaid(base, extras)[i]).name == base[i].name,
    decreases extras.len(),
{
    if extras.len() > 0 {
        let t = extras.drop_last();
        let e = extras.last();
        assert forall|i: int, j: int| 0 <= i < j < t.len() implies (#[trigger] t[i]).name != (
        #[trigger] t[j]).name by {
            assert(t[i] == extras[i] && t[j] == extras[j]);
        }
        law_overlaid(base, t);
        let s = overlaid(base, t);
        lemma_put_over(s, e);
        assert forall|k: int| 0 <= k < extras.len() implies has_list(
            overlaid(base, extras),
            #[trigger] extras[k],
        ) by {
            if k < t.len() {
                assert(t[k] == extras[k]);
                assert(has_list(s, extras[k]));
                assert(extras[k].name != extras[extras.len() - 1].name);
            }
        }
        assert forall|i: int| 0 <= i < base.len() implies (#[trigger] overlaid(
            base,
            extras,
        )[i]).name == base[i].name by {
            assert(put_over(s, e)[i].name == s[i].name);
        }
    }
}

} // verus!
