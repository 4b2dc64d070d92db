//! Encrypted DNS upstreams: URLs, connection lifecycle, health.
//!
//! Every query goes to all upstreams at once and the first usable answer wins.
//! A connection that dies is dropped and rebuilt by a repair that no query
//! owns; queries that find none wait for the repair's outcome. The functions
//! here decide, over [`Connection`] and over what a send came to; who calls
//! them does the sending and the waiting.
pub mod laws;
pub mod outcomes;
pub mod query;

use vstd::prelude::*;

use crate::ip::{literal, parse_ip, Ip};
use crate::message::{Edns, EdnsV, Message, MessageV, Metadata, REFUSED, SERV_FAIL};
use crate::shadow::{code_text, text_of_code};
use crate::text::{chars_of, opt_text, str_eq, texts};

verus! {

/// NOTIMP.
pub const NOT_IMP: u16 = 4;

/// Shortest wait between two connection attempts to a failing upstream.
pub const MIN_RECONNECT_BACKOFF_MS: u64 = 500;

/// Longest wait between two attempts when building the connection fails.
pub const MAX_RECONNECT_BACKOFF_MS: u64 = 30_000;

/// Longest wait between rebuilds when connections are built but their sends
/// fail. It also bounds how long a recovered upstream waits to be retried.
pub const MAX_REBUILD_HOLDDOWN_MS: u64 = 5_000;

/// Errors of the upstream pool.
#[derive(Debug)]
pub enum Error {
    /// A configured URL is malformed or not of a supported scheme.
    UnsupportedUrl(String),
    /// Pool initialisation failed.
    Init(String),
    /// Every upstream failed for a query.
    AllFailed(Vec<String>),
}

/// One line per failure.
pub open spec fn failure_lines(e: Seq<Seq<char>>) -> Seq<char>
    decreases e.len(),
{
    if e.len() == 0 {
        seq![]
    } else {
        failure_lines(e.drop_last()) + "\n  - "@ + e.last()
    }
}

impl Error {
    /// The error in words.
    pub open spec fn words(self) -> Seq<char> {
        match self {
            Error::UnsupportedUrl(u) => "unsupported upstream URL: "@ + u@,
            Error::Init(msg) => "upstream pool init failed: "@ + msg@,
            Error::AllFailed(errs) => "all upstreams failed:"@ + failure_lines(texts(errs@)),
        }
    }

    /// The error in words.
    pub fn message(&self) -> (r: String)
        ensures
            r@ == self.words(),
    {
        match self {
            Error::UnsupportedUrl(u) => {
                let mut out = "unsupported upstream URL: ".to_string();
                out.push_str(u.as_str());
                out
            },
            Error::Init(msg) => {
                let mut out = "upstream pool init failed: ".to_string();
                out.push_str(msg.as_str());
                out
            },
            Error::AllFailed(errs) => {
                let mut out = "all upstreams failed:".to_string();
                let ghost start = out@;
                let ghost all = texts(errs@);
                let n: usize = errs.len();
                assert(start + failure_lines(all.take(0)) == start);
                for i in 0..n
                    invariant
                        n == errs@.len(),
                        all == texts(errs@),
                        out@ == start + failure_lines(all.take(i as int)),
                {
                    let ghost before = out@;
                    out.push_str("\n  - ");
                    out.push_str(errs[i].as_str());
                    proof {
                        let next = all.take(i + 1);
                        assert(next.drop_last() == all.take(i as int));
                        assert(next.last() == errs@[i as int]@);
                        assert(out@ == start + failure_lines(next));
                    }
                }
                assert(all.take(n as int) == all);
                out
            },
        }
    }
}

/// Where an upstream is.
#[derive(Debug)]
pub enum UpstreamKind {
    Https { host: String, port: u16, path: String },
    Quic { host: String, port: u16 },
}

/// Model of [`UpstreamKind`].
#[verifier::ext_equal]
pub enum KindV {
    Https { host: Seq<char>, port: u16, path: Seq<char> },
    Quic { host: Seq<char>, port: u16 },
}

impl View for UpstreamKind {
    type V = KindV;

    open spec fn view(&self) -> KindV {
        match *self {
            UpstreamKind::Https { host, port, path } => KindV::Https {
                host: host@,
                port,
                path: path@,
            },
            UpstreamKind::Quic { host, port } => KindV::Quic { host: host@, port },
        }
    }
}

/// The parts of a URL that matter here.
pub struct UrlParts {
    pub scheme: String,
    pub host: Option<String>,
    pub port: Option<u16>,
    pub path: String,
}

/// Model of [`UrlParts`].
#[verifier::ext_equal]
pub struct UrlV {
    pub scheme: Seq<char>,
    pub host: Option<Seq<char>>,
    pub port: Option<u16>,
    pub path: Seq<char>,
}

impl View for UrlParts {
    type V = UrlV;

    open spec fn view(&self) -> UrlV {
        UrlV {
            scheme: self.scheme@,
            host: opt_text(self.host),
            port: self.port,
            path: self.path@,
        }
    }
}

/// What `Url::parse` of the url crate makes of a text: the parts, or why it is
/// none.
pub uninterp spec fn url_parts(raw: Seq<char>) -> Result<UrlV, Seq<char>>;

/// `Url::parse` of the url crate, its accessors `scheme`, `host_str`, `port`
/// and `path`, and the `Display` of its error. The result is a function of
/// the text.
#[verifier::external_body]
fn split_url(raw: &str) -> (r: Result<UrlParts, String>)
    ensures
        match r {
            Ok(p) => url_parts(raw@) == Ok::<UrlV, Seq<char>>(p@),
            Err(e) => url_parts(raw@) == Err::<UrlV, Seq<char>>(e@),
        },
{
    let url = url::Url::parse(raw).map_err(|e| e.to_string())?;
    Ok(
        UrlParts {
            scheme: url.scheme().to_string(),
            host: url.host_str().map(str::to_string),
            port: url.port(),
            path: url.path().to_string(),
        },
    )
}

/// The port given, or the scheme's own.
pub open spec fn port_or(port: Option<u16>, default: u16) -> u16 {
    match port {
        Some(p) => p,
        None => default,
    }
}

/// A host is given.
pub open spec fn has_host(p: UrlV) -> bool {
    p.host is Some && p.host->0.len() > 0
}

/// The upstream that URL parts stand for, or what is wrong with them.
pub open spec fn kind_of(raw: Seq<char>, parts: Result<UrlV, Seq<char>>) -> Result<
    KindV,
    Seq<char>,
> {
    match parts {
        Err(e) => Err(raw + ": "@ + e),
        Ok(p) => if p.scheme == "https"@ {
            if !has_host(p) {
                Err(raw + ": missing host"@)
            } else if p.path.len() == 0 || p.path == "/"@ {
                Err(raw + ": https URL must include a path (e.g. /dns-query)"@)
            } else {
                Ok(KindV::Https { host: p.host->0, port: port_or(p.port, 443), path: p.path })
            }
        } else if p.scheme == "quic"@ {
            if !has_host(p) {
                Err(raw + ": missing host"@)
            } else {
                Ok(KindV::Quic { host: p.host->0, port: port_or(p.port, 853) })
            }
        } else {
            Err(
                raw + ": unsupported scheme '"@ + p.scheme + "' (expected https or quic)"@,
            )
        },
    }
}

fn after(raw: &str, tail: &str) -> (r: Error)
    ensures
        r is UnsupportedUrl,
        r->UnsupportedUrl_0@ == raw@ + tail@,
{
    let mut out = raw.to_string();
    out.push_str(tail);
    Error::UnsupportedUrl(out)
}

/// The upstream that URL parts stand for.
pub fn upstream_kind(raw: &str, parts: Result<UrlParts, String>) -> (r: Result<
    UpstreamKind,
    Error,
>)
    ensures
        ({
            let p: Result<UrlV, Seq<char>> = match parts {
                Ok(p) => Ok(p@),
                Err(e) => Err(e@),
            };
            match r {
                Ok(k) => kind_of(raw@, p) == Ok::<KindV, Seq<char>>(k@),
                Err(e) => e is UnsupportedUrl && kind_of(raw@, p) == Err::<KindV, Seq<char>>(
                    e->UnsupportedUrl_0@,
                ),
            }
        }),
{
    let p = match parts {
        Ok(p) => p,
        Err(e) => {
            let mut out = raw.to_string();
            out.push_str(": ");
            out.push_str(e.as_str());
            return Err(Error::UnsupportedUrl(out));
        },
    };
    let ghost view = p@;
    let https = str_eq(p.scheme.as_str(), "https");
    let quic = str_eq(p.scheme.as_str(), "quic");
    if !https && !quic {
        let mut out = raw.to_string();
        out.push_str(": unsupported scheme '");
        out.push_str(p.scheme.as_str());
        out.push_str("' (expected https or quic)");
        return Err(Error::UnsupportedUrl(out));
    }
    let host = match p.host {
        Some(h) => h,
        None => {
            return Err(after(raw, ": missing host"));
        },
    };
    let cs = chars_of(host.as_str());
    if cs.len() == 0 {
        return Err(after(raw, ": missing host"));
    }
    if https {
        let path = chars_of(p.path.as_str());
        if path.len() == 0 || str_eq(p.path.as_str(), "/") {
            return Err(after(raw, ": https URL must include a path (e.g. /dns-query)"));
        }
        let port: u16 = match p.port {
            Some(n) => n,
            None => 443,
        };
        Ok(UpstreamKind::Https { host, port, path: p.path })
    } else {
        let port: u16 = match p.port {
            Some(n) => n,
            None => 853,
        };
        Ok(UpstreamKind::Quic { host, port })
    }
}

/// Parse an upstream URL.
pub fn parse_upstream_url(raw: &str) -> (r: Result<UpstreamKind, Error>)
    ensures
        match r {
            Ok(k) => kind_of(raw@, url_parts(raw@)) == Ok::<KindV, Seq<char>>(k@),
            Err(e) => e is UnsupportedUrl && kind_of(raw@, url_parts(raw@)) == Err::<
                KindV,
                Seq<char>,
            >(e->UnsupportedUrl_0@),
        },
{
    let parts = split_url(raw);
    upstream_kind(raw, parts)
}

/// What a pool needs before anything is connected.
pub fn check_pool(urls: usize, timeout_ms: u64) -> (r: Result<(), Error>)
    ensures
        match r {
            Ok(_) => urls > 0 && timeout_ms > 0,
            Err(e) => e is Init && if urls == 0 {
                e->Init_0@ == "no upstream URLs configured"@
            } else {
                timeout_ms == 0 && e->Init_0@ == "timeout_ms must be > 0"@
            },
        },
{
    if urls == 0 {
        return Err(Error::Init("no upstream URLs configured".to_string()));
    }
    if timeout_ms == 0 {
        return Err(Error::Init("timeout_ms must be > 0".to_string()));
    }
    Ok(())
}

/// How an upstream's address is found; `None` where there is nobody to ask.
pub open spec fn found_by(host: Seq<char>, bootstrap_ips: nat) -> Option<Bootstrap> {
    match literal(host) {
        Some(ip) => Some(Bootstrap::Literal(ip)),
        None => if bootstrap_ips == 0 {
            None
        } else {
            Some(Bootstrap::Lookup)
        },
    }
}

/// How an upstream's host name becomes an address.
pub enum Bootstrap {
    /// It is one already.
    Literal(Ip),
    /// The bootstrap servers must be asked.
    Lookup,
}

/// Decide how to find an upstream's address.
pub fn bootstrap_plan(host: &str, bootstrap_ips: usize) -> (r: Result<Bootstrap, Error>)
    ensures
        match found_by(host@, bootstrap_ips as nat) {
            Some(b) => r is Ok && r->Ok_0 == b,
            None => r is Err,
        },
        match literal(host@) {
            Some(ip) => r is Ok && r->Ok_0 == Bootstrap::Literal(ip),
            None => if bootstrap_ips == 0 {
                r is Err && r->Err_0 is Init && r->Err_0->Init_0@
                    == "bootstrap_ips is empty and upstream hostname requires resolution"@
            } else {
                r is Ok && r->Ok_0 is Lookup
            },
        },
{
    let cs = chars_of(host);
    match parse_ip(cs.as_slice()) {
        Some(ip) => Ok(Bootstrap::Literal(ip)),
        None => if bootstrap_ips == 0 {
            Err(
                Error::Init(
                    "bootstrap_ips is empty and upstream hostname requires resolution".to_string(),
                ),
            )
        } else {
            Ok(Bootstrap::Lookup)
        },
    }
}

/// The first IPv4 address, else the first address.
pub open spec fn preferred(addrs: Seq<Ip>) -> Option<Ip> {
    let p = first_v4(addrs, 0);
    if p < addrs.len() {
        Some(addrs[p])
    } else if addrs.len() > 0 {
        Some(addrs[0])
    } else {
        None
    }
}

pub open spec fn first_v4(addrs: Seq<Ip>, from: int) -> int
    decreases addrs.len() - from,
{
    if from < 0 || from >= addrs.len() {
        addrs.len() as int
    } else if addrs[from] is V4 {
        from
    } else {
        first_v4(addrs, from + 1)
    }
}

/// Choose among the addresses a lookup gave. IPv4 goes first, for hosts
/// without IPv6 connectivity.
pub fn bootstrap_choose(host: &str, addrs: &Vec<Ip>) -> (r: Result<Ip, Error>)
    ensures
        match preferred(addrs@) {
            Some(ip) => r is Ok && r->Ok_0 == ip,
            None => r is Err && r->Err_0 is Init && r->Err_0->Init_0@ == "bootstrap resolution of '"@
                + host@ + "' returned no addresses"@,
        },
{
    let n: usize = addrs.len();
    for i in 0..n
        invariant
            n == addrs@.len(),
            first_v4(addrs@, 0) == first_v4(addrs@, i as int),
    {
        match addrs[i] {
            Ip::V4(_) => {
                return Ok(addrs[i]);
            },
            Ip::V6(_) => {},
        }
    }
    if n > 0 {
        return Ok(addrs[0]);
    }
    let mut out = "bootstrap resolution of '".to_string();
    out.push_str(host);
    out.push_str("' returned no addresses");
    Err(Error::Init(out))
}

/// What kind of error a transport reported.
#[derive(Debug, Clone, Copy, PartialEq, Eq, Structural)]
pub enum TransportError {
    /// About one response's content.
    Dns,
    Proto,
    QueryCaseMismatch,
    /// Anything else.
    Other,
}

/// Whether the connection is unusable for every query.
pub open spec fn fatal(e: TransportError) -> bool {
    e == TransportError::Other
}

/// Whether the connection is unusable for every query, or only this query
/// failed. Anything not recognized is fatal: a spurious rebuild costs one
/// handshake, a spurious reuse of a dead connection every query to come.
pub fn is_fatal(e: TransportError) -> (r: bool)
    ensures
        r == fatal(e),
        r == (e == TransportError::Other),
{
    match e {
        TransportError::Dns | TransportError::Proto | TransportError::QueryCaseMismatch => false,
        TransportError::Other => true,
    }
}

/// The connection state and counters of one upstream. Times are milliseconds
/// on a monotonic clock.
#[derive(Debug, Clone, Copy, PartialEq, Eq, Structural)]
pub struct Connection {
    /// Changes with every build; tells the transport that was used from a
    /// replacement that was installed meanwhile.
    pub generation: u64,
    /// Whether a transport is installed.
    pub connected: bool,
    /// No build before this time.
    pub next_attempt: Option<u64>,
    /// Wait before the next build, doubled on each rebuild that no successful
    /// send follows.
    pub backoff_ms: u64,
    /// A repair is under way.
    pub repairing: bool,
    pub queries: u64,
    pub failures: u64,
    pub reconnects: u64,
    pub consecutive_failures: u64,
    /// Unix seconds of the last answer; 0 means never.
    pub last_success_ts: i64,
}

/// What a query that wants the connection does.
#[derive(Debug, Clone, Copy, PartialEq, Eq, Structural)]
pub enum Acquire {
    /// Use the transport of this generation.
    Use { generation: u64 },
    /// Fail: a reconnect is backing off.
    BackingOff,
    /// Ask for a repair and wait until one concludes, then look again.
    AwaitRepair,
}

pub open spec fn later(now: u64, wait: u64) -> u64 {
    if now + wait <= u64::MAX {
        (now + wait) as u64
    } else {
        u64::MAX
    }
}

pub open spec fn lesser(a: u64, b: u64) -> u64 {
    if a <= b {
        a
    } else {
        b
    }
}

fn later_of(now: u64, wait: u64) -> (r: u64)
    ensures
        r == later(now, wait),
{
    if wait <= u64::MAX - now {
        now + wait
    } else {
        u64::MAX
    }
}

fn lesser_of(a: u64, b: u64) -> (r: u64)
    ensures
        r == lesser(a, b),
{
    if a <= b {
        a
    } else {
        b
    }
}

impl Connection {
    /// The backoff stays on its ladder.
    pub open spec fn wf(self) -> bool {
        MIN_RECONNECT_BACKOFF_MS <= self.backoff_ms <= MAX_RECONNECT_BACKOFF_MS
    }

    /// A connection that was just established.
    pub open spec fn fresh() -> Connection {
        Connection {
            generation: 0,
            connected: true,
            next_attempt: None,
            backoff_ms: MIN_RECONNECT_BACKOFF_MS,
            repairing: false,
            queries: 0,
            failures: 0,
            reconnects: 0,
            consecutive_failures: 0,
            last_success_ts: 0,
        }
    }

    /// A backoff window is open.
    pub open spec fn backing_off(self, now: u64) -> bool {
        self.next_attempt is Some && now < self.next_attempt->0
    }

    /// What a query that wants the connection does.
    pub open spec fn offers(self, now: u64) -> Acquire {
        if self.connected {
            Acquire::Use { generation: self.generation }
        } else if self.backing_off(now) {
            Acquire::BackingOff
        } else {
            Acquire::AwaitRepair
        }
    }

    /// A repair is due where no transport is installed.
    pub open spec fn repair_due(self) -> Connection {
        Connection { repairing: self.repairing || !self.connected, ..self }
    }

    /// Without the transport of a generation, unless it was replaced.
    pub open spec fn dropped(self, generation: u64) -> Connection {
        if self.generation == generation {
            Connection { connected: false, ..self }
        } else {
            self
        }
    }

    /// After an answer: the backoff and any holddown are over.
    pub open spec fn answered(self, now_ts: i64) -> Connection {
        Connection {
            consecutive_failures: 0,
            last_success_ts: now_ts,
            backoff_ms: MIN_RECONNECT_BACKOFF_MS,
            next_attempt: None,
            ..self
        }
    }

    /// After a query failed.
    pub open spec fn failed(self) -> Connection {
        Connection {
            failures: self.failures.wrapping_add(1),
            consecutive_failures: self.consecutive_failures.wrapping_add(1),
            ..self
        }
    }

    /// After a build.
    ///
    /// A built connection is installed under a new generation. The next
    /// rebuild is held down for the backoff, at most
    /// [`MAX_REBUILD_HOLDDOWN_MS`]: an upstream that accepts connections it
    /// cannot serve costs a handshake each time. A failed build backs off.
    pub open spec fn rebuilt(self, built: bool, now: u64) -> Connection {
        if built {
            Connection {
                generation: self.generation.wrapping_add(1),
                connected: true,
                next_attempt: Some(later(now, lesser(self.backoff_ms, MAX_REBUILD_HOLDDOWN_MS))),
                backoff_ms: lesser((2 * self.backoff_ms) as u64, MAX_REBUILD_HOLDDOWN_MS),
                reconnects: self.reconnects.wrapping_add(1),
                ..self
            }
        } else {
            Connection {
                next_attempt: Some(later(now, self.backoff_ms)),
                backoff_ms: lesser((2 * self.backoff_ms) as u64, MAX_RECONNECT_BACKOFF_MS),
                ..self
            }
        }
    }

    /// After what a send over the transport of a generation came to.
    pub open spec fn settled(self, generation: u64, step: SendStep, now_ts: i64) -> Connection {
        match step {
            SendStep::Accept => self.answered(now_ts),
            SendStep::Fail { invalidate: false, .. } => self.failed(),
            SendStep::Fail { invalidate: true, .. } => self.dropped(
                generation,
            ).repair_due().failed(),
            SendStep::Retry { .. } => self.dropped(generation).repair_due(),
        }
    }

    /// With a repair under way.
    pub open spec fn triggered(self) -> Connection {
        Connection { repairing: true, ..self }
    }

    /// With no repair under way.
    pub open spec fn concluded(self) -> Connection {
        Connection { repairing: false, ..self }
    }

    /// With one query more.
    pub open spec fn queried(self) -> Connection {
        Connection { queries: self.queries.wrapping_add(1), ..self }
    }

    /// Whether a repair builds.
    pub open spec fn builds(self, now: u64) -> bool {
        !self.connected && !self.backing_off(now)
    }

    /// The state of a connection that was just established.
    pub fn new() -> (r: Connection)
        ensures
            r.wf(),
            r == Connection::fresh(),
    {
        Connection {
            generation: 0,
            connected: true,
            next_attempt: None,
            backoff_ms: MIN_RECONNECT_BACKOFF_MS,
            repairing: false,
            queries: 0,
            failures: 0,
            reconnects: 0,
            consecutive_failures: 0,
            last_success_ts: 0,
        }
    }

    /// What a query that wants the connection does now.
    pub fn acquire(&self, now: u64) -> (r: Acquire)
        ensures
            r == self.offers(now),
    {
        if self.connected {
            return Acquire::Use { generation: self.generation };
        }
        match self.next_attempt {
            Some(next) => if now < next {
                Acquire::BackingOff
            } else {
                Acquire::AwaitRepair
            },
            None => Acquire::AwaitRepair,
        }
    }

    /// Start a repair unless one is under way; true where the caller must run
    /// it.
    pub fn trigger_repair(&mut self) -> (r: bool)
        ensures
            r == !old(self).repairing,
            *final(self) == old(self).triggered(),
            *final(self) == (Connection { repairing: true, ..*old(self) }),
    {
        let start = !self.repairing;
        self.repairing = true;
        start
    }

    /// Whether the repair builds: not where a transport is installed, nor
    /// while a backoff window is open.
    pub fn repair_builds(&self, now: u64) -> (r: bool)
        ensures
            r == self.builds(now),
            r == (!self.connected && !self.backing_off(now)),
    {
        if self.connected {
            return false;
        }
        match self.next_attempt {
            Some(next) => now >= next,
            None => true,
        }
    }

    /// Take in what a build came to.
    pub fn repair_built(&mut self, built: bool, now: u64)
        requires
            old(self).wf(),
        ensures
            final(self).wf(),
            *final(self) == old(self).rebuilt(built, now),
    {
        let backoff: u64 = self.backoff_ms;
        if built {
            self.generation = self.generation.wrapping_add(1);
            self.connected = true;
            self.next_attempt = Some(later_of(now, lesser_of(backoff, MAX_REBUILD_HOLDDOWN_MS)));
            self.backoff_ms = lesser_of(2 * backoff, MAX_REBUILD_HOLDDOWN_MS);
            self.reconnects = self.reconnects.wrapping_add(1);
        } else {
            self.next_attempt = Some(later_of(now, backoff));
            self.backoff_ms = lesser_of(2 * backoff, MAX_RECONNECT_BACKOFF_MS);
        }
    }

    /// The repair is over, however it ended.
    pub fn repair_concluded(&mut self)
        ensures
            *final(self) == old(self).concluded(),
            *final(self) == (Connection { repairing: false, ..*old(self) }),
    {
        self.repairing = false;
    }

    /// Count a query.
    pub fn record_query(&mut self)
        ensures
            *final(self) == old(self).queried(),
            *final(self) == (Connection {
                queries: old(self).queries.wrapping_add(1),
                ..*old(self)
            }),
    {
        self.queries = self.queries.wrapping_add(1);
    }

    /// Count a query that failed.
    pub fn record_failure(&mut self)
        ensures
            *final(self) == old(self).failed(),
    {
        self.failures = self.failures.wrapping_add(1);
        self.consecutive_failures = self.consecutive_failures.wrapping_add(1);
    }

    /// Take in what a send over the transport of a generation came to; true
    /// where the caller must run a repair.
    pub fn settle(&mut self, generation: u64, step: &SendStep, now_ts: i64) -> (r: bool)
        requires
            old(self).wf(),
        ensures
            final(self).wf(),
            *final(self) == old(self).settled(generation, *step, now_ts),
            r == (!old(self).repairing && final(self).repairing),
    {
        let was: bool = self.repairing;
        match step {
            SendStep::Accept => {
                self.consecutive_failures = 0;
                self.last_success_ts = now_ts;
                self.backoff_ms = MIN_RECONNECT_BACKOFF_MS;
                self.next_attempt = None;
            },
            SendStep::Fail { err: _, invalidate } => {
                if *invalidate {
                    self.invalidate(generation);
                }
                self.record_failure();
            },
            SendStep::Retry { first_err: _ } => {
                self.invalidate(generation);
            },
        }
        !was && self.repairing
    }

    fn invalidate(&mut self, generation: u64)
        ensures
            *final(self) == old(self).dropped(generation).repair_due(),
    {
        if self.generation == generation {
            self.connected = false;
        }
        if !self.connected {
            self.repairing = true;
        }
    }

    /// Seconds since the last answer; `None` where there never was one.
    pub open spec fn success_age(self, now_ts: i64) -> Option<u64> {
        if self.last_success_ts > 0 {
            Some(
                if now_ts > self.last_success_ts {
                    (now_ts - self.last_success_ts) as u64
                } else {
                    0
                },
            )
        } else {
            None
        }
    }

    /// A health snapshot.
    pub fn health(&self, url: &str, now_ts: i64) -> (r: UpstreamHealth)
        ensures
            r.url@ == url@,
            r.connected == self.connected,
            r.last_success_secs_ago == self.success_age(now_ts),
            r.queries == self.queries,
            r.failures == self.failures,
            r.reconnects == self.reconnects,
            r.consecutive_failures == self.consecutive_failures,
    {
        let last: i64 = self.last_success_ts;
        UpstreamHealth {
            url: url.to_string(),
            connected: self.connected,
            last_success_secs_ago: if last > 0 {
                Some(
                    if now_ts > last {
                        (now_ts - last) as u64
                    } else {
                        0
                    },
                )
            } else {
                None
            },
            queries: self.queries,
            failures: self.failures,
            reconnects: self.reconnects,
            consecutive_failures: self.consecutive_failures,
        }
    }
}

/// Health snapshot of one upstream.
#[derive(Debug)]
pub struct UpstreamHealth {
    /// The configured URL.
    pub url: String,
    /// Whether a connection is held. No health signal: connections are rebuilt
    /// on the next query.
    pub connected: bool,
    /// Seconds since this upstream last answered, `None` if it never has.
    pub last_success_secs_ago: Option<u64>,
    pub queries: u64,
    pub failures: u64,
    /// Successful builds after the first.
    pub reconnects: u64,
    /// Failures since the last success.
    pub consecutive_failures: u64,
}

/// Health snapshot of the pool.
#[derive(Debug)]
pub struct PoolHealth {
    pub upstreams: Vec<UpstreamHealth>,
    /// Queries answered by at least one upstream.
    pub resolved: u64,
    /// Queries where every upstream failed.
    pub all_failed_total: u64,
    /// Such queries in a row; non-zero means that nothing can be resolved.
    pub consecutive_all_failed: u64,
}

/// Counters of the pool.
#[derive(Debug, Clone, Copy, PartialEq, Eq, Structural)]
pub struct PoolCounters {
    pub resolved: u64,
    pub all_failed_total: u64,
    pub consecutive_all_failed: u64,
}

impl PoolCounters {
    /// After a query that some upstream answered.
    pub open spec fn answered(self) -> PoolCounters {
        PoolCounters {
            resolved: self.resolved.wrapping_add(1),
            consecutive_all_failed: 0,
            ..self
        }
    }

    /// After a query that none did.
    pub open spec fn unanswered(self) -> PoolCounters {
        PoolCounters {
            all_failed_total: self.all_failed_total.wrapping_add(1),
            consecutive_all_failed: self.consecutive_all_failed.wrapping_add(1),
            ..self
        }
    }

    pub fn new() -> (r: PoolCounters)
        ensures
            r == (PoolCounters { resolved: 0, all_failed_total: 0, consecutive_all_failed: 0 }),
    {
        PoolCounters { resolved: 0, all_failed_total: 0, consecutive_all_failed: 0 }
    }

    /// Some upstream answered.
    pub fn record_resolved(&mut self)
        ensures
            *final(self) == old(self).answered(),
    {
        self.resolved = self.resolved.wrapping_add(1);
        self.consecutive_all_failed = 0;
    }

    /// Every upstream failed.
    pub fn record_all_failed(&mut self)
        ensures
            *final(self) == old(self).unanswered(),
    {
        self.all_failed_total = self.all_failed_total.wrapping_add(1);
        self.consecutive_all_failed = self.consecutive_all_failed.wrapping_add(1);
    }
}

/// What a send over a transport came to.
pub enum SendOutcome {
    /// A response with this code.
    Answered(u16),
    /// This query failed; the connection remains usable.
    Query(String),
    /// The connection is unusable for every query.
    Fatal(String),
    /// Nothing came back in time.
    TimedOut,
}

/// Whether a response code is an answer. SERVFAIL, REFUSED and NOTIMP count as
/// the upstream failing; the connection stays.
pub open spec fn usable(response_code: u16) -> bool {
    response_code != SERV_FAIL && response_code != REFUSED && response_code != NOT_IMP
}

/// What comes of a send.
pub enum SendStep {
    /// The response is the answer.
    Accept,
    /// The query failed. `invalidate` tells whether the connection goes too.
    Fail { err: String, invalidate: bool },
    /// The connection goes; try once more on a fresh one.
    Retry { first_err: String },
}

/// The complaint about an unusable response code.
pub open spec fn unusable_text(label: Seq<char>, code: Seq<char>) -> Seq<char> {
    label + ": upstream answered "@ + code
}

/// What the first send of a query comes to.
pub open spec fn first_step(label: Seq<char>, code: Seq<char>, o: SendOutcome, s: SendStep) -> bool {
    match o {
        SendOutcome::Answered(c) => if usable(c) {
            s is Accept
        } else {
            s matches SendStep::Fail { err, invalidate } && err@ == unusable_text(label, code)
                && !invalidate
        },
        SendOutcome::Query(e) => s matches SendStep::Fail { err, invalidate } && err@ == e@
            && !invalidate,
        SendOutcome::Fatal(e) => s matches SendStep::Retry { first_err } && first_err@ == e@,
        SendOutcome::TimedOut => s matches SendStep::Fail { err, invalidate } && err@ == label
            + ": timed out"@ && invalidate,
    }
}

fn unusable_message(label: &str, code: &str) -> (r: String)
    ensures
        r@ == unusable_text(label@, code@),
{
    let mut out = label.to_string();
    out.push_str(": upstream answered ");
    out.push_str(code);
    out
}

fn timed_out_message(label: &str) -> (r: String)
    ensures
        r@ == label@ + ": timed out"@,
{
    let mut out = label.to_string();
    out.push_str(": timed out");
    out
}

/// Decide what the first send of a query comes to. `code` is the response code
/// in words.
pub fn after_first_send(label: &str, code: &str, outcome: SendOutcome) -> (s: SendStep)
    ensures
        first_step(label@, code@, outcome, s),
{
    match outcome {
        SendOutcome::Answered(c) => if c != SERV_FAIL && c != REFUSED && c != NOT_IMP {
            SendStep::Accept
        } else {
            SendStep::Fail { err: unusable_message(label, code), invalidate: false }
        },
        SendOutcome::Query(e) => SendStep::Fail { err: e, invalidate: false },
        SendOutcome::Fatal(e) => SendStep::Retry { first_err: e },
        SendOutcome::TimedOut => SendStep::Fail { err: timed_out_message(label), invalidate: true },
    }
}

/// Both complaints about a query that failed twice.
pub open spec fn both(first_err: Seq<char>, second: Seq<char>) -> Seq<char> {
    first_err + "; after reconnect: "@ + second
}

/// What the second send comes to; there is no third.
pub open spec fn second_step(
    label: Seq<char>,
    code: Seq<char>,
    first_err: Seq<char>,
    o: SendOutcome,
    s: SendStep,
) -> bool {
    match o {
        SendOutcome::Answered(c) => if usable(c) {
            s is Accept
        } else {
            s matches SendStep::Fail { err, invalidate } && err@ == both(
                first_err,
                unusable_text(label, code),
            ) && !invalidate
        },
        SendOutcome::Query(e) => s matches SendStep::Fail { err, invalidate } && err@ == both(
            first_err,
            e@,
        ) && !invalidate,
        SendOutcome::Fatal(e) => s matches SendStep::Fail { err, invalidate } && err@ == both(
            first_err,
            e@,
        ) && invalidate,
        SendOutcome::TimedOut => s matches SendStep::Fail { err, invalidate } && err@ == both(
            first_err,
            label + ": timed out"@,
        ) && invalidate,
    }
}

fn both_errors(first_err: &str, second: &str) -> (r: String)
    ensures
        r@ == both(first_err@, second@),
{
    let mut out = first_err.to_string();
    out.push_str("; after reconnect: ");
    out.push_str(second);
    out
}

/// Decide what the second send of a query comes to.
pub fn after_second_send(label: &str, code: &str, first_err: &str, outcome: SendOutcome) -> (s:
    SendStep)
    ensures
        second_step(label@, code@, first_err@, outcome, s),
{
    match outcome {
        SendOutcome::Answered(c) => if c != SERV_FAIL && c != REFUSED && c != NOT_IMP {
            SendStep::Accept
        } else {
            SendStep::Fail {
                err: both_errors(first_err, unusable_message(label, code).as_str()),
                invalidate: false,
            }
        },
        SendOutcome::Query(e) => SendStep::Fail {
            err: both_errors(first_err, e.as_str()),
            invalidate: false,
        },
        SendOutcome::Fatal(e) => SendStep::Fail {
            err: both_errors(first_err, e.as_str()),
            invalidate: true,
        },
        SendOutcome::TimedOut => SendStep::Fail {
            err: both_errors(first_err, timed_out_message(label).as_str()),
            invalidate: true,
        },
    }
}

/// A response code in words.
pub fn code_words(code: u16) -> (r: String)
    ensures
        r@ == code_text(code),
{
    text_of_code(code)
}

/// The complaint of a query that found no connection, after the first error if
/// there was one.
pub open spec fn acquire_words(
    label: Seq<char>,
    first_err: Option<Seq<char>>,
    timed_out: bool,
) -> Seq<char> {
    let own = label + if timed_out {
        ": timed out waiting for reconnect"@
    } else {
        ": disconnected, reconnect backing off"@
    };
    match first_err {
        Some(e) => e + "; "@ + own,
        None => own,
    }
}

/// The complaint of a query that found no connection.
pub fn acquire_error(label: &str, first_err: Option<&str>, timed_out: bool) -> (r: String)
    ensures
        r@ == acquire_words(
            label@,
            match first_err {
                Some(e) => Some(e@),
                None => None,
            },
            timed_out,
        ),
{
    let mut own = label.to_string();
    if timed_out {
        own.push_str(": timed out waiting for reconnect");
    } else {
        own.push_str(": disconnected, reconnect backing off");
    }
    match first_err {
        Some(e) => {
            let mut out = e.to_string();
            out.push_str("; ");
            out.push_str(own.as_str());
            out
        },
        None => own,
    }
}

/// The query that goes out: RD set, and the DO bit, on the query's own OPT or
/// a fresh one.
pub open spec fn outgoing(query: MessageV) -> MessageV {
    MessageV {
        metadata: Metadata { recursion_desired: true, ..query.metadata },
        edns: Some(
            match query.edns {
                Some(e) => EdnsV { dnssec_ok: true, ..e },
                None => EdnsV {
                    max_payload: 512,
                    version: 0,
                    dnssec_ok: true,
                    z: 0,
                    options: seq![],
                },
            },
        ),
        ..query
    }
}

/// Prepare a query for the upstreams.
pub fn outgoing_query(query: &Message) -> (r: Message)
    ensures
        r@ == outgoing(query@),
{
    let mut out = query.clone();
    out.metadata.recursion_desired = true;
    let next = match &query.edns {
        Some(e) => Edns {
            max_payload: e.max_payload,
            version: e.version,
            dnssec_ok: true,
            z: e.z,
            options: e.options.clone(),
        },
        None => Edns {
            max_payload: 512,
            version: 0,
            dnssec_ok: true,
            z: 0,
            options: Vec::new(),
        },
    };
    proof {
        assert(next@ =~= outgoing(query@).edns->0);
    }
    out.edns = Some(next);
    out
}

/// A response under the query's id.
pub open spec fn stamped(response: MessageV, id: u16) -> MessageV {
    MessageV { metadata: Metadata { id, ..response.metadata }, ..response }
}

/// Stamp the query's id onto the winning response; an upstream may have
/// forced its own.
pub fn stamp_id(response: Message, id: u16) -> (r: Message)
    ensures
        r@ == stamped(response@, id),
{
    let mut response = response;
    response.metadata.id = id;
    response
}

} // verus!
