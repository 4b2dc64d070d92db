//! What an `AdGuard Home` configuration becomes, before it is written down.
use vstd::prelude::*;

use crate::ip::show::{endpoint_text, ip_text, show_endpoint, show_ip};
use crate::ip::{literal, parse_ip, Ip};
use crate::migrate::names::{duration_fits, free_name, go_duration, parse_go_duration_ms};
use crate::migrate::names::{has_name, pick_name, slug, slugged};
use crate::text::{chars_of, debug_of, debug_text, decimal, decimal_of, has_char, join, joined};
use crate::text::{opt_text, starts_with, starts_with_str, str_eq, texts};

verus! {

/// The parts of `AdGuardHome.yaml` that matter here.
#[derive(Debug)]
pub struct Agh {
    pub dns: AghDns,
    pub filters: Vec<AghFilter>,
    pub user_rules: Vec<String>,
    pub safe_search: AghSafeSearch,
    pub dhcp_enabled: bool,
    pub tls_enabled: bool,
}

#[derive(Debug)]
pub struct AghDns {
    pub bind_hosts: Vec<String>,
    pub port: u16,
    pub upstream_dns: Vec<String>,
    pub fallback_dns: Vec<String>,
    pub bootstrap_dns: Vec<Ip>,
    pub upstream_timeout: String,
    pub allowed_clients: Vec<String>,
    pub blocked_hosts: Vec<String>,
    pub ratelimit: u64,
}

impl Default for AghDns {
    fn default() -> (r: AghDns)
        ensures
            texts(r.bind_hosts@) == seq!["0.0.0.0"@],
            r.port == 53,
            r.upstream_dns@.len() == 0,
            r.fallback_dns@.len() == 0,
            r.bootstrap_dns@.len() == 0,
            r.upstream_timeout@ == "5s"@,
            r.allowed_clients@.len() == 0,
            r.blocked_hosts@.len() == 0,
            r.ratelimit == 0,
    {
        let mut bind_hosts: Vec<String> = Vec::new();
        bind_hosts.push("0.0.0.0".to_string());
        assert(texts(bind_hosts@) == seq!["0.0.0.0"@]);
        AghDns {
            bind_hosts,
            port: 53,
            upstream_dns: Vec::new(),
            fallback_dns: Vec::new(),
            bootstrap_dns: Vec::new(),
            upstream_timeout: "5s".to_string(),
            allowed_clients: Vec::new(),
            blocked_hosts: Vec::new(),
            ratelimit: 0,
        }
    }
}

#[derive(Debug)]
pub struct AghFilter {
    pub enabled: bool,
    pub url: String,
    pub name: String,
}

#[derive(Debug, Clone, Copy)]
pub struct AghSafeSearch {
    pub enabled: bool,
    pub google: bool,
    pub youtube: bool,
    pub bing: bool,
    pub duckduckgo: bool,
    pub ecosia: bool,
    pub pixabay: bool,
    pub yandex: bool,
}

/// Something that is not carried over as it was.
#[derive(Debug, PartialEq, Eq)]
pub enum Warning {
    /// An upstream of an unsupported scheme.
    Upstream(String),
    Fallback,
    /// A timeout that cannot be read.
    Timeout(String),
    /// Every client was allowed.
    AnyClient,
    /// A client that is no address or network.
    Client(String),
    /// No client is left.
    NoClient,
    Renamed { from: String, to: String },
    Disabled(String),
    /// A safe-search provider that is not supported.
    Provider(String),
    /// No provider is left.
    NoProvider,
    Dhcp,
    Tls,
    Ratelimit,
    /// Settings that do not apply.
    Settings,
}

/// Model of [`Warning`].
#[verifier::ext_equal]
pub enum WarningV {
    Upstream(Seq<char>),
    Fallback,
    Timeout(Seq<char>),
    AnyClient,
    Client(Seq<char>),
    NoClient,
    Renamed { from: Seq<char>, to: Seq<char> },
    Disabled(Seq<char>),
    Provider(Seq<char>),
    NoProvider,
    Dhcp,
    Tls,
    Ratelimit,
    Settings,
}

impl View for Warning {
    type V = WarningV;

    open spec fn view(&self) -> WarningV {
        match *self {
            Warning::Upstream(s) => WarningV::Upstream(s@),
            Warning::Fallback => WarningV::Fallback,
            Warning::Timeout(s) => WarningV::Timeout(s@),
            Warning::AnyClient => WarningV::AnyClient,
            Warning::Client(s) => WarningV::Client(s@),
            Warning::NoClient => WarningV::NoClient,
            Warning::Renamed { from, to } => WarningV::Renamed { from: from@, to: to@ },
            Warning::Disabled(s) => WarningV::Disabled(s@),
            Warning::Provider(s) => WarningV::Provider(s@),
            Warning::NoProvider => WarningV::NoProvider,
            Warning::Dhcp => WarningV::Dhcp,
            Warning::Tls => WarningV::Tls,
            Warning::Ratelimit => WarningV::Ratelimit,
            Warning::Settings => WarningV::Settings,
        }
    }
}

pub open spec fn warnings_of(v: Seq<Warning>) -> Seq<WarningV> {
    Seq::new(v.len(), |i: int| v[i]@)
}

impl WarningV {
    /// The warning in words.
    pub open spec fn words(self) -> Seq<char> {
        match self {
            WarningV::Upstream(u) => "upstream "@ + u
                + " skipped: sumidero v1 supports only https:// (DoH) and quic:// (DoQ)"@,
            WarningV::Fallback =>
                "fallback_dns has no equivalent: sumidero races all upstreams in parallel"@,
            WarningV::Timeout(t) => "cannot parse upstream_timeout "@ + debug_text(t)
                + "; using 5000 ms"@,
            WarningV::AnyClient =>
                "allowed_clients is empty: AdGuard would answer everyone; sumidero requires an explicit allowlist — defaulting to RFC1918 + loopback, EDIT THIS"@,
            WarningV::Client(c) => "allowed client "@ + debug_text(c)
                + " skipped: not an IP or CIDR (client IDs are not supported)"@,
            WarningV::NoClient =>
                "no allowed client survived the conversion; defaulting to RFC1918 + loopback, EDIT THIS"@,
            WarningV::Renamed { from, to } => "filter "@ + debug_text(from) + " renamed to "@
                + debug_text(to) + " to keep list names unique"@,
            WarningV::Disabled(n) => "disabled filter "@ + debug_text(n) + " not migrated"@,
            WarningV::Provider(p) => "safe-search provider "@ + p + " is not supported in v1"@,
            WarningV::NoProvider =>
                "safe_search was enabled but no supported provider is active; disabled"@,
            WarningV::Dhcp => "DHCP is enabled in AdGuard but out of scope for sumidero"@,
            WarningV::Tls => "TLS serving (DoT/DoH server) is out of scope for sumidero v1"@,
            WarningV::Ratelimit => "ratelimit has no equivalent in sumidero v1"@,
            WarningV::Settings =>
                "web UI, query-log settings, and statistics settings do not apply: sumidero's control plane is the config file + SQLite + CLI"@,
        }
    }
}

fn around(head: &str, middle: &str, tail: &str) -> (r: String)
    ensures
        r@ == head@ + middle@ + tail@,
{
    let mut out = head.to_string();
    out.push_str(middle);
    out.push_str(tail);
    out
}

impl Warning {
    /// The warning in words.
    pub fn message(&self) -> (r: String)
        ensures
            r@ == self@.words(),
    {
        match self {
            Warning::Upstream(u) => around(
                "upstream ",
                u.as_str(),
                " skipped: sumidero v1 supports only https:// (DoH) and quic:// (DoQ)",
            ),
            Warning::Fallback =>
                "fallback_dns has no equivalent: sumidero races all upstreams in parallel".to_string(),
            Warning::Timeout(t) => around(
                "cannot parse upstream_timeout ",
                debug_of(t.as_str()).as_str(),
                "; using 5000 ms",
            ),
            Warning::AnyClient =>
                "allowed_clients is empty: AdGuard would answer everyone; sumidero requires an explicit allowlist — defaulting to RFC1918 + loopback, EDIT THIS".to_string(),
            Warning::Client(c) => around(
                "allowed client ",
                debug_of(c.as_str()).as_str(),
                " skipped: not an IP or CIDR (client IDs are not supported)",
            ),
            Warning::NoClient =>
                "no allowed client survived the conversion; defaulting to RFC1918 + loopback, EDIT THIS".to_string(),
            Warning::Renamed { from, to } => {
                let mut out = around("filter ", debug_of(from.as_str()).as_str(), " renamed to ");
                out.push_str(debug_of(to.as_str()).as_str());
                out.push_str(" to keep list names unique");
                out
            },
            Warning::Disabled(n) => around(
                "disabled filter ",
                debug_of(n.as_str()).as_str(),
                " not migrated",
            ),
            Warning::Provider(p) => around(
                "safe-search provider ",
                p.as_str(),
                " is not supported in v1",
            ),
            Warning::NoProvider =>
                "safe_search was enabled but no supported provider is active; disabled".to_string(),
            Warning::Dhcp =>
                "DHCP is enabled in AdGuard but out of scope for sumidero".to_string(),
            Warning::Tls =>
                "TLS serving (DoT/DoH server) is out of scope for sumidero v1".to_string(),
            Warning::Ratelimit => "ratelimit has no equivalent in sumidero v1".to_string(),
            Warning::Settings =>
                "web UI, query-log settings, and statistics settings do not apply: sumidero's control plane is the config file + SQLite + CLI".to_string(),
        }
    }
}

/// Position of the first text that is no address; the length where all are.
pub open spec fn bad_host(hosts: Seq<Seq<char>>, from: int) -> int
    decreases hosts.len() - from,
{
    if from < 0 || from >= hosts.len() {
        hosts.len() as int
    } else if literal(hosts[from]) is None {
        from
    } else {
        bad_host(hosts, from + 1)
    }
}

/// The sockets one host stands for: all IPv4 addresses cover IPv6 too.
pub open spec fn host_binds(ip: Ip, port: u16) -> Seq<Seq<char>> {
    if ip == Ip::V4(0) {
        seq![endpoint_text(ip, port), "[::]:"@ + decimal(port as nat)]
    } else {
        seq![endpoint_text(ip, port)]
    }
}

/// The sockets of all hosts.
pub open spec fn all_binds(hosts: Seq<Seq<char>>, port: u16) -> Seq<Seq<char>>
    decreases hosts.len(),
{
    if hosts.len() == 0 {
        seq![]
    } else {
        all_binds(hosts.drop_last(), port) + host_binds(literal(hosts.last())->0, port)
    }
}

/// The first occurrence of each text.
pub open spec fn unique(v: Seq<Seq<char>>) -> Seq<Seq<char>>
    decreases v.len(),
{
    if v.len() == 0 {
        seq![]
    } else {
        let p = unique(v.drop_last());
        if p.contains(v.last()) {
            p
        } else {
            p.push(v.last())
        }
    }
}

/// An upstream that can be used.
pub open spec fn usable(u: Seq<char>) -> bool {
    starts_with(u, "https://"@) || starts_with(u, "quic://"@)
}

/// The upstreams that can be used.
pub open spec fn kept_upstreams(us: Seq<Seq<char>>) -> Seq<Seq<char>>
    decreases us.len(),
{
    if us.len() == 0 {
        seq![]
    } else if usable(us.last()) {
        kept_upstreams(us.drop_last()).push(us.last())
    } else {
        kept_upstreams(us.drop_last())
    }
}

/// A warning for each of the others.
pub open spec fn upstream_warnings(us: Seq<Seq<char>>) -> Seq<WarningV>
    decreases us.len(),
{
    if us.len() == 0 {
        seq![]
    } else if usable(us.last()) {
        upstream_warnings(us.drop_last())
    } else {
        upstream_warnings(us.drop_last()).push(WarningV::Upstream(us.last()))
    }
}

/// The networks allowed where none are given: private ones and loopback.
pub open spec fn default_allow() -> Seq<Seq<char>> {
    seq!["192.168.0.0/16"@, "10.0.0.0/8"@, "172.16.0.0/12"@, "127.0.0.0/8"@, "::1/128"@]
}

/// The network that a client stands for: a network is taken as it is, an
/// address becomes a network of one.
pub open spec fn client_net(c: Seq<char>) -> Option<Seq<char>> {
    if c.contains('/') {
        Some(c)
    } else {
        match literal(c) {
            Some(Ip::V4(a)) => Some(ip_text(Ip::V4(a)) + "/32"@),
            Some(Ip::V6(a)) => Some(ip_text(Ip::V6(a)) + "/128"@),
            None => None,
        }
    }
}

/// The networks of all clients that have one.
pub open spec fn client_nets(cs: Seq<Seq<char>>) -> Seq<Seq<char>>
    decreases cs.len(),
{
    if cs.len() == 0 {
        seq![]
    } else {
        match client_net(cs.last()) {
            Some(n) => client_nets(cs.drop_last()).push(n),
            None => client_nets(cs.drop_last()),
        }
    }
}

/// A warning for each of the others.
pub open spec fn client_warnings(cs: Seq<Seq<char>>) -> Seq<WarningV>
    decreases cs.len(),
{
    if cs.len() == 0 {
        seq![]
    } else {
        match client_net(cs.last()) {
            Some(_) => client_warnings(cs.drop_last()),
            None => client_warnings(cs.drop_last()).push(WarningV::Client(cs.last())),
        }
    }
}

/// The networks allowed to query.
pub open spec fn allowed(cs: Seq<Seq<char>>) -> Seq<Seq<char>> {
    if client_nets(cs).len() == 0 {
        default_allow()
    } else {
        client_nets(cs)
    }
}

pub open spec fn allow_warnings(cs: Seq<Seq<char>>) -> Seq<WarningV> {
    if cs.len() == 0 {
        seq![WarningV::AnyClient]
    } else if client_nets(cs).len() == 0 {
        client_warnings(cs).push(WarningV::NoClient)
    } else {
        client_warnings(cs)
    }
}

/// Model of [`AghFilter`].
#[verifier::ext_equal]
pub struct FilterV {
    pub enabled: bool,
    pub url: Seq<char>,
    pub name: Seq<char>,
}

impl View for AghFilter {
    type V = FilterV;

    open spec fn view(&self) -> FilterV {
        FilterV { enabled: self.enabled, url: self.url@, name: self.name@ }
    }
}

pub open spec fn filters_of(v: Seq<AghFilter>) -> Seq<FilterV> {
    Seq::new(v.len(), |i: int| v[i]@)
}

/// The name a filter gets where it is free. Filters are numbered from 1.
pub open spec fn base_name(f: FilterV, number: nat) -> Seq<char> {
    if slugged(f.name).len() == 0 {
        "list-"@ + decimal(number)
    } else {
        slugged(f.name)
    }
}

/// Names in use: that of the user rules, and those given out.
pub open spec fn names_used(lists: Seq<(Seq<char>, Seq<char>)>) -> Seq<Seq<char>> {
    seq!["user-rules"@] + Seq::new(lists.len(), |i: int| lists[i].0)
}

/// The lists that filters become, each a name and a URL.
pub open spec fn kept_filters(fs: Seq<FilterV>) -> Seq<(Seq<char>, Seq<char>)>
    decreases fs.len(),
{
    if fs.len() == 0 {
        seq![]
    } else {
        let before = kept_filters(fs.drop_last());
        if fs.last().enabled {
            before.push(
                (free_name(names_used(before), base_name(fs.last(), fs.len())), fs.last().url),
            )
        } else {
            before
        }
    }
}

/// A warning for each filter that is disabled or was renamed.
pub open spec fn filter_warnings(fs: Seq<FilterV>) -> Seq<WarningV>
    decreases fs.len(),
{
    if fs.len() == 0 {
        seq![]
    } else {
        let before = filter_warnings(fs.drop_last());
        let f = fs.last();
        let base = base_name(f, fs.len());
        let name = free_name(names_used(kept_filters(fs.drop_last())), base);
        if !f.enabled {
            before.push(WarningV::Disabled(f.name))
        } else if name != base {
            before.push(WarningV::Renamed { from: f.name, to: name })
        } else {
            before
        }
    }
}

/// The local list of the user's own rules.
pub open spec fn user_list(rules: Seq<Seq<char>>) -> Option<Seq<char>> {
    if rules.len() == 0 {
        None
    } else {
        Some(
            "! migrated from AdGuardHome.yaml (user_rules + blocked_hosts)\n"@ + join(
                rules,
                "\n"@,
            ) + "\n"@,
        )
    }
}

pub open spec fn one_if(on: bool, name: Seq<char>) -> Seq<Seq<char>> {
    if on {
        seq![name]
    } else {
        seq![]
    }
}

pub open spec fn warn_if(on: bool, w: WarningV) -> Seq<WarningV> {
    if on {
        seq![w]
    } else {
        seq![]
    }
}

/// The safe-search providers that are carried over.
pub open spec fn kept_providers(s: AghSafeSearch) -> Seq<Seq<char>> {
    if s.enabled {
        one_if(s.google, "google"@) + one_if(s.youtube, "youtube"@) + one_if(s.bing, "bing"@)
            + one_if(s.duckduckgo, "duckduckgo"@)
    } else {
        seq![]
    }
}

pub open spec fn provider_warnings(s: AghSafeSearch) -> Seq<WarningV> {
    if s.enabled {
        warn_if(s.ecosia, WarningV::Provider("ecosia"@)) + warn_if(
            s.pixabay,
            WarningV::Provider("pixabay"@),
        ) + warn_if(s.yandex, WarningV::Provider("yandex"@)) + warn_if(
            kept_providers(s).len() == 0,
            WarningV::NoProvider,
        )
    } else {
        seq![]
    }
}

/// What a configuration becomes.
#[derive(Debug)]
pub struct Plan {
    pub bind: Vec<String>,
    pub allow: Vec<String>,
    /// Name and URL of each list.
    pub lists: Vec<(String, String)>,
    pub servers: Vec<String>,
    pub bootstrap: Vec<String>,
    pub timeout_ms: u64,
    pub providers: Vec<String>,
    /// Text of the local list of the user's own rules.
    pub user_rules: Option<String>,
    pub warnings: Vec<Warning>,
}

/// Model of [`Plan`].
#[verifier::ext_equal]
pub struct PlanV {
    pub bind: Seq<Seq<char>>,
    pub allow: Seq<Seq<char>>,
    pub lists: Seq<(Seq<char>, Seq<char>)>,
    pub servers: Seq<Seq<char>>,
    pub bootstrap: Seq<Seq<char>>,
    pub timeout_ms: u64,
    pub providers: Seq<Seq<char>>,
    pub user_rules: Option<Seq<char>>,
    pub warnings: Seq<WarningV>,
}

pub open spec fn pairs_of(v: Seq<(String, String)>) -> Seq<(Seq<char>, Seq<char>)> {
    Seq::new(v.len(), |i: int| (v[i].0@, v[i].1@))
}

impl View for Plan {
    type V = PlanV;

    open spec fn view(&self) -> PlanV {
        PlanV {
            bind: texts(self.bind@),
            allow: texts(self.allow@),
            lists: pairs_of(self.lists@),
            servers: texts(self.servers@),
            bootstrap: texts(self.bootstrap@),
            timeout_ms: self.timeout_ms,
            providers: texts(self.providers@),
            user_rules: opt_text(self.user_rules),
            warnings: warnings_of(self.warnings@),
        }
    }
}

pub open spec fn ip_texts(v: Seq<Ip>) -> Seq<Seq<char>> {
    Seq::new(v.len(), |i: int| ip_text(v[i]))
}

/// All warnings, in order.
pub open spec fn plan_warnings(a: Agh) -> Seq<WarningV> {
    upstream_warnings(texts(a.dns.upstream_dns@)) + warn_if(
        a.dns.fallback_dns@.len() > 0,
        WarningV::Fallback,
    ) + warn_if(
        go_duration(a.dns.upstream_timeout@) is None,
        WarningV::Timeout(a.dns.upstream_timeout@),
    ) + allow_warnings(texts(a.dns.allowed_clients@)) + filter_warnings(filters_of(a.filters@))
        + provider_warnings(a.safe_search) + warn_if(a.dhcp_enabled, WarningV::Dhcp) + warn_if(
        a.tls_enabled,
        WarningV::Tls,
    ) + warn_if(a.dns.ratelimit > 0, WarningV::Ratelimit) + seq![WarningV::Settings]
}

/// What a configuration becomes.
pub open spec fn planned(a: Agh) -> PlanV {
    PlanV {
        bind: unique(all_binds(texts(a.dns.bind_hosts@), a.dns.port)),
        allow: allowed(texts(a.dns.allowed_clients@)),
        lists: kept_filters(filters_of(a.filters@)),
        servers: kept_upstreams(texts(a.dns.upstream_dns@)),
        bootstrap: ip_texts(a.dns.bootstrap_dns@),
        timeout_ms: match go_duration(a.dns.upstream_timeout@) {
            Some(ms) => ms as u64,
            None => 5000,
        },
        providers: kept_providers(a.safe_search),
        user_rules: user_list(texts(a.user_rules@) + texts(a.dns.blocked_hosts@)),
        warnings: plan_warnings(a),
    }
}

/// Why a configuration cannot be converted.
pub open spec fn plan_error(a: Agh) -> Option<Seq<char>> {
    let hosts = texts(a.dns.bind_hosts@);
    let bad = bad_host(hosts, 0);
    if bad < hosts.len() {
        Some("bind host "@ + hosts[bad] + ": invalid IP address syntax"@)
    } else if kept_upstreams(texts(a.dns.upstream_dns@)).len() == 0 {
        Some("no usable upstream (need at least one https:// or quic:// server)"@)
    } else if a.dns.bootstrap_dns@.len() == 0 {
        Some("bootstrap_dns is empty; sumidero requires bootstrap IPs"@)
    } else if planned(a).lists.len() == 0 && planned(a).user_rules is None {
        Some(
            "nothing to filter with: no enabled filters and no user rules in the AdGuard config; start from `sumidero init --profile` instead"@,
        )
    } else {
        None
    }
}

/// Add a text unless it is there.
fn add_unique(out: &mut Vec<String>, t: String, Ghost(all): Ghost<Seq<Seq<char>>>)
    requires
        texts(old(out)@) == unique(all),
    ensures
        texts(final(out)@) == unique(all.push(t@)),
{
    proof {
        assert(all.push(t@).drop_last() == all);
        assert(texts(out@.push(t)) == texts(out@).push(t@));
    }
    if !has_name(out, t.as_str()) {
        out.push(t);
    }
}

/// The sockets to bind, or the first host that is no address.
fn plan_binds(hosts: &Vec<String>, port: u16) -> (r: Result<Vec<String>, String>)
    ensures
        match r {
            Ok(v) => bad_host(texts(hosts@), 0) == hosts@.len() && texts(v@) == unique(
                all_binds(texts(hosts@), port),
            ),
            Err(e) => {
                let bad = bad_host(texts(hosts@), 0);
                bad < hosts@.len() && e@ == "bind host "@ + texts(hosts@)[bad]
                    + ": invalid IP address syntax"@
            },
        },
{
    let mut out: Vec<String> = Vec::new();
    let n: usize = hosts.len();
    let ghost hs = texts(hosts@);
    assert(texts(out@) == unique(all_binds(hs.take(0), port)));
    for i in 0..n
        invariant
            n == hosts@.len(),
            hs == texts(hosts@),
            bad_host(hs, 0) == bad_host(hs, i as int),
            texts(out@) == unique(all_binds(hs.take(i as int), port)),
    {
        let cs = chars_of(hosts[i].as_str());
        let ip = match parse_ip(cs.as_slice()) {
            Some(ip) => ip,
            None => {
                return Err(
                    around("bind host ", hosts[i].as_str(), ": invalid IP address syntax"),
                );
            },
        };
        let ghost before = all_binds(hs.take(i as int), port);
        let first = show_endpoint(ip, port);
        let ghost one = first@;
        add_unique(&mut out, first, Ghost(before));
        if ip == Ip::V4(0) {
            let mut both = "[::]:".to_string();
            both.push_str(decimal_of(port as u64).as_str());
            let ghost two = both@;
            add_unique(&mut out, both, Ghost(before.push(one)));
            assert(before.push(one).push(two) == before + host_binds(ip, port));
        } else {
            assert(before.push(one) == before + host_binds(ip, port));
        }
        proof {
            let t = hs.take(i + 1);
            assert(t.drop_last() == hs.take(i as int));
            assert(t.last() == hs[i as int]);
        }
    }
    assert(hs.take(n as int) == hs);
    Ok(out)
}

fn warn(warnings: &mut Vec<Warning>, w: Warning)
    ensures
        warnings_of(final(warnings)@) == warnings_of(old(warnings)@).push(w@),
{
    let ghost before = warnings@;
    warnings.push(w);
    assert(warnings_of(warnings@) == warnings_of(before).push(w@));
}

fn warn_when(on: bool, warnings: &mut Vec<Warning>, w: Warning)
    ensures
        warnings_of(final(warnings)@) == warnings_of(old(warnings)@) + warn_if(on, w@),
{
    if on {
        warn(warnings, w);
    }
    assert(on ==> warnings_of(warnings@) == warnings_of(old(warnings)@) + seq![w@]);
    assert(!on ==> warnings_of(warnings@) == warnings_of(old(warnings)@) + Seq::<WarningV>::empty());
}

fn add_text(out: &mut Vec<String>, t: String)
    ensures
        texts(final(out)@) == texts(old(out)@).push(t@),
{
    let ghost before = out@;
    out.push(t);
    assert(texts(out@) == texts(before).push(t@));
}

/// The upstreams that can be used.
fn plan_upstreams(us: &Vec<String>, warnings: &mut Vec<Warning>) -> (r: Vec<String>)
    ensures
        texts(r@) == kept_upstreams(texts(us@)),
        warnings_of(final(warnings)@) == warnings_of(old(warnings)@) + upstream_warnings(
            texts(us@),
        ),
{
    let mut out: Vec<String> = Vec::new();
    let n: usize = us.len();
    let ghost all = texts(us@);
    let ghost start = warnings_of(warnings@);
    assert(texts(out@) == kept_upstreams(all.take(0)));
    assert(start == start + upstream_warnings(all.take(0)));
    for i in 0..n
        invariant
            n == us@.len(),
            all == texts(us@),
            texts(out@) == kept_upstreams(all.take(i as int)),
            warnings_of(warnings@) == start + upstream_warnings(all.take(i as int)),
    {
        proof {
            let t = all.take(i + 1);
            assert(t.drop_last() == all.take(i as int));
            assert(t.last() == us@[i as int]@);
        }
        let u = us[i].clone();
        let cs = chars_of(u.as_str());
        if starts_with_str(cs.as_slice(), "https://") || starts_with_str(cs.as_slice(), "quic://") {
            add_text(&mut out, u);
        } else {
            let ghost before = warnings_of(warnings@);
            let w = Warning::Upstream(u);
            let ghost wv = w@;
            warn(warnings, w);
            assert(before.push(wv) == start + upstream_warnings(all.take(i as int)).push(wv));
        }
    }
    assert(all.take(n as int) == all);
    out
}

fn allow_by_default() -> (r: Vec<String>)
    ensures
        texts(r@) == default_allow(),
{
    let mut out: Vec<String> = Vec::new();
    out.push("192.168.0.0/16".to_string());
    out.push("10.0.0.0/8".to_string());
    out.push("172.16.0.0/12".to_string());
    out.push("127.0.0.0/8".to_string());
    out.push("::1/128".to_string());
    assert(texts(out@) == default_allow());
    out
}

fn net_of(client: &str) -> (r: Option<String>)
    ensures
        opt_text(r) == client_net(client@),
{
    let cs = chars_of(client);
    if has_char(cs.as_slice(), '/') {
        return Some(client.to_string());
    }
    match parse_ip(cs.as_slice()) {
        Some(ip) => {
            let mut out = show_ip(ip);
            match ip {
                Ip::V4(_) => out.push_str("/32"),
                Ip::V6(_) => out.push_str("/128"),
            }
            Some(out)
        },
        None => None,
    }
}

/// The networks allowed to query.
fn plan_allow(clients: &Vec<String>, warnings: &mut Vec<Warning>) -> (r: Vec<String>)
    ensures
        texts(r@) == allowed(texts(clients@)),
        warnings_of(final(warnings)@) == warnings_of(old(warnings)@) + allow_warnings(
            texts(clients@),
        ),
{
    let n: usize = clients.len();
    let ghost all = texts(clients@);
    let ghost start = warnings_of(warnings@);
    if n == 0 {
        warn(warnings, Warning::AnyClient);
        assert(start.push(WarningV::AnyClient) == start + allow_warnings(all));
        return allow_by_default();
    }
    let mut out: Vec<String> = Vec::new();
    assert(texts(out@) == client_nets(all.take(0)));
    assert(start == start + client_warnings(all.take(0)));
    for i in 0..n
        invariant
            n == clients@.len(),
            all == texts(clients@),
            texts(out@) == client_nets(all.take(i as int)),
            warnings_of(warnings@) == start + client_warnings(all.take(i as int)),
    {
        proof {
            let t = all.take(i + 1);
            assert(t.drop_last() == all.take(i as int));
            assert(t.last() == clients@[i as int]@);
        }
        match net_of(clients[i].as_str()) {
            Some(net) => {
                add_text(&mut out, net);
            },
            None => {
                let ghost before = warnings_of(warnings@);
                let w = Warning::Client(clients[i].clone());
                let ghost wv = w@;
                warn(warnings, w);
                assert(before.push(wv) == start + client_warnings(all.take(i as int)).push(wv));
            },
        }
    }
    assert(all.take(n as int) == all);
    let k: usize = out.len();
    if k == 0 {
        warn(warnings, Warning::NoClient);
        assert((start + client_warnings(all)).push(WarningV::NoClient) == start + client_warnings(
            all,
        ).push(WarningV::NoClient));
        return allow_by_default();
    }
    out
}

/// The lists that filters become.
fn plan_lists(filters: &Vec<AghFilter>, warnings: &mut Vec<Warning>) -> (r: Vec<(String, String)>)
    ensures
        pairs_of(r@) == kept_filters(filters_of(filters@)),
        warnings_of(final(warnings)@) == warnings_of(old(warnings)@) + filter_warnings(
            filters_of(filters@),
        ),
{
    let mut out: Vec<(String, String)> = Vec::new();
    let mut used: Vec<String> = Vec::new();
    used.push("user-rules".to_string());
    let n: usize = filters.len();
    let ghost all = filters_of(filters@);
    let ghost start = warnings_of(warnings@);
    assert(pairs_of(out@) == kept_filters(all.take(0)));
    assert(texts(used@) == names_used(pairs_of(out@)));
    assert(start == start + filter_warnings(all.take(0)));
    for i in 0..n
        invariant
            n == filters@.len(),
            all == filters_of(filters@),
            pairs_of(out@) == kept_filters(all.take(i as int)),
            texts(used@) == names_used(pairs_of(out@)),
            warnings_of(warnings@) == start + filter_warnings(all.take(i as int)),
    {
        let ghost t = all.take(i + 1);
        proof {
            assert(t.drop_last() == all.take(i as int));
            assert(t.last() == filters@[i as int]@);
            assert(t.len() == i + 1);
        }
        let f = &filters[i];
        let ghost before = warnings_of(warnings@);
        if f.enabled {
            let mut base = slug(f.name.as_str());
            if chars_of(base.as_str()).len() == 0 {
                base = "list-".to_string();
                base.push_str(decimal_of((i + 1) as u64).as_str());
            }
            assert(base@ == base_name(t.last(), t.len()));
            let name = pick_name(&used, base.as_str());
            if !str_eq(name.as_str(), base.as_str()) {
                let w = Warning::Renamed { from: f.name.clone(), to: name.clone() };
                let ghost wv = w@;
                warn(warnings, w);
                assert(before.push(wv) == start + filter_warnings(all.take(i as int)).push(wv));
            }
            let ghost kept = out@;
            let ghost names = used@;
            out.push((name.clone(), f.url.clone()));
            used.push(name);
            proof {
                assert(pairs_of(out@) == pairs_of(kept).push((name@, f.url@)));
                assert(texts(used@) == texts(names).push(name@));
                assert(names_used(pairs_of(out@)) == names_used(pairs_of(kept)).push(name@));
            }
        } else {
            let w = Warning::Disabled(f.name.clone());
            let ghost wv = w@;
            warn(warnings, w);
            assert(before.push(wv) == start + filter_warnings(all.take(i as int)).push(wv));
        }
    }
    assert(all.take(n as int) == all);
    out
}

fn copy_texts(a: &Vec<String>, out: &mut Vec<String>)
    ensures
        texts(final(out)@) == texts(old(out)@) + texts(a@),
{
    let n: usize = a.len();
    let ghost start = texts(out@);
    for i in 0..n
        invariant
            n == a@.len(),
            texts(out@) == start + texts(a@).take(i as int),
    {
        add_text(out, a[i].clone());
        assert(texts(a@).take(i + 1) == texts(a@).take(i as int).push(a@[i as int]@));
    }
    assert(texts(a@).take(n as int) == texts(a@));
}

/// The local list of the user's own rules.
fn plan_rules(user: &Vec<String>, blocked: &Vec<String>) -> (r: Option<String>)
    ensures
        opt_text(r) == user_list(texts(user@) + texts(blocked@)),
{
    let mut rules: Vec<String> = Vec::new();
    copy_texts(user, &mut rules);
    copy_texts(blocked, &mut rules);
    assert(texts(rules@) == texts(user@) + texts(blocked@));
    let n: usize = rules.len();
    if n == 0 {
        return None;
    }
    Some(
        around(
            "! migrated from AdGuardHome.yaml (user_rules + blocked_hosts)\n",
            joined(&rules, "\n").as_str(),
            "\n",
        ),
    )
}

fn add_when(on: bool, out: &mut Vec<String>, name: &str)
    ensures
        texts(final(out)@) == texts(old(out)@) + one_if(on, name@),
{
    if on {
        add_text(out, name.to_string());
    }
    assert(on ==> texts(out@) == texts(old(out)@) + seq![name@]);
    assert(!on ==> texts(out@) == texts(old(out)@) + Seq::<Seq<char>>::empty());
}

/// The safe-search providers that are carried over.
fn plan_providers(s: &AghSafeSearch, warnings: &mut Vec<Warning>) -> (r: Vec<String>)
    ensures
        texts(r@) == kept_providers(*s),
        warnings_of(final(warnings)@) == warnings_of(old(warnings)@) + provider_warnings(*s),
{
    let mut out: Vec<String> = Vec::new();
    let ghost start = warnings_of(warnings@);
    if !s.enabled {
        assert(texts(out@) == kept_providers(*s));
        assert(start == start + provider_warnings(*s));
        return out;
    }
    add_when(s.google, &mut out, "google");
    add_when(s.youtube, &mut out, "youtube");
    add_when(s.bing, &mut out, "bing");
    add_when(s.duckduckgo, &mut out, "duckduckgo");
    assert(texts(out@) == kept_providers(*s));
    warn_when(s.ecosia, warnings, Warning::Provider("ecosia".to_string()));
    warn_when(s.pixabay, warnings, Warning::Provider("pixabay".to_string()));
    warn_when(s.yandex, warnings, Warning::Provider("yandex".to_string()));
    let k: usize = out.len();
    warn_when(k == 0, warnings, Warning::NoProvider);
    assert(warnings_of(warnings@) == start + provider_warnings(*s));
    out
}

fn show_ips(v: &Vec<Ip>) -> (r: Vec<String>)
    ensures
        texts(r@) == ip_texts(v@),
{
    let mut out: Vec<String> = Vec::new();
    let n: usize = v.len();
    for i in 0..n
        invariant
            n == v@.len(),
            texts(out@) == ip_texts(v@).take(i as int),
    {
        add_text(&mut out, show_ip(v[i]));
        assert(ip_texts(v@).take(i + 1) == ip_texts(v@).take(i as int).push(ip_text(v@[i as int])));
    }
    assert(ip_texts(v@).take(n as int) == ip_texts(v@));
    out
}

/// Decide what a configuration becomes.
pub fn plan(a: &Agh) -> (r: Result<Plan, String>)
    requires
        duration_fits(a.dns.upstream_timeout@),
    ensures
        match r {
            Ok(p) => plan_error(*a) is None && p@ == planned(*a),
            Err(e) => plan_error(*a) is Some && e@ == plan_error(*a)->0,
        },
{
    let bind = match plan_binds(&a.dns.bind_hosts, a.dns.port) {
        Ok(v) => v,
        Err(e) => {
            return Err(e);
        },
    };
    let mut warnings: Vec<Warning> = Vec::new();
    let servers = plan_upstreams(&a.dns.upstream_dns, &mut warnings);
    if servers.len() == 0 {
        return Err(
            "no usable upstream (need at least one https:// or quic:// server)".to_string(),
        );
    }
    warn_when(a.dns.fallback_dns.len() > 0, &mut warnings, Warning::Fallback);
    if a.dns.bootstrap_dns.len() == 0 {
        return Err("bootstrap_dns is empty; sumidero requires bootstrap IPs".to_string());
    }
    let timeout = parse_go_duration_ms(a.dns.upstream_timeout.as_str());
    let timeout_ms: u64 = match timeout {
        Some(ms) => ms,
        None => 5000,
    };
    warn_when(
        timeout.is_none(),
        &mut warnings,
        Warning::Timeout(a.dns.upstream_timeout.clone()),
    );
    let allow = plan_allow(&a.dns.allowed_clients, &mut warnings);
    let lists = plan_lists(&a.filters, &mut warnings);
    let user_rules = plan_rules(&a.user_rules, &a.dns.blocked_hosts);
    let providers = plan_providers(&a.safe_search, &mut warnings);
    warn_when(a.dhcp_enabled, &mut warnings, Warning::Dhcp);
    warn_when(a.tls_enabled, &mut warnings, Warning::Tls);
    warn_when(a.dns.ratelimit > 0, &mut warnings, Warning::Ratelimit);
    let ghost before = warnings_of(warnings@);
    warn(&mut warnings, Warning::Settings);
    proof {
        assert(before.push(WarningV::Settings) == before + seq![WarningV::Settings]);
        assert(warnings_of(warnings@) == plan_warnings(*a));
    }
    if lists.len() == 0 && user_rules.is_none() {
        return Err(
            "nothing to filter with: no enabled filters and no user rules in the AdGuard config; start from `sumidero init --profile` instead".to_string(),
        );
    }
    let bootstrap = show_ips(&a.dns.bootstrap_dns);
    let p = Plan {
        bind,
        allow,
        lists,
        servers,
        bootstrap,
        timeout_ms,
        providers,
        user_rules,
        warnings,
    };
    assert(p@ == planned(*a));
    Ok(p)
}

} // verus!
