//! What each part of an `AdGuard Home` configuration becomes.
use vstd::prelude::*;

use crate::config::laws::begins_with;
use crate::ip::show::{endpoint_text, ip_text};
use crate::ip::{literal, Ip};
use crate::migrate::names::{dashed, free_name, free_suffix, go_duration, slugged, suffixed};
use crate::migrate::names::undashed;
use crate::migrate::plan::{all_binds, allowed, bad_host, base_name, client_net, client_nets};
use crate::migrate::plan::{client_warnings, filter_warnings, filters_of, kept_filters};
use crate::migrate::plan::{kept_providers, kept_upstreams, names_used, plan_error, planned, unique};
use crate::migrate::plan::{upstream_warnings, usable, user_list};
use crate::migrate::plan::{Agh, AghSafeSearch, FilterV, WarningV};
use crate::migrate::render::{conclude, words_of, Migration};
use crate::text::{debug_text, decimal, ends_with, is_alnum, is_digit, join, law_number, lemma_decimal, lower};
use crate::text::{number, starts_with, texts, without_plus};

verus! {

/// An upstream that speaks `https` or `quic`.
pub open spec fn encrypted(u: Seq<char>) -> bool {
    begins_with(u, "https://"@) || begins_with(u, "quic://"@)
}

proof fn lemma_usable(u: Seq<char>)
    ensures
        usable(u) == encrypted(u),
{
    lemma_prefix(u, "https://"@);
    lemma_prefix(u, "quic://"@);
}

proof fn lemma_prefix(s: Seq<char>, p: Seq<char>)
    ensures
        starts_with(s, p) == begins_with(s, p),
{
    if starts_with(s, p) {
        assert forall|i: int| 0 <= i < p.len() implies #[trigger] s[i] == p[i] by {
            assert(s.take(p.len() as int)[i] == p[i]);
        }
    }
    if begins_with(s, p) {
        assert(s.take(p.len() as int) =~= p);
    }
}

/// Upstreams are taken over one by one, in order: an encrypted one as it is,
/// of any other a warning is left.
pub proof fn law_upstreams(us: Seq<Seq<char>>, u: Seq<char>)
    ensures
        kept_upstreams(seq![]).len() == 0 && upstream_warnings(seq![]).len() == 0,
        encrypted(u) ==> kept_upstreams(us.push(u)) == kept_upstreams(us).push(u)
            && upstream_warnings(us.push(u)) == upstream_warnings(us),
        !encrypted(u) ==> kept_upstreams(us.push(u)) == kept_upstreams(us) && upstream_warnings(
            us.push(u),
        ) == upstream_warnings(us).push(WarningV::Upstream(u)),
{
    lemma_usable(u);
    assert(us.push(u).drop_last() =~= us);
}

/// A client that is a network stays one; an address becomes the network of
/// just that address; anything else is none.
pub proof fn law_client(c: Seq<char>)
    ensures
        ({
            let slash = exists|i: int| 0 <= i < c.len() && #[trigger] c[i] == '/';
            &&& slash ==> client_net(c) == Some(c)
            &&& !slash ==> client_net(c) == match literal(c) {
                Some(ip) => Some(
                    ip_text(ip) + if ip is V4 {
                        "/32"@
                    } else {
                        "/128"@
                    },
                ),
                None => None,
            }
        }),
{
    assert(c.contains('/') == exists|i: int| 0 <= i < c.len() && #[trigger] c[i] == '/');
}

/// Clients are taken over one by one, in order; of one that is none a warning
/// is left. Where no client is left, the private networks and loopback are
/// allowed.
pub proof fn law_clients(cs: Seq<Seq<char>>, c: Seq<char>)
    ensures
        client_nets(seq![]).len() == 0 && client_warnings(seq![]).len() == 0,
        client_net(c) matches Some(n) ==> client_nets(cs.push(c)) == client_nets(cs).push(n)
            && client_warnings(cs.push(c)) == client_warnings(cs),
        client_net(c) is None ==> client_nets(cs.push(c)) == client_nets(cs) && client_warnings(
            cs.push(c),
        ) == client_warnings(cs).push(WarningV::Client(c)),
        client_nets(cs).len() > 0 ==> allowed(cs) == client_nets(cs),
        client_nets(cs).len() == 0 ==> allowed(cs) == seq![
            "192.168.0.0/16"@,
            "10.0.0.0/8"@,
            "172.16.0.0/12"@,
            "127.0.0.0/8"@,
            "::1/128"@,
        ],
{
    assert(cs.push(c).drop_last() =~= cs);
}

proof fn lemma_number(n: nat)
    requires
        n <= u64::MAX,
    ensures
        number(decimal(n), u64::MAX) == Some(n as u64),
{
    lemma_decimal(n);
    let t = decimal(n);
    assert(is_digit(t[0]));
    assert(without_plus(t) == t);
}

/// A number of milliseconds or of seconds is read as that many milliseconds,
/// for every number; what ends in neither is no duration.
pub proof fn law_duration(n: nat, t: Seq<char>)
    requires
        n <= u64::MAX,
    ensures
        go_duration(decimal(n) + "ms"@) == Some(n),
        go_duration(decimal(n) + "s"@) == Some(1000 * n),
        t.len() == 0 || t.last() != 's' ==> go_duration(t) is None,
{
    reveal_strlit("ms");
    reveal_strlit("s");
    let d = decimal(n);
    lemma_number(n);
    lemma_decimal(n);
    let a = d + "ms"@;
    assert(a.skip(a.len() - 2) =~= "ms"@);
    assert(a.take(a.len() - 2) =~= d);
    let b = d + "s"@;
    assert(b.skip(b.len() - 1) =~= "s"@);
    assert(b.take(b.len() - 1) =~= d);
    if ends_with(b, "ms"@) {
        assert(b.skip(b.len() - 2)[0] == d.last());
        assert(is_digit(d[d.len() - 1]));
    }
    if t.len() == 0 || t.last() != 's' {
        if ends_with(t, "ms"@) {
            assert(t.skip(t.len() - 2)[1] == t.last());
        }
        if ends_with(t, "s"@) {
            assert(t.skip(t.len() - 1)[0] == t.last());
        }
    }
}

/// The timeout is the duration given, and five seconds where that is none; the
/// bootstrap addresses are those given, in text.
pub proof fn law_timeout_and_bootstrap(a: Agh)
    ensures
        ({
            let p = planned(a);
            &&& go_duration(a.dns.upstream_timeout@) matches Some(ms) ==> p.timeout_ms == ms as u64
            &&& go_duration(a.dns.upstream_timeout@) is None ==> p.timeout_ms == 5000
            &&& p.bootstrap.len() == a.dns.bootstrap_dns@.len()
            &&& forall|i: int|
                0 <= i < p.bootstrap.len() ==> #[trigger] p.bootstrap[i] == ip_text(
                    a.dns.bootstrap_dns@[i],
                )
        }),
{
}

/// Safe search carries over each of the four providers that is on, where it is
/// enabled at all.
pub proof fn law_providers_kept(s: AghSafeSearch)
    ensures
        ({
            let p = kept_providers(s);
            &&& p.contains("google"@) == (s.enabled && s.google)
            &&& p.contains("youtube"@) == (s.enabled && s.youtube)
            &&& p.contains("bing"@) == (s.enabled && s.bing)
            &&& p.contains("duckduckgo"@) == (s.enabled && s.duckduckgo)
            &&& p.no_duplicates()
            &&& forall|i: int|
                0 <= i < p.len() ==> (#[trigger] p[i]) == "google"@ || p[i] == "youtube"@ || p[i]
                    == "bing"@ || p[i] == "duckduckgo"@
        }),
{
    reveal_strlit("google");
    reveal_strlit("youtube");
    reveal_strlit("bing");
    reveal_strlit("duckduckgo");
    assert("google"@[0] == 'g' && "youtube"@[0] == 'y' && "bing"@[0] == 'b' && "duckduckgo"@[0]
        == 'd');
    let p = kept_providers(s);
    if s.enabled {
        let g: int = if s.google {
            1
        } else {
            0
        };
        let y: int = if s.youtube {
            1
        } else {
            0
        };
        let b: int = if s.bing {
            1
        } else {
            0
        };
        let d: int = if s.duckduckgo {
            1
        } else {
            0
        };
        assert(p.len() == g + y + b + d);
        assert(s.google ==> p[0] == "google"@);
        assert(s.youtube ==> p[g] == "youtube"@);
        assert(s.bing ==> p[g + y] == "bing"@);
        assert(s.duckduckgo ==> p[g + y + b] == "duckduckgo"@);
    }
}

/// The user's own rules and the blocked hosts become one local list, a line
/// each, in order, behind a line that says where they are from; without any
/// there is no such list.
pub proof fn law_user_rules(rules: Seq<Seq<char>>, r: Seq<char>)
    ensures
        user_list(seq![]) is None,
        user_list(seq![r]) == Some(
            "! migrated from AdGuardHome.yaml (user_rules + blocked_hosts)\n"@ + r + "\n"@,
        ),
        rules.len() > 0 ==> user_list(rules) is Some && user_list(rules.push(r)) == Some(
            user_list(rules)->0 + r + "\n"@,
        ),
{
    assert(join(seq![r], "\n"@) == r);
    if rules.len() > 0 {
        let s = rules.push(r);
        assert(s.drop_last() =~= rules);
        assert(join(s, "\n"@) == join(rules, "\n"@) + "\n"@ + r);
        assert(user_list(s)->0 =~= user_list(rules)->0 + r + "\n"@);
    }
}

/// What becomes of them is what they hold together.
pub proof fn law_rules_and_hosts(a: Agh)
    ensures
        planned(a).user_rules == user_list(texts(a.user_rules@) + texts(a.dns.blocked_hosts@)),
        planned(a).user_rules is None == (a.user_rules@.len() == 0 && a.dns.blocked_hosts@.len()
            == 0),
{
}

/// Filters are taken over one by one, in order: a disabled one gives nothing,
/// an enabled one a list with its URL under a name that no list before it and
/// not the user's rules have. That is the filter's name as a slug, or its
/// number where nothing is left of that, and with the least free number behind
/// it where it is taken.
pub proof fn law_filters(fs: Seq<FilterV>, f: FilterV)
    ensures
        kept_filters(seq![]).len() == 0,
        !f.enabled ==> kept_filters(fs.push(f)) == kept_filters(fs),
        f.enabled ==> {
            let before = kept_filters(fs);
            let r = kept_filters(fs.push(f));
            let base = if slugged(f.name).len() > 0 {
                slugged(f.name)
            } else {
                "list-"@ + decimal(fs.len() + 1)
            };
            let taken = base == "user-rules"@ || exists|i: int|
                0 <= i < before.len() && (#[trigger] before[i]).0 == base;
            &&& r.len() == before.len() + 1
            &&& forall|i: int| 0 <= i < before.len() ==> #[trigger] r[i] == before[i]
            &&& r.last().1 == f.url
            &&& !taken ==> r.last().0 == base
            &&& taken ==> exists|n: nat|
                n >= 2 && r.last().0 == base + "-"@ + #[trigger] decimal(n)
        },
{
    let g = fs.push(f);
    assert(g.drop_last() =~= fs);
    if f.enabled {
        let before = kept_filters(fs);
        let used = names_used(before);
        let base = base_name(f, g.len());
        let taken = base == "user-rules"@ || exists|i: int|
            0 <= i < before.len() && (#[trigger] before[i]).0 == base;
        assert(used.contains(base) == taken) by {
            if taken {
                if base == "user-rules"@ {
                    assert(used[0] == base);
                } else {
                    let i = choose|i: int| 0 <= i < before.len() && (#[trigger] before[i]).0 == base;
                    assert(used[i + 1] == base);
                }
            }
            if used.contains(base) {
                let k = choose|k: int| 0 <= k < used.len() && used[k] == base;
                if k > 0 {
                    assert(before[k - 1].0 == base);
                }
            }
        }
        if taken {
            crate::migrate::names::lemma_free_from(used, base, 2);
            let n = choose|n: nat| free_suffix(used, base, n);
            assert(free_suffix(used, base, n));
            assert(free_name(used, base) == base + "-"@ + decimal(n));
        }
    }
}

/// Words that something else stands between make a slug of their slugs with
/// one dash between.
pub proof fn law_slug_words(a: Seq<char>, c: char, b: Seq<char>)
    requires
        !('a' <= c <= 'z') && !('A' <= c <= 'Z') && !('0' <= c <= '9'),
        slugged(a).len() > 0,
        slugged(b).len() > 0,
    ensures
        slugged(a.push(c) + b) == slugged(a) + "-"@ + slugged(b),
{
    reveal_strlit("-");
    let x = lower(a).push(c);
    assert(lower(a.push(c)) =~= x);
    assert(lower(a.push(c) + b) =~= x + lower(b));
    let d = dashed(x);
    assert(x.drop_last() =~= lower(a));
    assert(!is_alnum(c));
    lemma_dashed_ends(lower(a));
    assert(d =~= slugged(a) + "-"@);
    lemma_dashed_on(x, lower(b));
    let e = dashed(lower(b));
    assert(dashed(x + lower(b)) == d + e);
    if e.last() == '-' {
        assert((d + e).drop_last() =~= d + e.drop_last());
    }
    assert(undashed(d + e) =~= slugged(a) + "-"@ + slugged(b));
}

proof fn lemma_dashed_ends(s: Seq<char>)
    ensures
        ({
            let d = dashed(s);
            d.len() > 0 && d.last() != '-' ==> is_alnum(d.last())
        }),
        ({
            let d = dashed(s);
            d.len() > 0 && d.last() == '-' ==> d.len() > 1 && d[d.len() - 2] != '-'
        }),
    decreases s.len(),
{
    if s.len() > 0 {
        lemma_dashed_ends(s.drop_last());
    }
}

proof fn lemma_dashed_on(x: Seq<char>, y: Seq<char>)
    requires
        dashed(x).len() > 0,
        dashed(x).last() == '-',
    ensures
        dashed(x + y) == dashed(x) + dashed(y),
    decreases y.len(),
{
    if y.len() == 0 {
        assert(x + y =~= x);
        assert(dashed(x) + dashed(y) =~= dashed(x));
    } else {
        let t = y.drop_last();
        assert((x + y).drop_last() =~= x + t);
        lemma_dashed_on(x, t);
        let (d, p) = (dashed(x), dashed(t));
        if p.len() == 0 {
            assert((d + p) =~= d);
        } else {
            assert((d + p).last() == p.last());
        }
        assert((d + p).push(y.last()) =~= d + p.push(y.last()));
        assert((d + p).push('-') =~= d + p.push('-'));
    }
}

/// Nothing is bound but what the hosts stand for: each its own socket, and
/// `0.0.0.0` the one of all IPv6 addresses too.
pub proof fn law_only_hosts_bound(hosts: Seq<Seq<char>>, port: u16, b: Seq<char>)
    requires
        unique(all_binds(hosts, port)).contains(b),
    ensures
        exists|i: int|
            0 <= i < hosts.len() && (b == endpoint_text(literal(#[trigger] hosts[i])->0, port) || (
            literal(hosts[i])->0 == Ip::V4(0) && b == "[::]:"@ + decimal(port as nat))),
    decreases hosts.len(),
{
    lemma_unique_from(all_binds(hosts, port), b);
    if hosts.len() > 0 {
        let t = hosts.drop_last();
        let all = all_binds(hosts, port);
        let before = all_binds(t, port);
        let k = choose|k: int| 0 <= k < all.len() && all[k] == b;
        if k < before.len() {
            assert(before[k] == b);
            lemma_unique_has(before, b);
            law_only_hosts_bound(t, port, b);
            let i = choose|i: int|
                0 <= i < t.len() && (b == endpoint_text(literal(#[trigger] t[i])->0, port) || (
                literal(t[i])->0 == Ip::V4(0) && b == "[::]:"@ + decimal(port as nat)));
            assert(hosts[i] == t[i]);
        } else {
            assert(hosts[hosts.len() - 1] == hosts.last());
        }
    }
}

proof fn lemma_unique_from(v: Seq<Seq<char>>, x: Seq<char>)
    requires
        unique(v).contains(x),
    ensures
        v.contains(x),
    decreases v.len(),
{
    if v.len() > 0 {
        let p = unique(v.drop_last());
        if p.contains(x) {
            lemma_unique_from(v.drop_last(), x);
            let k = choose|k: int| 0 <= k < v.drop_last().len() && v.drop_last()[k] == x;
            assert(v[k] == x);
        } else {
            let u = unique(v);
            let k = choose|k: int| 0 <= k < u.len() && u[k] == x;
            if k < p.len() {
                assert(p[k] == x);
            }
            assert(v[v.len() - 1] == x);
        }
    }
}

proof fn lemma_unique_has(v: Seq<Seq<char>>, x: Seq<char>)
    requires
        v.contains(x),
    ensures
        unique(v).contains(x),
    decreases v.len(),
{
    let t = v.drop_last();
    let p = unique(t);
    let k = choose|k: int| 0 <= k < v.len() && v[k] == x;
    if k < t.len() {
        assert(t[k] == x);
        lemma_unique_has(t, x);
        let j = choose|j: int| 0 <= j < p.len() && p[j] == x;
        assert(unique(v)[j] == x);
    } else if !p.contains(x) {
        assert(unique(v)[p.len() as int] == x);
    }
}

proof fn lemma_bad_host_at(hosts: Seq<Seq<char>>, from: int)
    requires
        0 <= from <= hosts.len(),
    ensures
        from <= bad_host(hosts, from) <= hosts.len(),
        bad_host(hosts, from) < hosts.len() ==> literal(hosts[bad_host(hosts, from)]) is None,
        forall|i: int| from <= i < bad_host(hosts, from) ==> literal(#[trigger] hosts[i]) is Some,
    decreases hosts.len() - from,
{
    if from < hosts.len() && literal(hosts[from]) is Some {
        lemma_bad_host_at(hosts, from + 1);
    }
}

proof fn lemma_kept_some(us: Seq<Seq<char>>)
    ensures
        (kept_upstreams(us).len() > 0) == (exists|i: int|
            0 <= i < us.len() && encrypted(#[trigger] us[i])),
    decreases us.len(),
{
    if us.len() > 0 {
        let t = us.drop_last();
        lemma_kept_some(t);
        lemma_usable(us.last());
        assert(us[us.len() - 1] == us.last());
        if exists|i: int| 0 <= i < t.len() && encrypted(#[trigger] t[i]) {
            let i = choose|i: int| 0 <= i < t.len() && encrypted(#[trigger] t[i]);
            assert(encrypted(us[i]));
        }
        if exists|i: int| 0 <= i < us.len() && encrypted(#[trigger] us[i]) {
            let i = choose|i: int| 0 <= i < us.len() && encrypted(#[trigger] us[i]);
            if i < t.len() {
                assert(encrypted(t[i]));
            }
        }
    }
}

proof fn lemma_lists_some(fs: Seq<FilterV>)
    ensures
        (kept_filters(fs).len() > 0) == (exists|i: int|
            0 <= i < fs.len() && (#[trigger] fs[i]).enabled),
    decreases fs.len(),
{
    if fs.len() > 0 {
        let t = fs.drop_last();
        lemma_lists_some(t);
        assert(fs[fs.len() - 1] == fs.last());
        if exists|i: int| 0 <= i < t.len() && (#[trigger] t[i]).enabled {
            let i = choose|i: int| 0 <= i < t.len() && (#[trigger] t[i]).enabled;
            assert(fs[i].enabled);
        }
        if exists|i: int| 0 <= i < fs.len() && (#[trigger] fs[i]).enabled {
            let i = choose|i: int| 0 <= i < fs.len() && (#[trigger] fs[i]).enabled;
            if i < t.len() {
                assert(t[i].enabled);
            }
        }
    }
}

/// A configuration is converted exactly where every host is an address, there
/// is an encrypted upstream, a bootstrap address, and something to filter with:
/// an enabled filter, a rule of the user's or a blocked host.
pub proof fn law_convertible(a: Agh)
    ensures
        plan_error(a) is None == {
            let hosts = texts(a.dns.bind_hosts@);
            let us = texts(a.dns.upstream_dns@);
            let fs = filters_of(a.filters@);
            &&& forall|i: int| 0 <= i < hosts.len() ==> literal(#[trigger] hosts[i]) is Some
            &&& exists|i: int| 0 <= i < us.len() && encrypted(#[trigger] us[i])
            &&& a.dns.bootstrap_dns@.len() > 0
            &&& (exists|i: int| 0 <= i < fs.len() && (#[trigger] fs[i]).enabled)
                || a.user_rules@.len() > 0 || a.dns.blocked_hosts@.len() > 0
        },
{
    let hosts = texts(a.dns.bind_hosts@);
    lemma_bad_host_at(hosts, 0);
    lemma_kept_some(texts(a.dns.upstream_dns@));
    lemma_lists_some(filters_of(a.filters@));
    let bad = bad_host(hosts, 0);
    if bad < hosts.len() {
        assert(literal(hosts[bad]) is None);
    }
}

/// What a warning says.
pub proof fn law_warning_words(w: WarningV)
    ensures
        w.words() == match w {
            WarningV::Upstream(u) => "upstream "@ + u
                + " skipped: sumidero v1 supports only https:// (DoH) and quic:// (DoQ)"@,
            WarningV::Fallback =>
                "fallback_dns has no equivalent: sumidero races all upstreams in parallel"@,
            WarningV::Timeout(t) => "cannot parse upstream_timeout "@ + debug_text(t)
                + "; using 5000 ms"@,
            WarningV::AnyClient =>
                "allowed_clients is empty: AdGuard would answer everyone; sumidero requires an explicit allowlist — defaulting to RFC1918 + loopback, EDIT THIS"@,
            WarningV::Client(c) => "allowed client "@ + debug_text(c)
                + " skipped: not an IP or CIDR (client IDs are not supported)"@,
            WarningV::NoClient =>
                "no allowed client survived the conversion; defaulting to RFC1918 + loopback, EDIT THIS"@,
            WarningV::Renamed { from, to } => "filter "@ + debug_text(from) + " renamed to "@
                + debug_text(to) + " to keep list names unique"@,
            WarningV::Disabled(n) => "disabled filter "@ + debug_text(n) + " not migrated"@,
            WarningV::Provider(p) => "safe-search provider "@ + p + " is not supported in v1"@,
            WarningV::NoProvider =>
                "safe_search was enabled but no supported provider is active; disabled"@,
            WarningV::Dhcp => "DHCP is enabled in AdGuard but out of scope for sumidero"@,
            WarningV::Tls => "TLS serving (DoT/DoH server) is out of scope for sumidero v1"@,
            WarningV::Ratelimit => "ratelimit has no equivalent in sumidero v1"@,
            WarningV::Settings =>
                "web UI, query-log settings, and statistics settings do not apply: sumidero's control plane is the config file + SQLite + CLI"@,
        },
{
}

/// Warnings are told one by one, each in its words.
pub proof fn law_warnings_told(ws: Seq<WarningV>, i: int)
    requires
        0 <= i < ws.len(),
    ensures
        words_of(ws).len() == ws.len(),
        words_of(ws)[i] == ws[i].words(),
{
}

/// A filter that is left out or gets another name is warned about, and no
/// other.
pub proof fn law_filter_warned(fs: Seq<FilterV>, f: FilterV)
    ensures
        filter_warnings(seq![]).len() == 0,
        !f.enabled ==> filter_warnings(fs.push(f)) == filter_warnings(fs).push(
            WarningV::Disabled(f.name),
        ),
        f.enabled ==> {
            let name = kept_filters(fs.push(f)).last().0;
            let base = if slugged(f.name).len() > 0 {
                slugged(f.name)
            } else {
                "list-"@ + decimal(fs.len() + 1)
            };
            &&& name == base ==> filter_warnings(fs.push(f)) == filter_warnings(fs)
            &&& name != base ==> filter_warnings(fs.push(f)) == filter_warnings(fs).push(
                WarningV::Renamed { from: f.name, to: name },
            )
        },
{
    assert(fs.push(f).drop_last() =~= fs);
}

/// No setting is warned about that is not there.
pub proof fn law_no_idle_warning(a: Agh)
    requires
        a.dns.fallback_dns@.len() == 0,
        go_duration(a.dns.upstream_timeout@) is Some,
        upstream_warnings(texts(a.dns.upstream_dns@)).len() == 0,
        client_nets(texts(a.dns.allowed_clients@)).len() > 0,
        client_warnings(texts(a.dns.allowed_clients@)).len() == 0,
        filter_warnings(filters_of(a.filters@)).len() == 0,
        !a.safe_search.enabled,
        !a.dhcp_enabled && !a.tls_enabled,
        a.dns.ratelimit == 0,
    ensures
        planned(a).warnings == seq![WarningV::Settings],
{
    assert(client_nets(seq![]).len() == 0);
    assert(texts(a.dns.allowed_clients@).len() > 0) by {
        if texts(a.dns.allowed_clients@).len() == 0 {
            assert(texts(a.dns.allowed_clients@) =~= seq![]);
        }
    }
    assert(planned(a).warnings =~= seq![WarningV::Settings]);
}

/// What stands before the unit must be a number.
pub proof fn law_no_duration(t: Seq<char>, i: int)
    requires
        0 <= i < t.len(),
        !('0' <= t[i] <= '9') && !(i == 0 && t[i] == '+'),
        t.last() != 'm',
    ensures
        go_duration(t + "s"@) is None,
        go_duration(t + "ms"@) is None,
{
    reveal_strlit("ms");
    reveal_strlit("s");
    let (a, b) = (t + "s"@, t + "ms"@);
    law_number(0, u64::MAX, t, i);
    assert(b.skip(b.len() - 2) =~= "ms"@);
    assert(b.take(b.len() - 2) =~= t);
    assert(a.take(a.len() - 1) =~= t);
    if ends_with(a, "ms"@) {
        assert(a.skip(a.len() - 2)[0] == t.last());
    }
}

/// A migration whose configuration loads is handed out as it is, and one whose
/// configuration does not is refused with the reason.
pub proof fn law_concluded(m: Migration, loaded: Result<(), String>, r: Result<Migration, String>)
    requires
        call_ensures(conclude, (m, loaded), r),
    ensures
        r is Ok == loaded is Ok,
        r is Ok ==> r->Ok_0 == m,
        r is Err ==> r->Err_0@ == "generated config failed validation (bug): "@ + loaded->Err_0@,
{
}

} // verus!
