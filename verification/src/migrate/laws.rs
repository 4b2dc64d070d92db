//! What holds of every conversion.
use vstd::prelude::*;

use crate::ip::show::endpoint_text;
use crate::ip::{literal, Ip};
use crate::migrate::names::{free_name, go_duration, law_free_name};
use crate::migrate::plan::{all_binds, allow_warnings, bad_host, base_name, client_net};
use crate::migrate::plan::{client_nets, client_warnings, filter_warnings, filters_of, host_binds};
use crate::migrate::plan::{kept_filters, kept_providers, kept_upstreams, names_used, plan_error};
use crate::migrate::plan::{plan_warnings, planned, provider_warnings, unique, upstream_warnings, usable, warn_if};
use crate::migrate::plan::{Agh, FilterV, WarningV};
use crate::text::{lemma_decimal, texts};

verus! {

proof fn lemma_either<T>(a: Seq<T>, b: Seq<T>, x: T)
    ensures
        (a + b).contains(x) == (a.contains(x) || b.contains(x)),
{
    let s = a + b;
    if a.contains(x) {
        let i = choose|i: int| 0 <= i < a.len() && a[i] == x;
        assert(s[i] == x);
    }
    if b.contains(x) {
        let i = choose|i: int| 0 <= i < b.len() && b[i] == x;
        assert(s[a.len() + i] == x);
    }
    if s.contains(x) {
        let i = choose|i: int| 0 <= i < s.len() && s[i] == x;
        if i < a.len() {
            assert(a[i] == x);
        } else {
            assert(b[i - a.len()] == x);
        }
    }
}

proof fn lemma_pushed<T>(a: Seq<T>, y: T, x: T)
    ensures
        a.contains(x) ==> a.push(y).contains(x),
        a.push(y).contains(y),
{
    let s = a.push(y);
    assert(s[a.len() as int] == y);
    if a.contains(x) {
        let i = choose|i: int| 0 <= i < a.len() && a[i] == x;
        assert(s[i] == x);
    }
}

/// What a part warns of, the whole warns of.
proof fn lemma_warned(a: Agh, w: WarningV)
    ensures
        upstream_warnings(texts(a.dns.upstream_dns@)).contains(w) || warn_if(
            a.dns.fallback_dns@.len() > 0,
            WarningV::Fallback,
        ).contains(w) || warn_if(
            go_duration(a.dns.upstream_timeout@) is None,
            WarningV::Timeout(a.dns.upstream_timeout@),
        ).contains(w) || allow_warnings(texts(a.dns.allowed_clients@)).contains(w)
            || filter_warnings(filters_of(a.filters@)).contains(w) || provider_warnings(
            a.safe_search,
        ).contains(w) || warn_if(a.dhcp_enabled, WarningV::Dhcp).contains(w) || warn_if(
            a.tls_enabled,
            WarningV::Tls,
        ).contains(w) || warn_if(a.dns.ratelimit > 0, WarningV::Ratelimit).contains(w)
            ==> plan_warnings(a).contains(w),
{
    let p0 = upstream_warnings(texts(a.dns.upstream_dns@));
    let p1 = warn_if(a.dns.fallback_dns@.len() > 0, WarningV::Fallback);
    let p2 = warn_if(
        go_duration(a.dns.upstream_timeout@) is None,
        WarningV::Timeout(a.dns.upstream_timeout@),
    );
    let p3 = allow_warnings(texts(a.dns.allowed_clients@));
    let p4 = filter_warnings(filters_of(a.filters@));
    let p5 = provider_warnings(a.safe_search);
    let p6 = warn_if(a.dhcp_enabled, WarningV::Dhcp);
    let p7 = warn_if(a.tls_enabled, WarningV::Tls);
    let p8 = warn_if(a.dns.ratelimit > 0, WarningV::Ratelimit);
    lemma_either(p0, p1, w);
    lemma_either(p0 + p1, p2, w);
    lemma_either(p0 + p1 + p2, p3, w);
    lemma_either(p0 + p1 + p2 + p3, p4, w);
    lemma_either(p0 + p1 + p2 + p3 + p4, p5, w);
    lemma_either(p0 + p1 + p2 + p3 + p4 + p5, p6, w);
    lemma_either(p0 + p1 + p2 + p3 + p4 + p5 + p6, p7, w);
    lemma_either(p0 + p1 + p2 + p3 + p4 + p5 + p6 + p7, p8, w);
    lemma_either(
        p0 + p1 + p2 + p3 + p4 + p5 + p6 + p7 + p8,
        seq![WarningV::Settings],
        w,
    );
}

proof fn lemma_one(w: WarningV)
    ensures
        warn_if(true, w).contains(w),
{
    assert(warn_if(true, w)[0] == w);
}

/// Every setting without an equivalent is warned about: fallback upstreams, a
/// timeout that cannot be read, an allowlist that had to be made up, safe
/// search with an unsupported provider or none left, DHCP, TLS, rate limits.
pub proof fn law_settings_warned(a: Agh)
    ensures
        a.dns.fallback_dns@.len() > 0 ==> planned(a).warnings.contains(WarningV::Fallback),
        go_duration(a.dns.upstream_timeout@) is None ==> planned(a).warnings.contains(
            WarningV::Timeout(a.dns.upstream_timeout@),
        ),
        a.dns.allowed_clients@.len() == 0 ==> planned(a).warnings.contains(WarningV::AnyClient),
        a.dns.allowed_clients@.len() > 0 && client_nets(texts(a.dns.allowed_clients@)).len() == 0
            ==> planned(a).warnings.contains(WarningV::NoClient),
        a.safe_search.enabled && a.safe_search.ecosia ==> planned(a).warnings.contains(
            WarningV::Provider("ecosia"@),
        ),
        a.safe_search.enabled && a.safe_search.pixabay ==> planned(a).warnings.contains(
            WarningV::Provider("pixabay"@),
        ),
        a.safe_search.enabled && a.safe_search.yandex ==> planned(a).warnings.contains(
            WarningV::Provider("yandex"@),
        ),
        a.safe_search.enabled && planned(a).providers.len() == 0 ==> planned(a).warnings.contains(
            WarningV::NoProvider,
        ),
        a.dhcp_enabled ==> planned(a).warnings.contains(WarningV::Dhcp),
        a.tls_enabled ==> planned(a).warnings.contains(WarningV::Tls),
        a.dns.ratelimit > 0 ==> planned(a).warnings.contains(WarningV::Ratelimit),
{
    lemma_one(WarningV::Fallback);
    lemma_warned(a, WarningV::Fallback);
    let t = WarningV::Timeout(a.dns.upstream_timeout@);
    lemma_one(t);
    lemma_warned(a, t);
    let cs = texts(a.dns.allowed_clients@);
    assert(seq![WarningV::AnyClient][0] == WarningV::AnyClient);
    lemma_warned(a, WarningV::AnyClient);
    lemma_pushed(client_warnings(cs), WarningV::NoClient, WarningV::NoClient);
    lemma_warned(a, WarningV::NoClient);
    let s = a.safe_search;
    let e = WarningV::Provider("ecosia"@);
    let p = WarningV::Provider("pixabay"@);
    let y = WarningV::Provider("yandex"@);
    let n = WarningV::NoProvider;
    lemma_one(e);
    lemma_one(p);
    lemma_one(y);
    lemma_one(n);
    let we = warn_if(s.ecosia, e);
    let wp = warn_if(s.pixabay, p);
    let wy = warn_if(s.yandex, y);
    let wn = warn_if(kept_providers(s).len() == 0, n);
    lemma_either(we, wp, e);
    lemma_either(we + wp, wy, e);
    lemma_either(we + wp + wy, wn, e);
    lemma_either(we, wp, p);
    lemma_either(we + wp, wy, p);
    lemma_either(we + wp + wy, wn, p);
    lemma_either(we + wp, wy, y);
    lemma_either(we + wp + wy, wn, y);
    lemma_either(we + wp + wy, wn, n);
    lemma_warned(a, e);
    lemma_warned(a, p);
    lemma_warned(a, y);
    lemma_warned(a, n);
    lemma_one(WarningV::Dhcp);
    lemma_warned(a, WarningV::Dhcp);
    lemma_one(WarningV::Tls);
    lemma_warned(a, WarningV::Tls);
    lemma_one(WarningV::Ratelimit);
    lemma_warned(a, WarningV::Ratelimit);
}

proof fn lemma_upstream(us: Seq<Seq<char>>, i: int)
    requires
        0 <= i < us.len(),
    ensures
        usable(us[i]) ==> kept_upstreams(us).contains(us[i]),
        !usable(us[i]) ==> upstream_warnings(us).contains(WarningV::Upstream(us[i])),
    decreases us.len(),
{
    let before = us.drop_last();
    let w = WarningV::Upstream(us[i]);
    lemma_pushed(kept_upstreams(before), us.last(), us[i]);
    lemma_pushed(upstream_warnings(before), WarningV::Upstream(us.last()), w);
    if i < us.len() - 1 {
        lemma_upstream(before, i);
    }
}

proof fn lemma_client(cs: Seq<Seq<char>>, i: int)
    requires
        0 <= i < cs.len(),
    ensures
        client_net(cs[i]) is Some ==> client_nets(cs).contains(client_net(cs[i])->0),
        client_net(cs[i]) is None ==> client_warnings(cs).contains(WarningV::Client(cs[i])),
    decreases cs.len(),
{
    let before = cs.drop_last();
    let w = WarningV::Client(cs[i]);
    if client_net(cs.last()) is Some {
        lemma_pushed(client_nets(before), client_net(cs.last())->0, client_net(cs[i])->0);
    } else {
        lemma_pushed(client_warnings(before), WarningV::Client(cs.last()), w);
    }
    if i < cs.len() - 1 {
        lemma_client(before, i);
    }
}

/// A list with this URL is there.
pub open spec fn has_url(lists: Seq<(Seq<char>, Seq<char>)>, url: Seq<char>) -> bool {
    exists|j: int| 0 <= j < lists.len() && (#[trigger] lists[j]).1 == url
}

proof fn lemma_filter(fs: Seq<FilterV>, i: int)
    requires
        0 <= i < fs.len(),
    ensures
        fs[i].enabled ==> has_url(kept_filters(fs), fs[i].url),
        !fs[i].enabled ==> filter_warnings(fs).contains(WarningV::Disabled(fs[i].name)),
    decreases fs.len(),
{
    let before = fs.drop_last();
    let f = fs.last();
    let base = base_name(f, fs.len());
    let name = free_name(names_used(kept_filters(before)), base);
    let w = WarningV::Disabled(fs[i].name);
    lemma_pushed(filter_warnings(before), WarningV::Disabled(f.name), w);
    lemma_pushed(filter_warnings(before), WarningV::Renamed { from: f.name, to: name }, w);
    let kept = kept_filters(before);
    if i < fs.len() - 1 {
        lemma_filter(before, i);
        if fs[i].enabled {
            let j = choose|j: int| 0 <= j < kept.len() && (#[trigger] kept[j]).1 == fs[i].url;
            assert(kept_filters(fs)[j] == kept[j]);
        }
    } else if f.enabled {
        assert(kept_filters(fs)[kept.len() as int].1 == f.url);
    }
}

/// Nothing is silently dropped: every upstream, client and filter is in the
/// result, or a warning names it.
pub proof fn law_nothing_dropped(a: Agh)
    ensures
        forall|i: int|
            0 <= i < a.dns.upstream_dns@.len() ==> {
                let u = #[trigger] texts(a.dns.upstream_dns@)[i];
                planned(a).servers.contains(u) || planned(a).warnings.contains(
                    WarningV::Upstream(u),
                )
            },
        forall|i: int|
            0 <= i < a.dns.allowed_clients@.len() ==> {
                let c = #[trigger] texts(a.dns.allowed_clients@)[i];
                (client_net(c) is Some && planned(a).allow.contains(client_net(c)->0)) || planned(
                    a,
                ).warnings.contains(WarningV::Client(c))
            },
        forall|i: int|
            0 <= i < a.filters@.len() ==> {
                let f = #[trigger] filters_of(a.filters@)[i];
                (f.enabled && has_url(planned(a).lists, f.url)) || planned(a).warnings.contains(
                    WarningV::Disabled(f.name),
                )
            },
{
    let us = texts(a.dns.upstream_dns@);
    assert forall|i: int| 0 <= i < us.len() implies {
        let u = #[trigger] us[i];
        planned(a).servers.contains(u) || planned(a).warnings.contains(WarningV::Upstream(u))
    } by {
        lemma_upstream(us, i);
        if !usable(us[i]) {
            lemma_warned(a, WarningV::Upstream(us[i]));
        }
    }
    let cs = texts(a.dns.allowed_clients@);
    assert forall|i: int| 0 <= i < cs.len() implies {
        let c = #[trigger] cs[i];
        (client_net(c) is Some && planned(a).allow.contains(client_net(c)->0)) || planned(
            a,
        ).warnings.contains(WarningV::Client(c))
    } by {
        lemma_client(cs, i);
        let w = WarningV::Client(cs[i]);
        if client_net(cs[i]) is None {
            lemma_pushed(client_warnings(cs), WarningV::NoClient, w);
            lemma_warned(a, w);
        }
    }
    let fs = filters_of(a.filters@);
    assert forall|i: int| 0 <= i < fs.len() implies {
        let f = #[trigger] fs[i];
        (f.enabled && has_url(planned(a).lists, f.url)) || planned(a).warnings.contains(
            WarningV::Disabled(f.name),
        )
    } by {
        lemma_filter(fs, i);
        if !fs[i].enabled {
            lemma_warned(a, WarningV::Disabled(fs[i].name));
        }
    }
}

/// List names are usable: none is empty, none is that of the user rules, and
/// no two are the same.
pub proof fn law_list_names(fs: Seq<FilterV>)
    ensures
        forall|i: int|
            0 <= i < kept_filters(fs).len() ==> (#[trigger] kept_filters(fs)[i]).0.len() > 0,
        forall|i: int|
            0 <= i < kept_filters(fs).len() ==> (#[trigger] kept_filters(fs)[i]).0
                != "user-rules"@,
        forall|i: int, j: int|
            0 <= i < j < kept_filters(fs).len() ==> (#[trigger] kept_filters(fs)[i]).0 != (
            #[trigger] kept_filters(fs)[j]).0,
    decreases fs.len(),
{
    if fs.len() > 0 {
        let before = fs.drop_last();
        law_list_names(before);
        let kept = kept_filters(before);
        if fs.last().enabled {
            let used = names_used(kept);
            let base = base_name(fs.last(), fs.len());
            assert(base.len() > 0) by {
                lemma_decimal(fs.len());
            }
            law_free_name(used, base);
            let name = free_name(used, base);
            assert(used[0] == "user-rules"@);
            assert forall|i: int| 0 <= i < kept.len() implies (#[trigger] kept[i]).0 != name by {
                assert(used[i + 1] == kept[i].0);
            }
        }
    }
}

proof fn lemma_unique(v: Seq<Seq<char>>)
    ensures
        unique(v).no_duplicates(),
        forall|i: int| 0 <= i < v.len() ==> unique(v).contains(#[trigger] v[i]),
        forall|i: int| 0 <= i < unique(v).len() ==> v.contains(#[trigger] unique(v)[i]),
    decreases v.len(),
{
    if v.len() > 0 {
        let before = v.drop_last();
        lemma_unique(before);
        let p = unique(before);
        assert forall|i: int| 0 <= i < v.len() implies unique(v).contains(#[trigger] v[i]) by {
            lemma_pushed(p, v.last(), v[i]);
            if i < v.len() - 1 {
                assert(before[i] == v[i]);
            }
        }
        assert forall|i: int| 0 <= i < unique(v).len() implies v.contains(
            #[trigger] unique(v)[i],
        ) by {
            let x = unique(v)[i];
            if i < p.len() {
                assert(p[i] == x);
                let j = choose|j: int| 0 <= j < before.len() && before[j] == x;
                assert(v[j] == x);
            } else {
                assert(v[v.len() - 1] == x);
            }
        }
    }
}

/// Every host is bound, and no socket twice; `0.0.0.0` binds IPv6 as well.
pub proof fn law_binds(a: Agh)
    requires
        plan_error(a) is None,
    ensures
        planned(a).bind.no_duplicates(),
        forall|i: int|
            0 <= i < a.dns.bind_hosts@.len() ==> {
                let h = literal(#[trigger] texts(a.dns.bind_hosts@)[i]);
                h is Some && planned(a).bind.contains(endpoint_text(h->0, a.dns.port)) && (h->0
                    == Ip::V4(0) ==> planned(a).bind.contains(
                    "[::]:"@ + crate::text::decimal(a.dns.port as nat),
                ))
            },
{
    let hosts = texts(a.dns.bind_hosts@);
    let all = all_binds(hosts, a.dns.port);
    lemma_unique(all);
    assert forall|i: int| 0 <= i < hosts.len() implies {
        let h = literal(#[trigger] hosts[i]);
        h is Some && planned(a).bind.contains(endpoint_text(h->0, a.dns.port)) && (h->0 == Ip::V4(0)
            ==> planned(a).bind.contains("[::]:"@ + crate::text::decimal(a.dns.port as nat)))
    } by {
        lemma_bad_host(hosts, 0, i);
        lemma_bound(hosts, a.dns.port, i);
        let ip = literal(hosts[i])->0;
        let e = endpoint_text(ip, a.dns.port);
        let k = choose|k: int| 0 <= k < all.len() && all[k] == e;
        assert(unique(all).contains(all[k]));
        if ip == Ip::V4(0) {
            let e = "[::]:"@ + crate::text::decimal(a.dns.port as nat);
            let k = choose|k: int| 0 <= k < all.len() && all[k] == e;
            assert(unique(all).contains(all[k]));
        }
    }
}

proof fn lemma_bad_host(hosts: Seq<Seq<char>>, from: int, i: int)
    requires
        0 <= from <= i < hosts.len(),
        bad_host(hosts, from) >= hosts.len(),
    ensures
        literal(hosts[i]) is Some,
    decreases hosts.len() - from,
{
    if from < i {
        lemma_bad_host(hosts, from + 1, i);
    }
}

proof fn lemma_bound(hosts: Seq<Seq<char>>, port: u16, i: int)
    requires
        0 <= i < hosts.len(),
    ensures
        ({
            let ip = literal(hosts[i])->0;
            all_binds(hosts, port).contains(endpoint_text(ip, port)) && (ip == Ip::V4(0)
                ==> all_binds(hosts, port).contains(
                "[::]:"@ + crate::text::decimal(port as nat),
            ))
        }),
    decreases hosts.len(),
{
    let before = hosts.drop_last();
    let ip = literal(hosts[i])->0;
    let e = endpoint_text(ip, port);
    let both = "[::]:"@ + crate::text::decimal(port as nat);
    let last = host_binds(literal(hosts.last())->0, port);
    lemma_either(all_binds(before, port), last, e);
    lemma_either(all_binds(before, port), last, both);
    if i < hosts.len() - 1 {
        assert(before[i] == hosts[i]);
        lemma_bound(before, port, i);
    } else {
        assert(last[0] == e);
        if ip == Ip::V4(0) {
            assert(last[1] == both);
        }
    }
}

} // verus!
