//! What a configuration means, field by field.
use vstd::prelude::*;

use crate::config::{config_error, hex, law_valid_config, lists_of, names_distinct, overlaid};
use crate::config::{name_pos, profile_lists, servers_error, source_error, Config, ConfigError, ListV, Profile};
use crate::text::{decimal, texts};

verus! {

/// Whether a text begins with another, character by character.
pub open spec fn begins_with(s: Seq<char>, p: Seq<char>) -> bool {
    p.len() <= s.len() && forall|i: int| 0 <= i < p.len() ==> #[trigger] s[i] == p[i]
}

proof fn lemma_begins(s: Seq<char>, p: Seq<char>)
    ensures
        crate::text::starts_with(s, p) == begins_with(s, p),
{
    if crate::text::starts_with(s, p) {
        assert forall|i: int| 0 <= i < p.len() implies #[trigger] s[i] == p[i] by {
            assert(s.take(p.len() as int)[i] == p[i]);
        }
    }
    if begins_with(s, p) {
        assert(s.take(p.len() as int) =~= p);
    }
}

/// A list that can be had: from an `https` URL, from a file by its full path,
/// or from either.
pub open spec fn obtainable(l: ListV) -> bool {
    &&& l.url is Some || l.path is Some
    &&& l.url is Some ==> begins_with(l.url->0, "https://"@)
    &&& l.path is Some ==> l.path->0.len() > 0 && l.path->0[0] == '/'
}

/// Exactly these configurations are valid: at least one socket, one allowed
/// network, one upstream, all of them `https` or `quic`, and one bootstrap
/// address; a timeout from 100 to 30000 milliseconds; full paths for database
/// and list directory; and at least one list, every one obtainable, the
/// configured ones under names of their own.
pub proof fn law_valid(c: Config)
    ensures
        config_error(c) is None <==> {
            let servers = texts(c.upstreams.servers@);
            let extras = lists_of(c.filtering.lists@);
            let effective = c.filtering.effective();
            &&& c.server.bind@.len() > 0
            &&& c.server.allow@.len() > 0
            &&& servers.len() > 0
            &&& forall|i: int|
                0 <= i < servers.len() ==> begins_with(#[trigger] servers[i], "https://"@)
                    || begins_with(servers[i], "quic://"@)
            &&& c.upstreams.bootstrap@.len() > 0
            &&& 100 <= c.upstreams.timeout_ms <= 30_000
            &&& c.database.path@.len() > 0 && c.database.path@[0] == '/'
            &&& c.filtering.list_dir@.len() > 0 && c.filtering.list_dir@[0] == '/'
            &&& effective.len() > 0
            &&& forall|i: int| 0 <= i < extras.len() ==> (#[trigger] extras[i]).name.len() > 0
            &&& forall|i: int, j: int|
                0 <= j < i < extras.len() ==> (#[trigger] extras[i]).name != (
                #[trigger] extras[j]).name
            &&& forall|i: int| 0 <= i < effective.len() ==> obtainable(#[trigger] effective[i])
        },
{
    law_valid_config(c);
    let servers = texts(c.upstreams.servers@);
    let effective = c.filtering.effective();
    assert forall|i: int| 0 <= i < servers.len() implies crate::text::starts_with(
        #[trigger] servers[i],
        "https://"@,
    ) == begins_with(servers[i], "https://"@) && crate::text::starts_with(servers[i], "quic://"@)
        == begins_with(servers[i], "quic://"@) by {
        lemma_begins(servers[i], "https://"@);
        lemma_begins(servers[i], "quic://"@);
    }
    assert forall|i: int| 0 <= i < effective.len() implies source_error(#[trigger] effective[i]) is None
        == obtainable(effective[i]) by {
        if effective[i].url is Some {
            lemma_begins(effective[i].url->0, "https://"@);
        }
    }
}

/// What is wrong is told in this order: sockets, clients, upstreams, bootstrap,
/// timeout, database, list directory, lists.
pub proof fn law_complaint_order(c: Config)
    ensures
        ({
            let e = config_error(c);
            let no_bind = c.server.bind@.len() == 0;
            let no_allow = c.server.allow@.len() == 0;
            let no_server = c.upstreams.servers@.len() == 0;
            &&& no_bind ==> e == Some("server.bind: must not be empty"@)
            &&& !no_bind && no_allow ==> e == Some("server.allow: must not be empty"@)
            &&& !no_bind && !no_allow && no_server ==> e == Some(
                "upstreams.servers: must not be empty"@,
            )
            &&& c.upstreams.bootstrap@.len() == 0 ==> e is Some
            &&& !(100 <= c.upstreams.timeout_ms <= 30_000) ==> e is Some
            &&& c.filtering.effective().len() == 0 ==> e is Some
        }),
{
    law_valid_config(c);
}

/// The lists of each profile, by name and URL.
pub proof fn law_profiles(p: Profile)
    ensures
        ({
            let l = profile_lists(p);
            &&& forall|i: int| 0 <= i < l.len() ==> (#[trigger] l[i]).path is None
            &&& p is Minimal ==> l.len() == 1 && l[0].name == "hagezi-light"@ && l[0].url == Some(
                "https://raw.githubusercontent.com/hagezi/dns-blocklists/main/adblock/light.txt"@,
            )
            &&& !(p is Minimal) ==> l[0].name == "hagezi-pro"@ && l[0].url == Some(
                "https://raw.githubusercontent.com/hagezi/dns-blocklists/main/adblock/pro.txt"@,
            )
            &&& p is Balanced ==> l.len() == 1
            &&& p is Strict ==> l.len() == 2 && l[1].name == "hagezi-tif"@ && l[1].url == Some(
                "https://raw.githubusercontent.com/hagezi/dns-blocklists/main/adblock/tif.txt"@,
            )
            &&& p.name_of() == match p {
                Profile::Minimal => "minimal"@,
                Profile::Balanced => "balanced"@,
                Profile::Strict => "strict"@,
            }
        }),
{
}

/// A list of that name is among these.
pub open spec fn names_one(s: Seq<ListV>, name: Seq<char>) -> bool {
    exists|i: int| 0 <= i < s.len() && (#[trigger] s[i]).name == name
}

proof fn lemma_name_pos_is(s: Seq<ListV>, name: Seq<char>, from: int)
    requires
        0 <= from <= s.len(),
    ensures
        from <= name_pos(s, name, from) <= s.len(),
        name_pos(s, name, from) < s.len() ==> s[name_pos(s, name, from)].name == name,
        forall|i: int| from <= i < name_pos(s, name, from) ==> (#[trigger] s[i]).name != name,
    decreases s.len() - from,
{
    if from < s.len() && s[from].name != name {
        lemma_name_pos_is(s, name, from + 1);
    }
}

/// A configured list takes the place of the profile's list of its name; every
/// other list of the profile stays where it is, and every other configured
/// list follows behind, in the order they are configured.
pub proof fn law_effective_lists(base: Seq<ListV>, extras: Seq<ListV>)
    requires
        names_distinct(base),
        names_distinct(extras),
    ensures
        ({
            let r = overlaid(base, extras);
            let added = extras.filter(|e: ListV| !names_one(base, e.name));
            &&& r.len() == base.len() + added.len()
            &&& forall|i: int|
                0 <= i < base.len() && !names_one(extras, base[i].name) ==> #[trigger] r[i]
                    == base[i]
            &&& forall|i: int, k: int|
                0 <= i < base.len() && 0 <= k < extras.len() && #[trigger] extras[k].name
                    == base[i].name ==> #[trigger] r[i] == extras[k]
            &&& forall|k: int|
                0 <= k < added.len() ==> #[trigger] r[base.len() + k] == added[k]
        }),
    decreases extras.len(),
{
    reveal(Seq::filter);
    let new = |e: ListV| !names_one(base, e.name);
    let r = overlaid(base, extras);
    let added = extras.filter(new);
    if extras.len() > 0 {
        let t = extras.drop_last();
        let e = extras.last();
        let s = overlaid(base, t);
        let before = t.filter(new);
        assert forall|i: int, j: int| 0 <= i < j < t.len() implies (#[trigger] t[i]).name != (
        #[trigger] t[j]).name by {
            assert(t[i] == extras[i] && t[j] == extras[j]);
        }
        law_effective_lists(base, t);
        let p = name_pos(s, e.name, 0);
        lemma_name_pos_is(s, e.name, 0);
        // Names at the front are the profile's, behind it those added.
        assert forall|i: int| 0 <= i < base.len() implies (#[trigger] s[i]).name == base[i].name by {
            if names_one(t, base[i].name) {
                let k = choose|k: int| 0 <= k < t.len() && (#[trigger] t[k]).name == base[i].name;
                assert(s[i] == t[k]);
            }
        }
        assert forall|k: int| 0 <= k < before.len() implies (#[trigger] before[k]).name != e.name by {
            let x = lemma_filter_from(t, base, k);
            assert(t[x] == extras[x]);
            assert(extras[x].name != extras[extras.len() - 1].name);
        }
        if names_one(base, e.name) {
            assert(added == before);
            let b = choose|b: int| 0 <= b < base.len() && (#[trigger] base[b]).name == e.name;
            assert(s[b].name == e.name);
            assert(p == b) by {
                if p < base.len() && p != b {
                    assert(s[p].name == base[p].name);
                    if p < b {
                        assert(base[p].name != base[b].name);
                    } else {
                        assert(base[b].name != base[p].name);
                    }
                }
            }
            assert(r == s.update(p, e));
        } else {
            assert(added == before.push(e));
            assert(p == s.len()) by {
                if p < base.len() {
                    assert(s[p].name == base[p].name);
                } else if p < s.len() {
                    let k = p - base.len();
                    assert(s[base.len() + k] == before[k]);
                }
            }
            assert(r == s.push(e));
        }
        assert forall|i: int| 0 <= i < base.len() && !names_one(
            extras,
            base[i].name,
        ) implies #[trigger] r[i] == base[i] by {
            assert(!names_one(t, base[i].name)) by {
                if names_one(t, base[i].name) {
                    let k = choose|k: int|
                        0 <= k < t.len() && (#[trigger] t[k]).name == base[i].name;
                    assert(extras[k].name == base[i].name);
                }
            }
            assert(extras[extras.len() - 1].name != base[i].name);
            assert(s[i] == base[i]);
        }
        assert forall|i: int, k: int|
            0 <= i < base.len() && 0 <= k < extras.len() && #[trigger] extras[k].name
                == base[i].name implies #[trigger] r[i] == extras[k] by {
            if k < t.len() {
                assert(t[k] == extras[k]);
                assert(t[k].name == base[i].name);
                assert(s[i] == t[k]);
                assert(extras[k].name != extras[extras.len() - 1].name);
            } else {
                assert(names_one(base, e.name));
                assert(s[i].name == e.name);
            }
        }
        assert forall|k: int| 0 <= k < added.len() implies #[trigger] r[base.len() + k]
            == added[k] by {
            if k < before.len() {
                assert(s[base.len() + k] == before[k]);
            }
        }
    } else {
        assert(added =~= Seq::<ListV>::empty());
    }
}

proof fn lemma_filter_from(t: Seq<ListV>, base: Seq<ListV>, k: int) -> (x: int)
    requires
        0 <= k < t.filter(|e: ListV| !names_one(base, e.name)).len(),
    ensures
        0 <= x < t.len(),
        t.filter(|e: ListV| !names_one(base, e.name))[k] == t[x],
    decreases t.len(),
{
    reveal(Seq::filter);
    let new = |e: ListV| !names_one(base, e.name);
    let before = t.drop_last().filter(new);
    if k < before.len() {
        lemma_filter_from(t.drop_last(), base, k)
    } else {
        t.len() - 1
    }
}

/// The value of a hexadecimal digit in lower case.
pub open spec fn digit_value(c: char) -> int {
    if '0' <= c <= '9' {
        c as int - '0' as int
    } else if 'a' <= c <= 'f' {
        c as int - 'a' as int + 10
    } else {
        16
    }
}

/// Bytes in hexadecimal can be read back: two digits each, the high one first.
pub proof fn law_hex(b: Seq<u8>, i: int)
    requires
        0 <= i < b.len(),
    ensures
        hex(b).len() == 2 * b.len(),
        digit_value(hex(b)[2 * i]) < 16 && digit_value(hex(b)[2 * i + 1]) < 16,
        16 * digit_value(hex(b)[2 * i]) + digit_value(hex(b)[2 * i + 1]) == b[i],
{
    let x = b[i];
    assert((2 * i) % 2 == 0 && (2 * i) / 2 == i);
    assert((2 * i + 1) % 2 == 1 && (2 * i + 1) / 2 == i);
    assert(x / 16 < 16 && x % 16 < 16 && 16 * (x / 16) + x % 16 == x);
}

/// Errors in words.
pub proof fn law_error_words(path: String, reason: String)
    ensures
        (ConfigError::Read { path, reason }).words() == "cannot read "@ + path@ + ": "@ + reason@,
        (ConfigError::Parse { path, reason }).words() == "cannot parse "@ + path@ + ": "@ + reason@,
        ConfigError::Invalid(reason).words() == "invalid config: "@ + reason@,
{
}

/// The words of each complaint, given that what is looked at before is fine.
/// `i` is the first upstream that is neither `https` nor `quic`.
pub proof fn law_complaint_words(c: Config, i: int)
    requires
        c.server.bind@.len() > 0,
        c.server.allow@.len() > 0,
        c.upstreams.servers@.len() > 0,
        0 <= i <= c.upstreams.servers@.len(),
        forall|k: int|
            0 <= k < i ==> begins_with(#[trigger] texts(c.upstreams.servers@)[k], "https://"@)
                || begins_with(texts(c.upstreams.servers@)[k], "quic://"@),
        i < c.upstreams.servers@.len() ==> !begins_with(
            texts(c.upstreams.servers@)[i],
            "https://"@,
        ) && !begins_with(texts(c.upstreams.servers@)[i], "quic://"@),
    ensures
        ({
            let e = config_error(c);
            let servers = texts(c.upstreams.servers@);
            let good = i == servers.len();
            let boot = c.upstreams.bootstrap@.len() > 0;
            let time = 100 <= c.upstreams.timeout_ms <= 30_000;
            let base = c.database.path@.len() > 0 && c.database.path@[0] == '/';
            let dir = c.filtering.list_dir@.len() > 0 && c.filtering.list_dir@[0] == '/';
            &&& !good ==> e == Some(
                "upstreams.servers: "@ + servers[i] + ": must use https:// or quic:// scheme"@,
            )
            &&& good && !boot ==> e == Some("upstreams.bootstrap: must not be empty"@)
            &&& good && boot && !time ==> e == Some(
                "upstreams.timeout_ms: "@ + decimal(c.upstreams.timeout_ms as nat)
                    + " is not in 100..=30000"@,
            )
            &&& good && boot && time && !base ==> e == Some(
                "database.path: "@ + c.database.path@ + " must be absolute"@,
            )
            &&& good && boot && time && base && !dir ==> e == Some(
                "filtering.list_dir: "@ + c.filtering.list_dir@ + " must be absolute"@,
            )
            &&& good && boot && time && base && dir && c.filtering.effective().len() == 0 ==> e
                == Some("filtering: must have at least one list (set profile or lists)"@)
        }),
{
    lemma_servers_at(texts(c.upstreams.servers@), 0, i);
}

proof fn lemma_servers_at(s: Seq<Seq<char>>, from: int, i: int)
    requires
        0 <= from <= i <= s.len(),
        forall|k: int|
            from <= k < i ==> begins_with(#[trigger] s[k], "https://"@) || begins_with(
                s[k],
                "quic://"@,
            ),
        i < s.len() ==> !begins_with(s[i], "https://"@) && !begins_with(s[i], "quic://"@),
    ensures
        servers_error(s, from) == if i < s.len() {
            Some("upstreams.servers: "@ + s[i] + ": must use https:// or quic:// scheme"@)
        } else {
            None
        },
    decreases i - from,
{
    if from < s.len() {
        lemma_begins(s[from], "https://"@);
        lemma_begins(s[from], "quic://"@);
    }
    if from < i {
        assert(begins_with(s[from], "https://"@) || begins_with(s[from], "quic://"@));
        lemma_servers_at(s, from + 1, i);
    }
}

/// What is wrong with a list: that it is nowhere to be had, that its URL is
/// not `https`, that its path is not a full one, in this order.
pub proof fn law_list_complaints(l: ListV)
    ensures
        ({
            let e = source_error(l);
            let some = l.url is Some || l.path is Some;
            let url = l.url is Some ==> begins_with(l.url->0, "https://"@);
            let path = l.path is Some ==> l.path->0.len() > 0 && l.path->0[0] == '/';
            &&& !some ==> e == Some(
                "filtering.lists: '"@ + l.name + "' has neither url nor path"@,
            )
            &&& some && !url ==> e == Some(
                "filtering.lists: '"@ + l.name + "' url '"@ + l.url->0 + "' must use https://"@,
            )
            &&& some && url && !path ==> e == Some(
                "filtering.lists: '"@ + l.name + "' path "@ + l.path->0 + " must be absolute"@,
            )
            &&& some && url && path ==> e is None
        }),
{
    if l.url is Some {
        lemma_begins(l.url->0, "https://"@);
    }
}

} // verus!
