//! The daemon's own state: what a reload keeps or replaces, the heartbeat, and
//! the samples of its counters.
use vstd::prelude::*;

use crate::config::{Config, UpstreamsConfig};
use crate::db::{DaemonStats, DbError, Heartbeat};
use crate::ip::{Endpoint, Ip};
use crate::lists::ListError;
use crate::safesearch::{accepted, first_unknown, made, strs, SafeSearch};
use crate::text::{str_eq, texts};

verus! {

/// Startup and runtime failures. Every one must surface.
#[derive(Debug)]
pub enum CoreError {
    Config(crate::config::ConfigError),
    Lists(ListError),
    Db(DbError),
    Upstream(crate::upstream::Error),
    SafeSearch(crate::safesearch::ConfigError),
    Io(String),
}

impl CoreError {
    /// The error in words.
    pub open spec fn words(self) -> Seq<char> {
        match self {
            CoreError::Config(e) => "configuration: "@ + e.words(),
            CoreError::Lists(e) => "blocklists: "@ + e.words(),
            CoreError::Db(e) => "database: "@ + e.words(),
            CoreError::Upstream(e) => "upstreams: "@ + e.words(),
            CoreError::SafeSearch(e) => "safe-search: "@ + e->Invalid_0@,
            CoreError::Io(e) => "server: "@ + e@,
        }
    }

    /// The error in words.
    pub fn message(&self) -> (r: String)
        ensures
            r@ == self.words(),
    {
        let mut out: String;
        match self {
            CoreError::Config(e) => {
                out = "configuration: ".to_string();
                out.push_str(e.message().as_str());
            },
            CoreError::Lists(e) => {
                out = "blocklists: ".to_string();
                out.push_str(e.message().as_str());
            },
            CoreError::Db(e) => {
                out = "database: ".to_string();
                out.push_str(e.message().as_str());
            },
            CoreError::Upstream(e) => {
                out = "upstreams: ".to_string();
                out.push_str(e.message().as_str());
            },
            CoreError::SafeSearch(e) => {
                out = "safe-search: ".to_string();
                out.push_str(e.message().as_str());
            },
            CoreError::Io(e) => {
                out = "server: ".to_string();
                out.push_str(e.as_str());
            },
        }
        out
    }
}

fn same_endpoints(a: &Vec<Endpoint>, b: &Vec<Endpoint>) -> (r: bool)
    ensures
        r == (a@ == b@),
{
    let n: usize = a.len();
    if n != b.len() {
        return false;
    }
    for i in 0..n
        invariant
            n == a@.len(),
            n == b@.len(),
            forall|j: int| 0 <= j < i ==> a@[j] == b@[j],
    {
        if a[i] != b[i] {
            assert(a@[i as int] != b@[i as int]);
            return false;
        }
    }
    assert(a@ == b@);
    true
}

fn same_ips(a: &Vec<Ip>, b: &Vec<Ip>) -> (r: bool)
    ensures
        r == (a@ == b@),
{
    let n: usize = a.len();
    if n != b.len() {
        return false;
    }
    for i in 0..n
        invariant
            n == a@.len(),
            n == b@.len(),
            forall|j: int| 0 <= j < i ==> a@[j] == b@[j],
    {
        if a[i] != b[i] {
            assert(a@[i as int] != b@[i as int]);
            return false;
        }
    }
    assert(a@ == b@);
    true
}

fn same_texts(a: &Vec<String>, b: &Vec<String>) -> (r: bool)
    ensures
        r == (texts(a@) == texts(b@)),
{
    let n: usize = a.len();
    if n != b.len() {
        assert(texts(a@).len() != texts(b@).len());
        return false;
    }
    for i in 0..n
        invariant
            n == a@.len(),
            n == b@.len(),
            forall|j: int| 0 <= j < i ==> texts(a@)[j] == texts(b@)[j],
    {
        if !str_eq(a[i].as_str(), b[i].as_str()) {
            assert(texts(a@)[i as int] != texts(b@)[i as int]);
            return false;
        }
    }
    assert(texts(a@) == texts(b@));
    true
}

/// The same upstreams.
pub open spec fn same_upstreams(a: UpstreamsConfig, b: UpstreamsConfig) -> bool {
    texts(a.servers@) == texts(b.servers@) && a.bootstrap@ == b.bootstrap@ && a.timeout_ms
        == b.timeout_ms
}

/// The sockets, the upstreams or the database differ: things that are set up
/// once.
pub open spec fn needs_restart(old_config: Config, new_config: Config) -> bool {
    new_config.server.bind@ != old_config.server.bind@ || !same_upstreams(
        new_config.upstreams,
        old_config.upstreams,
    ) || new_config.database.path@ != old_config.database.path@
}

/// Whether a new configuration takes full effect only after a restart.
pub fn restart_needed(old_config: &Config, new_config: &Config) -> (r: bool)
    ensures
        r == needs_restart(*old_config, *new_config),
{
    let a = &new_config.upstreams;
    let b = &old_config.upstreams;
    !same_endpoints(&new_config.server.bind, &old_config.server.bind) || !same_texts(
        &a.servers,
        &b.servers,
    ) || !same_ips(&a.bootstrap, &b.bootstrap) || a.timeout_ms != b.timeout_ms || !str_eq(
        new_config.database.path.as_str(),
        old_config.database.path.as_str(),
    )
}

/// The safe-search table a configuration asks for.
pub fn safe_search_of(config: &Config) -> (r: Result<SafeSearch, crate::safesearch::ConfigError>)
    ensures
        made(config.safe_search.enabled, texts(config.safe_search.providers@), r),
{
    let all = &config.safe_search.providers;
    let n: usize = all.len();
    let mut names: Vec<&str> = Vec::new();
    for i in 0..n
        invariant
            n == all@.len(),
            names@.len() == i,
            forall|j: int| 0 <= j < i ==> (#[trigger] names@[j])@ == all@[j]@,
    {
        names.push(all[i].as_str());
    }
    assert(strs(names@) == texts(all@));
    SafeSearch::new(config.safe_search.enabled, names.as_slice())
}

/// What the daemon keeps between events.
pub struct Daemon {
    pub config: Config,
    /// Fingerprint of the lists being filtered with.
    pub lists_hash: String,
    /// Unix seconds.
    pub started_ts: i64,
    /// Dropped events at the previous sample.
    pub dropped_at_last_sample: u64,
}

/// What comes of a request to reload.
pub enum Reload {
    /// The lists did not load, or safe search names an unknown provider:
    /// everything stays as it was.
    Kept,
    /// The new configuration is in effect: the engine made of its lists, its
    /// allowlist and this safe-search table are to replace those in use.
    Done { policy: SafeSearch, restart_needed: bool },
}

/// What a configuration that loads, and what loading its lists came to, make of
/// the daemon.
pub open spec fn reloaded(
    before: Daemon,
    new_config: Config,
    lists: Result<String, CoreError>,
    after: Daemon,
    r: Reload,
) -> bool {
    let providers = texts(new_config.safe_search.providers@);
    if lists is Ok && accepted(new_config.safe_search.enabled, providers) {
        &&& after == (Daemon { config: new_config, lists_hash: lists->Ok_0, ..before })
        &&& r is Done
        &&& r->restart_needed == needs_restart(before.config, new_config)
        &&& made(new_config.safe_search.enabled, providers, Ok(r->policy))
    } else {
        r is Kept && after == before
    }
}

impl Daemon {
    /// With the lists that were loaded again, where they were.
    pub open spec fn with_lists(self, lists: Result<String, CoreError>) -> Daemon {
        match lists {
            Ok(hash) => Daemon { lists_hash: hash, ..self },
            Err(_) => self,
        }
    }

    /// The state once the lists of the first configuration are loaded.
    pub fn new(config: Config, lists_hash: String, started_ts: i64) -> (r: Daemon)
        ensures
            r.config == config,
            r.lists_hash == lists_hash,
            r.started_ts == started_ts,
            r.dropped_at_last_sample == 0,
    {
        Daemon { config, lists_hash, started_ts, dropped_at_last_sample: 0 }
    }

    /// Take in a configuration that loads and what loading its lists came to:
    /// the fingerprint of those to be used, or an error. Lists that do not
    /// load, or an unknown safe-search provider, keep all of the old state.
    pub fn reload(&mut self, new_config: Config, lists: Result<String, CoreError>) -> (r: Reload)
        ensures
            reloaded(*old(self), new_config, lists, *final(self), r),
            ({
                let providers = texts(new_config.safe_search.providers@);
                if lists is Ok && accepted(new_config.safe_search.enabled, providers) {
                    &&& *final(self) == (Daemon {
                        config: new_config,
                        lists_hash: lists->Ok_0,
                        ..*old(self)
                    })
                    &&& r is Done
                    &&& r->restart_needed == needs_restart(old(self).config, new_config)
                    &&& made(new_config.safe_search.enabled, providers, Ok(r->policy))
                } else {
                    r is Kept && *final(self) == *old(self)
                }
            }),
    {
        match (lists, safe_search_of(&new_config)) {
            (Ok(hash), Ok(policy)) => {
                let restart = restart_needed(&self.config, &new_config);
                self.config = new_config;
                self.lists_hash = hash;
                Reload::Done { policy, restart_needed: restart }
            },
            _ => Reload::Kept,
        }
    }

    /// Take in what the daily refresh of the lists came to; whether the engine
    /// made of them is to replace the one in use.
    pub fn refreshed(&mut self, lists: Result<String, CoreError>) -> (swap: bool)
        ensures
            swap == lists is Ok,
            *final(self) == old(self).with_lists(lists),
            *final(self) == (match lists {
                Ok(hash) => Daemon { lists_hash: hash, ..*old(self) },
                Err(_) => *old(self),
            }),
    {
        match lists {
            Ok(hash) => {
                self.lists_hash = hash;
                true
            },
            Err(_) => false,
        }
    }

    /// The heartbeat to write.
    pub fn heartbeat(&self, pid: u32, now: i64, config_hash: String) -> (r: Heartbeat)
        ensures
            r.pid == pid,
            r.started_ts == self.started_ts,
            r.updated_ts == now,
            r.config_hash@ == config_hash@,
            r.lists_hash@ == self.lists_hash@,
    {
        Heartbeat {
            pid,
            started_ts: self.started_ts,
            updated_ts: now,
            config_hash,
            lists_hash: self.lists_hash.clone(),
        }
    }

    /// The counters to publish: what was lost since start, and since the
    /// previous sample.
    pub fn sample(&mut self, dropped_total: u64, now: i64, upstreams_json: String) -> (r:
        DaemonStats)
        ensures
            r.updated_ts == now,
            r.log_events_dropped == dropped_total,
            r.log_events_dropped_recent == recent(
                old(self).dropped_at_last_sample,
                dropped_total,
            ),
            r.upstreams_json@ == upstreams_json@,
            *final(self) == (Daemon { dropped_at_last_sample: dropped_total, ..*old(self) }),
    {
        let last: u64 = self.dropped_at_last_sample;
        let fresh: u64 = if dropped_total >= last {
            dropped_total - last
        } else {
            0
        };
        self.dropped_at_last_sample = dropped_total;
        DaemonStats {
            updated_ts: now,
            log_events_dropped: dropped_total,
            log_events_dropped_recent: fresh,
            upstreams_json,
        }
    }
}

/// What was lost since the previous sample.
pub open spec fn recent(last: u64, total: u64) -> u64 {
    if total >= last {
        (total - last) as u64
    } else {
        0
    }
}

/// The sum of what successive samples report, from a count on.
pub open spec fn reported(last: u64, totals: Seq<u64>) -> int
    decreases totals.len(),
{
    if totals.len() == 0 {
        0
    } else {
        let before = totals.drop_last();
        let prev = if before.len() == 0 {
            last
        } else {
            before.last()
        };
        reported(last, before) + recent(prev, totals.last())
    }
}

/// Every lost event is reported in exactly one sample: while the total never
/// falls, the samples add up to it.
pub proof fn law_samples_add_up(last: u64, totals: Seq<u64>)
    requires
        totals.len() > 0,
        last <= totals[0],
        forall|i: int, j: int| 0 <= i <= j < totals.len() ==> totals[i] <= totals[j],
    ensures
        reported(last, totals) == totals.last() - last,
    decreases totals.len(),
{
    let before = totals.drop_last();
    if before.len() == 0 {
        assert(reported(last, before) == 0);
    } else {
        assert(before[0] == totals[0]);
        law_samples_add_up(last, before);
        assert(before.last() == totals[totals.len() - 2]);
    }
}

/// A reload takes full effect at once exactly where sockets, upstream URLs,
/// bootstrap addresses, timeout and database are what they were; lists,
/// allowlist and safe search may be anything.
pub proof fn law_restart(a: Config, b: Config)
    ensures
        needs_restart(a, b) == !(a.server.bind@ == b.server.bind@ && texts(a.upstreams.servers@)
            == texts(b.upstreams.servers@) && a.upstreams.bootstrap@ == b.upstreams.bootstrap@
            && a.upstreams.timeout_ms == b.upstreams.timeout_ms && a.database.path@
            == b.database.path@),
        needs_restart(a, b) == needs_restart(b, a),
{
}

/// A sample reports what was lost since the one before, and nothing where the
/// count did not rise.
pub proof fn law_sample(last: u64, total: u64)
    ensures
        total >= last ==> recent(last, total) + last == total,
        total < last ==> recent(last, total) == 0,
{
}

/// Errors in words: what failed, and how.
pub proof fn law_error_words(e: CoreError)
    ensures
        e.words() == match e {
            CoreError::Config(x) => "configuration: "@ + x.words(),
            CoreError::Lists(x) => "blocklists: "@ + x.words(),
            CoreError::Db(x) => "database: "@ + x.words(),
            CoreError::Upstream(x) => "upstreams: "@ + x.words(),
            CoreError::SafeSearch(x) => "safe-search: "@ + x->Invalid_0@,
            CoreError::Io(x) => "server: "@ + x@,
        },
{
}

/// What a reload comes to. Where the lists loaded and every safe-search
/// provider is known, the new configuration and its lists are in effect and
/// nothing else changes; otherwise everything is as it was.
pub proof fn law_reload(
    before: Daemon,
    new_config: Config,
    lists: Result<String, CoreError>,
    after: Daemon,
    r: Reload,
)
    requires
        reloaded(before, new_config, lists, after, r),
    ensures
        ({
            let names = texts(new_config.safe_search.providers@);
            let known = forall|i: int|
                0 <= i < names.len() ==> (#[trigger] names[i]) == "google"@ || names[i]
                    == "youtube"@ || names[i] == "bing"@ || names[i] == "duckduckgo"@;
            &&& r is Done == (lists is Ok && (!new_config.safe_search.enabled || known))
            &&& r is Done ==> after.config == new_config && after.lists_hash == lists->Ok_0
                && after.started_ts == before.started_ts && after.dropped_at_last_sample
                == before.dropped_at_last_sample
            &&& r is Done ==> r->restart_needed == needs_restart(before.config, new_config)
            &&& r is Kept ==> after == before
        }),
{
    lemma_first_unknown_at(texts(new_config.safe_search.providers@), 0);
}

proof fn lemma_first_unknown_at(names: Seq<Seq<char>>, from: int)
    requires
        0 <= from <= names.len(),
    ensures
        (first_unknown(names, from) == names.len()) == (forall|i: int|
            from <= i < names.len() ==> (#[trigger] names[i]) == "google"@ || names[i]
                == "youtube"@ || names[i] == "bing"@ || names[i] == "duckduckgo"@),
        first_unknown(names, from) <= names.len(),
    decreases names.len() - from,
{
    if from < names.len() {
        lemma_first_unknown_at(names, from + 1);
    }
}

/// A heartbeat tells when it was written and what the daemon runs with.
pub proof fn law_heartbeat(d: &Daemon, pid: u32, now: i64, config_hash: String, r: Heartbeat)
    requires
        call_ensures(Daemon::heartbeat, (d, pid, now, config_hash), r),
    ensures
        r.pid == pid && r.updated_ts == now && r.config_hash@ == config_hash@,
        r.started_ts == d.started_ts && r.lists_hash@ == d.lists_hash@,
{
}

/// Lists that loaded are in effect, and lists that did not change nothing; the
/// configuration is the same either way.
pub proof fn law_refreshed(before: Daemon, lists: Result<String, CoreError>)
    ensures
        ({
            let after = before.with_lists(lists);
            &&& lists is Ok ==> after.lists_hash == lists->Ok_0
            &&& lists is Err ==> after.lists_hash == before.lists_hash
            &&& after.config == before.config && after.started_ts == before.started_ts
            &&& after.dropped_at_last_sample == before.dropped_at_last_sample
        }),
{
}

} // verus!
