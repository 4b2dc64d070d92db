//! The query log: records, the rows they are stored as, schema versions,
//! retention.
//!
//! One writer owns the database connection. Events reach it through a bounded
//! queue in batches; a batch is one transaction, and those who wait for a
//! flush are told after it is committed.
use vstd::prelude::*;

use crate::consts::LOG_RETENTION_SECS;
use crate::ip::laws::law_ip_roundtrip;
use crate::ip::show::{ip_text, show_ip};
use crate::ip::{literal, parse_ip, Ip};
use crate::text::{chars_of, decimal, decimal_of, is_digit, lemma_decimal, number, opt_text, texts};
use crate::text::{parse_number, str_eq};

verus! {

/// Events the writer's queue holds.
pub const WRITER_QUEUE_CAPACITY: usize = 4096;

/// Messages the writer takes into one transaction.
pub const BATCH_SIZE: usize = 256;

/// The schema version this code reads and writes. Version 2 added
/// `daemon_stats.log_events_dropped_recent`.
pub const SCHEMA_VERSION: u32 = 2;

/// What the filter decided for a query.
#[derive(Debug, Clone, Copy, PartialEq, Eq, Structural)]
pub enum VerdictKind {
    Allowed,
    Blocked,
    Excepted,
}

/// Where the answer came from.
#[derive(Debug, Clone, Copy, PartialEq, Eq, Structural)]
pub enum ResponseSource {
    /// Synthesized locally (NXDOMAIN block, REFUSED, safe-search CNAME).
    Synth,
    Cache,
    /// Served stale from cache while refreshing.
    Stale,
    Upstream,
    /// Upstream failed and nothing cached: SERVFAIL to the client.
    Failed,
}

/// Errors from database operations.
#[derive(Debug, PartialEq, Eq)]
pub enum DbError {
    /// The database file could not be opened or created.
    Open { path: String, reason: String },
    /// A statement failed.
    Sql(String),
    /// The stored schema version is newer than this one.
    SchemaTooNew { found: u32, supported: u32 },
}

impl DbError {
    /// The error in words.
    pub open spec fn words(self) -> Seq<char> {
        match self {
            DbError::Open { path, reason } => "cannot open database "@ + path@ + ": "@ + reason@,
            DbError::Sql(e) => "sql: "@ + e@,
            DbError::SchemaTooNew { found, supported } => "database schema v"@ + decimal(
                found as nat,
            ) + " is newer than supported v"@ + decimal(supported as nat),
        }
    }

    /// The error in words.
    pub fn message(&self) -> (r: String)
        ensures
            r@ == self.words(),
    {
        let mut out: String;
        match self {
            DbError::Open { path, reason } => {
                out = "cannot open database ".to_string();
                out.push_str(path.as_str());
                out.push_str(": ");
                out.push_str(reason.as_str());
            },
            DbError::Sql(e) => {
                out = "sql: ".to_string();
                out.push_str(e.as_str());
            },
            DbError::SchemaTooNew { found, supported } => {
                out = "database schema v".to_string();
                out.push_str(decimal_of(*found as u64).as_str());
                out.push_str(" is newer than supported v");
                out.push_str(decimal_of(*supported as u64).as_str());
            },
        }
        out
    }
}

/// A stored row that makes no record. Each variant holds the value that does
/// not fit.
#[derive(Debug)]
pub enum RowError {
    Client(String),
    Qtype(i64),
    Verdict(String),
    Source(String),
    Rcode(i64),
    Duration(i64),
}

impl VerdictKind {
    pub open spec fn text(self) -> Seq<char> {
        match self {
            VerdictKind::Allowed => "allowed"@,
            VerdictKind::Blocked => "blocked"@,
            VerdictKind::Excepted => "excepted"@,
        }
    }

    /// The kind with this stored text.
    pub open spec fn named(s: Seq<char>) -> Option<VerdictKind> {
        if s == "allowed"@ {
            Some(VerdictKind::Allowed)
        } else if s == "blocked"@ {
            Some(VerdictKind::Blocked)
        } else if s == "excepted"@ {
            Some(VerdictKind::Excepted)
        } else {
            None
        }
    }

    pub fn as_str(self) -> (r: &'static str)
        ensures
            r@ == self.text(),
    {
        match self {
            VerdictKind::Allowed => "allowed",
            VerdictKind::Blocked => "blocked",
            VerdictKind::Excepted => "excepted",
        }
    }

    pub fn from_db(s: &str) -> (r: Result<VerdictKind, RowError>)
        ensures
            match r {
                Ok(v) => VerdictKind::named(s@) == Some(v),
                Err(e) => VerdictKind::named(s@) is None && e is Verdict && e->Verdict_0@ == s@,
            },
    {
        if str_eq(s, "allowed") {
            Ok(VerdictKind::Allowed)
        } else if str_eq(s, "blocked") {
            Ok(VerdictKind::Blocked)
        } else if str_eq(s, "excepted") {
            Ok(VerdictKind::Excepted)
        } else {
            Err(RowError::Verdict(s.to_string()))
        }
    }
}

impl ResponseSource {
    pub open spec fn text(self) -> Seq<char> {
        match self {
            ResponseSource::Synth => "synth"@,
            ResponseSource::Cache => "cache"@,
            ResponseSource::Stale => "stale"@,
            ResponseSource::Upstream => "upstream"@,
            ResponseSource::Failed => "failed"@,
        }
    }

    /// The source with this stored text.
    pub open spec fn named(s: Seq<char>) -> Option<ResponseSource> {
        if s == "synth"@ {
            Some(ResponseSource::Synth)
        } else if s == "cache"@ {
            Some(ResponseSource::Cache)
        } else if s == "stale"@ {
            Some(ResponseSource::Stale)
        } else if s == "upstream"@ {
            Some(ResponseSource::Upstream)
        } else if s == "failed"@ {
            Some(ResponseSource::Failed)
        } else {
            None
        }
    }

    pub fn as_str(self) -> (r: &'static str)
        ensures
            r@ == self.text(),
    {
        match self {
            ResponseSource::Synth => "synth",
            ResponseSource::Cache => "cache",
            ResponseSource::Stale => "stale",
            ResponseSource::Upstream => "upstream",
            ResponseSource::Failed => "failed",
        }
    }

    pub fn from_db(s: &str) -> (r: Result<ResponseSource, RowError>)
        ensures
            match r {
                Ok(v) => ResponseSource::named(s@) == Some(v),
                Err(e) => ResponseSource::named(s@) is None && e is Source && e->Source_0@ == s@,
            },
    {
        if str_eq(s, "synth") {
            Ok(ResponseSource::Synth)
        } else if str_eq(s, "cache") {
            Ok(ResponseSource::Cache)
        } else if str_eq(s, "stale") {
            Ok(ResponseSource::Stale)
        } else if str_eq(s, "upstream") {
            Ok(ResponseSource::Upstream)
        } else if str_eq(s, "failed") {
            Ok(ResponseSource::Failed)
        } else {
            Err(RowError::Source(s.to_string()))
        }
    }
}

/// Reading back a stored verdict gives the verdict.
pub proof fn law_verdict_text_roundtrip(v: VerdictKind)
    ensures
        VerdictKind::named(v.text()) == Some(v),
{
    reveal_strlit("allowed");
    reveal_strlit("blocked");
    reveal_strlit("excepted");
    assert("allowed"@[0] != "blocked"@[0] && "allowed"@[0] != "excepted"@[0] && "blocked"@[0]
        != "excepted"@[0]);
}

/// Reading back a stored source gives the source.
pub proof fn law_source_text_roundtrip(v: ResponseSource)
    ensures
        ResponseSource::named(v.text()) == Some(v),
{
    reveal_strlit("synth");
    reveal_strlit("cache");
    reveal_strlit("stale");
    reveal_strlit("upstream");
    reveal_strlit("failed");
    assert("synth"@[1] == 'y' && "cache"@[0] == 'c' && "stale"@[1] == 't' && "upstream"@[0] == 'u'
        && "failed"@[0] == 'f');
    assert("synth"@[0] == 's' && "stale"@[0] == 's');
}

/// One row for the query log.
#[derive(Debug, PartialEq, Eq)]
pub struct QueryRecord {
    /// Unix seconds.
    pub ts: i64,
    pub client: Ip,
    pub qname: String,
    pub qtype: u16,
    pub verdict: VerdictKind,
    /// Rule text and list index when the verdict is blocked or excepted.
    pub rule: Option<String>,
    pub list: Option<usize>,
    pub source: ResponseSource,
    /// Response code of the answer sent to the client.
    pub rcode: u16,
    pub duration_us: u32,
}

/// Model of [`QueryRecord`].
#[verifier::ext_equal]
pub struct QueryV {
    pub ts: i64,
    pub client: Ip,
    pub qname: Seq<char>,
    pub qtype: u16,
    pub verdict: VerdictKind,
    pub rule: Option<Seq<char>>,
    pub list: Option<usize>,
    pub source: ResponseSource,
    pub rcode: u16,
    pub duration_us: u32,
}

fn copy_opt(s: &Option<String>) -> (r: Option<String>)
    ensures
        opt_text(r) == opt_text(*s),
{
    match s {
        Some(s) => Some(s.clone()),
        None => None,
    }
}

impl View for QueryRecord {
    type V = QueryV;

    open spec fn view(&self) -> QueryV {
        QueryV {
            ts: self.ts,
            client: self.client,
            qname: self.qname@,
            qtype: self.qtype,
            verdict: self.verdict,
            rule: opt_text(self.rule),
            list: self.list,
            source: self.source,
            rcode: self.rcode,
            duration_us: self.duration_us,
        }
    }
}

impl Clone for QueryRecord {
    fn clone(&self) -> (r: QueryRecord)
        ensures
            r@ == self@,
    {
        QueryRecord {
            ts: self.ts,
            client: self.client,
            qname: self.qname.clone(),
            qtype: self.qtype,
            verdict: self.verdict,
            rule: copy_opt(&self.rule),
            list: self.list,
            source: self.source,
            rcode: self.rcode,
            duration_us: self.duration_us,
        }
    }
}

/// The values of a `queries` row.
#[derive(Debug)]
pub struct QueryRow {
    pub ts: i64,
    pub client: String,
    pub qname: String,
    pub qtype: i64,
    pub verdict: String,
    pub rule: Option<String>,
    pub list: Option<i64>,
    pub source: String,
    pub rcode: i64,
    pub duration_us: i64,
}

/// Model of [`QueryRow`].
#[verifier::ext_equal]
pub struct RowV {
    pub ts: i64,
    pub client: Seq<char>,
    pub qname: Seq<char>,
    pub qtype: i64,
    pub verdict: Seq<char>,
    pub rule: Option<Seq<char>>,
    pub list: Option<i64>,
    pub source: Seq<char>,
    pub rcode: i64,
    pub duration_us: i64,
}

impl View for QueryRow {
    type V = RowV;

    open spec fn view(&self) -> RowV {
        RowV {
            ts: self.ts,
            client: self.client@,
            qname: self.qname@,
            qtype: self.qtype,
            verdict: self.verdict@,
            rule: opt_text(self.rule),
            list: self.list,
            source: self.source@,
            rcode: self.rcode,
            duration_us: self.duration_us,
        }
    }
}

/// A list index as it is stored.
pub open spec fn stored_list(l: Option<usize>) -> Option<i64> {
    match l {
        Some(l) => Some(
            if l <= i64::MAX {
                l as i64
            } else {
                i64::MAX
            },
        ),
        None => None,
    }
}

/// A stored list index.
pub open spec fn list_from(l: Option<i64>) -> Option<usize> {
    match l {
        Some(l) => Some(
            if 0 <= l <= usize::MAX {
                l as usize
            } else {
                usize::MAX
            },
        ),
        None => None,
    }
}

/// The row a record is stored as, the client as text.
pub open spec fn row_of(q: QueryV) -> RowV {
    RowV {
        ts: q.ts,
        client: ip_text(q.client),
        qname: q.qname,
        qtype: q.qtype as i64,
        verdict: q.verdict.text(),
        rule: q.rule,
        list: stored_list(q.list),
        source: q.source.text(),
        rcode: q.rcode as i64,
        duration_us: q.duration_us as i64,
    }
}

/// The row a record is stored as.
pub fn query_row(q: &QueryRecord) -> (r: QueryRow)
    ensures
        r@ == row_of(q@),
{
    QueryRow {
        ts: q.ts,
        client: show_ip(q.client),
        qname: q.qname.clone(),
        qtype: q.qtype as i64,
        verdict: q.verdict.as_str().to_string(),
        rule: copy_opt(&q.rule),
        list: match q.list {
            Some(l) => Some(
                if l as u128 <= i64::MAX as u128 {
                    l as i64
                } else {
                    i64::MAX
                },
            ),
            None => None,
        },
        source: q.source.as_str().to_string(),
        rcode: q.rcode as i64,
        duration_us: q.duration_us as i64,
    }
}

/// Which value of a row does not fit, looked for in this order.
pub open spec fn row_error(r: RowV, e: RowError) -> bool {
    if literal(r.client) is None {
        e is Client && e->Client_0@ == r.client
    } else if !(0 <= r.qtype <= u16::MAX) {
        e is Qtype && e->Qtype_0 == r.qtype
    } else if VerdictKind::named(r.verdict) is None {
        e is Verdict && e->Verdict_0@ == r.verdict
    } else if ResponseSource::named(r.source) is None {
        e is Source && e->Source_0@ == r.source
    } else if !(0 <= r.rcode <= u16::MAX) {
        e is Rcode && e->Rcode_0 == r.rcode
    } else {
        !(0 <= r.duration_us <= u32::MAX) && e is Duration && e->Duration_0 == r.duration_us
    }
}

/// The record a row stands for.
pub open spec fn record_from(r: RowV) -> Option<QueryV> {
    match (literal(r.client), VerdictKind::named(r.verdict), ResponseSource::named(r.source)) {
        (Some(client), Some(verdict), Some(source)) => if 0 <= r.qtype <= u16::MAX && 0 <= r.rcode
            <= u16::MAX && 0 <= r.duration_us <= u32::MAX {
            Some(
                QueryV {
                    ts: r.ts,
                    client,
                    qname: r.qname,
                    qtype: r.qtype as u16,
                    verdict,
                    rule: r.rule,
                    list: list_from(r.list),
                    source,
                    rcode: r.rcode as u16,
                    duration_us: r.duration_us as u32,
                },
            )
        } else {
            None
        },
        _ => None,
    }
}

/// Turn a stored row back into a record.
pub fn row_to_query_record(row: QueryRow) -> (r: Result<QueryRecord, RowError>)
    ensures
        match r {
            Ok(q) => record_from(row@) == Some(q@),
            Err(e) => record_from(row@) is None && row_error(row@, e),
        },
{
    let text = chars_of(row.client.as_str());
    let client = match parse_ip(text.as_slice()) {
        Some(ip) => ip,
        None => {
            return Err(RowError::Client(row.client));
        },
    };
    if row.qtype < 0 || row.qtype > 65535 {
        return Err(RowError::Qtype(row.qtype));
    }
    let verdict = match VerdictKind::from_db(row.verdict.as_str()) {
        Ok(v) => v,
        Err(e) => {
            return Err(e);
        },
    };
    let list: Option<usize> = match row.list {
        Some(l) => Some(
            if l >= 0 && l as u128 <= usize::MAX as u128 {
                l as usize
            } else {
                usize::MAX
            },
        ),
        None => None,
    };
    let source = match ResponseSource::from_db(row.source.as_str()) {
        Ok(v) => v,
        Err(e) => {
            return Err(e);
        },
    };
    if row.rcode < 0 || row.rcode > 65535 {
        return Err(RowError::Rcode(row.rcode));
    }
    if row.duration_us < 0 || row.duration_us > 4_294_967_295 {
        return Err(RowError::Duration(row.duration_us));
    }
    Ok(
        QueryRecord {
            ts: row.ts,
            client,
            qname: row.qname,
            qtype: row.qtype as u16,
            verdict,
            rule: row.rule,
            list,
            source,
            rcode: row.rcode as u16,
            duration_us: row.duration_us as u32,
        },
    )
}

/// What the log stores is read back unchanged. (A list index past what the
/// database can hold is stored as the largest number it can.)
pub proof fn law_query_row_roundtrip(q: QueryV)
    requires
        q.list is Some ==> q.list->0 <= i64::MAX,
    ensures
        record_from(row_of(q)) == Some(q),
{
    law_verdict_text_roundtrip(q.verdict);
    law_source_text_roundtrip(q.source);
    law_ip_roundtrip(q.client);
    assert(record_from(row_of(q))->0 =~= q);
}

/// Events the writer accepts.
#[derive(Debug)]
pub enum LogEvent {
    Query(QueryRecord),
    /// A shadow-mode divergence. `class` tells expected ones from others.
    Divergence(DivergenceRow),
}

/// One shadow-mode divergence.
#[derive(Debug, PartialEq, Eq)]
pub struct DivergenceRow {
    pub ts: i64,
    pub qname: String,
    pub qtype: u16,
    pub ours: String,
    pub theirs: String,
    pub class: String,
}

/// A message to the writer: an event, or somebody who waits for everything
/// before to be on disk.
#[derive(Debug)]
pub enum Msg {
    Event(LogEvent),
    Flush(u64),
}

/// The events of a batch, in order.
pub open spec fn batch_events(batch: Seq<Msg>) -> Seq<LogEvent>
    decreases batch.len(),
{
    if batch.len() == 0 {
        seq![]
    } else {
        match batch.last() {
            Msg::Event(e) => batch_events(batch.drop_last()).push(e),
            Msg::Flush(_) => batch_events(batch.drop_last()),
        }
    }
}

/// Those who wait, in order.
pub open spec fn batch_waiters(batch: Seq<Msg>) -> Seq<u64>
    decreases batch.len(),
{
    if batch.len() == 0 {
        seq![]
    } else {
        match batch.last() {
            Msg::Event(_) => batch_waiters(batch.drop_last()),
            Msg::Flush(w) => batch_waiters(batch.drop_last()).push(w),
        }
    }
}

/// Tell what to store from who waits for it.
pub fn split_batch(batch: Vec<Msg>) -> (r: (Vec<LogEvent>, Vec<u64>))
    ensures
        r.0@ == batch_events(batch@),
        r.1@ == batch_waiters(batch@),
{
    let mut events: Vec<LogEvent> = Vec::new();
    let mut waiters: Vec<u64> = Vec::new();
    let ghost all = batch@;
    assert(all.take(0) == Seq::<Msg>::empty());
    for m in it: batch
        invariant
            it.seq() == all,
            events@ == batch_events(all.take(it.index() as int)),
            waiters@ == batch_waiters(all.take(it.index() as int)),
    {
        proof {
            let next = all.take(it.index() + 1);
            assert(next.drop_last() == all.take(it.index() as int));
            assert(next.last() == m);
        }
        match m {
            Msg::Event(e) => {
                events.push(e);
            },
            Msg::Flush(w) => {
                waiters.push(w);
            },
        }
    }
    assert(all.take(all.len() as int) == all);
    (events, waiters)
}

/// No message is lost between events and waiters.
pub proof fn law_batch_complete(batch: Seq<Msg>)
    ensures
        batch_events(batch).len() + batch_waiters(batch).len() == batch.len(),
    decreases batch.len(),
{
    if batch.len() > 0 {
        law_batch_complete(batch.drop_last());
    }
}

/// Whether the writer takes another message into the batch.
pub fn batch_has_room(len: usize) -> (r: bool)
    ensures
        r == (len < BATCH_SIZE),
{
    len < BATCH_SIZE
}

/// Daemon heartbeat.
#[derive(Debug, PartialEq, Eq)]
pub struct Heartbeat {
    pub pid: u32,
    /// Unix seconds.
    pub started_ts: i64,
    pub updated_ts: i64,
    pub config_hash: String,
    pub lists_hash: String,
}

/// Runtime counters the daemon publishes.
#[derive(Debug, PartialEq, Eq)]
pub struct DaemonStats {
    /// Unix seconds.
    pub updated_ts: i64,
    /// Events dropped since the daemon started.
    pub log_events_dropped: u64,
    /// Events dropped since the previous sample.
    pub log_events_dropped_recent: u64,
    /// Per-upstream health, serialized.
    pub upstreams_json: String,
}

/// Aggregates over a time window.
#[derive(Debug, PartialEq, Eq)]
pub struct Stats {
    pub total: u64,
    pub blocked: u64,
    pub excepted: u64,
    pub cache_hits: u64,
    pub upstream_failures: u64,
    /// (qname, count), most-queried first.
    pub top_queried: Vec<(String, u64)>,
    /// (qname, count), most-blocked first.
    pub top_blocked: Vec<(String, u64)>,
}

/// A stored count; a negative one is none.
pub fn count_from(n: i64) -> (r: u64)
    ensures
        r == if n >= 0 {
            n as int
        } else {
            0
        },
{
    if n >= 0 {
        n as u64
    } else {
        0
    }
}

/// A stored process id; 0 where it is none.
pub fn pid_from(n: i64) -> (r: u32)
    ensures
        r == if 0 <= n <= u32::MAX {
            n as int
        } else {
            0
        },
{
    if n >= 0 && n <= 4_294_967_295 {
        n as u32
    } else {
        0
    }
}

/// A stored query type; 0 where it is none.
pub fn qtype_from(n: i64) -> (r: u16)
    ensures
        r == if 0 <= n <= u16::MAX {
            n as int
        } else {
            0
        },
{
    if n >= 0 && n <= 65535 {
        n as u16
    } else {
        0
    }
}

/// A counter as the signed number with the same bits.
pub open spec fn signed(n: u64) -> i64 {
    if n <= i64::MAX {
        n as i64
    } else {
        (n - 0x1_0000_0000_0000_0000) as i64
    }
}

/// The counter a signed number stands for.
pub open spec fn unsigned(n: i64) -> u64 {
    if n >= 0 {
        n as u64
    } else {
        (n + 0x1_0000_0000_0000_0000) as u64
    }
}

pub fn counter_to_db(n: u64) -> (r: i64)
    ensures
        r == signed(n),
{
    if n <= 0x7fff_ffff_ffff_ffff {
        n as i64
    } else {
        -((0xffff_ffff_ffff_ffff - n) as i64) - 1
    }
}

pub fn counter_from_db(n: i64) -> (r: u64)
    ensures
        r == unsigned(n),
{
    if n >= 0 {
        n as u64
    } else {
        0xffff_ffff_ffff_ffff - (-(n + 1)) as u64
    }
}

/// A counter survives storage.
pub proof fn law_counter_roundtrip(n: u64)
    ensures
        unsigned(signed(n)) == n,
{
}

/// What opening a database does about its schema version.
#[derive(Debug, Clone, Copy, PartialEq, Eq, Structural)]
pub enum SchemaPlan {
    /// No version is stored: store the current one.
    Stamp,
    /// An older version: upgrade from it, then store the current one.
    Upgrade { from: u32 },
    /// The current version.
    Keep,
    /// Written by a newer version: refuse.
    TooNew { found: u32 },
}

/// The version a stored text stands for; 0 where it is no number.
pub open spec fn stored_version(s: Seq<char>) -> u32 {
    match number(s, u32::MAX as u64) {
        Some(v) => v as u32,
        None => 0,
    }
}

/// What to do about the schema version found.
pub open spec fn schema_plan(existing: Option<Seq<char>>) -> SchemaPlan {
    match existing {
        None => SchemaPlan::Stamp,
        Some(s) => if stored_version(s) > SCHEMA_VERSION {
            SchemaPlan::TooNew { found: stored_version(s) }
        } else if stored_version(s) < SCHEMA_VERSION {
            SchemaPlan::Upgrade { from: stored_version(s) }
        } else {
            SchemaPlan::Keep
        },
    }
}

/// Decide what to do about the schema version found.
pub fn ensure_schema_version(existing: Option<&str>) -> (r: SchemaPlan)
    ensures
        r == schema_plan(
            match existing {
                Some(s) => Some(s@),
                None => None,
            },
        ),
        match existing {
            None => r == SchemaPlan::Stamp,
            Some(s) => {
                let found = stored_version(s@);
                if found > SCHEMA_VERSION {
                    r == (SchemaPlan::TooNew { found })
                } else if found < SCHEMA_VERSION {
                    r == (SchemaPlan::Upgrade { from: found })
                } else {
                    r == SchemaPlan::Keep
                }
            },
        },
{
    match existing {
        None => SchemaPlan::Stamp,
        Some(s) => {
            let digits = chars_of(s);
            let found: u32 = match parse_number(digits.as_slice(), 4_294_967_295) {
                Some(v) => v as u32,
                None => 0,
            };
            if found > SCHEMA_VERSION {
                SchemaPlan::TooNew { found }
            } else if found < SCHEMA_VERSION {
                SchemaPlan::Upgrade { from: found }
            } else {
                SchemaPlan::Keep
            }
        },
    }
}

pub open spec fn has_column(columns: Seq<String>, name: Seq<char>) -> bool {
    exists|i: int| 0 <= i < columns.len() && (#[trigger] columns[i])@ == name
}

/// Whether upgrading from a version must add the per-sample drop count to
/// `daemon_stats`, whose columns are given. Upgrading twice adds it once.
pub fn migrate_schema(from: u32, columns: &Vec<String>) -> (r: bool)
    ensures
        r == (from < 2 && !has_column(columns@, "log_events_dropped_recent"@)),
{
    if from >= 2 {
        return false;
    }
    let n: usize = columns.len();
    for i in 0..n
        invariant
            n == columns@.len(),
            forall|j: int|
                0 <= j < i ==> (#[trigger] columns@[j])@ != "log_events_dropped_recent"@,
    {
        if str_eq(columns[i].as_str(), "log_events_dropped_recent") {
            return false;
        }
    }
    true
}

/// Rows with an earlier time are past retention.
pub fn retention_cutoff(now_ts: i64) -> (r: i64)
    requires
        now_ts >= i64::MIN + LOG_RETENTION_SECS,
    ensures
        r == now_ts - LOG_RETENTION_SECS,
{
    now_ts - LOG_RETENTION_SECS
}

/// The schema version a text of decimal digits stands for is its number.
pub proof fn law_version_text(v: u32)
    ensures
        stored_version(crate::text::decimal(v as nat)) == v,
{
    let t = crate::text::decimal(v as nat);
    lemma_decimal(v as nat);
    assert(t[0] != '+') by {
        assert(is_digit(t[0]));
    }
}

/// Each value of a record is stored in the column of its name: numbers as they
/// are, the client as text, verdict and source as their words.
pub proof fn law_row_columns(q: QueryV)
    ensures
        ({
            let r = row_of(q);
            &&& r.ts == q.ts
            &&& literal(r.client) == Some(q.client)
            &&& r.qname == q.qname
            &&& r.qtype == q.qtype
            &&& r.verdict == match q.verdict {
                VerdictKind::Allowed => "allowed"@,
                VerdictKind::Blocked => "blocked"@,
                VerdictKind::Excepted => "excepted"@,
            }
            &&& r.rule == q.rule
            &&& q.list is Some == r.list is Some
            &&& q.list is Some && q.list->0 <= i64::MAX ==> r.list->0 == q.list->0
            &&& r.source == match q.source {
                ResponseSource::Synth => "synth"@,
                ResponseSource::Cache => "cache"@,
                ResponseSource::Stale => "stale"@,
                ResponseSource::Upstream => "upstream"@,
                ResponseSource::Failed => "failed"@,
            }
            &&& r.rcode == q.rcode
            &&& r.duration_us == q.duration_us
        }),
{
    law_ip_roundtrip(q.client);
}

/// A stored word for what the filter decided.
pub open spec fn verdict_word(s: Seq<char>) -> bool {
    s == "allowed"@ || s == "blocked"@ || s == "excepted"@
}

/// A stored word for where an answer came from.
pub open spec fn source_word(s: Seq<char>) -> bool {
    s == "synth"@ || s == "cache"@ || s == "stale"@ || s == "upstream"@ || s == "failed"@
}

/// A row makes a record exactly where its client is an address, its words are
/// known and its numbers are in range; and the record has the row's values.
pub proof fn law_record_values(r: RowV)
    ensures
        record_from(r) is Some == (literal(r.client) is Some && verdict_word(r.verdict)
            && source_word(r.source) && 0 <= r.qtype < 0x1_0000 && 0 <= r.rcode < 0x1_0000 && 0
            <= r.duration_us < 0x1_0000_0000),
        record_from(r) matches Some(q) ==> {
            &&& q.ts == r.ts
            &&& Some(q.client) == literal(r.client)
            &&& q.qname == r.qname
            &&& q.qtype == r.qtype
            &&& q.verdict.text() == r.verdict
            &&& q.rule == r.rule
            &&& q.list is Some == r.list is Some
            &&& r.list is Some && 0 <= r.list->0 <= usize::MAX ==> q.list->0 == r.list->0
            &&& r.list is Some && !(0 <= r.list->0 <= usize::MAX) ==> q.list->0 == usize::MAX
            &&& q.source.text() == r.source
            &&& q.rcode == r.rcode
            &&& q.duration_us == r.duration_us
        },
{
}

/// Events and waiters keep their order, and none of them is lost or moved by
/// the other.
pub proof fn law_batch_order(a: Seq<Msg>, m: Msg, b: Seq<Msg>)
    ensures
        m matches Msg::Event(e) ==> batch_events(a.push(m) + b) == batch_events(a).push(e)
            + batch_events(b) && batch_waiters(a.push(m) + b) == batch_waiters(a) + batch_waiters(
            b,
        ),
        m matches Msg::Flush(w) ==> batch_events(a.push(m) + b) == batch_events(a) + batch_events(b)
            && batch_waiters(a.push(m) + b) == batch_waiters(a).push(w) + batch_waiters(b),
    decreases b.len(),
{
    let s = a.push(m) + b;
    if b.len() == 0 {
        assert(s =~= a.push(m));
        assert(a.push(m).drop_last() =~= a);
    } else {
        assert(s.drop_last() =~= a.push(m) + b.drop_last());
        assert(s.last() == b.last());
        law_batch_order(a, m, b.drop_last());
    }
}

/// A counter is stored as the number with the same 64 bits.
pub proof fn law_counter_bits(n: u64)
    ensures
        n < 0x8000_0000_0000_0000 ==> signed(n) == n,
        n >= 0x8000_0000_0000_0000 ==> signed(n) + 0x1_0000_0000_0000_0000 == n,
{
}

/// The model of a log record loses nothing of it, and neither does that of a
/// row.
pub proof fn law_models_faithful(a: QueryRecord, b: QueryRecord, x: QueryRow, y: QueryRow)
    ensures
        a@ == b@ ==> a.ts == b.ts && a.client == b.client && a.qname@ == b.qname@ && a.qtype
            == b.qtype && a.verdict == b.verdict && opt_text(a.rule) == opt_text(b.rule) && a.list
            == b.list && a.source == b.source && a.rcode == b.rcode && a.duration_us
            == b.duration_us,
        x@ == y@ ==> x.ts == y.ts && x.client@ == y.client@ && x.qname@ == y.qname@ && x.qtype
            == y.qtype && x.verdict@ == y.verdict@ && opt_text(x.rule) == opt_text(y.rule) && x.list
            == y.list && x.source@ == y.source@ && x.rcode == y.rcode && x.duration_us
            == y.duration_us,
{
}

/// The value that a row is refused for is the first that does not fit: the
/// client, the type, the verdict, the source, the response code, the duration.
pub proof fn law_row_refused(r: RowV, e: RowError)
    requires
        record_from(r) is None,
        row_error(r, e),
    ensures
        ({
            let client = literal(r.client) is Some;
            let qtype = 0 <= r.qtype < 0x1_0000;
            let verdict = verdict_word(r.verdict);
            let source = source_word(r.source);
            let rcode = 0 <= r.rcode < 0x1_0000;
            match e {
                RowError::Client(s) => !client && s@ == r.client,
                RowError::Qtype(n) => client && !qtype && n == r.qtype,
                RowError::Verdict(s) => client && qtype && !verdict && s@ == r.verdict,
                RowError::Source(s) => client && qtype && verdict && !source && s@ == r.source,
                RowError::Rcode(n) => client && qtype && verdict && source && !rcode && n
                    == r.rcode,
                RowError::Duration(n) => client && qtype && verdict && source && rcode && n
                    == r.duration_us,
            }
        }),
{
}

/// Errors in words.
pub proof fn law_error_words(path: String, reason: String, found: u32, supported: u32)
    ensures
        (DbError::Open { path, reason }).words() == "cannot open database "@ + path@ + ": "@
            + reason@,
        DbError::Sql(reason).words() == "sql: "@ + reason@,
        (DbError::SchemaTooNew { found, supported }).words() == "database schema v"@ + decimal(
            found as nat,
        ) + " is newer than supported v"@ + decimal(supported as nat),
{
}

/// A database without a version gets the current one, which is 2; an older one
/// is upgraded, a newer one refused, and one of this version kept.
pub proof fn law_schema_plan(v: u32)
    ensures
        schema_plan(None) == SchemaPlan::Stamp,
        v < 2 ==> schema_plan(Some(decimal(v as nat))) == (SchemaPlan::Upgrade { from: v }),
        v == 2 ==> schema_plan(Some(decimal(v as nat))) == SchemaPlan::Keep,
        v > 2 ==> schema_plan(Some(decimal(v as nat))) == (SchemaPlan::TooNew { found: v }),
{
    law_version_text(v);
}

/// What a batch, a purge and an upgrade go by, whatever a call returns: a batch
/// is full at 256 events, rows go after seven days, and the drop count is added
/// exactly to tables of the first version that lack it.
pub proof fn law_upkeep(
    len: usize,
    room: bool,
    now: i64,
    cutoff: i64,
    from: u32,
    columns: &Vec<String>,
    adds: bool,
)
    requires
        call_ensures(batch_has_room, (len,), room),
        call_ensures(retention_cutoff, (now,), cutoff),
        call_ensures(migrate_schema, (from, columns), adds),
    ensures
        room == (len <= 255),
        now - cutoff == 7 * 24 * 60 * 60,
        adds == (from <= 1 && !texts(columns@).contains("log_events_dropped_recent"@)),
{
    let names = texts(columns@);
    let name = "log_events_dropped_recent"@;
    if names.contains(name) {
        let i = choose|i: int| 0 <= i < names.len() && names[i] == name;
        assert(columns@[i]@ == name);
    }
    if has_column(columns@, name) {
        let i = choose|i: int| 0 <= i < columns@.len() && (#[trigger] columns@[i])@ == name;
        assert(names[i] == name);
    }
}

/// A number out of a table is itself where its type holds it, and else 0.
pub proof fn law_numbers_read(n: i64, count: u64, pid: u32, qtype: u16)
    requires
        call_ensures(count_from, (n,), count),
        call_ensures(pid_from, (n,), pid),
        call_ensures(qtype_from, (n,), qtype),
    ensures
        count == n || (n < 0 && count == 0),
        pid == n || (pid == 0 && (n < 0 || n > 4_294_967_295)),
        qtype == n || (qtype == 0 && (n < 0 || n > 65_535)),
{
}

} // verus!
