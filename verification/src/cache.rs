//! DNS response cache with LRU eviction.
//!
//! # Size bounds
//!
//! The cache is bounded twice: by entry count and by estimated bytes. The
//! estimate is the wire size times a slop factor plus a fixed overhead per
//! entry; whenever the estimated total exceeds the budget, the least recently
//! used entries are evicted, but never the last one.
//!
//! # Time to live
//!
//! An entry is fresh for the shortest time to live among its answer and
//! authority records, at least [`MIN_TTL_SECS`]. After that it is stale for
//! [`STALE_WINDOW_SECS`], and then gone.
//!
//! - A fresh hit hands out each record with the time that passed taken off its
//!   time to live, down to 1.
//! - A stale hit hands out every record with [`STALE_TTL_SECS`].
//! - A lookup past the stale window removes the entry.
//!
//! Only `NOERROR` and `NXDOMAIN` responses are cached.
//!
//! Times are nanoseconds on a monotonic clock.
pub mod laws;

use vstd::hash_map::StringHashMap;
use vstd::prelude::*;

use crate::lru::Recency;
use crate::message::{copy_records, records_of, Message, MessageType, MessageV, Metadata, Record};
use crate::message::{RecordV, NO_ERROR, NX_DOMAIN, OP_QUERY};
use crate::text::{chars_of, lower, lowered, string_of};
use crate::wire::{encode, encoded};

verus! {

/// An entry stays fresh at least this long.
pub const MIN_TTL_SECS: u64 = 300;

/// How long a stale entry remains servable.
pub const STALE_WINDOW_SECS: u64 = 1800;

/// Time to live of every record in a stale response.
pub const STALE_TTL_SECS: u32 = 30;

/// Default budget for the estimated size of all entries.
pub const DEFAULT_MAX_BYTES: usize = 67_108_864;

/// Estimated bytes per wire byte.
pub const BYTES_SLOP_FACTOR: usize = 2;

/// Estimated bytes per entry on top of that.
pub const ENTRY_OVERHEAD_BYTES: usize = 512;

/// Wire size assumed of a message that cannot be serialized.
pub const FALLBACK_WIRE_BYTES: usize = 4096;

/// The longest wire form of a message.
pub const MAX_WIRE_BYTES: usize = 65535;

/// What an entry with the longest message is taken to occupy.
pub const MAX_ENTRY_BYTES: usize = 131_582;

pub const NANOS_PER_SEC: u64 = 1_000_000_000;

/// Cache lookup key: query name, record type, class. Names compare without
/// regard to case.
#[derive(Debug)]
pub struct CacheKey {
    name: String,
    rtype: u16,
    class: u16,
}

/// Model of [`CacheKey`]; the name is lowercase.
#[verifier::ext_equal]
pub struct KeyV {
    pub name: Seq<char>,
    pub rtype: u16,
    pub class: u16,
}

impl View for CacheKey {
    type V = KeyV;

    closed spec fn view(&self) -> KeyV {
        KeyV { name: lower(self.name@), rtype: self.rtype, class: self.class }
    }
}

impl CacheKey {
    /// Build a cache key.
    #[must_use]
    pub fn new(name: String, rtype: u16, class: u16) -> (r: CacheKey)
        ensures
            r@ == (KeyV { name: lower(name@), rtype, class }),
    {
        CacheKey { name, rtype, class }
    }

    /// The key as one text, different for different keys.
    pub fn text(&self) -> (r: String)
        ensures
            r@ == key_text(self@),
    {
        let cs = chars_of(self.name.as_str());
        let mut t: Vec<char> = lowered(cs.as_slice());
        t.push((self.rtype >> 8) as u8 as char);
        t.push((self.rtype & 0xff) as u8 as char);
        t.push((self.class >> 8) as u8 as char);
        t.push((self.class & 0xff) as u8 as char);
        assert(t@ == key_text(self@));
        string_of(t.as_slice())
    }
}

impl Clone for CacheKey {
    fn clone(&self) -> (r: CacheKey)
        ensures
            r@ == self@,
    {
        CacheKey { name: self.name.clone(), rtype: self.rtype, class: self.class }
    }
}

/// The name followed by the bytes of type and class.
pub open spec fn key_text(k: KeyV) -> Seq<char> {
    k.name + seq![
        (k.rtype >> 8) as u8 as char,
        (k.rtype & 0xff) as u8 as char,
        (k.class >> 8) as u8 as char,
        (k.class & 0xff) as u8 as char,
    ]
}

proof fn lemma_halves(a: u16, b: u16)
    by (bit_vector)
    requires
        (a >> 8) as u8 == (b >> 8) as u8,
        (a & 0xff) as u8 == (b & 0xff) as u8,
    ensures
        a == b,
{
}

/// Different keys have different texts.
pub proof fn law_key_text_injective(a: KeyV, b: KeyV)
    requires
        key_text(a) == key_text(b),
    ensures
        a == b,
{
    let x = key_text(a);
    let y = key_text(b);
    let n = a.name.len() as int;
    assert(x.len() == a.name.len() + 4);
    assert(y.len() == b.name.len() + 4);
    assert(x[n] == y[n] && x[n + 1] == y[n + 1] && x[n + 2] == y[n + 2] && x[n + 3] == y[n + 3]);
    assert(x[n] as u8 == (a.rtype >> 8) as u8 && y[n] as u8 == (b.rtype >> 8) as u8);
    assert(x[n + 1] as u8 == (a.rtype & 0xff) as u8 && y[n + 1] as u8 == (b.rtype & 0xff) as u8);
    assert(x[n + 2] as u8 == (a.class >> 8) as u8 && y[n + 2] as u8 == (b.class >> 8) as u8);
    assert(x[n + 3] as u8 == (a.class & 0xff) as u8 && y[n + 3] as u8 == (b.class & 0xff) as u8);
    lemma_halves(a.rtype, b.rtype);
    lemma_halves(a.class, b.class);
    assert(x.take(n) == a.name);
    assert(y.take(n) == b.name);
}

/// Result of a cache lookup.
#[derive(Debug)]
pub enum Lookup {
    /// The entry is within its effective time to live.
    Fresh(Message),
    /// The entry is past it but within the stale window.
    Stale(Message),
    /// No usable entry.
    Miss,
}

/// Model of [`Lookup`].
#[verifier::ext_equal]
pub enum LookupV {
    Fresh(MessageV),
    Stale(MessageV),
    Miss,
}

impl View for Lookup {
    type V = LookupV;

    open spec fn view(&self) -> LookupV {
        match self {
            Lookup::Fresh(m) => LookupV::Fresh(m@),
            Lookup::Stale(m) => LookupV::Stale(m@),
            Lookup::Miss => LookupV::Miss,
        }
    }
}

/// What is stored per key.
struct Entry {
    key: CacheKey,
    answers: Vec<Record>,
    authorities: Vec<Record>,
    response_code: u16,
    effective_ttl_secs: u64,
    inserted_at: u64,
    bytes: usize,
}

/// Model of a cache entry.
#[verifier::ext_equal]
pub struct EntryV {
    pub key: KeyV,
    pub answers: Seq<RecordV>,
    pub authorities: Seq<RecordV>,
    pub response_code: u16,
    pub effective_ttl_secs: u64,
    pub inserted_at: u64,
    pub bytes: nat,
}

impl View for Entry {
    type V = EntryV;

    closed spec fn view(&self) -> EntryV {
        EntryV {
            key: self.key@,
            answers: records_of(self.answers@),
            authorities: records_of(self.authorities@),
            response_code: self.response_code,
            effective_ttl_secs: self.effective_ttl_secs,
            inserted_at: self.inserted_at,
            bytes: self.bytes as nat,
        }
    }
}

/// Model of [`Cache`]: entries in order of use, the most recently used first.
#[verifier::ext_equal]
pub struct CacheV {
    pub entries: Seq<EntryV>,
    pub capacity: nat,
    pub max_bytes: nat,
}

/// The shortest time to live among the records.
pub open spec fn shortest_ttl(s: Seq<RecordV>) -> Option<u32>
    decreases s.len(),
{
    if s.len() == 0 {
        None
    } else {
        match shortest_ttl(s.drop_last()) {
            Some(t) if t <= s.last().ttl => Some(t),
            _ => Some(s.last().ttl),
        }
    }
}

/// How long a response stays fresh.
pub open spec fn effective_ttl(m: MessageV) -> u64 {
    match shortest_ttl(m.answers + m.authorities) {
        Some(t) if t > MIN_TTL_SECS => t as u64,
        _ => MIN_TTL_SECS,
    }
}

/// Estimated size of an entry whose message takes `wire` bytes, if it could be
/// serialized.
pub open spec fn estimated_bytes(wire: Option<nat>) -> nat {
    match wire {
        Some(n) => n * BYTES_SLOP_FACTOR as nat + ENTRY_OVERHEAD_BYTES as nat,
        None => FALLBACK_WIRE_BYTES as nat * BYTES_SLOP_FACTOR as nat + ENTRY_OVERHEAD_BYTES as nat,
    }
}

/// Whether responses with this code are cached.
pub open spec fn cacheable(response_code: u16) -> bool {
    response_code == NO_ERROR || response_code == NX_DOMAIN
}

/// The entry a response becomes.
pub open spec fn entry_for(key: KeyV, m: MessageV, wire: Option<nat>, now: u64) -> EntryV {
    EntryV {
        key,
        answers: m.answers,
        authorities: m.authorities,
        response_code: m.metadata.response_code,
        effective_ttl_secs: effective_ttl(m),
        inserted_at: now,
        bytes: estimated_bytes(wire),
    }
}

/// Estimated size of all entries.
pub open spec fn total_bytes(s: Seq<EntryV>) -> nat
    decreases s.len(),
{
    if s.len() == 0 {
        0
    } else {
        s[0].bytes + total_bytes(s.drop_first())
    }
}

/// The entries left when the last ones are evicted until the budget holds or
/// one entry is left.
pub open spec fn within_budget(s: Seq<EntryV>, max_bytes: nat) -> Seq<EntryV>
    decreases s.len(),
{
    if total_bytes(s) > max_bytes && s.len() > 1 {
        within_budget(s.drop_last(), max_bytes)
    } else {
        s
    }
}

/// The entries under other keys.
pub open spec fn without_key(s: Seq<EntryV>, key: KeyV) -> Seq<EntryV> {
    s.filter(|e: EntryV| e.key != key)
}

pub open spec fn has_key(s: Seq<EntryV>, key: KeyV) -> bool {
    exists|i: int| 0 <= i < s.len() && (#[trigger] s[i]).key == key
}

/// The entry under a key.
pub open spec fn entry_under(s: Seq<EntryV>, key: KeyV) -> EntryV {
    s[choose|i: int| 0 <= i < s.len() && (#[trigger] s[i]).key == key]
}

/// The cache after an insertion.
pub open spec fn inserted(c: CacheV, e: EntryV) -> CacheV {
    let rest = if has_key(c.entries, e.key) {
        without_key(c.entries, e.key)
    } else if c.entries.len() >= c.capacity {
        c.entries.drop_last()
    } else {
        c.entries
    };
    CacheV { entries: within_budget(seq![e] + rest, c.max_bytes), ..c }
}

/// Whole seconds that passed.
pub open spec fn elapsed_secs(since: u64, now: u64) -> u64 {
    if now > since {
        ((now - since) / NANOS_PER_SEC as int) as u64
    } else {
        0
    }
}

/// Time to live after some seconds, at least 1.
pub open spec fn aged_ttl(ttl: u32, elapsed: u64) -> u32 {
    if elapsed >= ttl {
        1
    } else {
        (ttl - elapsed) as u32
    }
}

pub open spec fn aged(s: Seq<RecordV>, elapsed: u64) -> Seq<RecordV> {
    Seq::new(s.len(), |i: int| RecordV { ttl: aged_ttl(s[i].ttl, elapsed), ..s[i] })
}

pub open spec fn with_ttl(s: Seq<RecordV>, ttl: u32) -> Seq<RecordV> {
    Seq::new(s.len(), |i: int| RecordV { ttl, ..s[i] })
}

/// A response made of cached sections.
pub open spec fn cached_response(
    response_code: u16,
    answers: Seq<RecordV>,
    authorities: Seq<RecordV>,
) -> MessageV {
    MessageV {
        answers,
        authorities,
        ..MessageV::bare(
            Metadata {
                response_code,
                ..Metadata::fresh(0, MessageType::Response, OP_QUERY)
            },
        )
    }
}

/// Whether an entry is past its stale window.
pub open spec fn expired(e: EntryV, now: u64) -> bool {
    elapsed_secs(e.inserted_at, now) >= e.effective_ttl_secs + STALE_WINDOW_SECS
}

/// What a lookup that finds the entry returns.
pub open spec fn served(e: EntryV, now: u64) -> LookupV {
    let elapsed = elapsed_secs(e.inserted_at, now);
    if expired(e, now) {
        LookupV::Miss
    } else if elapsed < e.effective_ttl_secs {
        LookupV::Fresh(
            cached_response(e.response_code, aged(e.answers, elapsed), aged(e.authorities, elapsed)),
        )
    } else {
        LookupV::Stale(
            cached_response(
                e.response_code,
                with_ttl(e.answers, STALE_TTL_SECS),
                with_ttl(e.authorities, STALE_TTL_SECS),
            ),
        )
    }
}

/// What a lookup returns.
pub open spec fn looked_up(c: CacheV, key: KeyV, now: u64) -> LookupV {
    if has_key(c.entries, key) {
        served(entry_under(c.entries, key), now)
    } else {
        LookupV::Miss
    }
}

/// The cache after a lookup: a hit moves to the front, an expired entry goes.
pub open spec fn after_lookup(c: CacheV, key: KeyV, now: u64) -> CacheV {
    if has_key(c.entries, key) {
        let e = entry_under(c.entries, key);
        let rest = without_key(c.entries, key);
        CacheV {
            entries: if expired(e, now) {
                rest
            } else {
                seq![e] + rest
            },
            ..c
        }
    } else {
        c
    }
}

/// Every key at most once.
pub open spec fn keys_distinct(s: Seq<EntryV>) -> bool {
    forall|i: int, j: int|
        0 <= i < s.len() && 0 <= j < s.len() && i != j ==> (#[trigger] s[i]).key != (
        #[trigger] s[j]).key
}

/// What every operation keeps: each key at most once, no more entries than the
/// capacity, and the byte budget, which a single entry may exceed.
pub open spec fn bounded(c: CacheV) -> bool {
    &&& keys_distinct(c.entries)
    &&& c.capacity > 0
    &&& c.entries.len() <= c.capacity
    &&& c.entries.len() > 1 ==> total_bytes(c.entries) <= c.max_bytes
}

/// With distinct keys, taking out a key takes out one position.
pub(crate) proof fn lemma_without_key(s: Seq<EntryV>, p: int)
    requires
        keys_distinct(s),
        0 <= p < s.len(),
    ensures
        without_key(s, s[p].key) == s.remove(p),
        entry_under(s, s[p].key) == s[p],
        has_key(s, s[p].key),
    decreases s.len(),
{
    let key = s[p].key;
    let other = |e: EntryV| e.key != key;
    let t = s.drop_last();
    reveal(Seq::filter);
    assert(has_key(s, key)) by {
        assert(s[p].key == key);
    }
    assert(keys_distinct(t)) by {
        assert forall|i: int, j: int|
            0 <= i < t.len() && 0 <= j < t.len() && i != j implies (#[trigger] t[i]).key != (
        #[trigger] t[j]).key by {
            assert(t[i] == s[i] && t[j] == s[j]);
        }
    }
    if p == s.len() - 1 {
        lemma_without_absent(t, key);
        assert(s.remove(p) == t);
    } else {
        assert(t[p] == s[p]);
        lemma_without_key(t, p);
        assert(s.last().key != key) by {
            assert(s[s.len() - 1].key != s[p].key);
        }
        assert(t.remove(p).push(s.last()) == s.remove(p));
    }
}

/// Taking out a key that is not there changes nothing.
proof fn lemma_without_absent(s: Seq<EntryV>, key: KeyV)
    requires
        forall|i: int| 0 <= i < s.len() ==> (#[trigger] s[i]).key != key,
    ensures
        without_key(s, key) == s,
    decreases s.len(),
{
    reveal(Seq::filter);
    if s.len() > 0 {
        let t = s.drop_last();
        assert forall|i: int| 0 <= i < t.len() implies (#[trigger] t[i]).key != key by {
            assert(t[i] == s[i]);
        }
        lemma_without_absent(t, key);
        assert(s[s.len() - 1].key != key);
        assert(t.push(s.last()) == s);
    }
}

pub(crate) proof fn lemma_total_remove(s: Seq<EntryV>, p: int)
    requires
        0 <= p < s.len(),
    ensures
        total_bytes(s) == total_bytes(s.remove(p)) + s[p].bytes,
    decreases s.len(),
{
    if p == 0 {
        assert(s.remove(0) == s.drop_first());
    } else {
        lemma_total_remove(s.drop_first(), p - 1);
        assert(s.remove(p).drop_first() == s.drop_first().remove(p - 1));
    }
}

pub(crate) proof fn lemma_total_front(e: EntryV, s: Seq<EntryV>)
    ensures
        total_bytes(seq![e] + s) == e.bytes + total_bytes(s),
{
    assert((seq![e] + s).drop_first() == s);
}

proof fn lemma_total_bound(s: Seq<EntryV>)
    requires
        forall|i: int| 0 <= i < s.len() ==> (#[trigger] s[i]).bytes <= MAX_ENTRY_BYTES,
    ensures
        total_bytes(s) <= s.len() * MAX_ENTRY_BYTES,
    decreases s.len(),
{
    if s.len() > 0 {
        let t = s.drop_first();
        assert forall|i: int| 0 <= i < t.len() implies (#[trigger] t[i]).bytes <= MAX_ENTRY_BYTES by {
            assert(t[i] == s[i + 1]);
        }
        lemma_total_bound(t);
    }
}

/// The models of the entries in the given slots.
spec fn in_order(slots: Seq<Option<Entry>>, order: Seq<usize>) -> Seq<EntryV> {
    Seq::new(order.len(), |i: int| slots[order[i] as int]->0@)
}

/// DNS response cache with LRU eviction.
pub struct Cache {
    map: StringHashMap<usize>,
    slots: Vec<Option<Entry>>,
    recency: Recency,
    free: Vec<usize>,
    len: usize,
    capacity: usize,
    bytes_total: u128,
    max_bytes: usize,
}

impl View for Cache {
    type V = CacheV;

    closed spec fn view(&self) -> CacheV {
        CacheV {
            entries: in_order(self.slots@, self.recency.order()),
            capacity: self.capacity as nat,
            max_bytes: self.max_bytes as nat,
        }
    }
}

impl Cache {
    spec fn slots_ok(&self) -> bool {
        let order = self.recency.order();
        &&& self.recency.wf()
        &&& self.slots@.len() == self.recency.slots()
        &&& forall|i: int|
            0 <= i < order.len() ==> self.slots@[#[trigger] order[i] as int] is Some
                && self.slots@[order[i] as int]->0.bytes <= MAX_ENTRY_BYTES
        &&& self.free@.no_duplicates()
        &&& forall|i: int|
            0 <= i < self.free@.len() ==> (#[trigger] self.free@[i]) < self.slots@.len()
                && self.slots@[self.free@[i] as int] is None
    }

    spec fn map_ok(&self) -> bool {
        let order = self.recency.order();
        &&& forall|i: int|
            0 <= i < order.len() ==> self.map@.contains_key(
                key_text(self.slots@[#[trigger] order[i] as int]->0.key@),
            ) && self.map@[key_text(self.slots@[order[i] as int]->0.key@)] == order[i]
        &&& forall|t: Seq<char>| #[trigger]
            self.map@.contains_key(t) ==> order.contains(self.map@[t]) && key_text(
                self.slots@[self.map@[t] as int]->0.key@,
            ) == t
    }

    /// Every key once, no more entries than the capacity, and the byte total
    /// is the sum over the entries.
    spec fn held(&self) -> bool {
        &&& self.slots_ok()
        &&& self.map_ok()
        &&& self.len == self.recency.order().len()
        &&& self.bytes_total == total_bytes(self@.entries)
        &&& 0 < self.capacity
        &&& self.len <= self.capacity
        &&& 0 < self.max_bytes
    }

    /// Every key once, no more entries than the capacity, and the byte budget,
    /// which a single entry may exceed: see [`Cache::law_bounded`].
    pub closed spec fn wf(&self) -> bool {
        &&& self.held()
        &&& self@.entries.len() > 1 ==> total_bytes(self@.entries) <= self@.max_bytes
    }

    /// A well-formed cache keeps its bounds.
    pub proof fn law_bounded(&self)
        requires
            self.wf(),
        ensures
            bounded(self@),
            self@.max_bytes > 0,
    {
        self.lemma_distinct();
    }

    /// Keys are distinct because the map sends each to one slot.
    proof fn lemma_distinct(&self)
        requires
            self.slots_ok(),
            self.map_ok(),
        ensures
            keys_distinct(self@.entries),
    {
        let order = self.recency.order();
        let s = self@.entries;
        self.recency.lemma_order();
        assert forall|i: int, j: int|
            0 <= i < s.len() && 0 <= j < s.len() && i != j implies (#[trigger] s[i]).key != (
        #[trigger] s[j]).key by {
            assert(order[i] != order[j]);
            assert(s[i].key == self.slots@[order[i] as int]->0.key@);
            assert(s[j].key == self.slots@[order[j] as int]->0.key@);
        }
    }

    /// Create a cache that holds at most `capacity` entries.
    #[must_use]
    pub fn new(capacity: usize) -> (r: Cache)
        requires
            capacity > 0,
        ensures
            r.wf(),
            r@ == (CacheV {
                entries: seq![],
                capacity: capacity as nat,
                max_bytes: DEFAULT_MAX_BYTES as nat,
            }),
    {
        Cache::with_max_bytes(capacity, DEFAULT_MAX_BYTES)
    }

    /// Create a cache bounded by `capacity` entries and `max_bytes` of
    /// estimated entry memory, whichever is hit first.
    #[must_use]
    pub fn with_max_bytes(capacity: usize, max_bytes: usize) -> (r: Cache)
        requires
            capacity > 0,
            max_bytes > 0,
        ensures
            r.wf(),
            r@ == (CacheV {
                entries: seq![],
                capacity: capacity as nat,
                max_bytes: max_bytes as nat,
            }),
    {
        let r = Cache {
            map: StringHashMap::new(),
            slots: Vec::new(),
            recency: Recency::new(),
            free: Vec::new(),
            len: 0,
            capacity,
            bytes_total: 0,
            max_bytes,
        };
        assert(r@.entries == Seq::<EntryV>::empty());
        r
    }

    /// Take an entry out: of the order, the map and its slot.
    fn remove(&mut self, idx: usize)
        requires
            old(self).held(),
            old(self).recency.order().contains(idx),
        ensures
            final(self).held(),
            final(self)@ == (CacheV {
                entries: old(self)@.entries.remove(old(self).recency.order().index_of(idx)),
                ..old(self)@
            }),
            final(self).len == old(self).len - 1,
    {
        let ghost o = self.recency.order();
        let ghost p = o.index_of(idx);
        let ghost before = self@.entries;
        proof {
            self.recency.lemma_order();
            self.lemma_distinct();
            assert(o[p] == idx);
            lemma_total_remove(before, p);
            assert(before[p].bytes == self.slots@[idx as int]->0.bytes);
        }
        let mut taken: Option<Entry> = None;
        let ghost slots0 = self.slots@;
        self.slots.set_and_swap(idx, &mut taken);
        assert(self.slots@ == slots0.update(idx as int, None));
        assert(taken == slots0[idx as int]);
        self.recency.unlink(idx);
        self.free.push(idx);
        self.len = self.len - 1;
        let ghost n = self.recency.order();
        assert(n == o.remove(p));
        match taken {
            Some(e) => {
                let ghost key = e.key@;
                self.bytes_total = self.bytes_total - e.bytes as u128;
                let ghost m0 = self.map@;
                let text = e.key.text();
                self.map.remove(text.as_str());
                proof {
                    assert forall|i: int| 0 <= i < n.len() implies self.map@.contains_key(
                        key_text(self.slots@[#[trigger] n[i] as int]->0.key@),
                    ) && self.map@[key_text(self.slots@[n[i] as int]->0.key@)] == n[i] by {
                        let k = if i < p {
                            i
                        } else {
                            i + 1
                        };
                        assert(n[i] == o[k]);
                        assert(o[k] != o[p]);
                        assert(before[k].key != before[p].key);
                        if key_text(before[k].key) == key_text(key) {
                            law_key_text_injective(before[k].key, key);
                        }
                    }
                    assert forall|t: Seq<char>| #[trigger]
                        self.map@.contains_key(t) implies n.contains(self.map@[t]) && key_text(
                        self.slots@[self.map@[t] as int]->0.key@,
                    ) == t by {
                        assert(m0.contains_key(t));
                        let x = m0[t];
                        let k = choose|k: int| 0 <= k < o.len() && o[k] == x;
                        assert(k != p) by {
                            if k == p {
                                assert(key_text(slots0[x as int]->0.key@) == t);
                            }
                        }
                        let i = if k < p {
                            k
                        } else {
                            k - 1
                        };
                        assert(n[i] == x);
                    }
                }
            },
            None => {
                assert(false);
            },
        }
        proof {
            assert forall|i: int| 0 <= i < n.len() implies self.slots@[#[trigger] n[i] as int] is Some
                && self.slots@[n[i] as int]->0.bytes <= MAX_ENTRY_BYTES && n[i] != idx && self.slots@[n[i] as int] == slots0[n[i] as int] by {
                let k = if i < p {
                    i
                } else {
                    i + 1
                };
                assert(n[i] == o[k]);
                assert(o[k] != o[p]);
            }
            assert(self@.entries =~= before.remove(p)) by {
                assert forall|i: int| 0 <= i < n.len() implies self@.entries[i] == before.remove(
                    p,
                )[i] by {
                    let k = if i < p {
                        i
                    } else {
                        i + 1
                    };
                    assert(n[i] == o[k]);
                    assert(o[k] != o[p]);
                }
            }
            assert forall|i: int| 0 <= i < self.free@.len() implies (#[trigger] self.free@[i])
                < self.slots@.len() && self.slots@[self.free@[i] as int] is None by {
                if i < self.free@.len() - 1 {
                    assert(self.free@[i] == old(self).free@[i]);
                }
            }
            assert(self.free@.no_duplicates()) by {
                assert forall|i: int, j: int|
                    0 <= i < self.free@.len() && 0 <= j < self.free@.len() && i
                        != j implies self.free@[i] != self.free@[j] by {
                    if i < self.free@.len() - 1 {
                        assert(old(self).free@[i] == self.free@[i]);
                    }
                    if j < self.free@.len() - 1 {
                        assert(old(self).free@[j] == self.free@[j]);
                    }
                }
            }
        }
    }

    /// Evict the least recently used entry.
    fn evict_tail(&mut self)
        requires
            old(self).held(),
            old(self).len > 0,
        ensures
            final(self).held(),
            final(self)@ == (CacheV { entries: old(self)@.entries.drop_last(), ..old(self)@ }),
            final(self).len == old(self).len - 1,
    {
        match self.recency.last() {
            Some(idx) => {
                proof {
                    let o = self.recency.order();
                    self.recency.lemma_order();
                    assert(o[o.len() - 1] == idx);
                    assert(o.contains(idx));
                    assert(o.index_of(idx) == o.len() - 1);
                    assert(self@.entries.remove(o.len() - 1) == self@.entries.drop_last());
                }
                self.remove(idx);
            },
            None => {
                assert(false);
            },
        }
    }

    /// Evict the least recently used entries until the estimate fits the
    /// budget. The last remaining entry is never evicted.
    fn evict_to_byte_budget(&mut self)
        requires
            old(self).held(),
        ensures
            final(self).wf(),
            final(self)@ == (CacheV {
                entries: within_budget(old(self)@.entries, old(self)@.max_bytes),
                ..old(self)@
            }),
    {
        while self.bytes_total > self.max_bytes as u128 && self.len > 1
            invariant
                self.held(),
                within_budget(self@.entries, self@.max_bytes) == within_budget(
                    old(self)@.entries,
                    old(self)@.max_bytes,
                ),
                self@.capacity == old(self)@.capacity,
                self@.max_bytes == old(self)@.max_bytes,
            decreases self.len,
        {
            self.evict_tail();
        }
    }

    /// Put a new entry in front.
    fn place(&mut self, e: Entry)
        requires
            old(self).held(),
            old(self).len < old(self).capacity,
            e.bytes <= MAX_ENTRY_BYTES,
            !has_key(old(self)@.entries, e@.key),
        ensures
            final(self).held(),
            final(self)@ == (CacheV { entries: seq![e@] + old(self)@.entries, ..old(self)@ }),
    {
        let ghost o = self.recency.order();
        let ghost before = self@.entries;
        let ghost slots0 = self.slots@;
        let ghost m0 = self.map@;
        let ghost key = e.key@;
        let text = e.key.text();
        let bytes: usize = e.bytes;
        proof {
            self.recency.lemma_order();
            lemma_total_front(e@, before);
            assert forall|i: int| 0 <= i < before.len() implies (#[trigger] before[i]).bytes
                <= MAX_ENTRY_BYTES by {
                assert(self.slots@[o[i] as int]->0.bytes <= MAX_ENTRY_BYTES);
            }
            lemma_total_bound(before);
        }
        let idx: usize = match self.free.pop() {
            Some(idx) => {
                assert(old(self).free@[old(self).free@.len() - 1] == idx);
                self.slots.set(idx, Some(e));
                idx
            },
            None => {
                let idx: usize = self.recency.add_slot();
                self.slots.push(Some(e));
                idx
            },
        };
        proof {
            assert(self.slots@[idx as int] == Some(e));
            assert forall|i: int| 0 <= i < o.len() implies o[i] != idx && (#[trigger] o[i])
                < slots0.len() && self.slots@[o[i] as int] == slots0[o[i] as int] by {
                assert(slots0[o[i] as int] is Some);
            }
            assert(!o.contains(idx)) by {
                if o.contains(idx) {
                    let i = choose|i: int| 0 <= i < o.len() && o[i] == idx;
                    assert(o[i] != idx);
                }
            }
        }
        self.recency.push_front(idx);
        self.map.insert(text, idx);
        self.bytes_total = self.bytes_total + bytes as u128;
        self.len = self.len + 1;
        let ghost n = self.recency.order();
        proof {
            assert(n == seq![idx] + o);
            assert(self@.entries =~= seq![e@] + before) by {
                assert forall|i: int| 0 <= i < n.len() implies self@.entries[i] == (seq![e@]
                    + before)[i] by {
                    if i > 0 {
                        assert(n[i] == o[i - 1]);
                    }
                }
            }
            assert forall|i: int| 0 <= i < n.len() implies self.slots@[#[trigger] n[i] as int] is Some
                && self.slots@[n[i] as int]->0.bytes <= MAX_ENTRY_BYTES by {
                if i > 0 {
                    assert(n[i] == o[i - 1]);
                    assert(slots0[o[i - 1] as int] is Some);
                }
            }
            assert forall|i: int| 0 <= i < n.len() implies self.map@.contains_key(
                key_text(self.slots@[#[trigger] n[i] as int]->0.key@),
            ) && self.map@[key_text(self.slots@[n[i] as int]->0.key@)] == n[i] by {
                if i > 0 {
                    assert(n[i] == o[i - 1]);
                    assert(before[i - 1].key != key);
                    if key_text(before[i - 1].key) == key_text(key) {
                        law_key_text_injective(before[i - 1].key, key);
                    }
                    assert(m0.contains_key(key_text(slots0[o[i - 1] as int]->0.key@)));
                }
            }
            assert forall|t: Seq<char>| #[trigger] self.map@.contains_key(t) implies n.contains(
                self.map@[t],
            ) && key_text(self.slots@[self.map@[t] as int]->0.key@) == t by {
                if t == key_text(key) {
                    assert(n[0] == idx);
                } else {
                    assert(m0.contains_key(t));
                    let k = choose|k: int| 0 <= k < o.len() && o[k] == m0[t];
                    assert(n[k + 1] == o[k]);
                }
            }
            assert forall|i: int| 0 <= i < self.free@.len() implies (#[trigger] self.free@[i])
                < self.slots@.len() && self.slots@[self.free@[i] as int] is None by {
                assert(self.free@[i] == old(self).free@[i]);
                if old(self).free@.len() > 0 {
                    assert(old(self).free@[i] != old(self).free@[old(self).free@.len() - 1]);
                }
            }
            assert(self.free@.no_duplicates()) by {
                assert forall|i: int, j: int|
                    0 <= i < self.free@.len() && 0 <= j < self.free@.len() && i
                        != j implies self.free@[i] != self.free@[j] by {
                    assert(old(self).free@[i] == self.free@[i] && old(self).free@[j]
                        == self.free@[j]);
                }
            }
        }
    }

    /// Move an entry to the front.
    fn move_to_head(&mut self, idx: usize)
        requires
            old(self).held(),
            old(self).recency.order().contains(idx),
        ensures
            final(self).held(),
            ({
                let p = old(self).recency.order().index_of(idx);
                final(self)@ == (CacheV {
                    entries: seq![old(self)@.entries[p]] + old(self)@.entries.remove(p),
                    ..old(self)@
                })
            }),
            final(self).recency.order().len() > 0,
            final(self).recency.order()[0] == idx,
            final(self).slots@ == old(self).slots@,
    {
        let ghost o = self.recency.order();
        let ghost p = o.index_of(idx);
        let ghost before = self@.entries;
        proof {
            self.recency.lemma_order();
            assert(o[p] == idx);
            lemma_total_remove(before, p);
            lemma_total_front(before[p], before.remove(p));
        }
        self.recency.unlink(idx);
        self.recency.push_front(idx);
        let ghost n = self.recency.order();
        proof {
            assert(n == seq![idx] + o.remove(p));
            assert(self@.entries =~= seq![before[p]] + before.remove(p)) by {
                assert forall|i: int| 0 <= i < n.len() implies self@.entries[i] == (seq![before[p]]
                    + before.remove(p))[i] by {
                    let k = if i == 0 {
                        p
                    } else if i - 1 < p {
                        i - 1
                    } else {
                        i
                    };
                    assert(n[i] == o[k]);
                }
            }
            assert forall|i: int| 0 <= i < n.len() implies self.slots@[#[trigger] n[i] as int] is Some
                && self.slots@[n[i] as int]->0.bytes <= MAX_ENTRY_BYTES && self.map@.contains_key(
                key_text(self.slots@[n[i] as int]->0.key@),
            ) && self.map@[key_text(self.slots@[n[i] as int]->0.key@)] == n[i] by {
                let k = if i == 0 {
                    p
                } else if i - 1 < p {
                    i - 1
                } else {
                    i
                };
                assert(o[k] == n[i]);
            }
            assert forall|t: Seq<char>| #[trigger] self.map@.contains_key(t) implies n.contains(
                self.map@[t],
            ) && key_text(self.slots@[self.map@[t] as int]->0.key@) == t by {
                let k = choose|k: int| 0 <= k < o.len() && o[k] == self.map@[t];
                if k == p {
                    assert(n[0] == o[k]);
                } else if k < p {
                    assert(n[k + 1] == o[k]);
                } else {
                    assert(n[k] == o[k]);
                }
            }
        }
    }

    /// The map finds exactly the keys that entries are under.
    proof fn lemma_found(&self, key: KeyV)
        requires
            self.held(),
        ensures
            self.map@.contains_key(key_text(key)) == has_key(self@.entries, key),
            self.map@.contains_key(key_text(key)) ==> ({
                let idx = self.map@[key_text(key)];
                let o = self.recency.order();
                let p = o.index_of(idx);
                &&& o.contains(idx)
                &&& 0 <= p < o.len()
                &&& o[p] == idx
                &&& self.slots@[idx as int] is Some
                &&& self@.entries[p].key == key
                &&& entry_under(self@.entries, key) == self@.entries[p]
                &&& without_key(self@.entries, key) == self@.entries.remove(p)
                &&& idx < self.slots@.len()
            }),
    {
        let o = self.recency.order();
        self.recency.lemma_order();
        self.lemma_distinct();
        if self.map@.contains_key(key_text(key)) {
            let idx = self.map@[key_text(key)];
            let p = o.index_of(idx);
            assert(o[p] == idx);
            law_key_text_injective(self.slots@[idx as int]->0.key@, key);
            assert(self@.entries[p].key == key);
            lemma_without_key(self@.entries, p);
        } else if has_key(self@.entries, key) {
            let i = choose|i: int|
                0 <= i < self@.entries.len() && (#[trigger] self@.entries[i]).key == key;
            assert(self.map@.contains_key(key_text(self.slots@[o[i] as int]->0.key@)));
        }
    }

    /// Insert a response that takes `wire` bytes on the wire, if it could be
    /// serialized.
    pub fn insert_sized(&mut self, key: CacheKey, msg: &Message, wire: Option<usize>, now: u64)
        requires
            old(self).wf(),
            wire is Some ==> wire->0 <= MAX_WIRE_BYTES,
        ensures
            final(self).wf(),
            final(self)@ == (if cacheable(msg@.metadata.response_code) {
                inserted(
                    old(self)@,
                    entry_for(
                        key@,
                        msg@,
                        match wire {
                            Some(n) => Some(n as nat),
                            None => None,
                        },
                        now,
                    ),
                )
            } else {
                old(self)@
            }),
    {
        let code: u16 = msg.metadata.response_code;
        if code != NO_ERROR && code != NX_DOMAIN {
            return ;
        }
        let bytes: usize = match wire {
            Some(n) => n * BYTES_SLOP_FACTOR + ENTRY_OVERHEAD_BYTES,
            None => FALLBACK_WIRE_BYTES * BYTES_SLOP_FACTOR + ENTRY_OVERHEAD_BYTES,
        };
        let text = key.text();
        let ghost k = key@;
        let e = Entry {
            key,
            answers: copy_records(&msg.answers),
            authorities: copy_records(&msg.authorities),
            response_code: code,
            effective_ttl_secs: effective_ttl_of(msg),
            inserted_at: now,
            bytes,
        };
        let ghost start = self@;
        proof {
            self.lemma_found(k);
        }
        let known: Option<usize> = match self.map.get(text.as_str()) {
            Some(idx) => Some(*idx),
            None => None,
        };
        match known {
            Some(idx) => {
                let ghost p = self.recency.order().index_of(idx);
                self.move_to_head(idx);
                let ghost o = self.recency.order();
                let ghost front = self@.entries;
                let ghost rest = start.entries.remove(p);
                let ghost slots0 = self.slots@;
                proof {
                    self.recency.lemma_order();
                    assert(front == seq![start.entries[p]] + rest);
                    assert(front[0] == slots0[idx as int]->0@);
                    lemma_total_front(front[0], rest);
                    lemma_total_front(e@, rest);
                }
                let mut held: Option<Entry> = Some(e);
                self.slots.set_and_swap(idx, &mut held);
                let old_bytes: usize = match &held {
                    Some(previous) => previous.bytes,
                    None => 0,
                };
                proof {
                    assert forall|i: int| 0 <= i < front.len() implies (
                    #[trigger] front[i]).bytes <= MAX_ENTRY_BYTES by {
                        assert(slots0[o[i] as int]->0.bytes <= MAX_ENTRY_BYTES);
                    }
                    lemma_total_bound(front);
                }
                self.bytes_total = self.bytes_total - old_bytes as u128 + bytes as u128;
                proof {
                    assert(self.slots@ == slots0.update(idx as int, Some(e)));
                    assert forall|i: int| 0 < i < o.len() implies #[trigger] o[i] != idx
                        && self.slots@[o[i] as int] == slots0[o[i] as int] by {
                        assert(o[i] != o[0]);
                    }
                    assert(self@.entries =~= seq![e@] + rest) by {
                        assert forall|i: int| 0 <= i < o.len() implies self@.entries[i] == (
                        seq![e@] + rest)[i] by {
                            if i > 0 {
                                assert(o[i] != idx);
                                assert(front[i] == rest[i - 1]);
                            }
                        }
                    }
                    assert forall|i: int| 0 <= i < o.len() implies self.slots@[#[trigger] o[i] as int] is Some
                        && self.slots@[o[i] as int]->0.bytes <= MAX_ENTRY_BYTES && self.map@.contains_key(
                        key_text(self.slots@[o[i] as int]->0.key@),
                    ) && self.map@[key_text(self.slots@[o[i] as int]->0.key@)] == o[i] by {
                        if i == 0 {
                            assert(slots0[o[0] as int]->0.key@ == k);
                        } else {
                            assert(slots0[o[i] as int] is Some);
                        }
                    }
                    assert forall|t: Seq<char>| #[trigger]
                        self.map@.contains_key(t) implies o.contains(self.map@[t]) && key_text(
                        self.slots@[self.map@[t] as int]->0.key@,
                    ) == t by {
                        if self.map@[t] == idx {
                            assert(slots0[idx as int]->0.key@ == k);
                        }
                    }
                    assert forall|i: int| 0 <= i < self.free@.len() implies (
                    #[trigger] self.free@[i]) < self.slots@.len()
                        && self.slots@[self.free@[i] as int] is None by {
                        assert(slots0[self.free@[i] as int] is None);
                    }
                }
                self.evict_to_byte_budget();
            },
            None => {
                if self.len >= self.capacity {
                    proof {
                        let t = self@.entries.drop_last();
                        assert forall|i: int| 0 <= i < t.len() implies (#[trigger] t[i]).key
                            != k by {
                            assert(t[i] == self@.entries[i]);
                        }
                    }
                    self.evict_tail();
                }
                self.place(e);
                self.evict_to_byte_budget();
            },
        }
    }

    /// Insert a response.
    ///
    /// Only `NOERROR` and `NXDOMAIN` responses are cached; others are ignored.
    /// If the key exists, the entry is replaced and becomes the most recently
    /// used.
    pub fn insert(&mut self, key: CacheKey, msg: &Message, now: u64)
        requires
            old(self).wf(),
        ensures
            final(self).wf(),
            final(self)@ == (if cacheable(msg@.metadata.response_code) {
                inserted(
                    old(self)@,
                    entry_for(
                        key@,
                        msg@,
                        match encoded(msg@) {
                            Some(b) => Some(b.len()),
                            None => None,
                        },
                        now,
                    ),
                )
            } else {
                old(self)@
            }),
    {
        let wire: Option<usize> = match encode(msg) {
            Some(b) => Some(b.len()),
            None => None,
        };
        self.insert_sized(key, msg, wire, now);
    }

    /// Look up a response.
    ///
    /// A hit, fresh or stale, makes the entry the most recently used. An entry
    /// past its stale window is removed.
    #[must_use]
    pub fn get(&mut self, key: &CacheKey, now: u64) -> (r: Lookup)
        requires
            old(self).wf(),
        ensures
            final(self).wf(),
            r@ == looked_up(old(self)@, key@, now),
            final(self)@ == after_lookup(old(self)@, key@, now),
    {
        let text = key.text();
        let ghost k = key@;
        let ghost start = self@;
        proof {
            self.lemma_found(k);
        }
        let idx: usize = match self.map.get(text.as_str()) {
            Some(idx) => *idx,
            None => {
                return Lookup::Miss;
            },
        };
        let ghost p = self.recency.order().index_of(idx);
        let ghost e = start.entries[p];
        let (ttl, inserted_at): (u64, u64) = match &self.slots[idx] {
            Some(entry) => (entry.effective_ttl_secs, entry.inserted_at),
            None => {
                return Lookup::Miss;
            },
        };
        let elapsed: u64 = if now > inserted_at {
            (now - inserted_at) / NANOS_PER_SEC
        } else {
            0
        };
        assert(elapsed == elapsed_secs(e.inserted_at, now));
        if elapsed >= STALE_WINDOW_SECS && elapsed - STALE_WINDOW_SECS >= ttl {
            proof {
                lemma_total_remove(start.entries, p);
            }
            self.remove(idx);
            return Lookup::Miss;
        }
        proof {
            lemma_total_remove(start.entries, p);
            lemma_total_front(e, start.entries.remove(p));
        }
        self.move_to_head(idx);
        match &self.slots[idx] {
            Some(entry) => {
                assert(entry@ == e);
                if elapsed < ttl {
                    Lookup::Fresh(build_response(entry, Some(elapsed)))
                } else {
                    Lookup::Stale(build_response(entry, None))
                }
            },
            None => Lookup::Miss,
        }
    }

    /// Number of entries, those included that are expired but not yet removed.
    #[must_use]
    pub fn len(&self) -> (r: usize)
        requires
            self.wf(),
        ensures
            r == self@.entries.len(),
    {
        self.len
    }

    /// Whether the cache holds no entry.
    #[must_use]
    pub fn is_empty(&self) -> (r: bool)
        requires
            self.wf(),
        ensures
            r == (self@.entries.len() == 0),
    {
        self.len == 0
    }

    /// Estimated size of all entries.
    #[must_use]
    pub fn bytes_total(&self) -> (r: u128)
        requires
            self.wf(),
        ensures
            r == total_bytes(self@.entries),
    {
        self.bytes_total
    }
}

fn effective_ttl_of(msg: &Message) -> (r: u64)
    ensures
        r == effective_ttl(msg@),
{
    let a: usize = msg.answers.len();
    let b: usize = msg.authorities.len();
    let ghost all = msg@.answers + msg@.authorities;
    let mut low: Option<u32> = None;
    assert(all.take(0) == Seq::<RecordV>::empty());
    for i in 0..a
        invariant
            a == msg.answers@.len(),
            all == msg@.answers + msg@.authorities,
            low == shortest_ttl(all.take(i as int)),
    {
        assert(all.take(i + 1).drop_last() == all.take(i as int));
        assert(all.take(i + 1).last() == msg.answers@[i as int]@);
        low = shorter(low, msg.answers[i].ttl);
    }
    for i in 0..b
        invariant
            a == msg.answers@.len(),
            b == msg.authorities@.len(),
            all == msg@.answers + msg@.authorities,
            low == shortest_ttl(all.take(a + i)),
    {
        assert(all.take(a + i + 1).drop_last() == all.take(a + i));
        assert(all.take(a + i + 1).last() == msg.authorities@[i as int]@);
        low = shorter(low, msg.authorities[i].ttl);
    }
    assert(all.take(a + b) == all);
    match low {
        Some(t) => if t as u64 > MIN_TTL_SECS {
            t as u64
        } else {
            MIN_TTL_SECS
        },
        None => MIN_TTL_SECS,
    }
}

fn shorter(low: Option<u32>, ttl: u32) -> (r: Option<u32>)
    ensures
        r == (match low {
            Some(t) if t <= ttl => Some(t),
            _ => Some(ttl),
        }),
{
    match low {
        Some(t) => if t <= ttl {
            Some(t)
        } else {
            Some(ttl)
        },
        None => Some(ttl),
    }
}

/// The records with the time that passed taken off, or with the stale time to
/// live where `elapsed` is `None`.
fn restamped_ttls(v: &Vec<Record>, elapsed: Option<u64>) -> (r: Vec<Record>)
    ensures
        records_of(r@) == (match elapsed {
            Some(t) => aged(records_of(v@), t),
            None => with_ttl(records_of(v@), STALE_TTL_SECS),
        }),
{
    let mut out: Vec<Record> = Vec::new();
    let n: usize = v.len();
    let ghost all = match elapsed {
        Some(t) => aged(records_of(v@), t),
        None => with_ttl(records_of(v@), STALE_TTL_SECS),
    };
    for i in 0..n
        invariant
            n == v@.len(),
            all == (match elapsed {
                Some(t) => aged(records_of(v@), t),
                None => with_ttl(records_of(v@), STALE_TTL_SECS),
            }),
            records_of(out@) == all.take(i as int),
    {
        let mut record = v[i].clone();
        let ttl: u32 = record.ttl;
        let next: u32 = match elapsed {
            Some(t) => if t >= ttl as u64 {
                1
            } else {
                ttl - t as u32
            },
            None => STALE_TTL_SECS,
        };
        record.ttl = next;
        let ghost before = out@;
        out.push(record);
        assert(records_of(out@) == records_of(before).push(record@));
        assert(all.take(i + 1) == all.take(i as int).push(all[i as int]));
    }
    assert(all.take(n as int) == all);
    out
}

/// Build a response from an entry.
fn build_response(entry: &Entry, elapsed: Option<u64>) -> (r: Message)
    ensures
        r@ == (match elapsed {
            Some(t) => cached_response(
                entry@.response_code,
                aged(entry@.answers, t),
                aged(entry@.authorities, t),
            ),
            None => cached_response(
                entry@.response_code,
                with_ttl(entry@.answers, STALE_TTL_SECS),
                with_ttl(entry@.authorities, STALE_TTL_SECS),
            ),
        }),
{
    let mut msg = Message::new(0, MessageType::Response, OP_QUERY);
    msg.metadata.response_code = entry.response_code;
    msg.answers = restamped_ttls(&entry.answers, elapsed);
    msg.authorities = restamped_ttls(&entry.authorities, elapsed);
    msg
}

} // verus!
