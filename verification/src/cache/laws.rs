//! What holds of the cache as a whole.
use vstd::prelude::*;

use crate::cache::{after_lookup, aged, aged_ttl, bounded, cached_response, effective_ttl};
use crate::cache::{elapsed_secs, entry_for, entry_under, expired, has_key, inserted, keys_distinct};
use crate::cache::{cacheable, estimated_bytes, looked_up, served, shortest_ttl};
use crate::cache::{total_bytes, within_budget, without_key, CacheV, EntryV, KeyV, LookupV};
use crate::cache::{with_ttl, MIN_TTL_SECS, NANOS_PER_SEC, STALE_TTL_SECS, STALE_WINDOW_SECS};
use crate::message::{MessageType, MessageV, RecordV};
use crate::wire::{fits, writable};

verus! {

/// Evicting to the budget keeps a prefix, which holds at least one entry of a
/// cache that had one.
pub proof fn law_budget_keeps_most_recent(s: Seq<EntryV>, max_bytes: nat)
    ensures
        within_budget(s, max_bytes).len() <= s.len(),
        within_budget(s, max_bytes) == s.take(within_budget(s, max_bytes).len() as int),
        s.len() > 0 ==> within_budget(s, max_bytes).len() > 0,
        within_budget(s, max_bytes).len() > 1 ==> total_bytes(within_budget(s, max_bytes))
            <= max_bytes,
    decreases s.len(),
{
    if total_bytes(s) > max_bytes && s.len() > 1 {
        let t = s.drop_last();
        law_budget_keeps_most_recent(t, max_bytes);
        let k = within_budget(t, max_bytes).len() as int;
        assert(t.take(k) == s.take(k));
    } else {
        assert(s.take(s.len() as int) == s);
    }
}

/// What is left without a key has it nowhere, and keeps the order of the rest.
proof fn lemma_without_key_absent(s: Seq<EntryV>, key: KeyV)
    ensures
        forall|i: int|
            0 <= i < without_key(s, key).len() ==> (#[trigger] without_key(s, key)[i]).key != key
                && has_key(s, without_key(s, key)[i].key),
        without_key(s, key).len() <= s.len(),
        has_key(s, key) ==> without_key(s, key).len() < s.len(),
        keys_distinct(s) ==> keys_distinct(without_key(s, key)),
    decreases s.len(),
{
    reveal(Seq::filter);
    let r = without_key(s, key);
    if s.len() > 0 {
        let t = s.drop_last();
        let rt = without_key(t, key);
        lemma_without_key_absent(t, key);
        assert forall|i: int| 0 <= i < r.len() implies (#[trigger] r[i]).key != key && has_key(
            s,
            r[i].key,
        ) by {
            if i < rt.len() {
                assert(r[i] == rt[i]);
                let j = choose|j: int| 0 <= j < t.len() && (#[trigger] t[j]).key == rt[i].key;
                assert(s[j].key == r[i].key);
            } else {
                assert(s[s.len() - 1].key == r[i].key);
            }
        }
        if has_key(s, key) && s.last().key != key {
            let j = choose|j: int| 0 <= j < s.len() && (#[trigger] s[j]).key == key;
            assert(t[j].key == key);
        }
        if keys_distinct(s) {
            assert(keys_distinct(t)) by {
                assert forall|i: int, j: int|
                    0 <= i < t.len() && 0 <= j < t.len() && i != j implies (#[trigger] t[i]).key
                    != (#[trigger] t[j]).key by {
                    assert(t[i] == s[i] && t[j] == s[j]);
                }
            }
            assert forall|i: int, j: int|
                0 <= i < r.len() && 0 <= j < r.len() && i != j implies (#[trigger] r[i]).key != (
            #[trigger] r[j]).key by {
                let l = rt.len() as int;
                if i < l && j < l {
                    assert(r[i] == rt[i] && r[j] == rt[j]);
                } else if i < l {
                    assert(r[i] == rt[i]);
                    let x = choose|x: int| 0 <= x < t.len() && (#[trigger] t[x]).key == rt[i].key;
                    assert(s[x].key != s[s.len() - 1].key);
                } else if j < l {
                    assert(r[j] == rt[j]);
                    let x = choose|x: int| 0 <= x < t.len() && (#[trigger] t[x]).key == rt[j].key;
                    assert(s[x].key != s[s.len() - 1].key);
                }
            }
        }
    }
}

/// The entries behind a new one, before the budget is looked at.
pub open spec fn behind(c: CacheV, key: KeyV) -> Seq<EntryV> {
    if has_key(c.entries, key) {
        without_key(c.entries, key)
    } else if c.entries.len() >= c.capacity {
        c.entries.drop_last()
    } else {
        c.entries
    }
}

proof fn lemma_behind(c: CacheV, key: KeyV)
    requires
        c.capacity > 0,
    ensures
        forall|i: int|
            0 <= i < behind(c, key).len() ==> (#[trigger] behind(c, key)[i]).key != key,
        bounded(c) ==> keys_distinct(behind(c, key)) && behind(c, key).len() < c.capacity,
{
    let b = behind(c, key);
    if has_key(c.entries, key) {
        lemma_without_key_absent(c.entries, key);
    } else {
        assert forall|i: int| 0 <= i < b.len() implies (#[trigger] b[i]).key != key by {
            assert(b[i] == c.entries[i]);
        }
        if bounded(c) {
            assert(keys_distinct(b)) by {
                assert forall|i: int, j: int|
                    0 <= i < b.len() && 0 <= j < b.len() && i != j implies (#[trigger] b[i]).key
                    != (#[trigger] b[j]).key by {
                    assert(b[i] == c.entries[i] && b[j] == c.entries[j]);
                }
            }
        }
    }
}

/// Insertion keeps the bounds.
pub proof fn law_insert_bounded(c: CacheV, e: EntryV)
    requires
        bounded(c),
    ensures
        bounded(inserted(c, e)),
{
    let b = behind(c, e.key);
    let s = seq![e] + b;
    let r = inserted(c, e).entries;
    lemma_behind(c, e.key);
    law_budget_keeps_most_recent(s, c.max_bytes);
    assert forall|i: int, j: int| 0 <= i < r.len() && 0 <= j < r.len() && i != j implies (
    #[trigger] r[i]).key != (#[trigger] r[j]).key by {
        assert(r[i] == s[i] && r[j] == s[j]);
        if i > 0 {
            assert(s[i] == b[i - 1]);
        }
        if j > 0 {
            assert(s[j] == b[j - 1]);
        }
    }
}

/// A lookup keeps the bounds and adds nothing.
pub proof fn law_lookup_bounded(c: CacheV, key: KeyV, now: u64)
    requires
        bounded(c),
    ensures
        bounded(after_lookup(c, key, now)),
        after_lookup(c, key, now).entries.len() <= c.entries.len(),
{
    if has_key(c.entries, key) {
        let p = choose|i: int| 0 <= i < c.entries.len() && (#[trigger] c.entries[i]).key == key;
        let e = c.entries[p];
        let rest = without_key(c.entries, key);
        lemma_without_key_absent(c.entries, key);
        crate::cache::lemma_without_key(c.entries, p);
        crate::cache::lemma_total_remove(c.entries, p);
        crate::cache::lemma_total_front(e, rest);
        let r = after_lookup(c, key, now).entries;
        if !expired(e, now) {
            assert(r == seq![e] + rest);
            assert forall|i: int, j: int|
                0 <= i < r.len() && 0 <= j < r.len() && i != j implies (#[trigger] r[i]).key != (
            #[trigger] r[j]).key by {
                if i > 0 {
                    assert(r[i] == rest[i - 1]);
                }
                if j > 0 {
                    assert(r[j] == rest[j - 1]);
                }
            }
        }
    }
}

/// What was written is read back: right after an insertion, and until it is
/// evicted or expires, a lookup under the key finds exactly that entry.
pub proof fn law_read_after_insert(c: CacheV, e: EntryV, now: u64)
    requires
        c.capacity > 0,
    ensures
        has_key(inserted(c, e).entries, e.key),
        looked_up(inserted(c, e), e.key, now) == served(e, now),
{
    let b = behind(c, e.key);
    let s = seq![e] + b;
    let r = inserted(c, e).entries;
    lemma_behind(c, e.key);
    law_budget_keeps_most_recent(s, c.max_bytes);
    assert(r[0] == s[0]);
    assert(r[0].key == e.key);
    let i = choose|i: int| 0 <= i < r.len() && (#[trigger] r[i]).key == e.key;
    assert(r[i] == s[i]);
    if i > 0 {
        assert(s[i] == b[i - 1]);
    }
}

/// A lookup does not change what the next lookup at the same time returns.
pub proof fn law_lookup_repeatable(c: CacheV, key: KeyV, now: u64)
    ensures
        looked_up(after_lookup(c, key, now), key, now) == looked_up(c, key, now),
{
    if has_key(c.entries, key) {
        let e = entry_under(c.entries, key);
        let rest = without_key(c.entries, key);
        let r = after_lookup(c, key, now).entries;
        lemma_without_key_absent(c.entries, key);
        assert(e.key == key);
        if expired(e, now) {
            assert(!has_key(r, key));
        } else {
            assert(r[0].key == key);
            let i = choose|i: int| 0 <= i < r.len() && (#[trigger] r[i]).key == key;
            if i > 0 {
                assert(r[i] == rest[i - 1]);
            }
        }
    }
}

/// Every answer is good for at least the shortest time, however short its
/// records' own.
pub proof fn law_min_ttl(m: MessageV, at: u64, now: u64)
    requires
        at <= now,
        now - at < MIN_TTL_SECS * NANOS_PER_SEC,
    ensures
        effective_ttl(m) >= MIN_TTL_SECS,
        elapsed_secs(at, now) < effective_ttl(m),
{
    let d = now - at;
    assert(0 <= d < 300_000_000_000);
    assert(d / 1_000_000_000 < 300);
}

/// An answer read back before its time is up has the records that were
/// written; only their times to live have gone down, by the time that passed,
/// and not below 1.
pub proof fn law_fresh_answer(
    c: CacheV,
    key: KeyV,
    m: MessageV,
    wire: Option<nat>,
    at: u64,
    now: u64,
)
    requires
        c.capacity > 0,
        elapsed_secs(at, now) < effective_ttl(m),
    ensures
        ({
            let e = entry_for(key, m, wire, at);
            let elapsed = elapsed_secs(at, now);
            looked_up(inserted(c, e), key, now) == LookupV::Fresh(
                cached_response(
                    m.metadata.response_code,
                    aged(m.answers, elapsed),
                    aged(m.authorities, elapsed),
                ),
            )
        }),
{
    law_read_after_insert(c, entry_for(key, m, wire, at), now);
}

/// An answer whose time is up is still served for the stale window, every
/// record with the same short time to live.
pub proof fn law_stale_answer(
    c: CacheV,
    key: KeyV,
    m: MessageV,
    wire: Option<nat>,
    at: u64,
    now: u64,
)
    requires
        c.capacity > 0,
        effective_ttl(m) <= elapsed_secs(at, now) < effective_ttl(m) + STALE_WINDOW_SECS,
    ensures
        ({
            let e = entry_for(key, m, wire, at);
            looked_up(inserted(c, e), key, now) == LookupV::Stale(
                cached_response(
                    m.metadata.response_code,
                    with_ttl(m.answers, STALE_TTL_SECS),
                    with_ttl(m.authorities, STALE_TTL_SECS),
                ),
            )
        }),
{
    law_read_after_insert(c, entry_for(key, m, wire, at), now);
}

/// Reading back at the same instant leaves times to live alone, except that 0
/// becomes 1.
pub proof fn law_aged_at_zero(r: RecordV)
    ensures
        aged_ttl(r.ttl, 0) == (if r.ttl == 0 {
            1u32
        } else {
            r.ttl
        }),
{
}

/// Records as they are read back: the same ones in the same order, each with
/// a time to live of its own.
pub open spec fn same_records(written: Seq<RecordV>, read: Seq<RecordV>) -> bool {
    &&& read.len() == written.len()
    &&& forall|i: int|
        0 <= i < read.len() ==> (#[trigger] read[i]).name == written[i].name && read[i].record_type
            == written[i].record_type && read[i].class == written[i].class && read[i].data
            == written[i].data
}

/// Times to live that have gone down by some seconds, to 1 at the lowest.
pub open spec fn counted_down(written: Seq<RecordV>, read: Seq<RecordV>, secs: u64) -> bool {
    forall|i: int|
        0 <= i < read.len() ==> if written[i].ttl > secs {
            (#[trigger] read[i]).ttl + secs == written[i].ttl
        } else {
            read[i].ttl == 1
        }
}

/// How long an answer is good for: as long as the record that lasts shortest,
/// and 300 seconds where that is less, or where there is no record.
pub open spec fn good_for(m: MessageV, secs: u64) -> bool {
    let s = m.answers + m.authorities;
    &&& secs >= 300
    &&& forall|i: int| 0 <= i < s.len() ==> secs <= (#[trigger] s[i]).ttl || secs == 300
    &&& secs > 300 ==> exists|i: int| 0 <= i < s.len() && (#[trigger] s[i]).ttl == secs
    &&& secs == 300 ==> s.len() == 0 || exists|i: int|
        0 <= i < s.len() && (#[trigger] s[i]).ttl <= 300
}

proof fn lemma_shortest(s: Seq<RecordV>)
    ensures
        match shortest_ttl(s) {
            None => s.len() == 0,
            Some(t) => {
                &&& forall|i: int| 0 <= i < s.len() ==> t <= (#[trigger] s[i]).ttl
                &&& exists|i: int| 0 <= i < s.len() && (#[trigger] s[i]).ttl == t
            },
        },
    decreases s.len(),
{
    if s.len() > 0 {
        let r = s.drop_last();
        lemma_shortest(r);
        match shortest_ttl(r) {
            Some(t) if t <= s.last().ttl => {
                let i = choose|i: int| 0 <= i < r.len() && (#[trigger] r[i]).ttl == t;
                assert(s[i].ttl == t);
                assert forall|i: int| 0 <= i < s.len() implies t <= (#[trigger] s[i]).ttl by {
                    if i < r.len() {
                        assert(r[i] == s[i]);
                    }
                }
            },
            _ => {
                assert(s[s.len() - 1].ttl == s.last().ttl);
                assert forall|i: int| 0 <= i < s.len() implies s.last().ttl <= (
                #[trigger] s[i]).ttl by {
                    if i < r.len() {
                        assert(r[i] == s[i]);
                    }
                }
            },
        }
    }
}

/// An answer is good for one length of time, and that is how long it stays
/// fresh.
pub proof fn law_good_for(m: MessageV, secs: u64)
    ensures
        good_for(m, secs) == (secs == effective_ttl(m)),
{
    let s = m.answers + m.authorities;
    lemma_shortest(s);
    if good_for(m, secs) && secs > 300 {
        let i = choose|i: int| 0 <= i < s.len() && (#[trigger] s[i]).ttl == secs;
        assert(s[i].ttl == secs);
    }
}

/// Whole seconds between two instants; none where the second is not later.
pub open spec fn seconds_between(at: u64, now: u64, secs: u64) -> bool {
    if now <= at {
        secs == 0
    } else {
        at + secs * 1_000_000_000 <= now < at + (secs + 1) * 1_000_000_000
    }
}

proof fn lemma_elapsed(at: u64, now: u64, secs: u64)
    requires
        seconds_between(at, now, secs),
    ensures
        elapsed_secs(at, now) == secs,
{
    if now > at {
        let d = now - at;
        assert(d / 1_000_000_000 == secs) by (nonlinear_arith)
            requires
                secs * 1_000_000_000 <= d < (secs + 1) * 1_000_000_000,
        ;
    }
}

/// A message made for a cached answer: nothing in it but the response code and
/// the two sections that are cached.
pub open spec fn only_cached(r: MessageV, response_code: u16) -> bool {
    &&& r.metadata.response_code == response_code
    &&& r.metadata.message_type == MessageType::Response
    &&& r.metadata.op_code == 0
    &&& !r.metadata.authoritative && !r.metadata.truncation && !r.metadata.authentic_data
    &&& r.queries.len() == 0 && r.additionals.len() == 0
    &&& r.edns is None && r.signature is None
}

/// What was cached is read back whole, whatever the response code: the answer
/// and the authority records as they were written. While it is good, each
/// record's time to live has gone down by the time that passed, to 1 at the
/// lowest; for half an hour after that the answer is stale and every record is
/// good for 30 seconds; then it is gone.
pub proof fn law_read_back(
    c: CacheV,
    key: KeyV,
    m: MessageV,
    wire: Option<nat>,
    at: u64,
    now: u64,
    passed: u64,
    good: u64,
)
    requires
        c.capacity > 0,
        seconds_between(at, now, passed),
        good_for(m, good),
    ensures
        ({
            let found = looked_up(inserted(c, entry_for(key, m, wire, at)), key, now);
            if passed < good {
                &&& found matches LookupV::Fresh(r)
                &&& only_cached(r, m.metadata.response_code)
                &&& same_records(m.answers, r.answers)
                &&& same_records(m.authorities, r.authorities)
                &&& counted_down(m.answers, r.answers, passed)
                &&& counted_down(m.authorities, r.authorities, passed)
            } else if passed < good + 1800 {
                &&& found matches LookupV::Stale(r)
                &&& only_cached(r, m.metadata.response_code)
                &&& same_records(m.answers, r.answers)
                &&& same_records(m.authorities, r.authorities)
                &&& forall|i: int| 0 <= i < r.answers.len() ==> (#[trigger] r.answers[i]).ttl == 30
                &&& forall|i: int|
                    0 <= i < r.authorities.len() ==> (#[trigger] r.authorities[i]).ttl == 30
            } else {
                found is Miss
            }
        }),
{
    lemma_elapsed(at, now, passed);
    law_good_for(m, good);
    law_read_after_insert(c, entry_for(key, m, wire, at), now);
}

/// Caching an answer leaves the answers under other keys alone, as long as
/// there is room: what they give does not change.
pub proof fn law_insert_leaves_others(c: CacheV, e: EntryV, key: KeyV, now: u64)
    requires
        bounded(c),
        key != e.key,
        c.entries.len() < c.capacity,
        e.bytes + total_bytes(c.entries) <= c.max_bytes,
    ensures
        looked_up(inserted(c, e), key, now) == looked_up(c, key, now),
        inserted(c, e).entries[0] == e,
        !has_key(c.entries, e.key) ==> inserted(c, e).entries.len() == c.entries.len() + 1,
        has_key(c.entries, e.key) ==> inserted(c, e).entries.len() == c.entries.len(),
{
    let b = behind(c, e.key);
    let s = seq![e] + b;
    let r = inserted(c, e).entries;
    if has_key(c.entries, e.key) {
        let p = choose|i: int| 0 <= i < c.entries.len() && (#[trigger] c.entries[i]).key == e.key;
        crate::cache::lemma_without_key(c.entries, p);
        crate::cache::lemma_total_remove(c.entries, p);
    }
    assert(s.drop_first() =~= b);
    assert(total_bytes(s) == e.bytes + total_bytes(b));
    assert(r == s);
    lemma_behind(c, e.key);
    assert(has_key(r, key) == has_key(c.entries, key)) by {
        if has_key(c.entries, key) {
            let j = choose|j: int| 0 <= j < c.entries.len() && (#[trigger] c.entries[j]).key == key;
            let x = lemma_behind_has(c, e.key, j);
            assert(r[x + 1].key == key);
        }
        if has_key(r, key) {
            let j = choose|j: int| 0 <= j < r.len() && (#[trigger] r[j]).key == key;
            assert(r[j] == b[j - 1]);
            let x = lemma_behind_from(c, e.key, j - 1);
            assert(c.entries[x].key == key);
        }
    }
    if has_key(c.entries, key) {
        let j = choose|j: int| 0 <= j < r.len() && (#[trigger] r[j]).key == key;
        assert(r[j] == b[j - 1]);
        let x = lemma_behind_from(c, e.key, j - 1);
        let y = choose|y: int| 0 <= y < c.entries.len() && (#[trigger] c.entries[y]).key == key;
        assert(c.entries[x].key == key);
        assert(x == y);
    }
}

proof fn lemma_behind_has(c: CacheV, key: KeyV, j: int) -> (x: int)
    requires
        keys_distinct(c.entries),
        0 <= j < c.entries.len(),
        c.entries[j].key != key,
        has_key(c.entries, key) || c.entries.len() < c.capacity,
    ensures
        0 <= x < behind(c, key).len(),
        behind(c, key)[x] == c.entries[j],
{
    if has_key(c.entries, key) {
        let p = choose|i: int| 0 <= i < c.entries.len() && (#[trigger] c.entries[i]).key == key;
        crate::cache::lemma_without_key(c.entries, p);
        if j < p {
            j
        } else {
            j - 1
        }
    } else {
        j
    }
}

proof fn lemma_behind_from(c: CacheV, key: KeyV, i: int) -> (x: int)
    requires
        c.capacity > 0,
        0 <= i < behind(c, key).len(),
    ensures
        0 <= x < c.entries.len(),
        behind(c, key)[i] == c.entries[x],
{
    if has_key(c.entries, key) {
        lemma_without_key_from(c.entries, key, i)
    } else {
        i
    }
}

/// A full cache makes room by letting go of what was used longest ago, and of
/// nothing else as long as the budget holds.
pub proof fn law_least_recent_leaves(c: CacheV, e: EntryV)
    requires
        bounded(c),
        !has_key(c.entries, e.key),
        c.entries.len() == c.capacity,
        e.bytes + total_bytes(c.entries) <= c.max_bytes,
    ensures
        ({
            let r = inserted(c, e).entries;
            &&& r.len() == c.entries.len()
            &&& r[0] == e
            &&& forall|i: int| 1 <= i < r.len() ==> #[trigger] r[i] == c.entries[i - 1]
        }),
{
    let n = c.entries.len();
    let b = c.entries.drop_last();
    let s = seq![e] + b;
    crate::cache::lemma_total_remove(c.entries, n - 1);
    assert(c.entries.remove(n - 1) =~= b);
    assert(s.drop_first() =~= b);
    assert(total_bytes(s) == e.bytes + total_bytes(b));
    assert(inserted(c, e).entries == s);
}

/// A hit becomes the most recently used; the others stay as and in the order
/// they were.
pub proof fn law_hit_moves_to_front(c: CacheV, p: int, now: u64)
    requires
        bounded(c),
        0 <= p < c.entries.len(),
        !(looked_up(c, c.entries[p].key, now) is Miss),
    ensures
        ({
            let r = after_lookup(c, c.entries[p].key, now).entries;
            &&& r.len() == c.entries.len()
            &&& r[0] == c.entries[p]
            &&& forall|i: int| 1 <= i <= p ==> #[trigger] r[i] == c.entries[i - 1]
            &&& forall|i: int| p < i < r.len() ==> #[trigger] r[i] == c.entries[i]
        }),
{
    crate::cache::lemma_without_key(c.entries, p);
}

/// Only NOERROR and NXDOMAIN answers are cached.
pub proof fn law_cacheable(response_code: u16)
    ensures
        cacheable(response_code) == (response_code == 0 || response_code == 3),
{
}

/// An entry is taken to occupy twice its message's bytes and 512 more; a
/// message that cannot be written counts as 4096 bytes.
pub proof fn law_estimate(wire: nat)
    ensures
        estimated_bytes(Some(wire)) == 2 * wire + 512,
        estimated_bytes(None) == estimated_bytes(Some(4096)),
{
}

/// Every record in the cache is short enough to be written.
pub open spec fn holds_writable(c: CacheV) -> bool {
    forall|i: int|
        0 <= i < c.entries.len() ==> fits((#[trigger] c.entries[i]).answers) && fits(
            c.entries[i].authorities,
        )
}

proof fn lemma_without_key_from(s: Seq<EntryV>, key: KeyV, i: int) -> (j: int)
    requires
        0 <= i < without_key(s, key).len(),
    ensures
        0 <= j < s.len(),
        without_key(s, key)[i] == s[j],
    decreases s.len(),
{
    reveal(Seq::filter);
    let rest = without_key(s.drop_last(), key);
    if i < rest.len() {
        lemma_without_key_from(s.drop_last(), key, i)
    } else {
        s.len() - 1
    }
}

/// Caching a message that can be written leaves only such records in the cache.
pub proof fn law_insert_keeps_writable(
    c: CacheV,
    key: KeyV,
    m: MessageV,
    wire: Option<nat>,
    at: u64,
)
    requires
        c.capacity > 0,
        holds_writable(c),
        writable(m),
    ensures
        holds_writable(inserted(c, entry_for(key, m, wire, at))),
{
    let e = entry_for(key, m, wire, at);
    let b = behind(c, key);
    let s = seq![e] + b;
    let r = inserted(c, e).entries;
    law_budget_keeps_most_recent(s, c.max_bytes);
    assert forall|i: int| 0 <= i < r.len() implies fits((#[trigger] r[i]).answers) && fits(
        r[i].authorities,
    ) by {
        assert(r[i] == s[i]);
        if i > 0 {
            assert(s[i] == b[i - 1]);
            if has_key(c.entries, key) {
                let j = lemma_without_key_from(c.entries, key, i - 1);
                assert(s[i] == c.entries[j]);
            } else {
                assert(b[i - 1] == c.entries[i - 1]);
            }
        }
    }
}

/// So does a lookup, and what it hands out can be written.
pub proof fn law_lookup_keeps_writable(c: CacheV, key: KeyV, now: u64)
    requires
        holds_writable(c),
    ensures
        holds_writable(after_lookup(c, key, now)),
        match looked_up(c, key, now) {
            LookupV::Fresh(m) => writable(m),
            LookupV::Stale(m) => writable(m),
            LookupV::Miss => true,
        },
{
    if has_key(c.entries, key) {
        let p = choose|i: int| 0 <= i < c.entries.len() && (#[trigger] c.entries[i]).key == key;
        let e = c.entries[p];
        let rest = without_key(c.entries, key);
        let r = after_lookup(c, key, now).entries;
        assert(fits(e.answers) && fits(e.authorities));
        assert forall|i: int| 0 <= i < r.len() implies fits((#[trigger] r[i]).answers) && fits(
            r[i].authorities,
        ) by {
            if expired(e, now) {
                let j = lemma_without_key_from(c.entries, key, i);
                assert(r[i] == c.entries[j]);
            } else if i > 0 {
                assert(r[i] == rest[i - 1]);
                let j = lemma_without_key_from(c.entries, key, i - 1);
                assert(r[i] == c.entries[j]);
            }
        }
    }
}

/// An entry is never served past its fresh time and the stale window.
pub proof fn law_expired_is_miss(c: CacheV, key: KeyV, now: u64)
    requires
        has_key(c.entries, key),
        elapsed_secs(entry_under(c.entries, key).inserted_at, now) >= entry_under(
            c.entries,
            key,
        ).effective_ttl_secs + STALE_WINDOW_SECS,
    ensures
        looked_up(c, key, now) is Miss,
        !has_key(after_lookup(c, key, now).entries, key),
{
    lemma_without_key_absent(c.entries, key);
}

/// No more is let go for the budget than must be: with one entry more it would
/// not hold.
pub proof fn law_budget_evicts_least(s: Seq<EntryV>, max_bytes: nat)
    ensures
        ({
            let k = within_budget(s, max_bytes).len() as int;
            k < s.len() ==> total_bytes(s.take(k + 1)) > max_bytes
        }),
    decreases s.len(),
{
    if total_bytes(s) > max_bytes && s.len() > 1 {
        let t = s.drop_last();
        law_budget_evicts_least(t, max_bytes);
        law_budget_keeps_most_recent(t, max_bytes);
        let k = within_budget(t, max_bytes).len() as int;
        if k < t.len() {
            assert(t.take(k + 1) =~= s.take(k + 1));
        } else {
            assert(s.take(k + 1) =~= s);
        }
    }
}

/// A lookup that finds nothing changes nothing, except that an entry past its
/// window goes; the others stay in their order.
pub proof fn law_miss_leaves_others(c: CacheV, key: KeyV, now: u64, p: int)
    requires
        bounded(c),
        looked_up(c, key, now) is Miss,
    ensures
        !has_key(c.entries, key) ==> after_lookup(c, key, now) == c,
        0 <= p < c.entries.len() && c.entries[p].key == key ==> after_lookup(c, key, now).entries
            == c.entries.remove(p),
        after_lookup(c, key, now).capacity == c.capacity,
        after_lookup(c, key, now).max_bytes == c.max_bytes,
{
    if 0 <= p < c.entries.len() && c.entries[p].key == key {
        crate::cache::lemma_without_key(c.entries, p);
    }
}

/// What caching an answer leaves: the answer first, then what was there before,
/// in its order, without an older answer under the key and without the least
/// recently used one of a full cache; as much of that as the budget allows.
pub proof fn law_insert_order(c: CacheV, e: EntryV, p: int)
    requires
        bounded(c),
        0 <= p < c.entries.len() ==> c.entries[p].key == e.key,
        !(0 <= p < c.entries.len()) ==> !has_key(c.entries, e.key),
    ensures
        ({
            let r = inserted(c, e);
            let n = c.entries.len();
            let others = if 0 <= p < n {
                c.entries.remove(p)
            } else if n == c.capacity {
                c.entries.drop_last()
            } else {
                c.entries
            };
            let all = seq![e] + others;
            &&& 1 <= r.entries.len() <= all.len()
            &&& r.entries == all.take(r.entries.len() as int)
            &&& r.entries.len() < all.len() ==> total_bytes(all.take(r.entries.len() as int + 1))
                > c.max_bytes
            &&& r.capacity == c.capacity && r.max_bytes == c.max_bytes
        }),
{
    let n = c.entries.len();
    if 0 <= p < n {
        crate::cache::lemma_without_key(c.entries, p);
    }
    let b = behind(c, e.key);
    let all = seq![e] + b;
    law_budget_keeps_most_recent(all, c.max_bytes);
    law_budget_evicts_least(all, c.max_bytes);
}

} // verus!
