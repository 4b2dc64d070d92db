//! A recency order over numbered slots: a doubly-linked list held in two
//! vectors of indices.
//!
//! Moving a slot to the front, taking one out and finding the last one are
//! constant-time.
use vstd::prelude::*;

verus! {

/// "No link".
pub const NONE: usize = usize::MAX;

/// Slots in order of use, the most recently used first.
pub struct Recency {
    prev: Vec<usize>,
    next: Vec<usize>,
    head: usize,
    tail: usize,
    order: Ghost<Seq<usize>>,
}

/// The link a position in the order stands for: the slot there, or none.
spec fn link(order: Seq<usize>, i: int) -> usize {
    if 0 <= i < order.len() {
        order[i]
    } else {
        NONE
    }
}

/// The slot at a position exists and is linked to its neighbours.
spec fn linked_at(order: Seq<usize>, prev: Seq<usize>, next: Seq<usize>, i: int) -> bool {
    &&& order[i] < prev.len()
    &&& prev[order[i] as int] == link(order, i - 1)
    &&& next[order[i] as int] == link(order, i + 1)
}

spec fn linked(order: Seq<usize>, prev: Seq<usize>, next: Seq<usize>) -> bool {
    forall|i: int| 0 <= i < order.len() ==> #[trigger] linked_at(order, prev, next, i)
}

impl Recency {
    /// The slots, most recently used first.
    pub closed spec fn order(&self) -> Seq<usize> {
        self.order@
    }

    /// Number of slots, used or not.
    pub closed spec fn slots(&self) -> nat {
        self.prev@.len()
    }

    pub closed spec fn wf(&self) -> bool {
        &&& self.prev@.len() == self.next@.len()
        &&& self.prev@.len() <= usize::MAX
        &&& self.order@.no_duplicates()
        &&& linked(self.order@, self.prev@, self.next@)
        &&& self.head == link(self.order@, 0)
        &&& self.tail == link(self.order@, self.order@.len() - 1)
    }

    /// Every slot in the order exists, and no slot occurs twice.
    pub proof fn lemma_order(&self)
        requires
            self.wf(),
        ensures
            self.order().no_duplicates(),
            forall|i: int|
                0 <= i < self.order().len() ==> (#[trigger] self.order()[i]) < self.slots(),
            self.slots() <= usize::MAX,
    {
        assert forall|i: int| 0 <= i < self.order().len() implies (#[trigger] self.order()[i])
            < self.slots() by {
            assert(linked_at(self.order@, self.prev@, self.next@, i));
        }
    }

    pub fn new() -> (r: Recency)
        ensures
            r.wf(),
            r.order() == Seq::<usize>::empty(),
            r.slots() == 0,
    {
        Recency {
            prev: Vec::new(),
            next: Vec::new(),
            head: NONE,
            tail: NONE,
            order: Ghost(Seq::empty()),
        }
    }

    /// Add a slot that is not in the order yet.
    pub fn add_slot(&mut self) -> (idx: usize)
        requires
            old(self).wf(),
        ensures
            final(self).wf(),
            idx == old(self).slots(),
            final(self).slots() == old(self).slots() + 1,
            final(self).order() == old(self).order(),
    {
        let idx: usize = self.prev.len();
        self.prev.push(NONE);
        self.next.push(NONE);
        let slots: usize = self.prev.len();
        assert(slots == self.prev@.len());
        assert forall|i: int| 0 <= i < self.order@.len() implies #[trigger] linked_at(
            self.order@,
            self.prev@,
            self.next@,
            i,
        ) by {
            assert(linked_at(old(self).order@, old(self).prev@, old(self).next@, i));
        }
        idx
    }

    /// The least recently used slot.
    pub fn last(&self) -> (r: Option<usize>)
        requires
            self.wf(),
        ensures
            match r {
                Some(idx) => self.order().len() > 0 && idx == self.order().last(),
                None => self.order().len() == 0,
            },
    {
        proof {
            if self.order@.len() > 0 {
                assert(linked_at(self.order@, self.prev@, self.next@, self.order@.len() - 1));
            }
        }
        if self.tail == NONE {
            None
        } else {
            Some(self.tail)
        }
    }

    /// Put a slot in front.
    pub fn push_front(&mut self, idx: usize)
        requires
            old(self).wf(),
            idx < old(self).slots(),
            !old(self).order().contains(idx),
        ensures
            final(self).wf(),
            final(self).slots() == old(self).slots(),
            final(self).order() == seq![idx] + old(self).order(),
    {
        let ghost o = self.order@;
        let ghost n = seq![idx] + o;
        let head: usize = self.head;
        proof {
            if o.len() > 0 {
                assert(linked_at(o, self.prev@, self.next@, 0));
                assert(linked_at(o, self.prev@, self.next@, o.len() - 1));
            }
        }
        self.prev.set(idx, NONE);
        self.next.set(idx, head);
        if head != NONE {
            self.prev.set(head, idx);
        }
        self.head = idx;
        if self.tail == NONE {
            self.tail = idx;
        }
        self.order = Ghost(n);
        proof {
            lemma_pushed(o, old(self).prev@, old(self).next@, idx, self.prev@, self.next@);
        }
    }

    /// Take a slot out of the order.
    pub fn unlink(&mut self, idx: usize)
        requires
            old(self).wf(),
            old(self).order().contains(idx),
        ensures
            final(self).wf(),
            final(self).slots() == old(self).slots(),
            final(self).order() == without(old(self).order(), idx),
            !final(self).order().contains(idx),
    {
        let ghost o = self.order@;
        let ghost p = o.index_of(idx);
        let ghost n = o.remove(p);
        proof {
            assert(0 <= p < o.len() && o[p] == idx);
            assert(linked_at(o, self.prev@, self.next@, p));
        }
        let prev: usize = self.prev[idx];
        let next: usize = self.next[idx];
        proof {
            if p > 0 {
                assert(linked_at(o, self.prev@, self.next@, p - 1));
            }
            if p + 1 < o.len() {
                assert(linked_at(o, self.prev@, self.next@, p + 1));
            }
        }
        if prev == NONE {
            self.head = next;
        } else {
            self.next.set(prev, next);
        }
        if next == NONE {
            self.tail = prev;
        } else {
            self.prev.set(next, prev);
        }
        self.order = Ghost(n);
        proof {
            lemma_removed(o, old(self).prev@, old(self).next@, p, self.prev@, self.next@);
            if p == 0 {
                assert(link(o, p - 1) == NONE);
            }
            assert(link(n, n.len() - 1) == (if p == o.len() - 1 {
                link(o, p - 1)
            } else {
                link(o, o.len() - 1)
            }));
            assert(link(n, 0) == (if p == 0 {
                link(o, 1)
            } else {
                link(o, 0)
            }));
        }
    }
}

/// Links after a slot was put in front.
proof fn lemma_pushed(
    o: Seq<usize>,
    prev: Seq<usize>,
    next: Seq<usize>,
    idx: usize,
    prev2: Seq<usize>,
    next2: Seq<usize>,
)
    requires
        linked(o, prev, next),
        o.no_duplicates(),
        prev.len() == next.len(),
        idx < prev.len(),
        !o.contains(idx),
        next2 == next.update(idx as int, link(o, 0)),
        prev2 == (if o.len() > 0 {
            prev.update(idx as int, NONE).update(o[0] as int, idx)
        } else {
            prev.update(idx as int, NONE)
        }),
    ensures
        linked(seq![idx] + o, prev2, next2),
        (seq![idx] + o).no_duplicates(),
{
    let n = seq![idx] + o;
    assert forall|i: int| 0 <= i < n.len() implies #[trigger] linked_at(n, prev2, next2, i) by {
        if o.len() > 0 {
            assert(o.contains(o[0]));
            assert(linked_at(o, prev, next, 0));
        }
        assert(link(n, i + 1) == link(o, i));
        if i > 0 {
            let x = o[i - 1];
            assert(linked_at(o, prev, next, i - 1));
            assert(n[i] == x);
            assert(o.contains(x));
            assert(x != idx);
            if i > 1 {
                assert(x != o[0]);
                assert(link(n, i - 1) == link(o, i - 2));
            }
        }
    }
    assert forall|i: int, j: int| 0 <= i < n.len() && 0 <= j < n.len() && i != j implies n[i]
        != n[j] by {
        if i > 0 {
            assert(o.contains(o[i - 1]));
        }
        if j > 0 {
            assert(o.contains(o[j - 1]));
        }
    }
}

/// Links after a slot was taken out.
proof fn lemma_removed(
    o: Seq<usize>,
    prev: Seq<usize>,
    next: Seq<usize>,
    p: int,
    prev2: Seq<usize>,
    next2: Seq<usize>,
)
    requires
        linked(o, prev, next),
        o.no_duplicates(),
        prev.len() == next.len(),
        0 <= p < o.len(),
        next2 == (if p > 0 {
            next.update(o[p - 1] as int, link(o, p + 1))
        } else {
            next
        }),
        prev2 == (if p + 1 < o.len() {
            prev.update(o[p + 1] as int, link(o, p - 1))
        } else {
            prev
        }),
    ensures
        linked(o.remove(p), prev2, next2),
        o.remove(p).no_duplicates(),
        !o.remove(p).contains(o[p]),
{
    let n = o.remove(p);
    assert forall|i: int| 0 <= i < n.len() implies #[trigger] linked_at(n, prev2, next2, i) by {
        let k = if i < p {
            i
        } else {
            i + 1
        };
        let x = o[k];
        assert(n[i] == x);
        if p > 0 && k != p - 1 {
            assert(o[p - 1] != x);
        }
        if p + 1 < o.len() && k != p + 1 {
            assert(o[p + 1] != x);
        }
        assert(linked_at(o, prev, next, k));
        if p > 0 {
            assert(linked_at(o, prev, next, p - 1));
        }
        if p + 1 < o.len() {
            assert(linked_at(o, prev, next, p + 1));
        }
        assert(link(n, i + 1) == (if i + 1 < p {
            link(o, i + 1)
        } else {
            link(o, i + 2)
        }));
        assert(link(n, i - 1) == (if i - 1 < p {
            link(o, i - 1)
        } else {
            link(o, i)
        }));
    }
    assert forall|i: int, j: int| 0 <= i < n.len() && 0 <= j < n.len() && i != j implies n[i]
        != n[j] by {
        let a = if i < p {
            i
        } else {
            i + 1
        };
        let b = if j < p {
            j
        } else {
            j + 1
        };
        assert(o[a] != o[b]);
    }
    if n.contains(o[p]) {
        let i = choose|i: int| 0 <= i < n.len() && n[i] == o[p];
        let a = if i < p {
            i
        } else {
            i + 1
        };
        assert(o[a] == o[p]);
    }
}

/// The order without a slot.
pub open spec fn without(order: Seq<usize>, idx: usize) -> Seq<usize> {
    order.remove(order.index_of(idx))
}

} // verus!
