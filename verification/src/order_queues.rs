//! One side of the book: a price-time priority queue of resting limit
//! orders with id-keyed mutation.
//!
//! The queue keeps its entries as a vector sorted by priority, best entry
//! first. Priority is the pair (price, timestamp): the bid side prefers the
//! highest price, the ask side the lowest, and within a price level the
//! earliest timestamp wins. Entries with equal price and timestamp keep
//! their insertion order, so insertion is stable. Because cancel and amend
//! remove their entry outright, the queue never holds stale entries and a
//! stall budget is trivially respected.
use vstd::prelude::*;

use crate::decimal::Decimal;
use crate::domain::Order;
use crate::domain::OrderId;
use crate::domain::OrderSide;

verus! {

/// A queue entry: the resting order together with the timestamp that fixes
/// its place within its price level.
#[derive(Clone, Copy, Debug, PartialEq, Eq, Structural)]
pub struct QueueEntry {
    pub ts: u64,
    pub order: Order,
}

/// Whether entry `a` strictly beats entry `b` on side `side`: a strictly
/// better price, or the same price value and a strictly earlier timestamp.
pub open spec fn prio_gt(side: OrderSide, a: QueueEntry, b: QueueEntry) -> bool {
    if a.order.price.units() == b.order.price.units() {
        a.ts < b.ts
    } else {
        match side {
            OrderSide::Bid => a.order.price.units() > b.order.price.units(),
            OrderSide::Ask => a.order.price.units() < b.order.price.units(),
        }
    }
}

/// Strict priority is transitive.
pub proof fn lemma_prio_trans(side: OrderSide, a: QueueEntry, b: QueueEntry, c: QueueEntry)
    requires
        prio_gt(side, a, b),
        prio_gt(side, b, c),
    ensures
        prio_gt(side, a, c),
{
}

/// The entries are ordered best first: no later entry strictly beats an
/// earlier one.
pub open spec fn sorted(side: OrderSide, m: Seq<QueueEntry>) -> bool {
    forall|i: int, j: int|
        0 <= i < j < m.len() ==> !prio_gt(side, #[trigger] m[j], #[trigger] m[i])
}

/// No two entries carry the same order id.
pub open spec fn unique_ids(m: Seq<QueueEntry>) -> bool {
    forall|i: int, j: int|
        #![trigger m[i].order.order_id, m[j].order.order_id]
        0 <= i < j < m.len() ==> m[i].order.order_id != m[j].order.order_id
}

/// Every entry belongs to this side and is well-formed.
pub open spec fn entries_wf(side: OrderSide, m: Seq<QueueEntry>) -> bool {
    forall|i: int|
        0 <= i < m.len() ==> (#[trigger] m[i]).order.side == side && m[i].order.wf()
}

/// Whether some entry carries the given order id.
pub open spec fn contains_id(m: Seq<QueueEntry>, id: OrderId) -> bool {
    exists|i: int| 0 <= i < m.len() && (#[trigger] m[i]).order.order_id == id
}

/// The index of the first entry with the given id.
pub open spec fn index_of_id(m: Seq<QueueEntry>, id: OrderId) -> int
    decreases m.len(),
{
    if m.len() == 0 {
        0
    } else if m[0].order.order_id == id {
        0
    } else {
        1 + index_of_id(m.drop_first(), id)
    }
}

pub proof fn lemma_index_of_id(m: Seq<QueueEntry>, id: OrderId)
    requires
        contains_id(m, id),
    ensures
        0 <= index_of_id(m, id) < m.len(),
        m[index_of_id(m, id)].order.order_id == id,
        forall|k: int| 0 <= k < index_of_id(m, id) ==> (#[trigger] m[k]).order.order_id != id,
    decreases m.len(),
{
    if m.len() > 0 && m[0].order.order_id != id {
        let i = choose|i: int| 0 <= i < m.len() && (#[trigger] m[i]).order.order_id == id;
        assert(m.drop_first()[i - 1] == m[i]);
        lemma_index_of_id(m.drop_first(), id);
        assert forall|k: int| 0 <= k < index_of_id(m, id) implies (#[trigger] m[k]).order.order_id
            != id by {
            if k > 0 {
                assert(m.drop_first()[k - 1] == m[k]);
            }
        }
    }
}

/// The position at which a new entry is placed: after every entry it does
/// not strictly beat, so insertion is stable within a price level.
pub open spec fn insert_pos(side: OrderSide, m: Seq<QueueEntry>, e: QueueEntry) -> int
    decreases m.len(),
{
    if m.len() == 0 {
        0
    } else if prio_gt(side, e, m[0]) {
        0
    } else {
        1 + insert_pos(side, m.drop_first(), e)
    }
}

pub proof fn lemma_insert_pos(side: OrderSide, m: Seq<QueueEntry>, e: QueueEntry)
    ensures
        0 <= insert_pos(side, m, e) <= m.len(),
        forall|k: int| 0 <= k < insert_pos(side, m, e) ==> !prio_gt(side, e, #[trigger] m[k]),
        insert_pos(side, m, e) < m.len() ==> prio_gt(side, e, m[insert_pos(side, m, e)]),
    decreases m.len(),
{
    if m.len() > 0 && !prio_gt(side, e, m[0]) {
        lemma_insert_pos(side, m.drop_first(), e);
        let p = insert_pos(side, m, e);
        assert forall|k: int| 0 <= k < p implies !prio_gt(side, e, #[trigger] m[k]) by {
            if k > 0 {
                assert(m.drop_first()[k - 1] == m[k]);
            }
        }
        if p < m.len() {
            assert(m.drop_first()[p - 1] == m[p]);
        }
    }
}

/// The model of placing a new entry.
pub open spec fn insert_spec(side: OrderSide, m: Seq<QueueEntry>, e: QueueEntry) -> Seq<
    QueueEntry,
> {
    m.insert(insert_pos(side, m, e), e)
}

/// The model of removing the entry with the given id, if it is live.
pub open spec fn cancel_spec(m: Seq<QueueEntry>, id: OrderId) -> Seq<QueueEntry> {
    if contains_id(m, id) {
        m.remove(index_of_id(m, id))
    } else {
        m
    }
}

/// The live quantity resting in a queue model, in 10^-18 units.
pub open spec fn qty_sum(m: Seq<QueueEntry>) -> int
    decreases m.len(),
{
    if m.len() == 0 {
        0
    } else {
        m[0].order.qty.units() + qty_sum(m.drop_first())
    }
}

pub struct OrderQueue {
    /// The side of the book this queue holds; fixed at construction.
    pub side: OrderSide,
    pub orders: Vec<QueueEntry>,
}

impl View for OrderQueue {
    type V = Seq<QueueEntry>;

    open spec fn view(&self) -> Seq<QueueEntry> {
        self.orders@
    }
}

impl OrderQueue {
    /// The queue invariant: sorted best first, ids unique, entries of this
    /// side and well-formed.
    pub open spec fn wf(self) -> bool {
        &&& sorted(self.side, self@)
        &&& unique_ids(self@)
        &&& entries_wf(self.side, self@)
    }

    /// Create an empty queue for one side. This representation keeps no
    /// stale entries, so the stall budget only documents the caller's
    /// intent.
    #[allow(unused_variables)]
    pub fn new(side: OrderSide, max_stalled: u64, capacity: usize) -> (r: OrderQueue)
        ensures
            r.side == side,
            r@ =~= Seq::<QueueEntry>::empty(),
            r.wf(),
    {
        OrderQueue { side, orders: Vec::with_capacity(capacity) }
    }

    pub fn len(&self) -> (r: usize)
        ensures
            r == self@.len(),
    {
        self.orders.len()
    }

    /// A snapshot of the best-priority live order, if any. No live entry
    /// strictly beats the returned one.
    pub fn peek(&self) -> (r: Option<Order>)
        requires
            self.wf(),
        ensures
            self@.len() == 0 ==> r is None,
            self@.len() > 0 ==> r == Some(self@[0].order),
            r matches Some(o) ==> forall|k: int|
                0 <= k < self@.len() ==> !prio_gt(self.side, #[trigger] self@[k], self@[0]),
    {
        if self.orders.len() > 0 {
            Some(self.orders[0].order)
        } else {
            None
        }
    }

    /// Like peek, but removes the returned order; its id is no longer live
    /// afterwards.
    pub fn pop(&mut self) -> (r: Option<Order>)
        requires
            old(self).wf(),
        ensures
            final(self).side == old(self).side,
            final(self).wf(),
            old(self)@.len() == 0 ==> r is None && final(self)@ == old(self)@,
            old(self)@.len() > 0 ==> r == Some(old(self)@[0].order) && final(self)@ == old(
                self,
            )@.drop_first(),
            r matches Some(o) ==> forall|k: int|
                0 <= k < old(self)@.len() ==> !prio_gt(
                    old(self).side,
                    #[trigger] old(self)@[k],
                    old(self)@[0],
                ),
    {
        if self.orders.len() > 0 {
            let e = self.orders.remove(0);
            proof {
                assert(self@ =~= old(self)@.drop_first());
            }
            Some(e.order)
        } else {
            None
        }
    }

    /// The index of the live entry with this id, if any.
    fn find_index(&self, id: OrderId) -> (r: Option<usize>)
        ensures
            r is None ==> !contains_id(self@, id),
            r matches Some(i) ==> 0 <= i < self@.len() && self@[i as int].order.order_id == id,
    {
        let n = self.orders.len();
        let mut i: usize = 0;
        while i < n
            invariant
                n == self@.len(),
                0 <= i <= n,
                forall|k: int| 0 <= k < i ==> (#[trigger] self@[k]).order.order_id != id,
            decreases n - i,
        {
            if self.orders[i].order.order_id.0 == id.0 {
                return Some(i);
            }
            i = i + 1;
        }
        None
    }

    /// Whether an order with this id is live in the queue.
    pub fn contains(&self, id: OrderId) -> (r: bool)
        ensures
            r == contains_id(self@, id),
    {
        match self.find_index(id) {
            Some(i) => {
                proof {
                    assert(contains_id(self@, id));
                }
                true
            },
            None => false,
        }
    }

    /// Remove an order by id. Returns false when the id is not live.
    pub fn cancel(&mut self, id: OrderId) -> (r: bool)
        requires
            old(self).wf(),
        ensures
            final(self).side == old(self).side,
            final(self).wf(),
            r == contains_id(old(self)@, id),
            final(self)@ == cancel_spec(old(self)@, id),
            !contains_id(final(self)@, id),
    {
        match self.find_index(id) {
            None => {
                assert(self@ == cancel_spec(old(self)@, id));
                false
            },
            Some(i) => {
                proof {
                    lemma_index_of_id(old(self)@, id);
                }
                self.orders.remove(i);
                proof {
                    let m = old(self)@;
                    assert(i == index_of_id(m, id));
                    m.remove_ensures(i as int);
                    assert(self@ =~= cancel_spec(m, id));
                    lemma_remove_keeps_wf(old(self).side, m, i as int);
                    assert forall|k: int|
                        0 <= k < self@.len() implies (#[trigger] self@[k]).order.order_id
                        != id by {}
                }
                true
            },
        }
    }
}

/// Removing one entry preserves order, uniqueness and well-formedness.
pub proof fn lemma_remove_keeps_wf(side: OrderSide, m: Seq<QueueEntry>, i: int)
    requires
        0 <= i < m.len(),
        sorted(side, m),
        unique_ids(m),
        entries_wf(side, m),
    ensures
        sorted(side, m.remove(i)),
        unique_ids(m.remove(i)),
        entries_wf(side, m.remove(i)),
{
    m.remove_ensures(i);
}

/// If `a` strictly beats `b` and `c` does not, then `a` strictly beats `c`.
pub proof fn lemma_prio_conn(side: OrderSide, a: QueueEntry, b: QueueEntry, c: QueueEntry)
    requires
        prio_gt(side, a, b),
        !prio_gt(side, c, b),
    ensures
        prio_gt(side, a, c),
{
}

/// Placing a fresh entry at its position preserves the queue invariant, and
/// the live ids afterwards are the old ones plus the new entry's.
pub proof fn lemma_insert_keeps_wf(side: OrderSide, m: Seq<QueueEntry>, e: QueueEntry)
    requires
        sorted(side, m),
        unique_ids(m),
        entries_wf(side, m),
        e.order.side == side,
        e.order.wf(),
        !contains_id(m, e.order.order_id),
    ensures
        sorted(side, insert_spec(side, m, e)),
        unique_ids(insert_spec(side, m, e)),
        entries_wf(side, insert_spec(side, m, e)),
        forall|id: OrderId|
            #[trigger] contains_id(insert_spec(side, m, e), id) <==> contains_id(m, id) || id
                == e.order.order_id,
{
    let p = insert_pos(side, m, e);
    let n = insert_spec(side, m, e);
    lemma_insert_pos(side, m, e);
    m.insert_ensures(p, e);
    assert forall|i: int, j: int| 0 <= i < j < n.len() implies !prio_gt(
        side,
        #[trigger] n[j],
        #[trigger] n[i],
    ) by {
        if i < p && j == p {
            // the new entry does not beat what stands before it
        } else if i == p && j > p {
            // nothing after the new entry beats it
            assert(n[j] == m[j - 1]);
            if prio_gt(side, n[j], e) {
                assert(prio_gt(side, e, m[p]));
                if j - 1 > p {
                    assert(!prio_gt(side, m[j - 1], m[p]));
                    lemma_prio_conn(side, m[j - 1], e, m[j - 1]);
                    lemma_prio_trans(side, m[j - 1], e, m[p]);
                } else {
                    lemma_prio_trans(side, m[p], e, m[p]);
                }
                assert(false);
            }
        } else if j < p {
            assert(n[i] == m[i] && n[j] == m[j]);
        } else if i > p {
            assert(n[i] == m[i - 1] && n[j] == m[j - 1]);
        } else if i < p && j > p {
            assert(n[i] == m[i] && n[j] == m[j - 1]);
        }
    }
    assert forall|i: int, j: int|
        #![trigger n[i].order.order_id, n[j].order.order_id]
        0 <= i < j < n.len() implies n[i].order.order_id != n[j].order.order_id by {
        if i == p || j == p {
            // the new id is live nowhere else
        }
    }
    assert forall|id: OrderId| #[trigger]
        contains_id(n, id) <==> contains_id(m, id) || id == e.order.order_id by {
        if contains_id(n, id) {
            let k = choose|k: int| 0 <= k < n.len() && (#[trigger] n[k]).order.order_id == id;
            if k < p {
                assert(m[k].order.order_id == id);
            } else if k > p {
                assert(m[k - 1].order.order_id == id);
            }
        }
        if contains_id(m, id) {
            let k = choose|k: int| 0 <= k < m.len() && (#[trigger] m[k]).order.order_id == id;
            if k < p {
                assert(n[k].order.order_id == id);
            } else {
                assert(n[k + 1].order.order_id == id);
            }
        }
        if id == e.order.order_id {
            assert(n[p].order.order_id == id);
        }
    }
}

/// The loop that scans for the insertion point finds exactly `insert_pos`.
proof fn lemma_insert_pos_unique(side: OrderSide, m: Seq<QueueEntry>, e: QueueEntry, i: int)
    requires
        0 <= i <= m.len(),
        forall|k: int| 0 <= k < i ==> !prio_gt(side, e, #[trigger] m[k]),
        i < m.len() ==> prio_gt(side, e, m[i]),
    ensures
        insert_pos(side, m, e) == i,
    decreases m.len(),
{
    if m.len() > 0 && !prio_gt(side, e, m[0]) {
        assert forall|k: int| 0 <= k < i - 1 implies !prio_gt(
            side,
            e,
            #[trigger] m.drop_first()[k],
        ) by {
            assert(m.drop_first()[k] == m[k + 1]);
        }
        if i - 1 < m.drop_first().len() {
            assert(m.drop_first()[i - 1] == m[i]);
        }
        lemma_insert_pos_unique(side, m.drop_first(), e, i - 1);
    }
}

impl OrderQueue {
    /// Whether `a` strictly beats `b` on this queue's side.
    fn entry_beats(side: OrderSide, a: &QueueEntry, b: &QueueEntry) -> (r: bool)
        requires
            a.order.price.wf(),
            b.order.price.wf(),
        ensures
            r == prio_gt(side, *a, *b),
    {
        if a.order.price.value_eq(&b.order.price) {
            a.ts < b.ts
        } else {
            match side {
                OrderSide::Bid => b.order.price.lt(&a.order.price),
                OrderSide::Ask => a.order.price.lt(&b.order.price),
            }
        }
    }

    /// Place an entry whose id is not live at its priority position.
    fn insert_entry(&mut self, e: QueueEntry)
        requires
            old(self).wf(),
            e.order.side == old(self).side,
            e.order.wf(),
            !contains_id(old(self)@, e.order.order_id),
        ensures
            final(self).side == old(self).side,
            final(self).wf(),
            final(self)@ == insert_spec(old(self).side, old(self)@, e),
    {
        let n = self.orders.len();
        let mut i: usize = 0;
        while i < n && !Self::entry_beats(self.side, &e, &self.orders[i])
            invariant
                *self == *old(self),
                self.wf(),
                e.order.wf(),
                n == self@.len(),
                0 <= i <= n,
                forall|k: int| 0 <= k < i ==> !prio_gt(self.side, e, #[trigger] self@[k]),
            decreases n - i,
        {
            i = i + 1;
        }
        proof {
            lemma_insert_pos_unique(self.side, self@, e, i as int);
            lemma_insert_keeps_wf(self.side, self@, e);
        }
        self.orders.insert(i, e);
    }

    /// Rest a new order. Fails, leaving the queue unchanged, exactly when
    /// the id is already live.
    pub fn insert(&mut self, id: OrderId, price: Decimal, ts: u64, order: Order) -> (r: bool)
        requires
            old(self).wf(),
            order.order_id == id,
            order.price == price,
            order.side == old(self).side,
            order.wf(),
        ensures
            final(self).side == old(self).side,
            final(self).wf(),
            r == !contains_id(old(self)@, id),
            contains_id(old(self)@, id) ==> final(self)@ == old(self)@,
            !contains_id(old(self)@, id) ==> final(self)@ == insert_spec(
                old(self).side,
                old(self)@,
                QueueEntry { ts, order },
            ),
    {
        match self.find_index(id) {
            Some(i) => {
                proof {
                    assert(contains_id(self@, id));
                }
                false
            },
            None => {
                self.insert_entry(QueueEntry { ts, order });
                true
            },
        }
    }

    /// Replace a live order's record and priority: the old entry is removed
    /// and a fresh entry with the new timestamp is placed, so the order
    /// loses its original queue position. Fails when the id is not live.
    pub fn amend(&mut self, id: OrderId, price: Decimal, ts: u64, order: Order) -> (r: bool)
        requires
            old(self).wf(),
            order.order_id == id,
            order.price == price,
            order.side == old(self).side,
            order.wf(),
        ensures
            final(self).side == old(self).side,
            final(self).wf(),
            r == contains_id(old(self)@, id),
            !contains_id(old(self)@, id) ==> final(self)@ == old(self)@,
            contains_id(old(self)@, id) ==> final(self)@ == insert_spec(
                old(self).side,
                cancel_spec(old(self)@, id),
                QueueEntry { ts, order },
            ),
    {
        if self.cancel(id) {
            self.insert_entry(QueueEntry { ts, order });
            true
        } else {
            false
        }
    }

    /// Replace the top-of-book record in place, preserving its priority;
    /// used to shrink the remaining quantity after a partial fill. A no-op
    /// when the supplied order's id does not match the current top.
    pub fn modify_current_order(&mut self, order: Order)
        requires
            old(self).wf(),
            order.side == old(self).side,
            order.wf(),
            old(self)@.len() > 0 && old(self)@[0].order.order_id == order.order_id ==> order.price
                == old(self)@[0].order.price,
        ensures
            final(self).side == old(self).side,
            final(self).wf(),
            old(self)@.len() > 0 && old(self)@[0].order.order_id == order.order_id
                ==> final(self)@ == old(self)@.update(0, QueueEntry { ts: old(self)@[0].ts, order }),
            !(old(self)@.len() > 0 && old(self)@[0].order.order_id == order.order_id)
                ==> final(self)@ == old(self)@,
    {
        if self.orders.len() > 0 {
            if self.orders[0].order.order_id.0 == order.order_id.0 {
                let ts = self.orders[0].ts;
                let e = QueueEntry { ts, order };
                self.orders.remove(0);
                self.orders.insert(0, e);
                proof {
                    let m = old(self)@;
                    assert(self@ =~= m.update(0, e));
                    assert forall|i: int, j: int| 0 <= i < j < self@.len() implies !prio_gt(
                        self.side,
                        #[trigger] self@[j],
                        #[trigger] self@[i],
                    ) by {
                        assert(self@[j] == m[j]);
                        if i > 0 {
                            assert(self@[i] == m[i]);
                        }
                    }
                }
            }
        }
    }
}

/// A new limit is the best of its side exactly when it strictly beats every
/// order already resting there.
pub proof fn lemma_insert_peek(side: OrderSide, m: Seq<QueueEntry>, e: QueueEntry)
    requires
        sorted(side, m),
        unique_ids(m),
        !contains_id(m, e.order.order_id),
    ensures
        insert_spec(side, m, e).len() > 0,
        insert_spec(side, m, e)[0].order == e.order <==> (forall|k: int|
            0 <= k < m.len() ==> prio_gt(side, e, #[trigger] m[k])),
{
    let p = insert_pos(side, m, e);
    let n = insert_spec(side, m, e);
    lemma_insert_pos(side, m, e);
    m.insert_ensures(p, e);
    if p == 0 {
        assert(n[0] == e);
        if m.len() > 0 {
            assert forall|k: int| 0 <= k < m.len() implies prio_gt(side, e, #[trigger] m[k]) by {
                if k > 0 {
                    lemma_prio_conn(side, e, m[0], m[k]);
                }
            }
        }
    } else {
        assert(n[0] == m[0]);
        assert(m[0].order.order_id != e.order.order_id);
        assert(!prio_gt(side, e, m[0]));
    }
}

/// Resting a fresh order and then cancelling it restores the queue model
/// exactly.
pub proof fn lemma_insert_then_cancel(side: OrderSide, m: Seq<QueueEntry>, e: QueueEntry)
    requires
        sorted(side, m),
        unique_ids(m),
        !contains_id(m, e.order.order_id),
    ensures
        cancel_spec(insert_spec(side, m, e), e.order.order_id) =~= m,
{
    let id = e.order.order_id;
    let p = insert_pos(side, m, e);
    let n = insert_spec(side, m, e);
    lemma_insert_pos(side, m, e);
    m.insert_ensures(p, e);
    assert(n[p].order.order_id == id);
    assert(contains_id(n, id));
    lemma_index_of_id(n, id);
    let idx = index_of_id(n, id);
    if idx < p {
        assert(m[idx].order.order_id == id);
        assert(contains_id(m, id));
        assert(false);
    }
    assert(idx == p);
    n.remove_ensures(p);
    assert forall|k: int| 0 <= k < m.len() implies n.remove(p)[k] == m[k] by {
        if k >= p {
            assert(n.remove(p)[k] == n[k + 1]);
        }
    }
}

/// Within one price level the earlier timestamp stands first, so an amended
/// order — which always carries a fresh timestamp — stands behind every
/// same-price order that arrived before the amendment.
pub proof fn lemma_earlier_ts_stands_first(side: OrderSide, m: Seq<QueueEntry>, j: int, k: int)
    requires
        sorted(side, m),
        0 <= j < m.len(),
        0 <= k < m.len(),
        m[j].order.price.units() == m[k].order.price.units(),
        m[j].ts < m[k].ts,
    ensures
        j < k,
{
    if j > k {
        assert(prio_gt(side, m[j], m[k]));
    }
}

/// Cancelling removes the id entirely and introduces no other id.
pub proof fn lemma_cancel_spec_ids(m: Seq<QueueEntry>, id: OrderId)
    requires
        unique_ids(m),
    ensures
        !contains_id(cancel_spec(m, id), id),
        forall|x: OrderId| #[trigger] contains_id(cancel_spec(m, id), x) ==> contains_id(m, x),
{
    if contains_id(m, id) {
        lemma_index_of_id(m, id);
        let i = index_of_id(m, id);
        let n = m.remove(i);
        m.remove_ensures(i);
        assert forall|x: OrderId| #[trigger] contains_id(n, x) implies contains_id(m, x) by {
            let k = choose|k: int| 0 <= k < n.len() && (#[trigger] n[k]).order.order_id == x;
            if k < i {
                assert(m[k].order.order_id == x);
            } else {
                assert(m[k + 1].order.order_id == x);
            }
        }
        if contains_id(n, id) {
            let k = choose|k: int| 0 <= k < n.len() && (#[trigger] n[k]).order.order_id == id;
            if k < i {
                assert(m[k].order.order_id == id);
            } else {
                assert(m[k + 1].order.order_id == id);
            }
            assert(false);
        }
    }
}

/// Dropping the first entry introduces no id.
pub proof fn lemma_drop_first_ids(m: Seq<QueueEntry>)
    requires
        m.len() > 0,
    ensures
        forall|x: OrderId| #[trigger] contains_id(m.drop_first(), x) ==> contains_id(m, x),
{
    assert forall|x: OrderId| #[trigger] contains_id(m.drop_first(), x) implies contains_id(
        m,
        x,
    ) by {
        let k = choose|k: int|
            0 <= k < m.drop_first().len() && (#[trigger] m.drop_first()[k]).order.order_id == x;
        assert(m[k + 1].order.order_id == x);
    }
}

/// Replacing the top entry with one of the same id keeps the id set.
pub proof fn lemma_update_head_ids(m: Seq<QueueEntry>, e: QueueEntry)
    requires
        m.len() > 0,
        e.order.order_id == m[0].order.order_id,
    ensures
        forall|x: OrderId| #[trigger] contains_id(m.update(0, e), x) ==> contains_id(m, x),
{
    assert forall|x: OrderId| #[trigger] contains_id(m.update(0, e), x) implies contains_id(
        m,
        x,
    ) by {
        let n = m.update(0, e);
        let k = choose|k: int| 0 <= k < n.len() && (#[trigger] n[k]).order.order_id == x;
        if k == 0 {
            assert(m[0].order.order_id == x);
        } else {
            assert(m[k].order.order_id == x);
        }
    }
}

/// Placing an entry adds its quantity to the live total.
pub proof fn lemma_qty_sum_insert(m: Seq<QueueEntry>, i: int, e: QueueEntry)
    requires
        0 <= i <= m.len(),
    ensures
        qty_sum(m.insert(i, e)) == qty_sum(m) + e.order.qty.units(),
    decreases m.len(),
{
    let n = m.insert(i, e);
    m.insert_ensures(i, e);
    if i == 0 {
        assert(n[0] == e);
        assert(n.drop_first() =~= m);
    } else {
        assert(n[0] == m[0]);
        assert(n.drop_first() =~= m.drop_first().insert(i - 1, e)) by {
            m.drop_first().insert_ensures(i - 1, e);
        }
        lemma_qty_sum_insert(m.drop_first(), i - 1, e);
    }
}

/// Removing an entry subtracts its quantity from the live total.
pub proof fn lemma_qty_sum_remove(m: Seq<QueueEntry>, i: int)
    requires
        0 <= i < m.len(),
    ensures
        qty_sum(m.remove(i)) == qty_sum(m) - m[i].order.qty.units(),
    decreases m.len(),
{
    let n = m.remove(i);
    m.remove_ensures(i);
    if i == 0 {
        assert(n =~= m.drop_first());
    } else {
        assert(n[0] == m[0]);
        assert(n.drop_first() =~= m.drop_first().remove(i - 1)) by {
            m.drop_first().remove_ensures(i - 1);
        }
        lemma_qty_sum_remove(m.drop_first(), i - 1);
        assert(m.drop_first()[i - 1] == m[i]);
    }
}

/// Cancelling removes exactly the cancelled order's quantity from the live
/// total; no other quantity changes.
pub proof fn lemma_qty_sum_cancel(m: Seq<QueueEntry>, id: OrderId)
    requires
        contains_id(m, id),
    ensures
        qty_sum(cancel_spec(m, id)) == qty_sum(m) - m[index_of_id(m, id)].order.qty.units(),
{
    lemma_index_of_id(m, id);
    lemma_qty_sum_remove(m, index_of_id(m, id));
}

/// Replacing an entry shifts the live total by the difference in quantity.
pub proof fn lemma_qty_sum_update(m: Seq<QueueEntry>, i: int, e: QueueEntry)
    requires
        0 <= i < m.len(),
    ensures
        qty_sum(m.update(i, e)) == qty_sum(m) - m[i].order.qty.units() + e.order.qty.units(),
    decreases m.len(),
{
    let n = m.update(i, e);
    if i == 0 {
        assert(n[0] == e);
        assert(n.drop_first() =~= m.drop_first());
    } else {
        assert(n[0] == m[0]);
        assert(n.drop_first() =~= m.drop_first().update(i - 1, e));
        lemma_qty_sum_update(m.drop_first(), i - 1, e);
        assert(m.drop_first()[i - 1] == m[i]);
    }
}

} // verus!
