//! One price level: the resting orders at one price, oldest first, and their cached total.

use crate::decimal::Decimal;
use crate::linked_orders::{
    has_id, position_of, queue_entries, queue_front, queue_get, queue_len, queue_new, queue_push,
    queue_remove, queue_set, queue_to_vec,
};
use crate::OrderId;
use linked_hash_map::LinkedHashMap;
use vstd::prelude::*;

verus! {

/// A resting order: its id and the part of it that is still unfilled.
#[derive(Clone, Copy, PartialEq, Eq, Debug, Structural)]
pub struct Order {
    pub id: OrderId,
    pub unfilled: Decimal,
}

/// The sum of the unfilled units over a queue.
pub open spec fn total_unfilled(q: Seq<(u64, i64)>) -> int
    decreases q.len(),
{
    if q.len() == 0 {
        0
    } else {
        q[0].1 + total_unfilled(q.skip(1))
    }
}

/// A queue is well formed when every order in it has a positive unfilled part and no id
/// occurs twice.
pub open spec fn queue_wf(q: Seq<(u64, i64)>) -> bool {
    &&& forall|k: int| 0 <= k < q.len() ==> (#[trigger] q[k]).1 > 0
    &&& forall|j: int, k: int| 0 <= j < k < q.len() ==> (#[trigger] q[j]).0 != (#[trigger] q[k]).0
}

/// Where `position_of` points: at the entry with the wanted id, or behind the queue.
pub proof fn lemma_position_of(q: Seq<(u64, i64)>, id: u64)
    ensures
        0 <= position_of(q, id) <= q.len(),
        has_id(q, id) <==> position_of(q, id) < q.len(),
        position_of(q, id) < q.len() ==> q[position_of(q, id)].0 == id,
        forall|k: int| 0 <= k < position_of(q, id) ==> (#[trigger] q[k]).0 != id,
    decreases q.len(),
{
    if q.len() == 0 || q[0].0 == id {
    } else {
        let rest = q.skip(1);
        lemma_position_of(rest, id);
        let p = position_of(rest, id);
        assert forall|k: int| 0 <= k < 1 + p implies (#[trigger] q[k]).0 != id by {
            if k > 0 {
                assert(rest[k - 1] == q[k]);
            }
        }
        if p < rest.len() {
            assert(rest[p] == q[p + 1]);
        }
        if has_id(q, id) {
            let i = choose|i: int| 0 <= i < q.len() && (#[trigger] q[i]).0 == id;
            assert(rest[i - 1] == q[i]);
        }
    }
}

/// In a well-formed queue an id is found exactly where it stands.
pub proof fn lemma_position_unique(q: Seq<(u64, i64)>, k: int)
    requires
        queue_wf(q),
        0 <= k < q.len(),
    ensures
        has_id(q, q[k].0),
        position_of(q, q[k].0) == k,
{
    lemma_position_of(q, q[k].0);
}

/// An order appended to a queue adds its unfilled units to the total.
pub proof fn lemma_total_push(q: Seq<(u64, i64)>, e: (u64, i64))
    ensures
        total_unfilled(q.push(e)) == total_unfilled(q) + e.1,
    decreases q.len(),
{
    if q.len() == 0 {
        assert(q.push(e).skip(1) =~= Seq::<(u64, i64)>::empty());
        assert(total_unfilled(q.push(e).skip(1)) == 0);
    } else {
        assert(q.push(e).skip(1) =~= q.skip(1).push(e));
        lemma_total_push(q.skip(1), e);
    }
}

/// An order taken out of a queue takes its unfilled units off the total.
pub proof fn lemma_total_remove(q: Seq<(u64, i64)>, i: int)
    requires
        0 <= i < q.len(),
    ensures
        total_unfilled(q.remove(i)) == total_unfilled(q) - q[i].1,
    decreases q.len(),
{
    if i == 0 {
        assert(q.remove(0) =~= q.skip(1));
    } else {
        assert(q.remove(i).skip(1) =~= q.skip(1).remove(i - 1));
        lemma_total_remove(q.skip(1), i - 1);
    }
}

/// An order that is replaced changes the total by the difference of the unfilled units.
pub proof fn lemma_total_update(q: Seq<(u64, i64)>, i: int, e: (u64, i64))
    requires
        0 <= i < q.len(),
    ensures
        total_unfilled(q.update(i, e)) == total_unfilled(q) - q[i].1 + e.1,
    decreases q.len(),
{
    if i == 0 {
        assert(q.update(0, e).skip(1) =~= q.skip(1));
    } else {
        assert(q.update(i, e).skip(1) =~= q.skip(1).update(i - 1, e));
        lemma_total_update(q.skip(1), i - 1, e);
    }
}

/// A queue of orders with positive sizes has a positive total, unless it is empty.
pub proof fn lemma_total_positive(q: Seq<(u64, i64)>)
    requires
        forall|k: int| 0 <= k < q.len() ==> (#[trigger] q[k]).1 > 0,
    ensures
        total_unfilled(q) >= 0,
        q.len() > 0 ==> total_unfilled(q) >= q[0].1 > 0,
    decreases q.len(),
{
    if q.len() > 0 {
        let rest = q.skip(1);
        assert forall|k: int| 0 <= k < rest.len() implies (#[trigger] rest[k]).1 > 0 by {
            assert(rest[k] == q[k + 1]);
        }
        lemma_total_positive(rest);
    }
}

/// No order has more unfilled units than a price or size can hold.
proof fn lemma_total_at_most(q: Seq<(u64, i64)>)
    ensures
        total_unfilled(q) <= q.len() * 0x7fff_ffff_ffff_ffff,
    decreases q.len(),
{
    if q.len() > 0 {
        lemma_total_at_most(q.skip(1));
        assert(q.len() * 0x7fff_ffff_ffff_ffff == (q.len() - 1) * 0x7fff_ffff_ffff_ffff
            + 0x7fff_ffff_ffff_ffff) by (nonlinear_arith);
    }
}

/// No queue of distinct ids is longer than there are ids.
proof fn lemma_distinct_ids_len(q: Seq<(u64, i64)>)
    requires
        queue_wf(q),
    ensures
        q.len() <= 0x1_0000_0000_0000_0000,
{
    let ids = Seq::new(q.len(), |k: int| q[k].0 as int);
    assert forall|j: int, k: int| 0 <= j < ids.len() && 0 <= k < ids.len() && j != k implies ids[j]
        != ids[k] by {
        if j < k {
            assert(q[j].0 != q[k].0);
        } else {
            assert(q[k].0 != q[j].0);
        }
    }
    ids.unique_seq_to_set();
    let all = vstd::set_lib::set_int_range(0, 0x1_0000_0000_0000_0000);
    vstd::set_lib::lemma_int_range(0, 0x1_0000_0000_0000_0000);
    assert forall|x: int| ids.to_set().contains(x) implies all.contains(x) by {
        let k = choose|k: int| 0 <= k < ids.len() && ids[k] == x;
        assert(ids[k] == q[k].0 as int);
    }
    vstd::set_lib::lemma_len_subset(ids.to_set(), all);
}

/// The total of a well-formed queue fits the cached amount, however many orders rest.
pub proof fn lemma_total_fits(q: Seq<(u64, i64)>)
    requires
        queue_wf(q),
    ensures
        0 <= total_unfilled(q) <= i128::MAX,
{
    lemma_total_positive(q);
    lemma_total_at_most(q);
    lemma_distinct_ids_len(q);
    assert(q.len() * 0x7fff_ffff_ffff_ffff <= 0x1_0000_0000_0000_0000 * 0x7fff_ffff_ffff_ffff)
        by (nonlinear_arith)
        requires
            q.len() <= 0x1_0000_0000_0000_0000,
    ;
}

/// All resting orders at one price, oldest first, with their cached total.
pub struct OrderbookPage {
    /// The orders in arrival order: order id to unfilled units.
    pub orders: LinkedHashMap<u64, i64>,
    /// The sum of the unfilled units of the orders of this page.
    pub amount: i128,
}

impl View for OrderbookPage {
    type V = Seq<(u64, i64)>;

    open spec fn view(&self) -> Seq<(u64, i64)> {
        queue_entries(self.orders)
    }
}

impl OrderbookPage {
    /// The queue is well formed and the cached amount is its total.
    pub open spec fn wf(&self) -> bool {
        &&& queue_wf(self@)
        &&& self.amount == total_unfilled(self@)
    }

    /// A page that holds the one order given.
    pub fn new(order: &Order) -> (page: OrderbookPage)
        requires
            order.unfilled.units > 0,
        ensures
            page.wf(),
            page@ == seq![(order.id, order.unfilled.units)],
    {
        let mut orders = queue_new();
        queue_push(&mut orders, order.id, order.unfilled.units);
        let page = OrderbookPage { orders, amount: order.unfilled.units as i128 };
        proof {
            assert(page@ =~= seq![(order.id, order.unfilled.units)]);
            lemma_total_push(Seq::<(u64, i64)>::empty(), (order.id, order.unfilled.units));
        }
        page
    }

    /// Appends an order behind all others of the page.
    pub fn insert(&mut self, order: &Order)
        requires
            old(self).wf(),
            order.unfilled.units > 0,
            !has_id(old(self)@, order.id),
        ensures
            final(self).wf(),
            final(self)@ == old(self)@.push((order.id, order.unfilled.units)),
    {
        let ghost before = self@;
        let ghost after = before.push((order.id, order.unfilled.units));
        proof {
            assert forall|j: int, k: int| 0 <= j < k < after.len() implies (#[trigger] after[j]).0
                != (#[trigger] after[k]).0 by {
                if k == before.len() {
                    assert(before[j].0 != order.id);
                }
            }
            lemma_total_push(before, (order.id, order.unfilled.units));
            lemma_total_fits(after);
        }
        queue_push(&mut self.orders, order.id, order.unfilled.units);
        self.amount = self.amount + order.unfilled.units as i128;
    }

    /// Removes the order with the given id and takes its unfilled part off the amount.
    /// The page itself stays, even when it is left empty.
    pub fn remove(&mut self, order_id: &OrderId) -> (removed: Option<Order>)
        requires
            old(self).wf(),
        ensures
            final(self).wf(),
            !has_id(old(self)@, *order_id) ==> removed.is_none() && final(self)@ == old(self)@,
            has_id(old(self)@, *order_id) ==> final(self)@ == old(self)@.remove(
                position_of(old(self)@, *order_id),
            ) && removed == Some(
                Order {
                    id: *order_id,
                    unfilled: Decimal {
                        units: old(self)@[position_of(old(self)@, *order_id)].1,
                    },
                },
            ),
    {
        let ghost before = self@;
        proof {
            lemma_position_of(before, *order_id);
        }
        match queue_remove(&mut self.orders, *order_id) {
            Some(units) => {
                proof {
                    let p = position_of(before, *order_id);
                    lemma_total_remove(before, p);
                    lemma_total_fits(before);
                    lemma_queue_wf_remove(before, p);
                    lemma_total_fits(before.remove(p));
                }
                self.amount = self.amount - units as i128;
                Some(Order { id: *order_id, unfilled: Decimal { units } })
            },
            None => None,
        }
    }

    /// The order with the given id, if it rests on this page.
    pub fn get(&self, order_id: &OrderId) -> (found: Option<Order>)
        ensures
            !has_id(self@, *order_id) ==> found.is_none(),
            has_id(self@, *order_id) ==> found == Some(
                Order {
                    id: *order_id,
                    unfilled: Decimal { units: self@[position_of(self@, *order_id)].1 },
                },
            ),
    {
        match queue_get(&self.orders, *order_id) {
            Some(units) => Some(Order { id: *order_id, unfilled: Decimal { units } }),
            None => None,
        }
    }

    /// The oldest order of the page.
    pub fn front(&self) -> (front: Option<Order>)
        ensures
            self@.len() == 0 ==> front.is_none(),
            self@.len() > 0 ==> front == Some(
                Order { id: self@[0].0, unfilled: Decimal { units: self@[0].1 } },
            ),
    {
        match queue_front(&self.orders) {
            Some((id, units)) => Some(Order { id, unfilled: Decimal { units } }),
            None => None,
        }
    }

    /// The orders of the page as pairs of id and unfilled units, oldest first.
    pub fn entries(&self) -> (entries: Vec<(OrderId, i64)>)
        ensures
            entries@ == self@,
    {
        queue_to_vec(&self.orders)
    }

    /// The number of orders on the page.
    pub fn len(&self) -> (n: usize)
        ensures
            n == self@.len(),
    {
        queue_len(&self.orders)
    }

    /// Takes `take` units off the oldest order. An order that is used up leaves the page; one
    /// that is not keeps its place at the front.
    pub fn fill_front(&mut self, take: i64)
        requires
            old(self).wf(),
            old(self)@.len() > 0,
            0 < take <= old(self)@[0].1,
        ensures
            final(self).wf(),
            final(self)@ == after_fill(old(self)@, take),
    {
        let ghost before = self@;
        proof {
            lemma_position_unique(before, 0);
            lemma_total_fits(before);
            lemma_after_fill(before, take);
            lemma_total_fits(after_fill(before, take));
        }
        match queue_front(&self.orders) {
            Some((id, units)) => {
                if units == take {
                    let _ = queue_remove(&mut self.orders, id);
                    assert(self@ =~= before.skip(1));
                } else {
                    queue_set(&mut self.orders, id, units - take);
                }
                self.amount = self.amount - take as i128;
            },
            None => {},
        }
    }
}

/// A queue after `take` units were taken off its oldest order.
pub open spec fn after_fill(q: Seq<(u64, i64)>, take: i64) -> Seq<(u64, i64)>
    recommends
        q.len() > 0,
        0 < take <= q[0].1,
{
    if take == q[0].1 {
        q.skip(1)
    } else {
        q.update(0, (q[0].0, (q[0].1 - take) as i64))
    }
}

/// A fill of the oldest order keeps the queue well formed and takes what was filled off
/// the total.
pub proof fn lemma_after_fill(q: Seq<(u64, i64)>, take: i64)
    requires
        queue_wf(q),
        q.len() > 0,
        0 < take <= q[0].1,
    ensures
        queue_wf(after_fill(q, take)),
        total_unfilled(after_fill(q, take)) == total_unfilled(q) - take,
{
    let r = after_fill(q, take);
    if take == q[0].1 {
        assert(q.skip(1) =~= q.remove(0));
        lemma_queue_wf_remove(q, 0);
    } else {
        lemma_total_update(q, 0, (q[0].0, (q[0].1 - take) as i64));
        assert forall|j: int, k: int| 0 <= j < k < r.len() implies (#[trigger] r[j]).0 != (
        #[trigger] r[k]).0 by {
            assert(q[j].0 != q[k].0);
        }
    }
}

/// A queue without one of its orders is well formed, and holds the ids that it held but
/// for the one that left.
pub proof fn lemma_queue_wf_remove(q: Seq<(u64, i64)>, i: int)
    requires
        queue_wf(q),
        0 <= i < q.len(),
    ensures
        queue_wf(q.remove(i)),
        forall|id: u64| has_id(q.remove(i), id) <==> (has_id(q, id) && id != q[i].0),
{
    let r = q.remove(i);
    assert forall|k: int| 0 <= k < r.len() implies (#[trigger] r[k]).1 > 0 by {
        if k < i {
            assert(r[k] == q[k]);
        } else {
            assert(r[k] == q[k + 1]);
        }
    }
    assert forall|j: int, k: int| 0 <= j < k < r.len() implies (#[trigger] r[j]).0 != (
    #[trigger] r[k]).0 by {
        let jj = if j < i { j } else { j + 1 };
        let kk = if k < i { k } else { k + 1 };
        assert(r[j] == q[jj] && r[k] == q[kk]);
        assert(q[jj].0 != q[kk].0);
    }
    assert forall|id: u64| has_id(r, id) <==> (has_id(q, id) && id != q[i].0) by {
        if has_id(r, id) {
            let k = choose|k: int| 0 <= k < r.len() && (#[trigger] r[k]).0 == id;
            let kk = if k < i { k } else { k + 1 };
            assert(r[k] == q[kk]);
            assert(q[kk].0 == id);
            if kk < i {
                assert(q[kk].0 != q[i].0);
            } else {
                assert(q[i].0 != q[kk].0);
            }
        }
        if has_id(q, id) && id != q[i].0 {
            let k = choose|k: int| 0 <= k < q.len() && (#[trigger] q[k]).0 == id;
            let kk = if k < i { k } else { k - 1 };
            assert(r[kk] == q[k]);
        }
    }
}

} // verus!
