//! The mathematical model of a book and the rules that every book obeys.

use crate::ladder::{
    ladder_rests, lemma_fill_wf, lemma_leave_wf, lemma_rest_wf, levels_fill, levels_leave,
    levels_rest, levels_wf, marketable, Levels,
};
use crate::linked_orders::{has_id, position_of};
use crate::page::{after_fill, lemma_position_of, lemma_queue_wf_remove};
use crate::symbol::AskOrBid;
use vstd::prelude::*;

verus! {

/// A book as plain mathematics: both sides as maps from price to queue, and the index from
/// the id of each resting order to the price it rests at.
pub struct BookView {
    pub asks: Levels,
    pub bids: Levels,
    pub index: Map<u64, i64>,
}

/// Every order of `levels` is indexed under the price of its level.
pub open spec fn indexed(levels: Levels, index: Map<u64, i64>) -> bool {
    forall|p: i64, k: int|
        levels.contains_key(p) && 0 <= k < levels[p].len() ==> index.contains_key(
            (#[trigger] levels[p][k]).0,
        ) && index[levels[p][k].0] == p
}

/// A queue with one more order holds the ids that it held, and that of the new order.
pub proof fn lemma_has_id_push(q: Seq<(u64, i64)>, e: (u64, i64), id: u64)
    ensures
        has_id(q.push(e), id) <==> (has_id(q, id) || e.0 == id),
{
    let r = q.push(e);
    if has_id(r, id) {
        let k = choose|k: int| 0 <= k < r.len() && (#[trigger] r[k]).0 == id;
        assert(k < q.len() ==> q[k] == r[k]);
    }
    if has_id(q, id) {
        let k = choose|k: int| 0 <= k < q.len() && (#[trigger] q[k]).0 == id;
        assert(r[k] == q[k]);
    }
    if e.0 == id {
        assert(r[q.len() as int] == e);
    }
}

/// A queue after a fill holds the ids that it held, but for that of an oldest order that
/// was used up.
pub proof fn lemma_has_id_after_fill(q: Seq<(u64, i64)>, take: i64, id: u64)
    requires
        crate::page::queue_wf(q),
        q.len() > 0,
        0 < take <= q[0].1,
    ensures
        has_id(after_fill(q, take), id) <==> (has_id(q, id) && !(id == q[0].0 && take == q[0].1)),
{
    let r = after_fill(q, take);
    if take == q[0].1 {
        lemma_queue_wf_remove(q, 0);
    } else {
        if has_id(q, id) {
            let k = choose|k: int| 0 <= k < q.len() && (#[trigger] q[k]).0 == id;
            assert(r[k].0 == id);
        }
    }
}

impl BookView {
    /// The levels of one side.
    pub open spec fn side(self, side: AskOrBid) -> Levels {
        match side {
            AskOrBid::Ask => self.asks,
            AskOrBid::Bid => self.bids,
        }
    }

    /// This book with the levels of one side replaced, and another index.
    pub open spec fn with_side(
        self,
        side: AskOrBid,
        levels: Levels,
        index: Map<u64, i64>,
    ) -> BookView {
        match side {
            AskOrBid::Ask => BookView { asks: levels, bids: self.bids, index },
            AskOrBid::Bid => BookView { asks: self.asks, bids: levels, index },
        }
    }

    /// Whether the order `id` rests on `side`, at the price that the index gives for it.
    pub open spec fn rests_on(self, side: AskOrBid, id: u64) -> bool {
        ladder_rests(self.side(side), self.index[id], id)
    }

    /// The rules of a book: every level is well formed, every resting order is indexed under
    /// its price, and every indexed id rests at that price on exactly one side.
    pub open spec fn wf(self) -> bool {
        &&& levels_wf(self.asks)
        &&& levels_wf(self.bids)
        &&& indexed(self.asks, self.index)
        &&& indexed(self.bids, self.index)
        &&& forall|id: u64| #[trigger]
            self.index.contains_key(id) ==> (self.rests_on(AskOrBid::Ask, id) != self.rests_on(
                AskOrBid::Bid,
                id,
            ))
    }

    /// A book is crossed when some bid is priced at or above some ask.
    pub open spec fn crossed(self) -> bool {
        exists|a: i64, b: i64| #[trigger]
            self.asks.contains_key(a) && #[trigger] self.bids.contains_key(b) && b >= a
    }

    /// A book without any level and with an empty index.
    pub open spec fn is_empty(self) -> bool {
        &&& forall|p: i64| !self.asks.contains_key(p)
        &&& forall|p: i64| !self.bids.contains_key(p)
        &&& forall|id: u64| !self.index.contains_key(id)
    }

    /// The side on which the indexed order `id` rests.
    pub open spec fn side_of(self, id: u64) -> AskOrBid {
        if self.rests_on(AskOrBid::Ask, id) {
            AskOrBid::Ask
        } else {
            AskOrBid::Bid
        }
    }

    /// The unfilled units of the order `id`; zero for an id that does not rest in the book.
    pub open spec fn unfilled(self, id: u64) -> int {
        if self.index.contains_key(id) {
            let q = self.side(self.side_of(id))[self.index[id]];
            q[position_of(q, id)].1 as int
        } else {
            0
        }
    }

    /// The book after `units` of a new order `id` came to rest on `side` at `price`.
    pub open spec fn rest(self, side: AskOrBid, price: i64, id: u64, units: i64) -> BookView {
        self.with_side(
            side,
            levels_rest(self.side(side), price, id, units),
            self.index.insert(id, price),
        )
    }

    /// The book after the resting order `id` was taken out.
    pub open spec fn cancel(self, id: u64) -> BookView {
        let side = self.side_of(id);
        self.with_side(
            side,
            levels_leave(self.side(side), self.index[id], id),
            self.index.remove(id),
        )
    }

    /// The book after `take` units were taken off the oldest order at `price` on `side`.
    /// An order that is used up leaves its level and the index.
    pub open spec fn fill(self, side: AskOrBid, price: i64, take: i64) -> BookView {
        let front = self.side(side)[price][0];
        self.with_side(
            side,
            levels_fill(self.side(side), price, take),
            if take == front.1 {
                self.index.remove(front.0)
            } else {
                self.index
            },
        )
    }

    /// An id that is not indexed rests nowhere.
    pub proof fn lemma_unindexed_absent(self, id: u64)
        requires
            self.wf(),
            !self.index.contains_key(id),
        ensures
            forall|p: i64| self.asks.contains_key(p) ==> !has_id(#[trigger] self.asks[p], id),
            forall|p: i64| self.bids.contains_key(p) ==> !has_id(#[trigger] self.bids[p], id),
    {
        assert forall|p: i64| self.asks.contains_key(p) implies !has_id(
            #[trigger] self.asks[p],
            id,
        ) by {}
        assert forall|p: i64| self.bids.contains_key(p) implies !has_id(
            #[trigger] self.bids[p],
            id,
        ) by {}
    }

    /// An order that rests on a level is indexed under the price of that level.
    pub proof fn lemma_resting_indexed(self, side: AskOrBid, price: i64, id: u64)
        requires
            self.wf(),
            ladder_rests(self.side(side), price, id),
        ensures
            self.index.contains_key(id),
            self.index[id] == price,
            self.rests_on(side, id),
            self.side_of(id) == side,
    {
        assert(has_id(self.side(side)[price], id));
    }

    /// The rules hold again after a new order came to rest.
    pub proof fn lemma_rest_wf(self, side: AskOrBid, price: i64, id: u64, units: i64)
        requires
            self.wf(),
            price > 0,
            units > 0,
            !self.index.contains_key(id),
        ensures
            self.rest(side, price, id, units).wf(),
    {
        let after = self.rest(side, price, id, units);
        self.lemma_unindexed_absent(id);
        lemma_rest_wf(self.side(side), price, id, units);
        assert forall|s: AskOrBid, p: i64, i: u64|
            #[trigger] ladder_rests(after.side(s), p, i) <==> (ladder_rests(self.side(s), p, i)
                || (s == side && p == price && i == id)) by {
            if s == side && p == price {
                if self.side(side).contains_key(price) {
                    lemma_has_id_push(self.side(side)[price], (id, units), i);
                } else {
                    lemma_has_id_push(Seq::<(u64, i64)>::empty(), (id, units), i);
                }
            }
        }
        assert forall|s: AskOrBid| indexed(#[trigger] after.side(s), after.index) by {
            assert forall|p: i64, k: int|
                after.side(s).contains_key(p) && 0 <= k < after.side(s)[p].len()
                implies after.index.contains_key(
                (#[trigger] after.side(s)[p][k]).0,
            ) && after.index[after.side(s)[p][k].0] == p by {}
        }
        assert forall|i: u64| #[trigger] after.index.contains_key(i) implies (after.rests_on(
            AskOrBid::Ask,
            i,
        ) != after.rests_on(AskOrBid::Bid, i)) by {}
    }

    /// The rules hold again after a resting order was taken out.
    pub proof fn lemma_cancel_wf(self, id: u64)
        requires
            self.wf(),
            self.index.contains_key(id),
        ensures
            self.cancel(id).wf(),
            !self.cancel(id).index.contains_key(id),
    {
        let side = self.side_of(id);
        let price = self.index[id];
        self.lemma_leave_wf(side, price, id);
    }

    /// The rules hold again after an order left its level and the index.
    pub proof fn lemma_leave_wf(self, side: AskOrBid, price: i64, id: u64)
        requires
            self.wf(),
            ladder_rests(self.side(side), price, id),
        ensures
            self.with_side(
                side,
                levels_leave(self.side(side), price, id),
                self.index.remove(id),
            ).wf(),
    {
        let after = self.with_side(
            side,
            levels_leave(self.side(side), price, id),
            self.index.remove(id),
        );
        let q = self.side(side)[price];
        let pos = position_of(q, id);
        self.lemma_resting_indexed(side, price, id);
        lemma_leave_wf(self.side(side), price, id);
        lemma_position_of(q, id);
        lemma_queue_wf_remove(q, pos);
        assert forall|s: AskOrBid, p: i64, i: u64|
            #[trigger] ladder_rests(after.side(s), p, i) <==> (ladder_rests(self.side(s), p, i)
                && !(s == side && p == price && i == id)) by {}
        assert forall|s: AskOrBid| indexed(#[trigger] after.side(s), after.index) by {
            assert forall|p: i64, k: int|
                after.side(s).contains_key(p) && 0 <= k < after.side(s)[p].len()
                implies after.index.contains_key(
                (#[trigger] after.side(s)[p][k]).0,
            ) && after.index[after.side(s)[p][k].0] == p by {
                assert(has_id(after.side(s)[p], after.side(s)[p][k].0));
            }
        }
        assert forall|i: u64| #[trigger] after.index.contains_key(i) implies (after.rests_on(
            AskOrBid::Ask,
            i,
        ) != after.rests_on(AskOrBid::Bid, i)) by {}
    }

    /// The rules hold again after the oldest order of a level was filled, in part or whole.
    pub proof fn lemma_fill_wf(self, side: AskOrBid, price: i64, take: i64)
        requires
            self.wf(),
            self.side(side).contains_key(price),
            0 < take <= self.side(side)[price][0].1,
        ensures
            self.fill(side, price, take).wf(),
    {
        let after = self.fill(side, price, take);
        let q = self.side(side)[price];
        let front = q[0];
        lemma_position_of(q, front.0);
        if take == front.1 {
            self.lemma_leave_wf(side, price, front.0);
        } else {
            lemma_fill_wf(self.side(side), price, take);
            assert forall|s: AskOrBid, p: i64, i: u64| #[trigger]
                ladder_rests(after.side(s), p, i) <==> ladder_rests(self.side(s), p, i) by {
                if s == side && p == price {
                    lemma_has_id_after_fill(q, take, i);
                }
            }
            assert forall|s: AskOrBid| indexed(#[trigger] after.side(s), after.index) by {
                assert forall|p: i64, k: int|
                    after.side(s).contains_key(p) && 0 <= k < after.side(s)[p].len()
                implies after.index.contains_key(
                    (#[trigger] after.side(s)[p][k]).0,
                ) && after.index[after.side(s)[p][k].0] == p by {}
            }
            assert forall|i: u64| #[trigger] after.index.contains_key(i) implies (after.rests_on(
                AskOrBid::Ask,
                i,
            ) != after.rests_on(AskOrBid::Bid, i)) by {}
        }
    }
}

/// A book whose one side is as before and whose other side has no new price is not crossed
/// unless it was.
pub proof fn lemma_subset_uncrossed(before: BookView, after: BookView, side: AskOrBid)
    requires
        after.side(side) == before.side(side),
        forall|p: i64| #[trigger]
            after.side(side.spec_opposite()).contains_key(p) ==> before.side(
                side.spec_opposite(),
            ).contains_key(p),
    ensures
        !before.crossed() ==> !after.crossed(),
{
    if !before.crossed() && after.crossed() {
        let (a, b) = choose|a: i64, b: i64| #[trigger]
            after.asks.contains_key(a) && #[trigger] after.bids.contains_key(b) && b >= a;
        match side {
            AskOrBid::Ask => {
                assert(after.side(AskOrBid::Bid).contains_key(b));
            },
            AskOrBid::Bid => {
                assert(after.side(AskOrBid::Ask).contains_key(a));
            },
        }
    }
}

/// A taker that swept every level within its limit can rest at its limit without crossing
/// the book.
pub proof fn lemma_rest_uncrossed(
    before: BookView,
    swept: BookView,
    side: AskOrBid,
    price: i64,
    id: u64,
    units: i64,
)
    requires
        swept.side(side) == before.side(side),
        forall|p: i64| #[trigger]
            swept.side(side.spec_opposite()).contains_key(p) ==> before.side(
                side.spec_opposite(),
            ).contains_key(p),
        forall|p: i64| #[trigger]
            swept.side(side.spec_opposite()).contains_key(p) ==> !marketable(side, price, p),
    ensures
        !before.crossed() ==> !swept.rest(side, price, id, units).crossed(),
{
    let after = swept.rest(side, price, id, units);
    if !before.crossed() && after.crossed() {
        let (a, b) = choose|a: i64, b: i64| #[trigger]
            after.asks.contains_key(a) && #[trigger] after.bids.contains_key(b) && b >= a;
        match side {
            AskOrBid::Ask => {
                assert(swept.side(AskOrBid::Bid).contains_key(b));
            },
            AskOrBid::Bid => {
                assert(swept.side(AskOrBid::Ask).contains_key(a));
            },
        }
    }
}

} // verus!
