//! One side of a book: its price levels, keyed by price.

use crate::decimal::Decimal;
use crate::linked_orders::{has_id, position_of};
use crate::page::{
    after_fill, lemma_after_fill, lemma_position_of, lemma_queue_wf_remove, queue_wf,
    total_unfilled, Order, OrderbookPage,
};
use crate::symbol::AskOrBid;
use std::collections::BTreeMap;
use vstd::prelude::*;

verus! {

/// The levels of one side as a map from price to the queue that rests there.
pub type Levels = Map<i64, Seq<(u64, i64)>>;

/// What a ladder holds: for each price with a page, the queue of that page.
pub open spec fn ladder_view(ladder: BTreeMap<i64, OrderbookPage>) -> Levels {
    Map::new(|p: i64| ladder@.contains_key(p), |p: i64| ladder@[p]@)
}

/// Every page of the ladder is well formed.
pub open spec fn pages_wf(ladder: BTreeMap<i64, OrderbookPage>) -> bool {
    forall|p: i64| ladder@.contains_key(p) ==> (#[trigger] ladder@[p]).wf()
}

/// Every level has a positive price and holds a well-formed queue with at least one order.
pub open spec fn levels_wf(levels: Levels) -> bool {
    forall|p: i64| #[trigger]
        levels.contains_key(p) ==> p > 0 && levels[p].len() > 0 && queue_wf(levels[p])
}

/// Whether the price `p` is strictly better than `q` for orders resting on `side`:
/// the lower ask and the higher bid are better.
pub open spec fn better(side: AskOrBid, p: i64, q: i64) -> bool {
    match side {
        AskOrBid::Ask => p < q,
        AskOrBid::Bid => p > q,
    }
}

/// Whether a taker on `taker_side` with the limit `limit` trades with a maker that rests at
/// `maker_price`: a bid takes asks at or below its limit, an ask takes bids at or above.
pub open spec fn marketable(taker_side: AskOrBid, limit: i64, maker_price: i64) -> bool {
    match taker_side {
        AskOrBid::Bid => maker_price <= limit,
        AskOrBid::Ask => maker_price >= limit,
    }
}

/// Whether `p` is a price of `levels` that no other price of it betters.
pub open spec fn is_best(side: AskOrBid, levels: Levels, p: i64) -> bool {
    &&& levels.contains_key(p)
    &&& forall|q: i64| #[trigger] levels.contains_key(q) ==> !better(side, q, p)
}

/// The best price of a side, if it has any level.
pub open spec fn best_price(side: AskOrBid, levels: Levels) -> Option<i64> {
    if exists|p: i64| is_best(side, levels, p) {
        Some(choose|p: i64| is_best(side, levels, p))
    } else {
        None
    }
}

/// A best price is the best price: there is no second one.
pub proof fn lemma_best_is(side: AskOrBid, levels: Levels, p: i64)
    requires
        is_best(side, levels, p),
    ensures
        best_price(side, levels) == Some(p),
{
    let c = choose|c: i64| is_best(side, levels, c);
    assert(levels.contains_key(c) && levels.contains_key(p));
}

/// A side without a level has no best price.
pub proof fn lemma_best_none(side: AskOrBid, levels: Levels)
    requires
        forall|q: i64| !levels.contains_key(q),
    ensures
        best_price(side, levels).is_none(),
{
}

/// The levels after `units` of a new order `id` came to rest at `price`: behind the queue
/// that is there, or on a new level.
pub open spec fn levels_rest(levels: Levels, price: i64, id: u64, units: i64) -> Levels {
    if levels.contains_key(price) {
        levels.insert(price, levels[price].push((id, units)))
    } else {
        levels.insert(price, seq![(id, units)])
    }
}

/// The levels after the order `id` left the level at `price`; a level left empty is dropped.
pub open spec fn levels_leave(levels: Levels, price: i64, id: u64) -> Levels {
    let rest = levels[price].remove(position_of(levels[price], id));
    if rest.len() == 0 {
        levels.remove(price)
    } else {
        levels.insert(price, rest)
    }
}

/// The levels after `take` units were taken off the oldest order at `price`; a level left
/// empty is dropped.
pub open spec fn levels_fill(levels: Levels, price: i64, take: i64) -> Levels {
    let rest = after_fill(levels[price], take);
    if rest.len() == 0 {
        levels.remove(price)
    } else {
        levels.insert(price, rest)
    }
}

/// `BTreeMap::first_key_value`: the least key of the map, or nothing where the map is empty.
#[verifier::external_body]
pub(crate) fn lowest_price(ladder: &BTreeMap<i64, OrderbookPage>) -> (lowest: Option<i64>)
    ensures
        match lowest {
            Some(p) => ladder@.contains_key(p) && forall|q: i64| #[trigger]
                ladder@.contains_key(q) ==> p <= q,
            None => forall|q: i64| !ladder@.contains_key(q),
        },
{
    ladder.first_key_value().map(|(price, _)| *price)
}

/// `BTreeMap::last_key_value`: the greatest key of the map, or nothing where the map is empty.
#[verifier::external_body]
pub(crate) fn highest_price(ladder: &BTreeMap<i64, OrderbookPage>) -> (highest: Option<i64>)
    ensures
        match highest {
            Some(p) => ladder@.contains_key(p) && forall|q: i64| #[trigger]
                ladder@.contains_key(q) ==> q <= p,
            None => forall|q: i64| !ladder@.contains_key(q),
        },
{
    ladder.last_key_value().map(|(price, _)| *price)
}

/// The best price of a ladder that holds the orders of `side`.
pub fn ladder_best(side: AskOrBid, ladder: &BTreeMap<i64, OrderbookPage>) -> (best: Option<i64>)
    ensures
        best == best_price(side, ladder_view(*ladder)),
        best.is_none() ==> forall|p: i64| !ladder_view(*ladder).contains_key(p),
{
    let best = match side {
        AskOrBid::Ask => lowest_price(ladder),
        AskOrBid::Bid => highest_price(ladder),
    };
    proof {
        let levels = ladder_view(*ladder);
        match best {
            Some(p) => {
                assert(is_best(side, levels, p));
                lemma_best_is(side, levels, p);
            },
            None => {
                lemma_best_none(side, levels);
            },
        }
    }
    best
}

/// Rests a new order at `price`, behind the orders that are there.
pub fn ladder_rest(ladder: &mut BTreeMap<i64, OrderbookPage>, price: i64, order: &Order)
    requires
        pages_wf(*old(ladder)),
        order.unfilled.units > 0,
        old(ladder)@.contains_key(price) ==> !has_id(old(ladder)@[price]@, order.id),
    ensures
        pages_wf(*final(ladder)),
        ladder_view(*final(ladder)) == levels_rest(
            ladder_view(*old(ladder)),
            price,
            order.id,
            order.unfilled.units,
        ),
{
    let ghost before = ladder_view(*ladder);
    let page = match ladder.remove(&price) {
        Some(mut page) => {
            page.insert(order);
            page
        },
        None => OrderbookPage::new(order),
    };
    ladder.insert(price, page);
    assert(ladder_view(*ladder) =~= levels_rest(before, price, order.id, order.unfilled.units));
}

/// Takes the order `id` off the level at `price`, if it rests there.
pub fn ladder_leave(ladder: &mut BTreeMap<i64, OrderbookPage>, price: i64, id: u64) -> (left:
    Option<Order>)
    requires
        pages_wf(*old(ladder)),
    ensures
        pages_wf(*final(ladder)),
        ladder_rests(ladder_view(*old(ladder)), price, id) ==> ladder_view(*final(ladder))
            == levels_leave(ladder_view(*old(ladder)), price, id) && left == Some(
            Order {
                id,
                unfilled: Decimal { units: resting_units(ladder_view(*old(ladder)), price, id) },
            },
        ),
        !ladder_rests(ladder_view(*old(ladder)), price, id) ==> left.is_none() && *final(ladder)
            == *old(ladder),
{
    let ghost before = ladder_view(*ladder);
    let here = match ladder.get(&price) {
        Some(page) => page.get(&id).is_some(),
        None => false,
    };
    if !here {
        return None;
    }
    match ladder.remove(&price) {
        Some(mut page) => {
            let left = page.remove(&id);
            if page.len() > 0 {
                ladder.insert(price, page);
            }
            assert(ladder_view(*ladder) =~= levels_leave(before, price, id));
            left
        },
        None => None,
    }
}

/// Whether the order `id` rests on the level at `price`.
pub open spec fn ladder_rests(levels: Levels, price: i64, id: u64) -> bool {
    levels.contains_key(price) && has_id(levels[price], id)
}

/// The unfilled units of the order `id` that rests at `price`.
pub open spec fn resting_units(levels: Levels, price: i64, id: u64) -> i64 {
    levels[price][position_of(levels[price], id)].1
}

/// The oldest order of the level at `price`.
pub fn ladder_front(ladder: &BTreeMap<i64, OrderbookPage>, price: i64) -> (front: Option<Order>)
    ensures
        ladder@.contains_key(price) && ladder@[price]@.len() > 0 ==> front == Some(
            Order {
                id: ladder@[price]@[0].0,
                unfilled: Decimal { units: ladder@[price]@[0].1 },
            },
        ),
        !(ladder@.contains_key(price) && ladder@[price]@.len() > 0) ==> front.is_none(),
{
    match ladder.get(&price) {
        Some(page) => page.front(),
        None => None,
    }
}

/// The total of what is unfilled at `price`, where the ladder has a level there.
pub fn ladder_amount(ladder: &BTreeMap<i64, OrderbookPage>, price: i64) -> (amount: Option<i128>)
    requires
        pages_wf(*ladder),
    ensures
        amount == level_amount(ladder_view(*ladder), price),
{
    match ladder.get(&price) {
        Some(page) => Some(page.amount),
        None => None,
    }
}

/// The total of what is unfilled on the level at `price`, where there is one.
pub open spec fn level_amount(levels: Levels, price: i64) -> Option<i128> {
    if levels.contains_key(price) {
        Some(total_unfilled(levels[price]) as i128)
    } else {
        None
    }
}

/// Takes `take` units off the oldest order at `price` and drops the level if that empties it.
pub fn ladder_fill(ladder: &mut BTreeMap<i64, OrderbookPage>, price: i64, take: i64)
    requires
        pages_wf(*old(ladder)),
        old(ladder)@.contains_key(price),
        old(ladder)@[price]@.len() > 0,
        0 < take <= old(ladder)@[price]@[0].1,
    ensures
        pages_wf(*final(ladder)),
        ladder_view(*final(ladder)) == levels_fill(ladder_view(*old(ladder)), price, take),
{
    let ghost before = ladder_view(*ladder);
    match ladder.remove(&price) {
        Some(mut page) => {
            page.fill_front(take);
            if page.len() > 0 {
                ladder.insert(price, page);
            }
        },
        None => {},
    }
    assert(ladder_view(*ladder) =~= levels_fill(before, price, take));
}

/// Levels stay well formed when a new order comes to rest.
pub proof fn lemma_rest_wf(levels: Levels, price: i64, id: u64, units: i64)
    requires
        levels_wf(levels),
        price > 0,
        units > 0,
        levels.contains_key(price) ==> !has_id(levels[price], id),
    ensures
        levels_wf(levels_rest(levels, price, id, units)),
{
    let after = levels_rest(levels, price, id, units);
    assert forall|p: i64| #[trigger] after.contains_key(p) implies p > 0 && after[p].len() > 0
        && queue_wf(after[p]) by {
        if p == price {
            if levels.contains_key(price) {
                let q = levels[price];
                let r = q.push((id, units));
                assert forall|j: int, k: int| 0 <= j < k < r.len() implies (#[trigger] r[j]).0 != (
                #[trigger] r[k]).0 by {
                    if k == q.len() {
                        assert(q[j].0 != id);
                    }
                }
            }
        } else {
            assert(levels.contains_key(p));
        }
    }
}

/// Levels stay well formed when an order leaves.
pub proof fn lemma_leave_wf(levels: Levels, price: i64, id: u64)
    requires
        levels_wf(levels),
        ladder_rests(levels, price, id),
    ensures
        levels_wf(levels_leave(levels, price, id)),
{
    let after = levels_leave(levels, price, id);
    lemma_position_of(levels[price], id);
    lemma_queue_wf_remove(levels[price], position_of(levels[price], id));
    assert forall|p: i64| #[trigger] after.contains_key(p) implies p > 0 && after[p].len() > 0
        && queue_wf(after[p]) by {
        assert(levels.contains_key(p));
    }
}

/// Levels stay well formed when the oldest order of a level is filled, in part or whole.
pub proof fn lemma_fill_wf(levels: Levels, price: i64, take: i64)
    requires
        levels_wf(levels),
        levels.contains_key(price),
        0 < take <= levels[price][0].1,
    ensures
        levels_wf(levels_fill(levels, price, take)),
{
    let after = levels_fill(levels, price, take);
    lemma_after_fill(levels[price], take);
    assert forall|p: i64| #[trigger] after.contains_key(p) implies p > 0 && after[p].len() > 0
        && queue_wf(after[p]) by {
        assert(levels.contains_key(p));
    }
}

} // verus!
