//! What holds of every book, of every match and of every cancel.

use crate::book_view::{lemma_has_id_after_fill, BookView};
use crate::ladder::{best_price, ladder_rests};
use crate::linked_orders::{has_id, position_of};
use crate::order_matcher::total_taken;
use crate::order_matcher_fifo::{finds_maker, limit_sweep, smaller, sweep};
use crate::orderbook::Orderbook;
use crate::page::{
    after_fill, lemma_position_of, lemma_position_unique, lemma_total_positive, total_unfilled,
};
use crate::symbol::AskOrBid;
use vstd::prelude::*;

verus! {

/// An order that the index knows rests on the page that the index points to, and any place
/// at which its id is found is that one place: the same side, the same price and the same
/// position in the queue.
pub proof fn lemma_rests_exactly_once(book: BookView, id: u64)
    requires
        book.wf(),
        book.index.contains_key(id),
    ensures
        ladder_rests(book.side(book.side_of(id)), book.index[id], id),
        forall|side: AskOrBid, price: i64, k: int|
            book.side(side).contains_key(price) && 0 <= k < book.side(side)[price].len() && (
            #[trigger] book.side(side)[price][k]).0 == id ==> side == book.side_of(id) && price
                == book.index[id] && k == position_of(book.side(side)[price], id),
{
    assert forall|side: AskOrBid, price: i64, k: int|
        book.side(side).contains_key(price) && 0 <= k < book.side(side)[price].len() && (
        #[trigger] book.side(side)[price][k]).0 == id implies side == book.side_of(id) && price
            == book.index[id] && k == position_of(book.side(side)[price], id) by {
        let q = book.side(side)[price];
        book.lemma_resting_indexed(side, price, id);
        lemma_position_unique(q, k);
    }
}

/// Every page of a book holds at least one order, and its cached amount is the sum of what
/// is unfilled of its orders, which is positive.
pub proof fn lemma_page_amount(book: &Orderbook, side: AskOrBid, price: i64)
    requires
        book.wf(),
        book@.side(side).contains_key(price),
    ensures
        ({
            let page = match side {
                AskOrBid::Ask => book.orders_ask@[price],
                AskOrBid::Bid => book.orders_bid@[price],
            };
            &&& page.amount == total_unfilled(page@)
            &&& page@ == book@.side(side)[price]
            &&& page@.len() >= 1
            &&& page.amount > 0
        }),
{
    match side {
        AskOrBid::Ask => {
            lemma_total_positive(book.orders_ask@[price]@);
        },
        AskOrBid::Bid => {
            lemma_total_positive(book.orders_bid@[price]@);
        },
    }
}

/// In a book that is not crossed the best ask is above the best bid, where both exist.
pub proof fn lemma_best_ask_above_best_bid(book: BookView, ask: i64, bid: i64)
    requires
        !book.crossed(),
        best_price(AskOrBid::Ask, book.asks) == Some(ask),
        best_price(AskOrBid::Bid, book.bids) == Some(bid),
    ensures
        ask > bid,
{
}

/// What a sweep takes from the makers and what it leaves of the taker add up to what the
/// taker wanted.
pub proof fn lemma_sweep_conserves(book: BookView, side: AskOrBid, limit: i64, want: i64)
    requires
        want >= 0,
    ensures
        total_taken(sweep(book, side, limit, want).fills) == want - sweep(
            book,
            side,
            limit,
            want,
        ).residual,
        0 <= sweep(book, side, limit, want).residual <= want,
    decreases want,
{
    if finds_maker(book, side, limit, want) {
        let maker_side = side.spec_opposite();
        let p = best_price(maker_side, book.side(maker_side)).unwrap();
        let maker = book.side(maker_side)[p][0];
        let take = smaller(maker.1, want);
        let rest = sweep(book.fill(maker_side, p, take), side, limit, (want - take) as i64);
        lemma_sweep_conserves(book.fill(maker_side, p, take), side, limit, (want - take) as i64);
        assert((seq![(maker.0, take)] + rest.fills).skip(1) =~= rest.fills);
    }
}

/// What a limit order takes from the makers and what is left of it add up to its size.
pub proof fn lemma_limit_conserves(
    book: BookView,
    id: u64,
    side: AskOrBid,
    price: i64,
    size: i64,
)
    requires
        size >= 0,
    ensures
        total_taken(limit_sweep(book, id, side, price, size).fills) == size - limit_sweep(
            book,
            id,
            side,
            price,
            size,
        ).residual,
        0 <= limit_sweep(book, id, side, price, size).residual <= size,
{
    lemma_sweep_conserves(book, side, price, size);
}

/// Filling the oldest order of a level lowers what is unfilled of that order by what was
/// taken, and changes no other order.
pub proof fn lemma_fill_unfilled(book: BookView, side: AskOrBid, price: i64, take: i64, id: u64)
    requires
        book.wf(),
        book.side(side).contains_key(price),
        0 < take <= book.side(side)[price][0].1,
    ensures
        book.fill(side, price, take).unfilled(id) == book.unfilled(id) - (if id == book.side(
            side,
        )[price][0].0 {
            take as int
        } else {
            0
        }),
{
    let after = book.fill(side, price, take);
    let q = book.side(side)[price];
    let front = q[0];
    let r = after_fill(q, take);
    book.lemma_fill_wf(side, price, take);
    book.lemma_resting_indexed(side, price, front.0);
    lemma_position_of(q, front.0);
    lemma_has_id_after_fill(q, take, id);
    if id == front.0 {
        if take != front.1 {
            after.lemma_resting_indexed(side, price, id);
            lemma_position_of(r, id);
        }
    } else if book.index.contains_key(id) {
        let s0 = book.side_of(id);
        let p0 = book.index[id];
        let q0 = book.side(s0)[p0];
        lemma_position_of(q0, id);
        if s0 == side && p0 == price {
            lemma_position_of(r, id);
        }
        after.lemma_resting_indexed(s0, p0, id);
    }
}

/// A sweep leaves a book that obeys the rules, rests no order that did not rest before, and
/// takes only from orders that rested.
pub proof fn lemma_sweep_wf(book: BookView, side: AskOrBid, limit: i64, want: i64)
    requires
        book.wf(),
        want >= 0,
    ensures
        sweep(book, side, limit, want).book.wf(),
        forall|id: u64| #[trigger]
            sweep(book, side, limit, want).book.index.contains_key(id)
                ==> book.index.contains_key(id),
        forall|k: int|
            0 <= k < sweep(book, side, limit, want).fills.len() ==> book.index.contains_key(
                (#[trigger] sweep(book, side, limit, want).fills[k]).0,
            ),
    decreases want,
{
    if finds_maker(book, side, limit, want) {
        let maker_side = side.spec_opposite();
        let p = best_price(maker_side, book.side(maker_side)).unwrap();
        let maker = book.side(maker_side)[p][0];
        let take = smaller(maker.1, want);
        let next = book.fill(maker_side, p, take);
        book.lemma_fill_wf(maker_side, p, take);
        lemma_sweep_wf(next, side, limit, (want - take) as i64);
        book.lemma_resting_indexed(maker_side, p, maker.0);
        let fills = sweep(book, side, limit, want).fills;
        assert forall|k: int| 0 <= k < fills.len() implies book.index.contains_key(
            (#[trigger] fills[k]).0,
        ) by {}
    }
}

/// A sweep changes nothing of an order that it does not take from.
pub proof fn lemma_sweep_untouched(book: BookView, side: AskOrBid, limit: i64, want: i64, id: u64)
    requires
        book.wf(),
        want >= 0,
        forall|k: int|
            0 <= k < sweep(book, side, limit, want).fills.len() ==> (#[trigger] sweep(
                book,
                side,
                limit,
                want,
            ).fills[k]).0 != id,
    ensures
        sweep(book, side, limit, want).book.unfilled(id) == book.unfilled(id),
    decreases want,
{
    if finds_maker(book, side, limit, want) {
        let maker_side = side.spec_opposite();
        let p = best_price(maker_side, book.side(maker_side)).unwrap();
        let maker = book.side(maker_side)[p][0];
        let take = smaller(maker.1, want);
        let next = book.fill(maker_side, p, take);
        let rest = sweep(next, side, limit, (want - take) as i64);
        let fills = sweep(book, side, limit, want).fills;
        assert(fills[0].0 == maker.0);
        book.lemma_fill_wf(maker_side, p, take);
        lemma_fill_unfilled(book, maker_side, p, take, id);
        assert forall|k: int| 0 <= k < rest.fills.len() implies (#[trigger] rest.fills[k]).0
            != id by {
            assert(fills[k + 1] == rest.fills[k]);
        }
        lemma_sweep_untouched(next, side, limit, (want - take) as i64, id);
    }
}

/// What a sweep reports as taken from a maker is the decrease of what is unfilled of that
/// maker, where an order that left the book counts as zero.
pub proof fn lemma_sweep_takes(book: BookView, side: AskOrBid, limit: i64, want: i64, i: int)
    requires
        book.wf(),
        want >= 0,
        0 <= i < sweep(book, side, limit, want).fills.len(),
    ensures
        sweep(book, side, limit, want).fills[i].1 == book.unfilled(
            sweep(book, side, limit, want).fills[i].0,
        ) - sweep(book, side, limit, want).book.unfilled(sweep(book, side, limit, want).fills[i].0),
    decreases want,
{
    let maker_side = side.spec_opposite();
    let p = best_price(maker_side, book.side(maker_side)).unwrap();
    let maker = book.side(maker_side)[p][0];
    let take = smaller(maker.1, want);
    let next = book.fill(maker_side, p, take);
    let rest = sweep(next, side, limit, (want - take) as i64);
    let fills = sweep(book, side, limit, want).fills;
    let id = fills[i].0;
    book.lemma_fill_wf(maker_side, p, take);
    lemma_sweep_wf(next, side, limit, (want - take) as i64);
    lemma_fill_unfilled(book, maker_side, p, take, id);
    if i == 0 {
        assert forall|k: int| 0 <= k < rest.fills.len() implies (#[trigger] rest.fills[k]).0
            != id by {}
        lemma_sweep_untouched(next, side, limit, (want - take) as i64, id);
    } else {
        lemma_sweep_takes(next, side, limit, (want - take) as i64, i - 1);
    }
}

/// An order that comes to rest changes nothing of the orders that rest already.
pub proof fn lemma_rest_unfilled(
    book: BookView,
    side: AskOrBid,
    price: i64,
    id: u64,
    units: i64,
    other: u64,
)
    requires
        book.wf(),
        price > 0,
        units > 0,
        !book.index.contains_key(id),
        other != id,
    ensures
        book.rest(side, price, id, units).unfilled(other) == book.unfilled(other),
{
    let after = book.rest(side, price, id, units);
    book.lemma_rest_wf(side, price, id, units);
    book.lemma_unindexed_absent(id);
    if book.index.contains_key(other) {
        let s0 = book.side_of(other);
        let p0 = book.index[other];
        let q0 = book.side(s0)[p0];
        lemma_position_of(q0, other);
        if s0 == side && p0 == price {
            let r = q0.push((id, units));
            crate::book_view::lemma_has_id_push(q0, (id, units), other);
            lemma_position_of(r, other);
            assert(position_of(r, other) == position_of(q0, other));
        }
        after.lemma_resting_indexed(s0, p0, other);
    }
}

/// What a limit order reports as taken from a maker is the decrease of what is unfilled of
/// that maker, where an order that left the book counts as zero.
pub proof fn lemma_limit_takes(
    book: BookView,
    id: u64,
    side: AskOrBid,
    price: i64,
    size: i64,
    i: int,
)
    requires
        book.wf(),
        price > 0,
        size > 0,
        !book.index.contains_key(id),
        0 <= i < limit_sweep(book, id, side, price, size).fills.len(),
    ensures
        limit_sweep(book, id, side, price, size).fills[i].1 == book.unfilled(
            limit_sweep(book, id, side, price, size).fills[i].0,
        ) - limit_sweep(book, id, side, price, size).book.unfilled(
            limit_sweep(book, id, side, price, size).fills[i].0,
        ),
{
    let swept = sweep(book, side, price, size);
    lemma_sweep_takes(book, side, price, size, i);
    lemma_sweep_wf(book, side, price, size);
    lemma_sweep_conserves(book, side, price, size);
    if swept.residual > 0 {
        lemma_rest_unfilled(swept.book, side, price, id, swept.residual, swept.fills[i].0);
    }
}

/// After the cancel of a resting order the book obeys the rules, and the id is gone from
/// the index and from every page.
pub proof fn lemma_cancel_removes(book: BookView, id: u64)
    requires
        book.wf(),
        book.index.contains_key(id),
    ensures
        book.cancel(id).wf(),
        !book.cancel(id).index.contains_key(id),
        forall|side: AskOrBid, price: i64|
            book.cancel(id).side(side).contains_key(price) ==> !has_id(
                #[trigger] book.cancel(id).side(side)[price],
                id,
            ),
{
    book.lemma_cancel_wf(id);
    book.cancel(id).lemma_unindexed_absent(id);
    let after = book.cancel(id);
    assert forall|side: AskOrBid, price: i64| after.side(side).contains_key(price) implies !has_id(
        #[trigger] after.side(side)[price],
        id,
    ) by {}
}

/// A limit order as it is placed.
pub struct Placement {
    pub id: u64,
    pub side: AskOrBid,
    pub price: i64,
    pub size: i64,
}

/// The book without any order.
pub open spec fn empty_book() -> BookView {
    BookView { asks: Map::empty(), bids: Map::empty(), index: Map::empty() }
}

/// The book after the given limit orders were placed into an empty book, one after the other.
pub open spec fn placed(orders: Seq<Placement>) -> BookView
    decreases orders.len(),
{
    if orders.len() == 0 {
        empty_book()
    } else {
        let last = orders.last();
        limit_sweep(placed(orders.drop_last()), last.id, last.side, last.price, last.size).book
    }
}

/// The book after the given ids were cancelled, one after the other; an id that does not
/// rest changes nothing.
pub open spec fn cancelled(book: BookView, ids: Seq<u64>) -> BookView
    decreases ids.len(),
{
    if ids.len() == 0 {
        book
    } else {
        let before = cancelled(book, ids.drop_last());
        if before.index.contains_key(ids.last()) {
            before.cancel(ids.last())
        } else {
            before
        }
    }
}

/// Every order of the list is accepted when its turn comes and finds no maker to trade with.
pub open spec fn all_rest(orders: Seq<Placement>) -> bool {
    forall|k: int|
        0 <= k < orders.len() ==> {
            let o = #[trigger] orders[k];
            let book = placed(orders.take(k));
            &&& o.price > 0
            &&& o.size > 0
            &&& !book.index.contains_key(o.id)
            &&& !finds_maker(book, o.side, o.price, o.size)
        }
}

/// A book that obeys the rules and has an empty index has no level.
pub proof fn lemma_no_index_no_level(book: BookView)
    requires
        book.wf(),
        forall|id: u64| !book.index.contains_key(id),
    ensures
        book.is_empty(),
{
    assert forall|p: i64| !book.asks.contains_key(p) by {
        if book.asks.contains_key(p) {
            assert(book.index.contains_key(book.asks[p][0].0));
        }
    }
    assert forall|p: i64| !book.bids.contains_key(p) by {
        if book.bids.contains_key(p) {
            assert(book.index.contains_key(book.bids[p][0].0));
        }
    }
}

/// Orders that all come to rest leave a book that obeys the rules and indexes their ids only.
pub proof fn lemma_placed(orders: Seq<Placement>)
    requires
        all_rest(orders),
    ensures
        placed(orders).wf(),
        forall|id: u64| #[trigger]
            placed(orders).index.contains_key(id) ==> exists|k: int|
                0 <= k < orders.len() && (#[trigger] orders[k]).id == id,
    decreases orders.len(),
{
    if orders.len() > 0 {
        let front = orders.drop_last();
        let last = orders.last();
        assert forall|k: int| 0 <= k < front.len() implies {
            let o = #[trigger] front[k];
            let book = placed(front.take(k));
            &&& o.price > 0
            &&& o.size > 0
            &&& !book.index.contains_key(o.id)
            &&& !finds_maker(book, o.side, o.price, o.size)
        } by {
            assert(front.take(k) =~= orders.take(k));
        }
        lemma_placed(front);
        let before = placed(front);
        before.lemma_rest_wf(last.side, last.price, last.id, last.size);
        assert forall|id: u64| #[trigger] placed(orders).index.contains_key(id) implies exists|
            k: int,
        |
            0 <= k < orders.len() && (#[trigger] orders[k]).id == id by {}
    }
}

/// Cancelling keeps the rules and leaves in the index what was there and was not cancelled.
pub proof fn lemma_cancelled(book: BookView, ids: Seq<u64>)
    requires
        book.wf(),
    ensures
        cancelled(book, ids).wf(),
        forall|id: u64| #[trigger]
            cancelled(book, ids).index.contains_key(id) ==> book.index.contains_key(id)
                && !ids.contains(id),
    decreases ids.len(),
{
    if ids.len() > 0 {
        let front = ids.drop_last();
        lemma_cancelled(book, front);
        let before = cancelled(book, front);
        if before.index.contains_key(ids.last()) {
            before.lemma_cancel_wf(ids.last());
        }
        assert forall|id: u64| #[trigger]
            cancelled(book, ids).index.contains_key(id) implies book.index.contains_key(id)
            && !ids.contains(id) by {
            if ids.contains(id) {
                let k = choose|k: int| 0 <= k < ids.len() && ids[k] == id;
                if k < front.len() {
                    assert(front[k] == id);
                }
            }
        }
    }
}

/// Placing limit orders that all come to rest and then cancelling every one of them gives
/// back the empty book: no level on either side and nothing in the index.
pub proof fn lemma_round_trip(orders: Seq<Placement>, ids: Seq<u64>)
    requires
        all_rest(orders),
        forall|k: int| 0 <= k < orders.len() ==> ids.contains((#[trigger] orders[k]).id),
    ensures
        cancelled(placed(orders), ids).is_empty(),
{
    lemma_placed(orders);
    lemma_cancelled(placed(orders), ids);
    let end = cancelled(placed(orders), ids);
    assert forall|id: u64| !end.index.contains_key(id) by {}
    lemma_no_index_no_level(end);
}

} // verus!
