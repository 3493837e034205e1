//! The order book of one symbol: two ladders of price levels and the index of resting orders.

use crate::book_view::BookView;
use crate::decimal::Decimal;
use crate::ladder::{
    best_price, is_best, ladder_amount, ladder_best, ladder_fill, ladder_front, ladder_leave,
    ladder_rest, ladder_view, level_amount, marketable, pages_wf,
};
use crate::linked_orders::has_id;
use crate::order_matcher::{Match, OrderMatcher, Outcome};
use crate::page::{Order, OrderbookPage};
use crate::symbol::{AskOrBid, Symbol};
use crate::OrderId;
use std::collections::{BTreeMap, HashMap};
use vstd::prelude::*;

verus! {

/// How the placement of a limit order ended.
#[derive(PartialEq, Eq, Debug, Clone, Copy, Structural)]
pub enum InsertLimitResult {
    /// The order rests in the book in full.
    Success(OrderId),
    /// A part of the order was filled; the given remainder rests in the book.
    PartiallyFilled(OrderId, Decimal),
    /// The order was filled in full.
    FullyFilled,
    /// The order was refused: a price or size that is not positive, or an id that is in use.
    OrderDataInvalid,
}

/// How the cancelling of a limit order ended.
#[derive(PartialEq, Eq, Debug, Clone, Copy, Structural)]
pub enum CancelLimitResult {
    Success,
    OrderIdNotFound,
}

/// The name under which a placement result is reported.
pub open spec fn insert_status(result: InsertLimitResult) -> Seq<char> {
    match result {
        InsertLimitResult::Success(_) => "success"@,
        InsertLimitResult::PartiallyFilled(_, _) => "partially_filled"@,
        InsertLimitResult::FullyFilled => "fully_filled"@,
        InsertLimitResult::OrderDataInvalid => "order_data_invalid"@,
    }
}

/// The name under which a cancel result is reported.
pub open spec fn cancel_status(result: CancelLimitResult) -> Seq<char> {
    match result {
        CancelLimitResult::Success => "success"@,
        CancelLimitResult::OrderIdNotFound => "order_id_not_found"@,
    }
}

impl CancelLimitResult {
    /// The name under which the result is reported.
    pub fn status(&self) -> (name: &'static str)
        ensures
            name@ == cancel_status(*self),
    {
        match self {
            CancelLimitResult::Success => "success",
            CancelLimitResult::OrderIdNotFound => "order_id_not_found",
        }
    }
}

impl InsertLimitResult {
    /// The name under which the result is reported.
    pub fn status(&self) -> (name: &'static str)
        ensures
            name@ == insert_status(*self),
    {
        match self {
            InsertLimitResult::Success(_) => "success",
            InsertLimitResult::PartiallyFilled(_, _) => "partially_filled",
            InsertLimitResult::FullyFilled => "fully_filled",
            InsertLimitResult::OrderDataInvalid => "order_data_invalid",
        }
    }

    /// Whether the order was accepted.
    pub fn is_success(&self) -> (accepted: bool)
        ensures
            accepted == !(*self == InsertLimitResult::OrderDataInvalid),
    {
        match self {
            InsertLimitResult::Success(_) => true,
            InsertLimitResult::PartiallyFilled(_, _) => true,
            InsertLimitResult::FullyFilled => true,
            InsertLimitResult::OrderDataInvalid => false,
        }
    }
}

/// The order book of one symbol.
pub struct Orderbook {
    pub symbol: Symbol,
    /// The pages of the ask side by price in units; the best ask is the lowest key.
    pub orders_ask: BTreeMap<i64, OrderbookPage>,
    /// The pages of the bid side by price in units; the best bid is the highest key.
    pub orders_bid: BTreeMap<i64, OrderbookPage>,
    /// The price in units at which each resting order sits.
    pub orders_index: HashMap<OrderId, i64>,
}

impl View for Orderbook {
    type V = BookView;

    open spec fn view(&self) -> BookView {
        BookView {
            asks: ladder_view(self.orders_ask),
            bids: ladder_view(self.orders_bid),
            index: self.orders_index@,
        }
    }
}

/// The price as a number, where there is one.
pub open spec fn units_of(price: Option<Decimal>) -> Option<i64> {
    match price {
        Some(d) => Some(d.units),
        None => None,
    }
}

impl Orderbook {
    /// Every page caches its total and the book obeys its rules.
    pub open spec fn wf(&self) -> bool {
        &&& pages_wf(self.orders_ask)
        &&& pages_wf(self.orders_bid)
        &&& self@.wf()
    }

    /// An empty book for `symbol`.
    pub fn new(symbol: Symbol) -> (book: Orderbook)
        ensures
            book.wf(),
            book@.is_empty(),
            !book@.crossed(),
            book.symbol == symbol,
    {
        Orderbook {
            symbol,
            orders_ask: BTreeMap::new(),
            orders_bid: BTreeMap::new(),
            orders_index: HashMap::new(),
        }
    }

    /// The lowest price at which an ask rests.
    pub fn get_best_ask(&self) -> (best: Option<Decimal>)
        ensures
            units_of(best) == best_price(AskOrBid::Ask, self@.asks),
            best.is_none() ==> forall|p: i64| !self@.asks.contains_key(p),
    {
        match ladder_best(AskOrBid::Ask, &self.orders_ask) {
            Some(units) => Some(Decimal { units }),
            None => None,
        }
    }

    /// The highest price at which a bid rests.
    pub fn get_best_bid(&self) -> (best: Option<Decimal>)
        ensures
            units_of(best) == best_price(AskOrBid::Bid, self@.bids),
            best.is_none() ==> forall|p: i64| !self@.bids.contains_key(p),
    {
        match ladder_best(AskOrBid::Bid, &self.orders_bid) {
            Some(units) => Some(Decimal { units }),
            None => None,
        }
    }

    /// The best price of the given side.
    pub fn get_best_price_for_side(&self, side: AskOrBid) -> (best: Option<Decimal>)
        ensures
            units_of(best) == best_price(side, self@.side(side)),
            best.is_none() ==> forall|p: i64| !self@.side(side).contains_key(p),
    {
        match side {
            AskOrBid::Ask => self.get_best_ask(),
            AskOrBid::Bid => self.get_best_bid(),
        }
    }

    /// Whether a new order on `new_side` at `new_price` finds a level to trade against.
    pub fn can_be_matched_against(&self, new_side: AskOrBid, new_price: &Decimal) -> (can: bool)
        ensures
            can == exists|p: i64| #[trigger]
                self@.side(new_side.spec_opposite()).contains_key(p) && marketable(
                    new_side,
                    new_price.units,
                    p,
                ),
    {
        let maker_side = new_side.opposite();
        let best = self.get_best_price_for_side(maker_side);
        match best {
            Some(b) => {
                proof {
                    assert(is_best(maker_side, self@.side(maker_side), b.units));
                }
                match new_side {
                    AskOrBid::Bid => b.units <= new_price.units,
                    AskOrBid::Ask => b.units >= new_price.units,
                }
            },
            None => false,
        }
    }

    /// Whether the order `order_id` rests in the book.
    pub fn contains_order(&self, order_id: &OrderId) -> (resting: bool)
        ensures
            resting == self@.index.contains_key(*order_id),
    {
        self.orders_index.contains_key(order_id)
    }

    /// Whether the book is crossed: the best bid is at or above the best ask.
    pub fn can_match(&self) -> (crossed: bool)
        ensures
            crossed == self@.crossed(),
    {
        let best_ask = self.get_best_ask();
        let best_bid = self.get_best_bid();
        match (best_ask, best_bid) {
            (Some(ask), Some(bid)) => {
                proof {
                    assert(is_best(AskOrBid::Ask, self@.asks, ask.units));
                    assert(is_best(AskOrBid::Bid, self@.bids, bid.units));
                }
                bid.units >= ask.units
            },
            _ => false,
        }
    }

    /// The side on which `price` lies: at or above the best ask it is an ask price, at or below
    /// the best bid a bid price. A price between the two, and any price in a crossed book, lies
    /// on neither side.
    pub fn get_side_for_price(&self, price: &Decimal) -> (side: Option<AskOrBid>)
        ensures
            side == side_for_price(self@, price.units),
    {
        if self.can_match() {
            return None;
        }
        if let Some(best_ask) = self.get_best_ask() {
            if price.units >= best_ask.units {
                return Some(AskOrBid::Ask);
            }
        }
        if let Some(best_bid) = self.get_best_bid() {
            if price.units <= best_bid.units {
                return Some(AskOrBid::Bid);
            }
        }
        None
    }

    /// The resting order with the given id.
    pub fn get_order_mut(&mut self, order_id: &OrderId) -> (found: Option<Order>)
        requires
            old(self).wf(),
        ensures
            *final(self) == *old(self),
            old(self)@.index.contains_key(*order_id) ==> found == Some(
                Order {
                    id: *order_id,
                    unfilled: Decimal { units: old(self)@.unfilled(*order_id) as i64 },
                },
            ),
            !old(self)@.index.contains_key(*order_id) ==> found.is_none(),
    {
        let price = match self.orders_index.get(order_id) {
            Some(price) => *price,
            None => {
                return None;
            },
        };
        proof {
            assert(self@.index.contains_key(*order_id));
            assert(self@.rests_on(AskOrBid::Ask, *order_id) != self@.rests_on(
                AskOrBid::Bid,
                *order_id,
            ));
        }
        let on_asks = match self.orders_ask.get(&price) {
            Some(page) => page.get(order_id),
            None => None,
        };
        if on_asks.is_some() {
            return on_asks;
        }
        match self.orders_bid.get(&price) {
            Some(page) => page.get(order_id),
            None => None,
        }
    }

    /// Rests a new order on `side` at `price`, behind the orders that rest there.
    pub fn insert_limit(&mut self, order: Order, side: AskOrBid, price: Decimal) -> (result:
        InsertLimitResult)
        requires
            old(self).wf(),
            price.units > 0,
            order.unfilled.units > 0,
            !old(self)@.index.contains_key(order.id),
        ensures
            final(self).wf(),
            final(self)@ == old(self)@.rest(side, price.units, order.id, order.unfilled.units),
            final(self).symbol == old(self).symbol,
            result == InsertLimitResult::Success(order.id),
            !old(self)@.crossed() && !(exists|p: i64| #[trigger]
                old(self)@.side(side.spec_opposite()).contains_key(p) && marketable(
                    side,
                    price.units,
                    p,
                )) ==> !final(self)@.crossed(),
    {
        proof {
            self@.lemma_unindexed_absent(order.id);
            self@.lemma_rest_wf(side, price.units, order.id, order.unfilled.units);
            if !(exists|p: i64| #[trigger]
                self@.side(side.spec_opposite()).contains_key(p) && marketable(
                    side,
                    price.units,
                    p,
                )) {
                crate::book_view::lemma_rest_uncrossed(
                    self@,
                    self@,
                    side,
                    price.units,
                    order.id,
                    order.unfilled.units,
                );
            }
            assert(self@.asks.contains_key(price.units) ==> !has_id(
                self@.asks[price.units],
                order.id,
            ));
            assert(self@.bids.contains_key(price.units) ==> !has_id(
                self@.bids[price.units],
                order.id,
            ));
        }
        match side {
            AskOrBid::Ask => ladder_rest(&mut self.orders_ask, price.units, &order),
            AskOrBid::Bid => ladder_rest(&mut self.orders_bid, price.units, &order),
        }
        self.orders_index.insert(order.id, price.units);
        InsertLimitResult::Success(order.id)
    }

    /// The total of what is unfilled on the level at `price` on `side`.
    pub fn get_page_amount(&self, side: AskOrBid, price: &Decimal) -> (amount: Option<i128>)
        requires
            self.wf(),
        ensures
            amount == level_amount(self@.side(side), price.units),
    {
        match side {
            AskOrBid::Ask => ladder_amount(&self.orders_ask, price.units),
            AskOrBid::Bid => ladder_amount(&self.orders_bid, price.units),
        }
    }

    /// The oldest order of the level at `price` on `side`.
    pub fn front_at(&self, side: AskOrBid, price: &Decimal) -> (front: Option<Order>)
        ensures
            self@.side(side).contains_key(price.units) && self@.side(side)[price.units].len() > 0
                ==> front == Some(
                Order {
                    id: self@.side(side)[price.units][0].0,
                    unfilled: Decimal { units: self@.side(side)[price.units][0].1 },
                },
            ),
            !(self@.side(side).contains_key(price.units) && self@.side(side)[price.units].len()
                > 0) ==> front.is_none(),
    {
        match side {
            AskOrBid::Ask => ladder_front(&self.orders_ask, price.units),
            AskOrBid::Bid => ladder_front(&self.orders_bid, price.units),
        }
    }

    /// Takes `take` off the oldest order of the level at `price` on `side`. An order that is
    /// used up leaves the book, and with the last order of a level the level goes.
    pub fn fill_front_at(&mut self, side: AskOrBid, price: &Decimal, take: &Decimal)
        requires
            old(self).wf(),
            old(self)@.side(side).contains_key(price.units),
            0 < take.units <= old(self)@.side(side)[price.units][0].1,
        ensures
            final(self).wf(),
            final(self).symbol == old(self).symbol,
            final(self)@ == old(self)@.fill(side, price.units, take.units),
            !old(self)@.crossed() ==> !final(self)@.crossed(),
    {
        proof {
            self@.lemma_fill_wf(side, price.units, take.units);
            crate::book_view::lemma_subset_uncrossed(
                self@,
                self@.fill(side, price.units, take.units),
                side.spec_opposite(),
            );
        }
        let front = self.front_at(side, price);
        match side {
            AskOrBid::Ask => ladder_fill(&mut self.orders_ask, price.units, take.units),
            AskOrBid::Bid => ladder_fill(&mut self.orders_bid, price.units, take.units),
        }
        match front {
            Some(maker) => {
                if maker.unfilled.units == take.units {
                    self.orders_index.remove(&maker.id);
                }
            },
            None => {},
        }
    }

    /// Takes a resting order out of the book. A level that is left empty is dropped, and the
    /// id leaves the index. An id that does not rest in the book changes nothing.
    pub fn cancel_limit(&mut self, order_id: &OrderId) -> (result: CancelLimitResult)
        requires
            old(self).wf(),
        ensures
            final(self).wf(),
            final(self).symbol == old(self).symbol,
            !old(self)@.crossed() ==> !final(self)@.crossed(),
            old(self)@.index.contains_key(*order_id) ==> result == CancelLimitResult::Success
                && final(self)@ == old(self)@.cancel(*order_id),
            !old(self)@.index.contains_key(*order_id) ==> result
                == CancelLimitResult::OrderIdNotFound && final(self)@ == old(self)@,
    {
        let price = match self.orders_index.get(order_id) {
            Some(price) => *price,
            None => {
                return CancelLimitResult::OrderIdNotFound;
            },
        };
        proof {
            assert(self@.index.contains_key(*order_id));
            assert(self@.rests_on(AskOrBid::Ask, *order_id) != self@.rests_on(
                AskOrBid::Bid,
                *order_id,
            ));
            self@.lemma_cancel_wf(*order_id);
        }
        let left = ladder_leave(&mut self.orders_ask, price, *order_id);
        if left.is_none() {
            let _ = ladder_leave(&mut self.orders_bid, price, *order_id);
        }
        self.orders_index.remove(order_id);
        proof {
            let before = old(self)@;
            let after = self@;
            if !before.crossed() && after.crossed() {
                let (a, b) = choose|a: i64, b: i64| #[trigger]
                    after.asks.contains_key(a) && #[trigger] after.bids.contains_key(b) && b >= a;
                assert(before.asks.contains_key(a) && before.bids.contains_key(b));
            }
        }
        CancelLimitResult::Success
    }

    /// Places a limit order: refuses it where its price or size is not positive or its id is
    /// in use, and else hands it to the matcher, which trades it against the other side
    /// and rests what is left.
    pub fn insert_try_exec_limit<M: OrderMatcher>(
        &mut self,
        matcher: &M,
        order: Order,
        side: AskOrBid,
        price: &Decimal,
    ) -> (result: InsertLimitResult)
        requires
            old(self).wf(),
        ensures
            final(self).wf(),
            final(self).symbol == old(self).symbol,
            !old(self)@.crossed() ==> !final(self)@.crossed(),
            !limit_valid(old(self)@, order, price.units) ==> result
                == InsertLimitResult::OrderDataInvalid && final(self)@ == old(self)@,
            limit_valid(old(self)@, order, price.units) ==> {
                let outcome = matcher.limit_outcome(
                    old(self)@,
                    order.id,
                    side,
                    price.units,
                    order.unfilled.units,
                );
                &&& final(self)@ == outcome.book
                &&& result == limit_result(order.id, outcome)
            },
    {
        if price.units <= 0 || order.unfilled.units <= 0 {
            return InsertLimitResult::OrderDataInvalid;
        }
        if self.orders_index.contains_key(&order.id) {
            return InsertLimitResult::OrderDataInvalid;
        }
        let matched = matcher.match_limit(self, &order.id, side, price, &order.unfilled);
        limit_result_of(order.id, &matched)
    }
}

/// Whether a limit order is accepted by a book: its price and size are positive and its id
/// does not rest in the book.
pub open spec fn limit_valid(book: BookView, order: Order, price: i64) -> bool {
    price > 0 && order.unfilled.units > 0 && !book.index.contains_key(order.id)
}

/// The result that the outcome of a limit order is reported with: resting in full where no
/// maker was consumed, else filled in part or in full.
pub open spec fn limit_result(id: OrderId, outcome: Outcome) -> InsertLimitResult {
    if outcome.fills.len() == 0 {
        InsertLimitResult::Success(id)
    } else if outcome.residual > 0 {
        InsertLimitResult::PartiallyFilled(id, Decimal { units: outcome.residual })
    } else {
        InsertLimitResult::FullyFilled
    }
}

/// The result that a match is reported with: resting in full where there was no match, else
/// filled in part where something is left of the taker, and filled in full where nothing is.
pub open spec fn match_result(id: OrderId, matched: Option<Match>) -> InsertLimitResult {
    match matched {
        None => InsertLimitResult::Success(id),
        Some(m) => if m.residual.units > 0 {
            InsertLimitResult::PartiallyFilled(id, m.residual)
        } else {
            InsertLimitResult::FullyFilled
        },
    }
}

/// The result that a match is reported with.
pub fn limit_result_of(id: OrderId, matched: &Option<Match>) -> (result: InsertLimitResult)
    ensures
        result == match_result(id, *matched),
{
    match matched {
        None => InsertLimitResult::Success(id),
        Some(m) => {
            if m.residual.units > 0 {
                InsertLimitResult::PartiallyFilled(id, m.residual)
            } else {
                InsertLimitResult::FullyFilled
            }
        },
    }
}

/// The side on which a price lies in a book.
pub open spec fn side_for_price(book: BookView, price: i64) -> Option<AskOrBid> {
    if book.crossed() {
        None
    } else if best_price(AskOrBid::Ask, book.asks).is_some() && price >= best_price(
        AskOrBid::Ask,
        book.asks,
    ).unwrap() {
        Some(AskOrBid::Ask)
    } else if best_price(AskOrBid::Bid, book.bids).is_some() && price <= best_price(
        AskOrBid::Bid,
        book.bids,
    ).unwrap() {
        Some(AskOrBid::Bid)
    } else {
        None
    }
}

} // verus!
