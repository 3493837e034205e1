//! What a matching strategy is, and the record of a match.

use crate::book_view::BookView;
use crate::decimal::Decimal;
use crate::orderbook::Orderbook;
use crate::symbol::AskOrBid;
use crate::OrderId;
use vstd::prelude::*;

verus! {

/// A maker of a match together with the price it rested at.
pub struct Maker {
    pub order_id: OrderId,
    pub price: Decimal,
    pub filled: Decimal,
}

/// The record of a match: the taker, the makers it traded with in the order in which they
/// were consumed, each with the amount taken from it, and what is left of the taker.
pub struct Match {
    pub taker: OrderId,
    pub makers: Vec<(OrderId, Decimal)>,
    pub fully_filled: bool,
    pub residual: Decimal,
}

pub enum MatchError {
    CantTrade,
}

/// A list of makers as pairs of order id and units taken.
pub open spec fn fills_view(makers: Seq<(OrderId, Decimal)>) -> Seq<(u64, i64)> {
    Seq::new(makers.len(), |k: int| (makers[k].0, makers[k].1.units))
}

/// The units taken from all makers of a list together.
pub open spec fn total_taken(fills: Seq<(u64, i64)>) -> int
    decreases fills.len(),
{
    if fills.len() == 0 {
        0
    } else {
        fills[0].1 + total_taken(fills.skip(1))
    }
}

/// What a taker does to a book: the book it leaves, the makers it consumed with the units
/// taken from each, and the units of the taker that found no maker.
pub struct Outcome {
    pub book: BookView,
    pub fills: Seq<(u64, i64)>,
    pub residual: i64,
}

impl Match {
    /// The record of a taker that has not traded yet.
    pub fn new(taker: OrderId) -> (m: Match)
        ensures
            m.taker == taker,
            m.makers@.len() == 0,
            !m.fully_filled,
            m.residual.units == 0,
    {
        Match { taker, makers: Vec::new(), fully_filled: false, residual: Decimal::zero() }
    }

    /// Whether this record is the one that `outcome` gives to the taker `taker`.
    pub open spec fn records(&self, taker: OrderId, outcome: Outcome) -> bool {
        &&& self.taker == taker
        &&& fills_view(self.makers@) == outcome.fills
        &&& self.residual.units == outcome.residual
        &&& self.fully_filled == (outcome.residual == 0)
    }
}

/// Whether `matched` reports `outcome` for the taker `taker`: nothing where no maker was
/// consumed, else the record of the match.
pub open spec fn reports(matched: Option<Match>, taker: OrderId, outcome: Outcome) -> bool {
    match matched {
        None => outcome.fills.len() == 0,
        Some(m) => outcome.fills.len() > 0 && m.records(taker, outcome),
    }
}

/// A matching strategy. It decides which resting orders an incoming order trades with; the
/// book does not depend on which strategy is in use.
pub trait OrderMatcher {
    /// What this strategy does with a limit order of `size` units at `price` on `side`.
    spec fn limit_outcome(
        &self,
        book: BookView,
        id: OrderId,
        side: AskOrBid,
        price: i64,
        size: i64,
    ) -> Outcome;

    /// What this strategy does with a market order of `size` units on `side`.
    spec fn market_outcome(&self, book: BookView, side: AskOrBid, size: i64) -> Outcome;

    /// Matches a limit order against the book and rests what is left of it.
    fn match_limit(
        &self,
        orderbook: &mut Orderbook,
        order_id: &OrderId,
        side: AskOrBid,
        price: &Decimal,
        amount: &Decimal,
    ) -> (matched: Option<Match>)
        requires
            old(orderbook).wf(),
            price.units > 0,
            amount.units > 0,
            !old(orderbook)@.index.contains_key(*order_id),
        ensures
            final(orderbook).wf(),
            final(orderbook).symbol == old(orderbook).symbol,
            !old(orderbook)@.crossed() ==> !final(orderbook)@.crossed(),
            final(orderbook)@ == self.limit_outcome(
                old(orderbook)@,
                *order_id,
                side,
                price.units,
                amount.units,
            ).book,
            reports(
                matched,
                *order_id,
                self.limit_outcome(old(orderbook)@, *order_id, side, price.units, amount.units),
            ),
            0 <= self.limit_outcome(
                old(orderbook)@,
                *order_id,
                side,
                price.units,
                amount.units,
            ).residual <= amount.units,
    ;

    /// Matches a market order against the book. What is left of it is dropped.
    fn match_market(
        &self,
        orderbook: &mut Orderbook,
        order_id: &OrderId,
        side: AskOrBid,
        amount: &Decimal,
    ) -> (matched: Option<Match>)
        requires
            old(orderbook).wf(),
            amount.units > 0,
        ensures
            final(orderbook).wf(),
            final(orderbook).symbol == old(orderbook).symbol,
            !old(orderbook)@.crossed() ==> !final(orderbook)@.crossed(),
            final(orderbook)@ == self.market_outcome(old(orderbook)@, side, amount.units).book,
            reports(matched, *order_id, self.market_outcome(old(orderbook)@, side, amount.units)),
            0 <= self.market_outcome(old(orderbook)@, side, amount.units).residual
                <= amount.units,
    ;
}

} // verus!
