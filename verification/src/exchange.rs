//! The exchange: one book per symbol, the counter that numbers the orders, and the routing
//! of cancels to the book in which an order was placed.

use crate::book_view::BookView;
use crate::decimal::Decimal;
use crate::inbound_server::{InboundMessage, MessageType};
use crate::invariants::lemma_sweep_wf;
use crate::ladder::{best_price, level_amount};
use crate::order_matcher::{Match, OrderMatcher, Outcome};
use crate::order_matcher_fifo::{limit_sweep, market_limit, sweep, OrderMatcherFifo};
use crate::orderbook::{
    limit_result, units_of, CancelLimitResult, InsertLimitResult, Orderbook,
};
use crate::page::Order;
use crate::symbol::{AskOrBid, Symbol};
use crate::OrderId;
use std::collections::HashMap;
use vstd::prelude::*;

verus! {

/// The exchange with all its books.
pub struct ExchangeCore {
    /// The book of the first symbol.
    pub asset1: Orderbook,
    /// The book of the second symbol.
    pub asset2: Orderbook,
    /// The strategy that matches incoming orders.
    pub order_matcher: OrderMatcherFifo,
    /// The symbol in whose book an order was placed.
    pub orderbook_id_lookup: HashMap<OrderId, Symbol>,
    /// The id that was given out last; ids start at one and none is given twice.
    pub last_order_id: OrderId,
}

/// What the exchange answers to a message.
#[derive(Debug, Clone, Copy, PartialEq, Eq, Structural)]
pub enum Response {
    /// The outcome of a placement.
    Placed(InsertLimitResult),
    /// The outcome of a cancel.
    Cancelled(CancelLimitResult),
    /// A placement without one of the fields that it needs.
    InvalidData,
    /// A cancel of an id that no placement was routed under.
    InvalidId,
    /// A cancel without an order id.
    NoOrderId,
}

/// A book after the cancel of `id`: without the order where it rests there, else as it is.
pub open spec fn cancel_in(book: BookView, id: OrderId) -> BookView {
    if book.index.contains_key(id) {
        book.cancel(id)
    } else {
        book
    }
}

/// Whether a placement with this result left an order resting in the book.
pub open spec fn leaves_resting(result: InsertLimitResult) -> bool {
    match result {
        InsertLimitResult::Success(_) => true,
        InsertLimitResult::PartiallyFilled(_, _) => true,
        _ => false,
    }
}

/// The result that the outcome of a market order is reported with. A market order never
/// rests, so it is filled in full or in part.
pub open spec fn market_result(id: OrderId, outcome: Outcome) -> InsertLimitResult {
    if outcome.residual > 0 {
        InsertLimitResult::PartiallyFilled(id, Decimal { units: outcome.residual })
    } else {
        InsertLimitResult::FullyFilled
    }
}

impl ExchangeCore {
    /// The book of a symbol.
    pub open spec fn book(&self, symbol: Symbol) -> BookView {
        match symbol {
            Symbol::Asset1 => self.asset1@,
            Symbol::Asset2 => self.asset2@,
        }
    }

    /// Both books obey their rules and are not crossed, every resting order carries an id
    /// that the counter gave out, and every resting order is routed to its book.
    pub open spec fn wf(&self) -> bool {
        &&& self.asset1.wf()
        &&& self.asset2.wf()
        &&& self.asset1.symbol == Symbol::Asset1
        &&& self.asset2.symbol == Symbol::Asset2
        &&& !self.asset1@.crossed()
        &&& !self.asset2@.crossed()
        &&& forall|symbol: Symbol, id: u64| #[trigger]
            self.book(symbol).index.contains_key(id) ==> 1 <= id <= self.last_order_id
                && self.orderbook_id_lookup@.contains_key(id) && self.orderbook_id_lookup@[id]
                == symbol
    }

    /// An exchange with two empty books.
    pub fn new() -> (core: ExchangeCore)
        ensures
            core.wf(),
            core.last_order_id == 0,
            core.asset1@.is_empty(),
            core.asset2@.is_empty(),
    {
        ExchangeCore {
            asset1: Orderbook::new(Symbol::Asset1),
            asset2: Orderbook::new(Symbol::Asset2),
            order_matcher: OrderMatcherFifo::new(),
            orderbook_id_lookup: HashMap::new(),
            last_order_id: 0,
        }
    }

    /// The best ask of the book of `symbol`.
    pub fn best_ask(&self, symbol: Symbol) -> (best: Option<Decimal>)
        ensures
            units_of(best) == best_price(AskOrBid::Ask, self.book(symbol).asks),
    {
        match symbol {
            Symbol::Asset1 => self.asset1.get_best_ask(),
            Symbol::Asset2 => self.asset2.get_best_ask(),
        }
    }

    /// The best bid of the book of `symbol`.
    pub fn best_bid(&self, symbol: Symbol) -> (best: Option<Decimal>)
        ensures
            units_of(best) == best_price(AskOrBid::Bid, self.book(symbol).bids),
    {
        match symbol {
            Symbol::Asset1 => self.asset1.get_best_bid(),
            Symbol::Asset2 => self.asset2.get_best_bid(),
        }
    }

    /// Whether the order `order_id` rests in one of the books.
    pub fn contains(&self, order_id: &OrderId) -> (resting: bool)
        ensures
            resting == (self.asset1@.index.contains_key(*order_id)
                || self.asset2@.index.contains_key(*order_id)),
    {
        self.asset1.contains_order(order_id) || self.asset2.contains_order(order_id)
    }

    /// The total of what is unfilled at `price` on `side` of the book of `symbol`.
    pub fn page_amount(&self, symbol: Symbol, side: AskOrBid, price: &Decimal) -> (amount: Option<
        i128,
    >)
        requires
            self.wf(),
        ensures
            amount == level_amount(self.book(symbol).side(side), price.units),
    {
        match symbol {
            Symbol::Asset1 => self.asset1.get_page_amount(side, price),
            Symbol::Asset2 => self.asset2.get_page_amount(side, price),
        }
    }

    /// Places a limit order under the next id. The order is refused where its price or size
    /// is not positive, and where no id is left.
    pub fn place_limit(
        &mut self,
        symbol: Symbol,
        side: AskOrBid,
        price: Decimal,
        size: Decimal,
    ) -> (result: InsertLimitResult)
        requires
            old(self).wf(),
        ensures
            final(self).wf(),
            symbol != Symbol::Asset1 ==> final(self).asset1@ == old(self).asset1@,
            symbol != Symbol::Asset2 ==> final(self).asset2@ == old(self).asset2@,
            old(self).last_order_id == u64::MAX ==> result == InsertLimitResult::OrderDataInvalid
                && final(self).last_order_id == old(self).last_order_id && final(self).book(symbol)
                == old(self).book(symbol),
            final(self).orderbook_id_lookup@ == if leaves_resting(result) {
                old(self).orderbook_id_lookup@.insert(
                    (old(self).last_order_id + 1) as u64,
                    symbol,
                )
            } else {
                old(self).orderbook_id_lookup@
            },
            old(self).last_order_id < u64::MAX ==> {
                let id = (old(self).last_order_id + 1) as u64;
                let order = Order { id, unfilled: size };
                let outcome = limit_sweep(
                    old(self).book(symbol),
                    id,
                    side,
                    price.units,
                    size.units,
                );
                &&& final(self).last_order_id == id
                &&& price.units > 0 && size.units > 0 ==> final(self).book(symbol) == outcome.book
                    && result == limit_result(id, outcome)
                &&& !(price.units > 0 && size.units > 0) ==> final(self).book(symbol) == old(self)
                    .book(symbol) && result == InsertLimitResult::OrderDataInvalid
            },
    {
        if self.last_order_id == u64::MAX {
            return InsertLimitResult::OrderDataInvalid;
        }
        self.last_order_id = self.last_order_id + 1;
        let id = self.last_order_id;
        let order = Order { id, unfilled: size };
        let ghost before = old(self).book(symbol);
        proof {
            if price.units > 0 && size.units > 0 {
                lemma_sweep_wf(before, side, price.units, size.units);
            }
        }
        let result = match symbol {
            Symbol::Asset1 => self.asset1.insert_try_exec_limit(
                &self.order_matcher,
                order,
                side,
                &price,
            ),
            Symbol::Asset2 => self.asset2.insert_try_exec_limit(
                &self.order_matcher,
                order,
                side,
                &price,
            ),
        };
        match result {
            InsertLimitResult::Success(_) | InsertLimitResult::PartiallyFilled(_, _) => {
                self.orderbook_id_lookup.insert(id, symbol);
            },
            _ => {},
        }
        proof {
            assert forall|s: Symbol, i: u64| #[trigger]
                self.book(s).index.contains_key(i) implies 1 <= i <= self.last_order_id
                && self.orderbook_id_lookup@.contains_key(i) && self.orderbook_id_lookup@[i]
                == s by {
                if s == symbol && i == id {
                    lemma_sweep_wf(before, side, price.units, size.units);
                } else if s != symbol {
                    assert(old(self).book(s).index.contains_key(i));
                }
            }
        }
        result
    }

    /// Places a market order under the next id: it trades with what rests on the other
    /// side, and what is left of it is dropped. The order is refused where its size is not
    /// positive, and where no id is left.
    pub fn place_market(&mut self, symbol: Symbol, side: AskOrBid, size: Decimal) -> (result:
        InsertLimitResult)
        requires
            old(self).wf(),
        ensures
            final(self).wf(),
            symbol != Symbol::Asset1 ==> final(self).asset1@ == old(self).asset1@,
            symbol != Symbol::Asset2 ==> final(self).asset2@ == old(self).asset2@,
            old(self).last_order_id == u64::MAX ==> result == InsertLimitResult::OrderDataInvalid
                && final(self).last_order_id == old(self).last_order_id && final(self).book(symbol)
                == old(self).book(symbol),
            final(self).orderbook_id_lookup@ == old(self).orderbook_id_lookup@,
            old(self).last_order_id < u64::MAX ==> {
                let id = (old(self).last_order_id + 1) as u64;
                let outcome = sweep(old(self).book(symbol), side, market_limit(side), size.units);
                &&& final(self).last_order_id == id
                &&& size.units > 0 ==> final(self).book(symbol) == outcome.book && result
                    == market_result(id, outcome)
                &&& size.units <= 0 ==> final(self).book(symbol) == old(self).book(symbol)
                    && result == InsertLimitResult::OrderDataInvalid
            },
    {
        if self.last_order_id == u64::MAX {
            return InsertLimitResult::OrderDataInvalid;
        }
        self.last_order_id = self.last_order_id + 1;
        let id = self.last_order_id;
        if size.units <= 0 {
            proof {
                assert forall|s: Symbol, i: u64| #[trigger]
                    self.book(s).index.contains_key(i) implies 1 <= i <= self.last_order_id
                    && self.orderbook_id_lookup@.contains_key(i) && self.orderbook_id_lookup@[i]
                    == s by {
                    assert(old(self).book(s).index.contains_key(i));
                }
            }
            return InsertLimitResult::OrderDataInvalid;
        }
        let ghost before = old(self).book(symbol);
        proof {
            lemma_sweep_wf(before, side, market_limit(side), size.units);
        }
        let matched = match symbol {
            Symbol::Asset1 => self.order_matcher.match_market(&mut self.asset1, &id, side, &size),
            Symbol::Asset2 => self.order_matcher.match_market(&mut self.asset2, &id, side, &size),
        };
        proof {
            assert forall|s: Symbol, i: u64| #[trigger]
                self.book(s).index.contains_key(i) implies 1 <= i <= self.last_order_id
                && self.orderbook_id_lookup@.contains_key(i) && self.orderbook_id_lookup@[i]
                == s by {
                assert(old(self).book(s).index.contains_key(i));
            }
        }
        market_result_of(id, &size, &matched)
    }

    /// Cancels the order with the given id in the book it was placed in.
    pub fn cancel_limit(&mut self, order_id: &OrderId) -> (result: CancelLimitResult)
        requires
            old(self).wf(),
        ensures
            final(self).wf(),
            final(self).last_order_id == old(self).last_order_id,
            final(self).orderbook_id_lookup@ == if result == CancelLimitResult::Success {
                old(self).orderbook_id_lookup@.remove(*order_id)
            } else {
                old(self).orderbook_id_lookup@
            },
            (result == CancelLimitResult::Success) == (old(self).asset1@.index.contains_key(
                *order_id,
            ) || old(self).asset2@.index.contains_key(*order_id)),
            final(self).asset1@ == cancel_in(old(self).asset1@, *order_id),
            final(self).asset2@ == cancel_in(old(self).asset2@, *order_id),
    {
        let symbol = match self.orderbook_id_lookup.get(order_id) {
            Some(symbol) => *symbol,
            None => {
                proof {
                    assert(!self.book(Symbol::Asset1).index.contains_key(*order_id));
                    assert(!self.book(Symbol::Asset2).index.contains_key(*order_id));
                }
                return CancelLimitResult::OrderIdNotFound;
            },
        };
        proof {
            let other = match symbol {
                Symbol::Asset1 => Symbol::Asset2,
                Symbol::Asset2 => Symbol::Asset1,
            };
            if self.book(other).index.contains_key(*order_id) {
                assert(self.orderbook_id_lookup@[*order_id] == other);
            }
            if self.book(symbol).index.contains_key(*order_id) {
                self.book(symbol).lemma_cancel_wf(*order_id);
            }
        }
        let result = match symbol {
            Symbol::Asset1 => self.asset1.cancel_limit(order_id),
            Symbol::Asset2 => self.asset2.cancel_limit(order_id),
        };
        match result {
            CancelLimitResult::Success => {
                self.orderbook_id_lookup.remove(order_id);
            },
            CancelLimitResult::OrderIdNotFound => {},
        }
        proof {
            assert forall|s: Symbol, i: u64| #[trigger]
                self.book(s).index.contains_key(i) implies 1 <= i <= self.last_order_id
                && self.orderbook_id_lookup@.contains_key(i) && self.orderbook_id_lookup@[i]
                == s by {
                assert(old(self).book(s).index.contains_key(i));
            }
        }
        result
    }

    /// Answers one message: a placement is made where the message carries what it needs,
    /// and a cancel where it names an order that was routed.
    pub fn process_inbound_message(&mut self, msg: &InboundMessage) -> (response: Response)
        requires
            old(self).wf(),
        ensures
            final(self).wf(),
            response == answer(*old(self), *msg),
            final(self).asset1@ == book_after(*old(self), *msg, Symbol::Asset1),
            final(self).asset2@ == book_after(*old(self), *msg, Symbol::Asset2),
            final(self).last_order_id == if places(*msg) && old(self).last_order_id < u64::MAX {
                (old(self).last_order_id + 1) as u64
            } else {
                old(self).last_order_id
            },
    {
        match msg.message_type {
            MessageType::PlaceLimitOrder => {
                match (msg.limit_price, msg.amount, msg.side, msg.symbol) {
                    (Some(price), Some(amount), Some(side), Some(symbol)) => {
                        let result = self.place_limit(symbol, side, price, amount);
                        assert(Response::Placed(result) == answer(*old(self), *msg));
                        Response::Placed(result)
                    },
                    _ => {
                        assert(!changes_books(*msg));
                        Response::InvalidData
                    },
                }
            },
            MessageType::CancelLimitOrder => match msg.order_id {
                Some(id) => {
                    if self.orderbook_id_lookup.contains_key(&id) {
                        let ghost routed = self.orderbook_id_lookup@[id];
                        proof {
                            assert forall|symbol: Symbol|
                                self.book(symbol).index.contains_key(id) implies symbol
                                == routed by {
                                assert(self.orderbook_id_lookup@[id] == symbol);
                            }
                        }
                        let result = self.cancel_limit(&id);
                        proof {
                            assert(old(self).book(Symbol::Asset1) == old(self).asset1@);
                            assert(old(self).book(Symbol::Asset2) == old(self).asset2@);
                        }
                        assert(Response::Cancelled(result) == answer(*old(self), *msg));
                        Response::Cancelled(result)
                    } else {
                        proof {
                            assert forall|s: Symbol| !self.book(s).index.contains_key(id) by {
                                if self.book(s).index.contains_key(id) {
                                    assert(self.orderbook_id_lookup@.contains_key(id));
                                }
                            }
                        }
                        Response::InvalidId
                    }
                },
                None => Response::NoOrderId,
            },
            MessageType::PlaceMarketOrder => {
                match (msg.amount, msg.side, msg.symbol) {
                    (Some(amount), Some(side), Some(symbol)) => {
                        let result = self.place_market(symbol, side, amount);
                        assert(Response::Placed(result) == answer(*old(self), *msg));
                        Response::Placed(result)
                    },
                    _ => {
                        assert(!changes_books(*msg));
                        Response::InvalidData
                    },
                }
            },
        }
    }
}

/// Whether a message carries all that its kind needs, so that it reaches a book.
pub open spec fn changes_books(msg: InboundMessage) -> bool {
    match msg.message_type {
        MessageType::PlaceLimitOrder => msg.limit_price.is_some() && msg.amount.is_some()
            && msg.side.is_some() && msg.symbol.is_some(),
        MessageType::CancelLimitOrder => msg.order_id.is_some(),
        MessageType::PlaceMarketOrder => msg.amount.is_some() && msg.side.is_some()
            && msg.symbol.is_some(),
    }
}

/// Whether a message is a placement that carries all it needs, so that it takes an id.
pub open spec fn places(msg: InboundMessage) -> bool {
    changes_books(msg) && msg.message_type != MessageType::CancelLimitOrder
}

/// The book of `symbol` after an exchange answered a message.
pub open spec fn book_after(core: ExchangeCore, msg: InboundMessage, symbol: Symbol) -> BookView {
    let id = (core.last_order_id + 1) as u64;
    let book = core.book(symbol);
    match msg.message_type {
        MessageType::PlaceLimitOrder => if changes_books(msg) && core.last_order_id < u64::MAX
            && msg.symbol == Some(symbol) && msg.limit_price.unwrap().units > 0
            && msg.amount.unwrap().units > 0 {
            limit_sweep(
                book,
                id,
                msg.side.unwrap(),
                msg.limit_price.unwrap().units,
                msg.amount.unwrap().units,
            ).book
        } else {
            book
        },
        MessageType::CancelLimitOrder => match msg.order_id {
            Some(order_id) => cancel_in(book, order_id),
            None => book,
        },
        MessageType::PlaceMarketOrder => if changes_books(msg) && core.last_order_id < u64::MAX
            && msg.symbol == Some(symbol) && msg.amount.unwrap().units > 0 {
            sweep(
                book,
                msg.side.unwrap(),
                market_limit(msg.side.unwrap()),
                msg.amount.unwrap().units,
            ).book
        } else {
            book
        },
    }
}

/// The answer of an exchange to a message.
pub open spec fn answer(core: ExchangeCore, msg: InboundMessage) -> Response {
    let id = (core.last_order_id + 1) as u64;
    match msg.message_type {
        MessageType::PlaceLimitOrder => if changes_books(msg) {
            let price = msg.limit_price.unwrap().units;
            let size = msg.amount.unwrap().units;
            if core.last_order_id < u64::MAX && price > 0 && size > 0 {
                Response::Placed(
                    limit_result(
                        id,
                        limit_sweep(
                            core.book(msg.symbol.unwrap()),
                            id,
                            msg.side.unwrap(),
                            price,
                            size,
                        ),
                    ),
                )
            } else {
                Response::Placed(InsertLimitResult::OrderDataInvalid)
            }
        } else {
            Response::InvalidData
        },
        MessageType::CancelLimitOrder => match msg.order_id {
            Some(order_id) => if !core.orderbook_id_lookup@.contains_key(order_id) {
                Response::InvalidId
            } else if core.book(core.orderbook_id_lookup@[order_id]).index.contains_key(order_id) {
                Response::Cancelled(CancelLimitResult::Success)
            } else {
                Response::Cancelled(CancelLimitResult::OrderIdNotFound)
            },
            None => Response::NoOrderId,
        },
        MessageType::PlaceMarketOrder => if changes_books(msg) {
            let size = msg.amount.unwrap().units;
            if core.last_order_id < u64::MAX && size > 0 {
                let side = msg.side.unwrap();
                Response::Placed(
                    market_result(
                        id,
                        sweep(core.book(msg.symbol.unwrap()), side, market_limit(side), size),
                    ),
                )
            } else {
                Response::Placed(InsertLimitResult::OrderDataInvalid)
            }
        } else {
            Response::InvalidData
        },
    }
}

/// The result that the match of a market order of `size` units is reported with.
pub fn market_result_of(id: OrderId, size: &Decimal, matched: &Option<Match>) -> (result:
    InsertLimitResult)
    requires
        size.units > 0,
    ensures
        forall|outcome: Outcome|
            crate::order_matcher::reports(*matched, id, outcome) && (outcome.fills.len() == 0
                ==> outcome.residual == size.units) ==> result == #[trigger] market_result(
                id,
                outcome,
            ),
{
    match matched {
        None => InsertLimitResult::PartiallyFilled(id, *size),
        Some(m) => {
            if m.residual.units > 0 {
                InsertLimitResult::PartiallyFilled(id, m.residual)
            } else {
                InsertLimitResult::FullyFilled
            }
        },
    }
}

} // verus!
