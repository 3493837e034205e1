//! The messages that come in from clients.

use crate::decimal::Decimal;
use crate::decimal::{decimal_of_parts, decimal_parts};
use crate::symbol::{side_of_word, symbol_of_word, AskOrBid, Symbol};
use crate::text::{
    bytes_eq, bytes_to_text, lossy_text, lowercase_bytes, parse_u64, to_lowercase_bytes,
    u64_of_text, word_action, word_amount, word_cancel_limit, word_order_id, word_place_limit,
    word_place_market, word_price, word_side, word_symbol,
};
use vstd::prelude::*;

verus! {

/// The kinds of message that a client can send.
#[derive(Debug, Clone, Copy, Eq, PartialEq, Structural)]
pub enum MessageType {
    PlaceLimitOrder,
    CancelLimitOrder,
    PlaceMarketOrder,
}

/// An inbound order message. A field that the request did not carry, or carried in a form
/// that could not be read, is absent.
#[derive(Debug, Eq, PartialEq, Clone, Copy, Structural)]
pub struct InboundMessage {
    pub message_type: MessageType,
    pub symbol: Option<Symbol>,
    pub side: Option<AskOrBid>,
    pub limit_price: Option<Decimal>,
    pub amount: Option<Decimal>,
    pub order_id: Option<u64>,
}

/// The kind of message that a lowercase word names.
pub open spec fn message_type_of_word(word: Seq<u8>) -> Option<MessageType> {
    if word == word_place_limit() {
        Some(MessageType::PlaceLimitOrder)
    } else if word == word_cancel_limit() {
        Some(MessageType::CancelLimitOrder)
    } else if word == word_place_market() {
        Some(MessageType::PlaceMarketOrder)
    } else {
        None
    }
}

impl MessageType {
    /// Whether a message of this kind carries an amount.
    pub fn has_amount(&self) -> (has: bool)
        ensures
            has == (*self != MessageType::CancelLimitOrder),
    {
        match self {
            MessageType::CancelLimitOrder => false,
            _ => true,
        }
    }

    /// Whether a message of this kind carries a price: a limit order does, a market order
    /// and a cancel do not.
    pub fn has_price(&self) -> (has: bool)
        ensures
            has == (*self == MessageType::PlaceLimitOrder),
    {
        match self {
            MessageType::PlaceLimitOrder => true,
            _ => false,
        }
    }

    /// Whether a message of this kind names an order: a cancel does, the placements do not.
    pub fn has_order_id(&self) -> (has: bool)
        ensures
            has == (*self == MessageType::CancelLimitOrder),
    {
        match self {
            MessageType::CancelLimitOrder => true,
            _ => false,
        }
    }

    /// The kind of message that the lowercase word names.
    pub fn from_lowercase(word: &[u8]) -> (kind: Option<MessageType>)
        ensures
            kind == message_type_of_word(word@),
    {
        let place_limit: [u8; 11] = [112, 108, 97, 99, 101, 95, 108, 105, 109, 105, 116];
        let cancel_limit: [u8; 12] = [99, 97, 110, 99, 101, 108, 95, 108, 105, 109, 105, 116];
        let place_market: [u8; 12] = [112, 108, 97, 99, 101, 95, 109, 97, 114, 107, 101, 116];
        assert(place_limit@ =~= word_place_limit());
        assert(cancel_limit@ =~= word_cancel_limit());
        assert(place_market@ =~= word_place_market());
        if bytes_eq(word, place_limit.as_slice()) {
            Some(MessageType::PlaceLimitOrder)
        } else if bytes_eq(word, cancel_limit.as_slice()) {
            Some(MessageType::CancelLimitOrder)
        } else if bytes_eq(word, place_market.as_slice()) {
            Some(MessageType::PlaceMarketOrder)
        } else {
            None
        }
    }

    /// The kind of message that `value` names, whatever the case of its letters.
    pub fn from_string(value: &String) -> (kind: Option<MessageType>)
        ensures
            kind == message_type_of_word(lowercase_bytes(value@)),
    {
        let word = to_lowercase_bytes(value.as_str());
        MessageType::from_lowercase(word.as_slice())
    }
}


/// The fields of a request as pairs of key and value.
pub open spec fn fields_view(fields: Seq<(Vec<u8>, Vec<u8>)>) -> Seq<(Seq<u8>, Seq<u8>)> {
    Seq::new(fields.len(), |k: int| (fields[k].0@, fields[k].1@))
}

/// The value that the fields give for a key: that of the last field with the key.
pub open spec fn field_of(fields: Seq<(Seq<u8>, Seq<u8>)>, key: Seq<u8>) -> Option<Seq<u8>>
    decreases fields.len(),
{
    if fields.len() == 0 {
        None
    } else if fields.last().0 == key {
        Some(fields.last().1)
    } else {
        field_of(fields.drop_last(), key)
    }
}

/// What is in a result, where it is one.
pub open spec fn ok_of<T>(r: Result<T, ()>) -> Option<T> {
    match r {
        Ok(t) => Some(t),
        Err(_) => None,
    }
}

/// The symbol that a value names.
pub open spec fn symbol_of_value(value: Option<Seq<u8>>) -> Option<Symbol> {
    match value {
        Some(v) => ok_of(symbol_of_word(lowercase_bytes(lossy_text(v)))),
        None => None,
    }
}

/// The side that a value names.
pub open spec fn side_of_value(value: Option<Seq<u8>>) -> Option<AskOrBid> {
    match value {
        Some(v) => ok_of(side_of_word(lowercase_bytes(lossy_text(v)))),
        None => None,
    }
}

/// The number that a value stands for.
pub open spec fn decimal_of_value(value: Option<Seq<u8>>) -> Option<Decimal> {
    match value {
        Some(v) => decimal_of_parts(decimal_parts(lossy_text(v))),
        None => None,
    }
}

/// The order id that a value stands for.
pub open spec fn id_of_value(value: Option<Seq<u8>>) -> Option<u64> {
    match value {
        Some(v) => u64_of_text(lossy_text(v)),
        None => None,
    }
}

/// The message that the fields of a request make up: none without an action that names a
/// kind of message; every other field is absent where it is missing or cannot be read.
pub open spec fn message_of(fields: Seq<(Seq<u8>, Seq<u8>)>) -> Option<InboundMessage> {
    match field_of(fields, word_action()) {
        Some(action) => match message_type_of_word(lowercase_bytes(lossy_text(action))) {
            Some(message_type) => Some(
                InboundMessage {
                    message_type,
                    symbol: symbol_of_value(field_of(fields, word_symbol())),
                    side: side_of_value(field_of(fields, word_side())),
                    limit_price: decimal_of_value(field_of(fields, word_price())),
                    amount: decimal_of_value(field_of(fields, word_amount())),
                    order_id: id_of_value(field_of(fields, word_order_id())),
                },
            ),
            None => None,
        },
        None => None,
    }
}

/// The place of the last field with the given key.
pub fn find_field(fields: &Vec<(Vec<u8>, Vec<u8>)>, key: &[u8]) -> (at: Option<usize>)
    ensures
        match at {
            Some(i) => i < fields@.len() && field_of(fields_view(fields@), key@) == Some(
                fields@[i as int].1@,
            ),
            None => field_of(fields_view(fields@), key@).is_none(),
        },
{
    let mut i: usize = fields.len();
    assert(fields_view(fields@).take(i as int) =~= fields_view(fields@));
    while i > 0
        invariant
            i <= fields@.len(),
            field_of(fields_view(fields@), key@) == field_of(
                fields_view(fields@).take(i as int),
                key@,
            ),
        decreases i,
    {
        let ghost part = fields_view(fields@).take(i as int);
        assert(part.last() == fields_view(fields@)[i - 1]);
        assert(part.drop_last() =~= fields_view(fields@).take(i - 1));
        if bytes_eq(fields[i - 1].0.as_slice(), key) {
            return Some(i - 1);
        }
        i = i - 1;
    }
    assert(fields_view(fields@).take(0).len() == 0);
    None
}

impl InboundMessage {
    /// The message that the fields of a request make up. The fields are the entries of a
    /// map in the order in which they were put in: of two with one key the later counts.
    pub fn from_hashmap(map: &Vec<(Vec<u8>, Vec<u8>)>) -> (message: Option<InboundMessage>)
        ensures
            message == message_of(fields_view(map@)),
    {
        let action: [u8; 6] = [97, 99, 116, 105, 111, 110];
        let symbol: [u8; 6] = [115, 121, 109, 98, 111, 108];
        let side: [u8; 4] = [115, 105, 100, 101];
        let price: [u8; 5] = [112, 114, 105, 99, 101];
        let amount: [u8; 6] = [97, 109, 111, 117, 110, 116];
        let order_id: [u8; 8] = [111, 114, 100, 101, 114, 95, 105, 100];
        assert(action@ =~= word_action());
        assert(symbol@ =~= word_symbol());
        assert(side@ =~= word_side());
        assert(price@ =~= word_price());
        assert(amount@ =~= word_amount());
        assert(order_id@ =~= word_order_id());
        let message_type = match find_field(map, action.as_slice()) {
            Some(i) => {
                let text = bytes_to_text(map[i].1.as_slice());
                match MessageType::from_string(&text) {
                    Some(message_type) => message_type,
                    None => {
                        return None;
                    },
                }
            },
            None => {
                return None;
            },
        };
        let symbol = match find_field(map, symbol.as_slice()) {
            Some(i) => {
                let text = bytes_to_text(map[i].1.as_slice());
                match Symbol::from_str(text.as_str()) {
                    Ok(symbol) => Some(symbol),
                    Err(_) => None,
                }
            },
            None => None,
        };
        let side = match find_field(map, side.as_slice()) {
            Some(i) => {
                let text = bytes_to_text(map[i].1.as_slice());
                match AskOrBid::from_str(text.as_str()) {
                    Ok(side) => Some(side),
                    Err(_) => None,
                }
            },
            None => None,
        };
        let limit_price = match find_field(map, price.as_slice()) {
            Some(i) => {
                let text = bytes_to_text(map[i].1.as_slice());
                Decimal::parse(text.as_str())
            },
            None => None,
        };
        let amount = match find_field(map, amount.as_slice()) {
            Some(i) => {
                let text = bytes_to_text(map[i].1.as_slice());
                Decimal::parse(text.as_str())
            },
            None => None,
        };
        let order_id = match find_field(map, order_id.as_slice()) {
            Some(i) => {
                let text = bytes_to_text(map[i].1.as_slice());
                parse_u64(text.as_str())
            },
            None => None,
        };
        Some(InboundMessage { message_type, symbol, side, limit_price, amount, order_id })
    }
}

} // verus!
