//! The kinds of message of the binary protocol.

use vstd::prelude::*;

verus! {

/// The kinds of message, numbered from one in this order.
#[derive(Debug, Clone, Copy, Eq, PartialEq, Structural)]
pub enum MessageType {
    PlaceLimitOrder,
    DeleteLimitOrder,
    PlaceMarketOrder,
}

impl MessageType {
    /// The kind of message with the given number.
    pub fn from_u8(value: u8) -> (kind: Option<MessageType>)
        ensures
            kind == match value {
                1u8 => Some(MessageType::PlaceLimitOrder),
                2u8 => Some(MessageType::DeleteLimitOrder),
                3u8 => Some(MessageType::PlaceMarketOrder),
                _ => None,
            },
    {
        match value {
            1 => Some(MessageType::PlaceLimitOrder),
            2 => Some(MessageType::DeleteLimitOrder),
            3 => Some(MessageType::PlaceMarketOrder),
            _ => None,
        }
    }

    /// Whether a message of this kind carries a volume.
    pub fn has_volume(&self) -> (has: bool)
        ensures
            has == (*self != MessageType::DeleteLimitOrder),
    {
        match self {
            MessageType::DeleteLimitOrder => false,
            _ => true,
        }
    }

    /// Whether a message of this kind carries a price.
    pub fn has_price(&self) -> (has: bool)
        ensures
            has == (*self == MessageType::PlaceLimitOrder),
    {
        match self {
            MessageType::PlaceLimitOrder => true,
            _ => false,
        }
    }
}

} // verus!
