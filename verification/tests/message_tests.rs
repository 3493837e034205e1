use exchange_prototype::inbound_msg;
use exchange_prototype::inbound_server::MessageType;
use exchange_prototype::symbol::{AskOrBid, Symbol};

#[test]
fn test_message_type_from_string() {
    assert_eq!(
        MessageType::from_string(&"place_limit".to_string()),
        Some(MessageType::PlaceLimitOrder)
    );
    assert_eq!(
        MessageType::from_string(&"CANCEL_LIMIT".to_string()),
        Some(MessageType::CancelLimitOrder)
    );
    assert_eq!(
        MessageType::from_string(&"Place_Market".to_string()),
        Some(MessageType::PlaceMarketOrder)
    );
    assert_eq!(MessageType::from_string(&"place".to_string()), None);
    assert_eq!(MessageType::from_string(&"".to_string()), None);
    assert_eq!(MessageType::from_lowercase(b"PLACE_LIMIT"), None);
    assert_eq!(MessageType::from_lowercase(b"place_limit"), Some(MessageType::PlaceLimitOrder));
    assert_eq!(MessageType::from_lowercase(b"place_limits"), None);
}

#[test]
fn test_message_type_fields() {
    assert!(MessageType::PlaceLimitOrder.has_price());
    assert!(!MessageType::PlaceMarketOrder.has_price());
    assert!(!MessageType::CancelLimitOrder.has_price());
    assert!(MessageType::PlaceLimitOrder.has_amount());
    assert!(MessageType::PlaceMarketOrder.has_amount());
    assert!(!MessageType::CancelLimitOrder.has_amount());
    assert!(MessageType::CancelLimitOrder.has_order_id());
    assert!(!MessageType::PlaceLimitOrder.has_order_id());
    assert!(!MessageType::PlaceMarketOrder.has_order_id());
}

#[test]
fn test_binary_message_type() {
    assert_eq!(inbound_msg::MessageType::from_u8(1), Some(inbound_msg::MessageType::PlaceLimitOrder));
    assert_eq!(inbound_msg::MessageType::from_u8(2), Some(inbound_msg::MessageType::DeleteLimitOrder));
    assert_eq!(inbound_msg::MessageType::from_u8(3), Some(inbound_msg::MessageType::PlaceMarketOrder));
    assert_eq!(inbound_msg::MessageType::from_u8(0), None);
    assert_eq!(inbound_msg::MessageType::from_u8(4), None);
    assert!(inbound_msg::MessageType::PlaceLimitOrder.has_price());
    assert!(!inbound_msg::MessageType::PlaceMarketOrder.has_price());
    assert!(inbound_msg::MessageType::PlaceMarketOrder.has_volume());
    assert!(!inbound_msg::MessageType::DeleteLimitOrder.has_volume());
}

#[test]
fn test_side_and_symbol_from_str() {
    assert_eq!(AskOrBid::from_str("ask"), Ok(AskOrBid::Ask));
    assert_eq!(AskOrBid::from_str("BID"), Ok(AskOrBid::Bid));
    assert_eq!(AskOrBid::from_str("buy"), Err(()));
    assert_eq!(AskOrBid::from_lowercase(b"Ask"), Err(()));
    assert_eq!(Symbol::from_str("BTC"), Ok(Symbol::Asset1));
    assert_eq!(Symbol::from_str("eth"), Ok(Symbol::Asset2));
    assert_eq!(Symbol::from_str("doge"), Err(()));
    assert_eq!(Symbol::from_lowercase(b"ETH"), Err(()));
    assert_eq!(Symbol::Asset1.name(), "Asset1");
    assert_eq!(Symbol::Asset2.name(), "Asset2");
    assert_eq!(AskOrBid::Ask.opposite(), AskOrBid::Bid);
    assert_eq!(AskOrBid::Bid.opposite(), AskOrBid::Ask);
}
