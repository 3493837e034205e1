use exchange_prototype::decimal::Decimal;
use exchange_prototype::inbound_http_server::{parse_pairs, parse_request};
use exchange_prototype::inbound_server::{find_field, InboundMessage, MessageType};
use exchange_prototype::symbol::{AskOrBid, Symbol};
use exchange_prototype::text::{bytes_eq, copy_range, find_byte, find_line_break, is_word3};

#[test]
fn test_parse_place_limit() {
    let request = format!(
        "GET /api?action={}&symbol={}&side={}&price={}&amount={}\
            HTTP/1.1\r\nHost: localhost\r\nConnection: close\r\n\r\n)",
        "place_limit", "BTC", "bid", "1234", "231"
    )
    .into_bytes();
    parse_request(request);
}

#[test]
fn test_parse_place_limit_fields() {
    let request = b"GET /api?action=place_limit&symbol=BTC&side=bid&price=1234&amount=231 HTTP/1.1\r\nHost: localhost\r\n\r\n".to_vec();
    assert_eq!(
        parse_request(request),
        Some(InboundMessage {
            message_type: MessageType::PlaceLimitOrder,
            symbol: Some(Symbol::Asset1),
            side: Some(AskOrBid::Bid),
            limit_price: Some(Decimal::from_u32(1234)),
            amount: Some(Decimal::from_u32(231)),
            order_id: None,
        })
    );
    let glued = b"GET /api?action=place_limit&symbol=BTC&side=bid&price=1234&amount=231HTTP/1.1\r\n\r\n".to_vec();
    assert_eq!(
        parse_request(glued),
        Some(InboundMessage {
            message_type: MessageType::PlaceLimitOrder,
            symbol: Some(Symbol::Asset1),
            side: Some(AskOrBid::Bid),
            limit_price: Some(Decimal::from_u32(1234)),
            amount: None,
            order_id: None,
        })
    );
}

#[test]
fn test_parse_cancel_and_market() {
    assert_eq!(
        parse_request(b"GET /api?action=cancel_limit&order_id=17 HTTP/1.1\r\n".to_vec()),
        Some(InboundMessage {
            message_type: MessageType::CancelLimitOrder,
            symbol: None,
            side: None,
            limit_price: None,
            amount: None,
            order_id: Some(17),
        })
    );
    assert_eq!(
        parse_request(b"GET /api?action=PLACE_MARKET&symbol=eth&side=ASK&amount=0.5".to_vec()),
        Some(InboundMessage {
            message_type: MessageType::PlaceMarketOrder,
            symbol: Some(Symbol::Asset2),
            side: Some(AskOrBid::Ask),
            limit_price: None,
            amount: Some(Decimal { units: 50_000_000 }),
            order_id: None,
        })
    );
    assert_eq!(
        parse_request(b"GET /api?action=cancel_limit&order_id=-1&symbol=xrp&side=buy&price=x HTTP/1.1".to_vec()),
        Some(InboundMessage {
            message_type: MessageType::CancelLimitOrder,
            symbol: None,
            side: None,
            limit_price: None,
            amount: None,
            order_id: None,
        })
    );
}

#[test]
fn test_parse_request_refuses() {
    assert_eq!(parse_request(Vec::new()), None);
    assert_eq!(parse_request(b"GET /api HTTP/1.1\r\n".to_vec()), None);
    assert_eq!(parse_request(b"GET /api? HTTP/1.1\r\n".to_vec()), None);
    assert_eq!(parse_request(b"GET /api\r\n?action=place_limit".to_vec()), None);
    assert_eq!(parse_request(b"GET /api?action=place_limit&symbol HTTP/1.1".to_vec()), None);
    assert_eq!(parse_request(b"GET /api?symbol=btc&side=ask HTTP/1.1".to_vec()), None);
    assert_eq!(parse_request(b"GET /api?action=replace HTTP/1.1".to_vec()), None);
    assert_eq!(parse_request(b"GET /api?action=place_limit& HTTP/1.1".to_vec()), None);
}

#[test]
fn test_parse_request_details() {
    let later_wins = parse_request(b"GET /api?action=place_limit&action=cancel_limit&order_id=3".to_vec());
    assert_eq!(later_wins.unwrap().message_type, MessageType::CancelLimitOrder);
    let second_mark = parse_request(b"GET /api?action=cancel_limit?order_id=3".to_vec());
    assert_eq!(second_mark.unwrap().order_id, None);
    let second_equals = parse_request(b"GET /api?action=cancel_limit=x&order_id=3=4".to_vec()).unwrap();
    assert_eq!(second_equals.message_type, MessageType::CancelLimitOrder);
    assert_eq!(second_equals.order_id, Some(3));
    let not_text = parse_request(vec![71, 63, 97, 99, 116, 105, 111, 110, 61, 255]);
    assert_eq!(not_text, None);
}

#[test]
fn test_from_hashmap() {
    let fields = vec![
        (b"side".to_vec(), b"Ask".to_vec()),
        (b"action".to_vec(), b"place_limit".to_vec()),
        (b"price".to_vec(), b"10.5".to_vec()),
        (b"order_id".to_vec(), b"18446744073709551615".to_vec()),
    ];
    assert_eq!(
        InboundMessage::from_hashmap(&fields),
        Some(InboundMessage {
            message_type: MessageType::PlaceLimitOrder,
            symbol: None,
            side: Some(AskOrBid::Ask),
            limit_price: Some(Decimal { units: 1_050_000_000 }),
            amount: None,
            order_id: Some(u64::MAX),
        })
    );
    assert_eq!(find_field(&fields, b"price"), Some(2));
    assert_eq!(find_field(&fields, b"amount"), None);
    assert_eq!(InboundMessage::from_hashmap(&Vec::new()), None);
    let too_large = vec![
        (b"action".to_vec(), b"cancel_limit".to_vec()),
        (b"order_id".to_vec(), b"18446744073709551616".to_vec()),
    ];
    assert_eq!(InboundMessage::from_hashmap(&too_large).unwrap().order_id, None);
}

#[test]
fn test_bytes_helpers() {
    assert_eq!(find_byte(b"a=b&c=d", b'&', 0, 7), 3);
    assert_eq!(find_byte(b"a=b&c=d", b'&', 4, 7), 7);
    assert_eq!(find_byte(b"a=b&c=d", b'=', 0, 1), 1);
    assert_eq!(find_line_break(b"ab\r\ncd\r\n"), 2);
    assert_eq!(find_line_break(b"ab\rcd\n"), 6);
    assert_eq!(find_line_break(b"\r"), 1);
    assert_eq!(find_line_break(b""), 0);
    assert_eq!(copy_range(b"hello", 1, 3), b"el".to_vec());
    assert!(bytes_eq(b"abc", b"abc"));
    assert!(!bytes_eq(b"abc", b"abd"));
    assert!(!bytes_eq(b"abc", b"ab"));
    assert!(is_word3(b"ask", 97, 115, 107));
    assert!(!is_word3(b"asks", 97, 115, 107));
    assert_eq!(
        parse_pairs(b"a=1&bb=22", 0, 9),
        Some(vec![(b"a".to_vec(), b"1".to_vec()), (b"bb".to_vec(), b"22".to_vec())])
    );
    assert_eq!(parse_pairs(b"a=1&bb", 0, 6), None);
    assert_eq!(parse_pairs(b"", 0, 0), None);
}
