use exchange_prototype::decimal::Decimal;
use exchange_prototype::exchange::Response;
use exchange_prototype::orderbook::{CancelLimitResult, InsertLimitResult};
use exchange_prototype::wire::{
    bad_request_text, cancel_result_text, insert_result_text, response_text,
};

#[test]
fn test_insert_result_text() {
    assert_eq!(
        insert_result_text(&InsertLimitResult::Success(7)),
        r#"{"status":"success","order_id":7}"#
    );
    assert_eq!(
        insert_result_text(&InsertLimitResult::PartiallyFilled(3, Decimal::from_u32(68))),
        r#"{"status":"partially_filled","order_id":3,"remaining":"68"}"#
    );
    assert_eq!(
        insert_result_text(&InsertLimitResult::PartiallyFilled(
            u64::MAX,
            Decimal { units: 150_000_000 }
        )),
        r#"{"status":"partially_filled","order_id":18446744073709551615,"remaining":"1.5"}"#
    );
    assert_eq!(
        insert_result_text(&InsertLimitResult::FullyFilled),
        r#"{"status":"fully_filled"}"#
    );
    assert_eq!(
        insert_result_text(&InsertLimitResult::OrderDataInvalid),
        r#"{"status":"order_data_invalid"}"#
    );
}

#[test]
fn test_cancel_and_bad_request_text() {
    assert_eq!(cancel_result_text(&CancelLimitResult::Success), r#"{"status":"success"}"#);
    assert_eq!(
        cancel_result_text(&CancelLimitResult::OrderIdNotFound),
        r#"{"status":"order_id_not_found"}"#
    );
    assert_eq!(bad_request_text(), r#"{"status":"failed","error":"bad request"}"#);
}

#[test]
fn test_response_text() {
    assert_eq!(
        response_text(&Response::Placed(InsertLimitResult::Success(1))),
        r#"{"status":"success","order_id":1}"#
    );
    assert_eq!(
        response_text(&Response::Cancelled(CancelLimitResult::Success)),
        r#"{"status":"success"}"#
    );
    assert_eq!(response_text(&Response::InvalidData), r#"{"status":"order_data_invalid"}"#);
    assert_eq!(response_text(&Response::InvalidId), r#"{"status":"order_id_not_found"}"#);
    assert_eq!(
        response_text(&Response::NoOrderId),
        r#"{"status":"failed","error":"bad request"}"#
    );
}
