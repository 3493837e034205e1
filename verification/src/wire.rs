//! The answers of the exchange as they go over the wire: JSON objects.

use crate::decimal::decimal_text;
use crate::exchange::Response;
use crate::orderbook::{cancel_status, insert_status, CancelLimitResult, InsertLimitResult};
use vstd::prelude::*;

verus! {

/// The value of one field of an answer.
pub enum JsonField {
    Text(String),
    Number(u64),
}

/// The value of one field of an answer, as plain data.
pub enum FieldValue {
    Text(Seq<char>),
    Number(u64),
}

impl View for JsonField {
    type V = FieldValue;

    open spec fn view(&self) -> FieldValue {
        match self {
            JsonField::Text(text) => FieldValue::Text(text@),
            JsonField::Number(number) => FieldValue::Number(*number),
        }
    }
}

/// The fields of an answer as plain data: the key and the value of each, in their order.
pub open spec fn fields_model(fields: Seq<(&'static str, JsonField)>) -> Seq<
    (Seq<char>, FieldValue),
> {
    Seq::new(fields.len(), |k: int| (fields[k].0@, fields[k].1@))
}

/// The text of the JSON object that holds the given fields in the given order.
pub uninterp spec fn json_object_text(fields: Seq<(Seq<char>, FieldValue)>) -> Seq<char>;

/// `json::JsonValue::dump` of the object that `JsonValue::insert` fills with the given
/// fields in their order: the object as JSON text.
#[verifier::external_body]
pub(crate) fn dump_object(fields: &Vec<(&'static str, JsonField)>) -> (text: String)
    ensures
        text@ == json_object_text(fields_model(fields@)),
{
    let mut object = json::JsonValue::new_object();
    for (key, field) in fields.iter() {
        let _ = match field {
            JsonField::Text(text) => object.insert(key, text.as_str()),
            JsonField::Number(number) => object.insert(key, *number),
        };
    }
    object.dump()
}

/// The one field that every answer has: its status.
pub open spec fn status_field(status: Seq<char>) -> (Seq<char>, FieldValue) {
    ("status"@, FieldValue::Text(status))
}

/// The fields of the answer to a placement: its status; the id of the order where the order
/// rests in full or in part; and what remains of it where it was filled in part.
pub open spec fn insert_result_fields(result: InsertLimitResult) -> Seq<(Seq<char>, FieldValue)> {
    match result {
        InsertLimitResult::Success(id) => seq![
            status_field(insert_status(result)),
            ("order_id"@, FieldValue::Number(id)),
        ],
        InsertLimitResult::PartiallyFilled(id, remaining) => seq![
            status_field(insert_status(result)),
            ("order_id"@, FieldValue::Number(id)),
            ("remaining"@, FieldValue::Text(decimal_text(remaining.units))),
        ],
        _ => seq![status_field(insert_status(result))],
    }
}

/// The fields of the answer to a request that could not be read.
pub open spec fn bad_request_fields() -> Seq<(Seq<char>, FieldValue)> {
    seq![status_field("failed"@), ("error"@, FieldValue::Text("bad request"@))]
}

/// The fields of an answer of the exchange. A placement that lacks a field is answered as
/// an order that is refused, a cancel of an id that was never routed as one of an id that is
/// not found, and a cancel without an id as a request that could not be read.
pub open spec fn response_fields(response: Response) -> Seq<(Seq<char>, FieldValue)> {
    match response {
        Response::Placed(result) => insert_result_fields(result),
        Response::Cancelled(result) => seq![status_field(cancel_status(result))],
        Response::InvalidData => insert_result_fields(InsertLimitResult::OrderDataInvalid),
        Response::InvalidId => seq![
            status_field(cancel_status(CancelLimitResult::OrderIdNotFound)),
        ],
        Response::NoOrderId => bad_request_fields(),
    }
}

/// The answer to a placement as JSON text.
pub fn insert_result_text(result: &InsertLimitResult) -> (text: String)
    ensures
        text@ == json_object_text(insert_result_fields(*result)),
{
    let mut fields: Vec<(&'static str, JsonField)> = Vec::new();
    fields.push(("status", JsonField::Text(result.status().to_owned())));
    match result {
        InsertLimitResult::Success(id) => {
            fields.push(("order_id", JsonField::Number(*id)));
        },
        InsertLimitResult::PartiallyFilled(id, remaining) => {
            fields.push(("order_id", JsonField::Number(*id)));
            fields.push(("remaining", JsonField::Text(remaining.to_text())));
        },
        _ => {},
    }
    assert(fields_model(fields@) =~= insert_result_fields(*result));
    dump_object(&fields)
}

/// The answer to a cancel as JSON text.
pub fn cancel_result_text(result: &CancelLimitResult) -> (text: String)
    ensures
        text@ == json_object_text(seq![status_field(cancel_status(*result))]),
{
    let mut fields: Vec<(&'static str, JsonField)> = Vec::new();
    fields.push(("status", JsonField::Text(result.status().to_owned())));
    assert(fields_model(fields@) =~= seq![status_field(cancel_status(*result))]);
    dump_object(&fields)
}

/// The answer to a request that could not be read, as JSON text.
pub fn bad_request_text() -> (text: String)
    ensures
        text@ == json_object_text(bad_request_fields()),
{
    let mut fields: Vec<(&'static str, JsonField)> = Vec::new();
    fields.push(("status", JsonField::Text("failed".to_owned())));
    fields.push(("error", JsonField::Text("bad request".to_owned())));
    assert(fields_model(fields@) =~= bad_request_fields());
    dump_object(&fields)
}

/// An answer of the exchange as JSON text.
pub fn response_text(response: &Response) -> (text: String)
    ensures
        text@ == json_object_text(response_fields(*response)),
{
    match response {
        Response::Placed(result) => insert_result_text(result),
        Response::Cancelled(result) => cancel_result_text(result),
        Response::InvalidData => insert_result_text(&InsertLimitResult::OrderDataInvalid),
        Response::InvalidId => cancel_result_text(&CancelLimitResult::OrderIdNotFound),
        Response::NoOrderId => bad_request_text(),
    }
}

} // verus!
