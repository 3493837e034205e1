//! The request line of the HTTP front end: from the bytes of a request to a message.

use crate::inbound_server::{fields_view, message_of, InboundMessage};
use crate::text::{copy_range, find_byte, find_line_break, first_at, first_line_break};
use vstd::prelude::*;

verus! {

/// Where the parameters of a request stand: behind the first question mark of its first
/// line, up to the next question mark or blank or to the end of the line. A first line
/// without a question mark has none.
pub open spec fn query_range(s: Seq<u8>) -> Option<(int, int)> {
    let line_end = first_line_break(s, 0);
    let mark = first_at(s, 63, 0, line_end);
    if mark >= line_end {
        None
    } else {
        let next_mark = first_at(s, 63, mark + 1, line_end);
        Some((mark + 1, first_at(s, 32, mark + 1, next_mark)))
    }
}

/// The parameters between `from` and `to` as pairs of key and value. Parameters are parted
/// by `&`; the key of one stands before its first `=` and its value behind it, up to a
/// second `=`. One parameter without `=` spoils them all.
pub open spec fn pairs_in(s: Seq<u8>, from: int, to: int) -> Option<Seq<(Seq<u8>, Seq<u8>)>>
    decreases to - from + 1,
{
    let amp = first_at(s, 38, from, to);
    let eq = first_at(s, 61, from, amp);
    if from > to || eq >= amp {
        None
    } else {
        let pair = (s.subrange(from, eq), s.subrange(eq + 1, first_at(s, 61, eq + 1, amp)));
        if amp >= to {
            Some(seq![pair])
        } else {
            match pairs_in(s, amp + 1, to) {
                Some(rest) => Some(seq![pair] + rest),
                None => None,
            }
        }
    }
}

/// The message that the bytes of a request carry.
pub open spec fn request_message(s: Seq<u8>) -> Option<InboundMessage> {
    match query_range(s) {
        Some((from, to)) => match pairs_in(s, from, to) {
            Some(fields) => message_of(fields),
            None => None,
        },
        None => None,
    }
}

/// What was read so far and what the rest will give, together.
pub open spec fn joined(
    done: Seq<(Seq<u8>, Seq<u8>)>,
    rest: Option<Seq<(Seq<u8>, Seq<u8>)>>,
) -> Option<Seq<(Seq<u8>, Seq<u8>)>> {
    match rest {
        Some(rest) => Some(done + rest),
        None => None,
    }
}

/// The parameters of a request as pairs of key and value.
pub fn parse_pairs(bytes: &[u8], from: usize, to: usize) -> (pairs: Option<Vec<(Vec<u8>, Vec<u8>)>>)
    requires
        from <= to <= bytes@.len(),
    ensures
        match pairs {
            Some(v) => pairs_in(bytes@, from as int, to as int) == Some(fields_view(v@)),
            None => pairs_in(bytes@, from as int, to as int).is_none(),
        },
{
    let mut pairs: Vec<(Vec<u8>, Vec<u8>)> = Vec::new();
    let mut at: usize = from;
    loop
        invariant
            from <= at <= to <= bytes@.len(),
            pairs_in(bytes@, from as int, to as int) == joined(
                fields_view(pairs@),
                pairs_in(bytes@, at as int, to as int),
            ),
        decreases to - at,
    {
        let amp = find_byte(bytes, 38, at, to);
        let eq = find_byte(bytes, 61, at, amp);
        if eq >= amp {
            return None;
        }
        let value_end = find_byte(bytes, 61, eq + 1, amp);
        let key = copy_range(bytes, at, eq);
        let value = copy_range(bytes, eq + 1, value_end);
        let ghost done = fields_view(pairs@);
        let ghost pair = (key@, value@);
        pairs.push((key, value));
        assert(fields_view(pairs@) =~= done.push(pair));
        if amp >= to {
            assert(done + seq![pair] =~= done.push(pair));
            return Some(pairs);
        }
        proof {
            match pairs_in(bytes@, amp + 1, to as int) {
                Some(rest) => {
                    assert(done + (seq![pair] + rest) =~= done.push(pair) + rest);
                },
                None => {},
            }
        }
        at = amp + 1;
    }
}

/// Reads the bytes of a request into a message; nothing where the request has no
/// parameters, a parameter without a value, or no action that names a kind of message.
pub fn parse_request(bytes: Vec<u8>) -> (message: Option<InboundMessage>)
    ensures
        message == request_message(bytes@),
{
    let line_end = find_line_break(bytes.as_slice());
    let mark = find_byte(bytes.as_slice(), 63, 0, line_end);
    if mark >= line_end {
        return None;
    }
    let next_mark = find_byte(bytes.as_slice(), 63, mark + 1, line_end);
    let end = find_byte(bytes.as_slice(), 32, mark + 1, next_mark);
    match parse_pairs(bytes.as_slice(), mark + 1, end) {
        Some(pairs) => InboundMessage::from_hashmap(&pairs),
        None => None,
    }
}

} // verus!
