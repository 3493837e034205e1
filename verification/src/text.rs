//! Words of the request protocol as bytes.

use std::str::FromStr;
use vstd::prelude::*;

verus! {

/// The bytes of the lowercase form of a string.
pub uninterp spec fn lowercase_bytes(s: Seq<char>) -> Seq<u8>;

/// `str::to_lowercase`: the lowercase equivalent of the string, handed out as its bytes.
#[verifier::external_body]
pub(crate) fn to_lowercase_bytes(s: &str) -> (bytes: Vec<u8>)
    ensures
        bytes@ == lowercase_bytes(s@),
{
    s.to_lowercase().into_bytes()
}

/// The text that a byte string is read as, with a replacement character in the place of
/// every part that is not valid UTF-8.
pub uninterp spec fn lossy_text(bytes: Seq<u8>) -> Seq<char>;

/// `String::from_utf8_lossy`: the bytes as text.
#[verifier::external_body]
pub(crate) fn bytes_to_text(bytes: &[u8]) -> (text: String)
    ensures
        text@ == lossy_text(bytes@),
{
    String::from_utf8_lossy(bytes).into_owned()
}

/// The number that a text stands for as an unsigned integer of 64 bits, if it is one.
pub uninterp spec fn u64_of_text(text: Seq<char>) -> Option<u64>;

/// `u64::from_str`: the number that the text stands for; nothing where the text is refused.
#[verifier::external_body]
pub(crate) fn parse_u64(text: &str) -> (number: Option<u64>)
    ensures
        number == u64_of_text(text@),
{
    match u64::from_str(text) {
        Ok(number) => Some(number),
        Err(_) => None,
    }
}

/// A copy of the bytes from `from` up to `to`.
pub fn copy_range(bytes: &[u8], from: usize, to: usize) -> (copy: Vec<u8>)
    requires
        from <= to <= bytes@.len(),
    ensures
        copy@ == bytes@.subrange(from as int, to as int),
{
    let mut copy: Vec<u8> = Vec::new();
    let mut i: usize = from;
    while i < to
        invariant
            from <= i <= to <= bytes@.len(),
            copy@ == bytes@.subrange(from as int, i as int),
        decreases to - i,
    {
        copy.push(bytes[i]);
        i = i + 1;
        assert(copy@ =~= bytes@.subrange(from as int, i as int));
    }
    copy
}

/// The first place from `from` on and before `to` at which `s` holds the byte `sep`; `to`
/// where there is none.
pub open spec fn first_at(s: Seq<u8>, sep: u8, from: int, to: int) -> int
    decreases to - from,
{
    if from >= to {
        to
    } else if s[from] == sep {
        from
    } else {
        first_at(s, sep, from + 1, to)
    }
}

/// The first place from `from` on at which a carriage return and a line feed follow each
/// other in `s`; the length of `s` where there is none.
pub open spec fn first_line_break(s: Seq<u8>, from: int) -> int
    decreases s.len() - from,
{
    if from + 1 >= s.len() {
        s.len() as int
    } else if s[from] == 13 && s[from + 1] == 10 {
        from
    } else {
        first_line_break(s, from + 1)
    }
}

/// The first place of the byte `sep` in `bytes` from `from` on and before `to`.
pub fn find_byte(bytes: &[u8], sep: u8, from: usize, to: usize) -> (at: usize)
    requires
        from <= to <= bytes@.len(),
    ensures
        at == first_at(bytes@, sep, from as int, to as int),
        from <= at <= to,
{
    let mut i: usize = from;
    while i < to
        invariant
            from <= i <= to <= bytes@.len(),
            first_at(bytes@, sep, from as int, to as int) == first_at(
                bytes@,
                sep,
                i as int,
                to as int,
            ),
        decreases to - i,
    {
        if bytes[i] == sep {
            return i;
        }
        i = i + 1;
    }
    i
}

/// The first place of a line break in `bytes`.
pub fn find_line_break(bytes: &[u8]) -> (at: usize)
    ensures
        at == first_line_break(bytes@, 0),
        at <= bytes@.len(),
{
    let n = bytes.len();
    if n < 2 {
        return n;
    }
    let mut i: usize = 0;
    while i < n - 1
        invariant
            n == bytes@.len(),
            n >= 2,
            i <= n - 1,
            first_line_break(bytes@, 0) == first_line_break(bytes@, i as int),
        decreases n - i,
    {
        if bytes[i] == 13 && bytes[i + 1] == 10 {
            return i;
        }
        i = i + 1;
    }
    n
}

/// Whether two byte strings are the same.
pub fn bytes_eq(a: &[u8], b: &[u8]) -> (same: bool)
    ensures
        same == (a@ == b@),
{
    if a.len() != b.len() {
        return false;
    }
    let mut i: usize = 0;
    while i < a.len()
        invariant
            a.len() == b.len(),
            0 <= i <= a.len(),
            forall|k: int| 0 <= k < i ==> a@[k] == b@[k],
        decreases a.len() - i,
    {
        if a[i] != b[i] {
            return false;
        }
        i = i + 1;
    }
    assert(a@ =~= b@);
    true
}

/// The word `ask`.
pub open spec fn word_ask() -> Seq<u8> {
    seq![97u8, 115u8, 107u8]
}

/// The word `bid`.
pub open spec fn word_bid() -> Seq<u8> {
    seq![98u8, 105u8, 100u8]
}

/// The word `btc`.
pub open spec fn word_btc() -> Seq<u8> {
    seq![98u8, 116u8, 99u8]
}

/// The word `eth`.
pub open spec fn word_eth() -> Seq<u8> {
    seq![101u8, 116u8, 104u8]
}

/// The word `place_limit`.
pub open spec fn word_place_limit() -> Seq<u8> {
    seq![112u8, 108u8, 97u8, 99u8, 101u8, 95u8, 108u8, 105u8, 109u8, 105u8, 116u8]
}

/// The word `cancel_limit`.
pub open spec fn word_cancel_limit() -> Seq<u8> {
    seq![99u8, 97u8, 110u8, 99u8, 101u8, 108u8, 95u8, 108u8, 105u8, 109u8, 105u8, 116u8]
}

/// The word `place_market`.
pub open spec fn word_place_market() -> Seq<u8> {
    seq![112u8, 108u8, 97u8, 99u8, 101u8, 95u8, 109u8, 97u8, 114u8, 107u8, 101u8, 116u8]
}

/// The word `action`.
pub open spec fn word_action() -> Seq<u8> {
    seq![97u8, 99u8, 116u8, 105u8, 111u8, 110u8]
}

/// The word `symbol`.
pub open spec fn word_symbol() -> Seq<u8> {
    seq![115u8, 121u8, 109u8, 98u8, 111u8, 108u8]
}

/// The word `side`.
pub open spec fn word_side() -> Seq<u8> {
    seq![115u8, 105u8, 100u8, 101u8]
}

/// The word `price`.
pub open spec fn word_price() -> Seq<u8> {
    seq![112u8, 114u8, 105u8, 99u8, 101u8]
}

/// The word `amount`.
pub open spec fn word_amount() -> Seq<u8> {
    seq![97u8, 109u8, 111u8, 117u8, 110u8, 116u8]
}

/// The word `order_id`.
pub open spec fn word_order_id() -> Seq<u8> {
    seq![111u8, 114u8, 100u8, 101u8, 114u8, 95u8, 105u8, 100u8]
}

/// Whether `word` is the three bytes given.
pub fn is_word3(word: &[u8], a: u8, b: u8, c: u8) -> (same: bool)
    ensures
        same == (word@ == seq![a, b, c]),
{
    if word.len() == 3 && word[0] == a && word[1] == b && word[2] == c {
        assert(word@ =~= seq![a, b, c]);
        true
    } else {
        false
    }
}

} // verus!
