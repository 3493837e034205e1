//! Tradeable symbols and the two sides of a book.

use crate::text::{
    is_word3, lowercase_bytes, to_lowercase_bytes, word_ask, word_bid, word_btc, word_eth,
};
use vstd::prelude::*;

verus! {

/// A tradeable symbol.
#[derive(Debug, Eq, PartialEq, Hash, Clone, Copy, Structural)]
pub enum Symbol {
    Asset1,
    Asset2,
}

/// The side of the book an order belongs to.
#[derive(Debug, Clone, Eq, PartialEq, Copy, Structural)]
pub enum AskOrBid {
    Ask,
    Bid,
}

impl AskOrBid {
    /// The side that an order of this side trades against.
    pub open spec fn spec_opposite(self) -> AskOrBid {
        match self {
            AskOrBid::Ask => AskOrBid::Bid,
            AskOrBid::Bid => AskOrBid::Ask,
        }
    }

    /// The side that an order of this side trades against.
    #[verifier::when_used_as_spec(spec_opposite)]
    pub fn opposite(self) -> (other: AskOrBid)
        ensures
            other == self.spec_opposite(),
    {
        match self {
            AskOrBid::Ask => AskOrBid::Bid,
            AskOrBid::Bid => AskOrBid::Ask,
        }
    }
}

/// The side that a lowercase word names.
pub open spec fn side_of_word(word: Seq<u8>) -> Result<AskOrBid, ()> {
    if word == word_ask() {
        Ok(AskOrBid::Ask)
    } else if word == word_bid() {
        Ok(AskOrBid::Bid)
    } else {
        Err(())
    }
}

/// The symbol that a lowercase word names.
pub open spec fn symbol_of_word(word: Seq<u8>) -> Result<Symbol, ()> {
    if word == word_btc() {
        Ok(Symbol::Asset1)
    } else if word == word_eth() {
        Ok(Symbol::Asset2)
    } else {
        Err(())
    }
}

impl AskOrBid {
    /// The side that the lowercase word names: `ask` or `bid`.
    pub fn from_lowercase(word: &[u8]) -> (side: Result<AskOrBid, ()>)
        ensures
            side == side_of_word(word@),
    {
        if is_word3(word, 97, 115, 107) {
            Ok(AskOrBid::Ask)
        } else if is_word3(word, 98, 105, 100) {
            Ok(AskOrBid::Bid)
        } else {
            Err(())
        }
    }

    /// The side that `s` names, whatever the case of its letters.
    pub fn from_str(s: &str) -> (side: Result<AskOrBid, ()>)
        ensures
            side == side_of_word(lowercase_bytes(s@)),
    {
        let word = to_lowercase_bytes(s);
        AskOrBid::from_lowercase(word.as_slice())
    }
}

impl Symbol {
    /// The symbol that the lowercase word names: `btc` or `eth`.
    pub fn from_lowercase(word: &[u8]) -> (symbol: Result<Symbol, ()>)
        ensures
            symbol == symbol_of_word(word@),
    {
        if is_word3(word, 98, 116, 99) {
            Ok(Symbol::Asset1)
        } else if is_word3(word, 101, 116, 104) {
            Ok(Symbol::Asset2)
        } else {
            Err(())
        }
    }

    /// The symbol that `s` names, whatever the case of its letters.
    pub fn from_str(s: &str) -> (symbol: Result<Symbol, ()>)
        ensures
            symbol == symbol_of_word(lowercase_bytes(s@)),
    {
        let word = to_lowercase_bytes(s);
        Symbol::from_lowercase(word.as_slice())
    }

    /// The name of the symbol.
    pub fn name(&self) -> (name: &'static str)
        ensures
            name@ == match *self {
                Symbol::Asset1 => "Asset1"@,
                Symbol::Asset2 => "Asset2"@,
            },
    {
        match self {
            Symbol::Asset1 => "Asset1",
            Symbol::Asset2 => "Asset2",
        }
    }
}

} // verus!
