//! Reading card swipes: a swipe line carries stripe fields between a `%`
//! and a final `?`, separated by `^`; a failed read is the fixed line
//! `%E?\n`.

pub mod parse;

use vstd::prelude::*;

pub use self::parse::parse_card;
use self::parse::{card_middle, spec_card_ok, split_fields};

verus! {

/// The result of reading a card.
#[derive(Clone, Debug, PartialEq, Eq)]
pub enum CardParse {
    /// A successful read: the stripe fields.
    Card(Vec<String>),
    /// A read failed: the reader sent its error line.
    BadRead,
    /// An invalid input was attempted to be parsed.
    BadParse,
}

/// The mathematical content of a card read.
pub ghost enum CardView {
    /// A successful read: the stripe fields.
    Card(Seq<Seq<char>>),
    /// A failed read.
    BadRead,
    /// An invalid input.
    BadParse,
}

impl View for CardParse {
    type V = CardView;

    open spec fn view(&self) -> CardView {
        match self {
            CardParse::Card(fields) => CardView::Card(fields@.map_values(|f: String| f@)),
            CardParse::BadRead => CardView::BadRead,
            CardParse::BadParse => CardView::BadParse,
        }
    }
}

/// The error line a reader sends on a failed read.
pub open spec fn bad_read_line() -> Seq<char> {
    seq!['%', 'E', '?', '\n']
}

/// What a swipe line means: the reader's fixed error line is a bad read
/// (and anything that merely starts with it is invalid); a line framed by
/// `%` and `?\n` whose final field holds no `?` carries its `^`-separated
/// fields; anything else is invalid.
pub open spec fn spec_parse_card(s: Seq<char>) -> CardView {
    if s.len() >= 4 && s.take(4) == bad_read_line() {
        if s.len() == 4 {
            CardView::BadRead
        } else {
            CardView::BadParse
        }
    } else if spec_card_ok(s) {
        CardView::Card(split_fields(card_middle(s)))
    } else {
        CardView::BadParse
    }
}

} // verus!
