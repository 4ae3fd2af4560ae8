//! The data model: a card, a deck of cards, and the envelope the remote API
//! wraps a deck in.

use vstd::prelude::*;

verus! {

/// One collectible card, identified by its numeric id and its season.
/// Two cards with the same id and season are the same card for the purpose
/// of duplicate detection.
#[derive(Debug, PartialEq, Eq, Structural, Clone, Copy)]
pub struct Card {
    pub id: u32,
    pub season: u8,
}

/// A player's deck.  The card list is optional: the API answers with an empty
/// deck element when the player owns no cards at all, and that absence is kept
/// distinct from an empty list throughout the pipeline.
#[derive(Debug, PartialEq, Eq)]
pub struct Deck {
    pub cards: Option<Vec<Card>>,
}

/// The top-level parsed document: the API wraps exactly one deck.
#[derive(Debug, PartialEq, Eq)]
pub struct Cards {
    pub deck: Deck,
}

impl Cards {
    /// The mathematical content of a parsed document: either no cards at all,
    /// or the sequence of cards in document order.
    pub open spec fn model(&self) -> Option<Seq<Card>> {
        match self.deck.cards {
            Some(v) => Some(v@),
            None => None,
        }
    }
}

} // verus!
