//! Texas hold'em hand evaluation: a 52-card deck that deals without
//! replacement, and a classifier that turns seven cards into a totally
//! ordered hand strength.

pub mod bits;
pub mod card;
pub mod deck;
pub mod hand;
pub mod ranking;

pub use card::{Card, Rank, Suit};
pub use deck::{Deck, DeckError};
pub use hand::Hand;
pub use ranking::HandRanking;
