//! Classification and comparison of five-card poker hands.

pub mod cards;
pub mod hand;
pub mod input;
pub mod report;
pub mod score;
pub mod text;

pub use hand::PokerHand;
pub use score::{Score, compare_hands};
