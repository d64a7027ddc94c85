//! The words that name a category and the winner of a game.

use vstd::prelude::*;

use crate::score::{Score, ScoreView};
use core::cmp::Ordering;

verus! {

/// The name of a score's category, in capitals.
pub open spec fn category_name(s: ScoreView) -> Seq<char> {
    match s {
        ScoreView::HighCard { .. } => "HIGHCARD"@,
        ScoreView::Pair { .. } => "PAIR"@,
        ScoreView::TwoPair { .. } => "TWOPAIR"@,
        ScoreView::ThreeOfAKind { .. } => "THREEOFAKIND"@,
        ScoreView::Straight(_) => "STRAIGHT"@,
        ScoreView::FullHouse { .. } => "FULLHOUSE"@,
        ScoreView::FourOfAKind { .. } => "FOUROFAKIND"@,
    }
}

/// The mark of a game's winner: "a" when the left hand wins, "b" when the
/// right hand wins, "ab" on a tie.
pub open spec fn winner_mark(o: Ordering) -> Seq<char> {
    match o {
        Ordering::Less => "a"@,
        Ordering::Equal => "ab"@,
        Ordering::Greater => "b"@,
    }
}

/// The name of the category of `score`.
pub fn score_label(score: &Score) -> (r: &'static str)
    ensures
        r@ == category_name(score@),
{
    match score {
        Score::HighCard { .. } => "HIGHCARD",
        Score::Pair { .. } => "PAIR",
        Score::TwoPair { .. } => "TWOPAIR",
        Score::ThreeOfAKind { .. } => "THREEOFAKIND",
        Score::Straight(_) => "STRAIGHT",
        Score::FullHouse { .. } => "FULLHOUSE",
        Score::FourOfAKind { .. } => "FOUROFAKIND",
    }
}

/// The mark of the winner of a game that `compare_hands` decided.
pub fn ordering_label(ordering: Ordering) -> (r: &'static str)
    ensures
        r@ == winner_mark(ordering),
{
    match ordering {
        Ordering::Less => "a",
        Ordering::Equal => "ab",
        Ordering::Greater => "b",
    }
}

} // verus!
