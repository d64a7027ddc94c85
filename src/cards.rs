//! Card ranks: the thirteen faces of a deck, without suits.

use vstd::prelude::*;

use crate::text::push_char;

verus! {

/// A card rank. Aces rank above kings. The ranks are declared lowest first,
/// so the derived order is the order of `value`.
#[derive(Debug, Clone, Copy, PartialEq, Eq, Hash, PartialOrd, Ord, Structural)]
pub enum Card {
    Two,
    Three,
    Four,
    Five,
    Six,
    Seven,
    Eight,
    Nine,
    Ten,
    Jack,
    Queen,
    King,
    Ace,
}

impl Card {
    /// The value of the rank in play: two is 2, ..., king is 13, ace is 14.
    pub open spec fn value(self) -> int {
        match self {
            Card::Two => 2,
            Card::Three => 3,
            Card::Four => 4,
            Card::Five => 5,
            Card::Six => 6,
            Card::Seven => 7,
            Card::Eight => 8,
            Card::Nine => 9,
            Card::Ten => 10,
            Card::Jack => 11,
            Card::Queen => 12,
            Card::King => 13,
            Card::Ace => 14,
        }
    }

    /// The rank written by a single character, if the character names one.
    pub open spec fn of_char(c: char) -> Option<Card> {
        match c {
            '2' => Some(Card::Two),
            '3' => Some(Card::Three),
            '4' => Some(Card::Four),
            '5' => Some(Card::Five),
            '6' => Some(Card::Six),
            '7' => Some(Card::Seven),
            '8' => Some(Card::Eight),
            '9' => Some(Card::Nine),
            'T' => Some(Card::Ten),
            'J' => Some(Card::Jack),
            'Q' => Some(Card::Queen),
            'K' => Some(Card::King),
            'A' => Some(Card::Ace),
            _ => None,
        }
    }

    /// The text of the error for a character that names no rank.
    pub open spec fn invalid_char_message(c: char) -> Seq<char> {
        "Character '"@ + seq![c] + "' is not valid."@
    }

    /// Creates a card from its shorthand: '2' to '9' for the numbered
    /// cards, 'T' for ten, 'J', 'Q', 'K' and 'A' for the faces and the ace.
    pub fn from_char(c: char) -> (r: Result<Card, String>)
        ensures
            match Card::of_char(c) {
                Some(card) => r == Ok::<Card, String>(card),
                None => r is Err && r->Err_0@ == Card::invalid_char_message(c),
            },
    {
        match c {
            '2' => Ok(Card::Two),
            '3' => Ok(Card::Three),
            '4' => Ok(Card::Four),
            '5' => Ok(Card::Five),
            '6' => Ok(Card::Six),
            '7' => Ok(Card::Seven),
            '8' => Ok(Card::Eight),
            '9' => Ok(Card::Nine),
            'T' => Ok(Card::Ten),
            'J' => Ok(Card::Jack),
            'Q' => Ok(Card::Queen),
            'K' => Ok(Card::King),
            'A' => Ok(Card::Ace),
            _ => {
                let mut msg = String::from_str("Character '");
                push_char(&mut msg, c);
                msg.append("' is not valid.");
                Err(msg)
            },
        }
    }
}

/// The thirteen ranks, lowest first.
pub open spec fn all_ranks() -> Seq<Card> {
    seq![
        Card::Two,
        Card::Three,
        Card::Four,
        Card::Five,
        Card::Six,
        Card::Seven,
        Card::Eight,
        Card::Nine,
        Card::Ten,
        Card::Jack,
        Card::Queen,
        Card::King,
        Card::Ace,
    ]
}

/// The rank `i` places above two: 0 gives two, 12 gives the ace.
pub fn nth_rank(i: usize) -> (c: Card)
    requires
        i < 13,
    ensures
        c == all_ranks()[i as int],
        c.value() == i + 2,
{
    match i {
        0 => Card::Two,
        1 => Card::Three,
        2 => Card::Four,
        3 => Card::Five,
        4 => Card::Six,
        5 => Card::Seven,
        6 => Card::Eight,
        7 => Card::Nine,
        8 => Card::Ten,
        9 => Card::Jack,
        10 => Card::Queen,
        11 => Card::King,
        _ => Card::Ace,
    }
}

/// The value of a card in play, as `Card::value` gives it.
pub fn card_seq(card: &Card) -> (r: usize)
    ensures
        r == card.value(),
{
    match card {
        Card::Two => 2,
        Card::Three => 3,
        Card::Four => 4,
        Card::Five => 5,
        Card::Six => 6,
        Card::Seven => 7,
        Card::Eight => 8,
        Card::Nine => 9,
        Card::Ten => 10,
        Card::Jack => 11,
        Card::Queen => 12,
        Card::King => 13,
        Card::Ace => 14,
    }
}

} // verus!
