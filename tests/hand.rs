use poker::cards::Card;
use poker::{PokerHand, Score};

#[test]
fn score_pair() {
    assert_eq!(PokerHand::from_str("23427").unwrap().score(), Score::Pair{ card:Card::Two, kickers:[Card::Three, Card::Four, Card::Seven]});
}

#[test]
fn score_two_pair() {
    assert_eq!(PokerHand::from_str("3434A").unwrap().score(), Score::TwoPair{low_pair:Card::Three, high_pair:Card::Four, kicker:Card::Ace});
}

#[test]
fn score_ace_high_straight() {
    assert_eq!(PokerHand::from_str("TJQKA").unwrap().score(), Score::Straight(Card::Ace));
}

#[test]
fn score_five_high_straight() {
    assert_eq!(PokerHand::from_str("A2345").unwrap().score(), Score::Straight(Card::Five));
}

#[test]
fn score_high_card() {
    assert_eq!(PokerHand::from_str("23457").unwrap().score(), Score::HighCard{card:Card::Seven, kickers:[Card::Two, Card::Three, Card::Four, Card::Five]});
}

#[test]
fn score_high_card_other_order() {
    assert_eq!(PokerHand::from_str("75432").unwrap().score(), Score::HighCard{card:Card::Seven, kickers:[Card::Two, Card::Three, Card::Four, Card::Five]});
}

#[test]
fn score_high_card_ace() {
    assert_eq!(PokerHand::from_str("A235K").unwrap().score(), Score::HighCard{card:Card::Ace, kickers:[Card::Two, Card::Three, Card::Five, Card::King]});
}

#[test]
fn score_four_of_a_king() {
    assert_eq!(PokerHand::from_str("A2222").unwrap().score(), Score::FourOfAKind{four_of_a_kind:Card::Two, kicker:Card::Ace});
}

#[test]
fn hand_from_char_wrong_length() {
    assert_eq!(PokerHand::from_str(&"TTTTTT"), Result::Err(String::from("Required 5 characters but found 6.")));
}

#[test]
fn hand_from_char_bad_char() {
    assert_eq!(PokerHand::from_str(&"TTTTX"), Result::Err(String::from("Character 'X' is not valid.")));
}

#[test]
fn hand_from_char_ok() {
    assert_eq!(PokerHand::from_str(&"23456"),
        Result::Ok(
            PokerHand {
                cards: [Card::Two, Card::Three, Card::Four, Card::Five, Card::Six]
            }
        )
    );
}

#[test]
fn hand_from_str_reports_lengths_in_decimal() {
    assert_eq!(PokerHand::from_str(""), Err(String::from("Required 5 characters but found 0.")));
    assert_eq!(PokerHand::from_str("2345"), Err(String::from("Required 5 characters but found 4.")));
    assert_eq!(
        PokerHand::from_str("23456789TJQKA23456789"),
        Err(String::from("Required 5 characters but found 21."))
    );
}

#[test]
fn hand_from_str_reports_first_bad_char() {
    assert_eq!(PokerHand::from_str("2x3y4"), Err(String::from("Character 'x' is not valid.")));
}

#[test]
fn hand_from_str_counts_characters_not_bytes() {
    assert_eq!(PokerHand::from_str("2345é"), Err(String::from("Character 'é' is not valid.")));
}

#[test]
fn hand_keeps_card_order() {
    let hand = PokerHand::from_str("K2A9T").unwrap();
    assert_eq!(hand.cards(), &[Card::King, Card::Two, Card::Ace, Card::Nine, Card::Ten]);
}

#[test]
fn score_full_house_and_three_of_a_kind() {
    assert_eq!(
        PokerHand::from_str("3Q3Q3").unwrap().score(),
        Score::FullHouse { pair: Card::Queen, three_of_a_kind: Card::Three }
    );
    assert_eq!(
        PokerHand::from_str("9K929").unwrap().score(),
        Score::ThreeOfAKind { card: Card::Nine, high_kicker: Card::King, low_kicker: Card::Two }
    );
}

#[test]
fn score_wheel_and_six_high_straight() {
    assert_eq!(PokerHand::from_str("A2345").unwrap().score(), Score::Straight(Card::Five));
    assert_eq!(PokerHand::from_str("23456").unwrap().score(), Score::Straight(Card::Six));
    assert_eq!(PokerHand::from_str("5432A").unwrap().score(), Score::Straight(Card::Five));
}

#[test]
fn score_near_straights_are_high_cards() {
    assert_eq!(
        PokerHand::from_str("A2346").unwrap().score(),
        Score::HighCard { card: Card::Ace, kickers: [Card::Two, Card::Three, Card::Four, Card::Six] }
    );
    assert_eq!(
        PokerHand::from_str("QKA23").unwrap().score(),
        Score::HighCard { card: Card::Ace, kickers: [Card::Two, Card::Three, Card::Queen, Card::King] }
    );
}

#[test]
fn score_three_of_a_kind_kickers() {
    assert_eq!(
        PokerHand::from_str("44465").unwrap().score(),
        Score::ThreeOfAKind { card: Card::Four, high_kicker: Card::Six, low_kicker: Card::Five }
    );
}

#[test]
fn score_ignores_card_order() {
    let hands = ["KA225", "2K5A2", "52AK2", "A2K25", "225KA"];
    let first = PokerHand::from_str(hands[0]).unwrap().score();
    for h in hands.iter() {
        assert_eq!(PokerHand::from_str(h).unwrap().score(), first);
    }
}

#[test]
fn five_of_a_kind_is_not_classifiable() {
    let hand = PokerHand::from_str("22222").unwrap();
    assert!(!hand.is_classifiable());
    assert!(PokerHand::from_str("22223").unwrap().is_classifiable());
    assert!(PokerHand::from_str("23456").unwrap().is_classifiable());
}
