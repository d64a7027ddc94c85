use poker::cards::Card;
use poker::input::{parse, ParseError};
use poker::report::{ordering_label, score_label};
use poker::{compare_hands, PokerHand};
use std::cmp::Ordering;

#[test]
fn test_parse() {
    let example = "1\n23456 34567\n";
    let result = parse(example).unwrap();
    assert_eq!(result.len(), 1);

    let (left, right) = &result[0];
    assert_eq!(left.cards(), &[Card::Two, Card::Three, Card::Four, Card::Five, Card::Six]);
    assert_eq!(right.cards(), &[Card::Three, Card::Four, Card::Five, Card::Six, Card::Seven]);
}

#[test]
fn parse_reads_every_game_in_order() {
    let result = parse(" 2 \r\nAAKKK\t23456\n  KA225 33A47 extra words\n").unwrap();
    assert_eq!(result.len(), 2);
    assert_eq!(result[0].0.cards(), &[Card::Ace, Card::Ace, Card::King, Card::King, Card::King]);
    assert_eq!(result[1].1.cards(), &[Card::Three, Card::Three, Card::Ace, Card::Four, Card::Seven]);
}

#[test]
fn parse_accepts_a_plus_sign_and_a_missing_final_newline() {
    let result = parse("+1\n23456 34567").unwrap();
    assert_eq!(result.len(), 1);
    assert_eq!(parse("0").unwrap().len(), 0);
}

#[test]
fn parse_rejects_a_bad_count() {
    assert_eq!(parse(""), Err(ParseError::LineParse(String::new())));
    assert_eq!(parse("two\n"), Err(ParseError::LineParse(String::from("two"))));
    assert_eq!(parse(" -1 \n"), Err(ParseError::LineParse(String::from("-1"))));
    assert_eq!(parse("+\n"), Err(ParseError::LineParse(String::from("+"))));
    assert_eq!(
        parse("99999999999999999999999\n"),
        Err(ParseError::LineParse(String::from("99999999999999999999999")))
    );
}

#[test]
fn parse_reports_too_few_lines() {
    assert_eq!(parse("2\n23456 34567\n"), Err(ParseError::FewLines));
}

#[test]
fn parse_reports_missing_hands() {
    assert_eq!(parse("1\n\n"), Err(ParseError::MissingLeftHand));
    assert_eq!(parse("1\n   \t \n"), Err(ParseError::MissingLeftHand));
    assert_eq!(parse("1\n23456\n"), Err(ParseError::MissingRightHand));
}

#[test]
fn parse_reports_invalid_hands_with_their_line() {
    assert_eq!(
        parse("2\n23456 34567\n2345X 34567\n"),
        Err(ParseError::LeftHandInvalid(2, String::from("Character 'X' is not valid.")))
    );
    assert_eq!(
        parse("1\n23456 345678\n"),
        Err(ParseError::RightHandInvalid(1, String::from("Required 5 characters but found 6.")))
    );
}

#[test]
fn labels_name_categories_and_winners() {
    let full = PokerHand::from_str("AAKKK").unwrap().score();
    let straight = PokerHand::from_str("23456").unwrap().score();
    assert_eq!(score_label(&full), "FULLHOUSE");
    assert_eq!(score_label(&straight), "STRAIGHT");
    assert_eq!(score_label(&PokerHand::from_str("23457").unwrap().score()), "HIGHCARD");
    assert_eq!(score_label(&PokerHand::from_str("22457").unwrap().score()), "PAIR");
    assert_eq!(score_label(&PokerHand::from_str("22557").unwrap().score()), "TWOPAIR");
    assert_eq!(score_label(&PokerHand::from_str("22257").unwrap().score()), "THREEOFAKIND");
    assert_eq!(score_label(&PokerHand::from_str("22227").unwrap().score()), "FOUROFAKIND");
    assert_eq!(ordering_label(compare_hands(&full, &straight)), "a");
    assert_eq!(ordering_label(Ordering::Equal), "ab");
    assert_eq!(ordering_label(compare_hands(&straight, &full)), "b");
}
