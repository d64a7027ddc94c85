use poker::cards::{card_seq, nth_rank, Card};

#[test]
fn card_from_char_err() {
    assert_eq!(Card::from_char('$'), Result::Err(String::from("Character '$' is not valid.")));
}

#[test]
fn card_from_char_ok() {
    let rules = [
        ('2', Card::Two),
        ('3', Card::Three),
        ('4', Card::Four),
        ('5', Card::Five),
        ('6', Card::Six),
        ('7', Card::Seven),
        ('8', Card::Eight),
        ('9', Card::Nine),
        ('T', Card::Ten),
        ('J', Card::Jack),
        ('Q', Card::Queen),
        ('K', Card::King),
        ('A', Card::Ace),
    ];

    for (character, card) in rules.iter() {
        assert_eq!(Card::from_char(*character), Result::Ok(card.clone()));
    }
}

#[test]
fn card_from_char_rejects_lower_case_and_ten_digits() {
    assert_eq!(Card::from_char('t'), Err(String::from("Character 't' is not valid.")));
    assert_eq!(Card::from_char('1'), Err(String::from("Character '1' is not valid.")));
    assert_eq!(Card::from_char('0'), Err(String::from("Character '0' is not valid.")));
}

#[test]
fn card_values_run_from_two_to_ace() {
    assert_eq!(card_seq(&Card::Two), 2);
    assert_eq!(card_seq(&Card::Ten), 10);
    assert_eq!(card_seq(&Card::King), 13);
    assert_eq!(card_seq(&Card::Ace), 14);
    for i in 0..13usize {
        assert_eq!(card_seq(&nth_rank(i)), i + 2);
    }
}

#[test]
fn card_order_follows_value() {
    assert!(Card::Two < Card::Three);
    assert!(Card::King < Card::Ace);
    assert!(Card::Ten > Card::Nine);
}
