use poker::cards::Card;
use poker::score::{cmp_cards, score_seq};
use poker::{compare_hands, PokerHand, Score};

use std::cmp::Ordering;

fn scored(text: &str) -> Score {
    PokerHand::from_str(text).unwrap().score()
}

const HANDS: [&str; 16] = [
    "2357K", "23578", "A2357", "KA225", "33A47", "TT8A9", "QQ2AT", "QQT2J", "3434A", "AA225",
    "44465", "A2345", "23456", "TJQKA", "AAKKK", "A2222",
];

#[test]
fn compare_is_reflexive_antisymmetric_and_transitive() {
    let scores: Vec<Score> = HANDS.iter().map(|h| scored(h)).collect();
    for a in &scores {
        assert_eq!(compare_hands(a, a), Ordering::Equal);
        for b in &scores {
            assert_eq!(compare_hands(b, a), compare_hands(a, b).reverse());
            for c in &scores {
                if compare_hands(a, b) == compare_hands(b, c) {
                    assert_eq!(compare_hands(a, c), compare_hands(a, b));
                }
            }
        }
    }
}

#[test]
fn stronger_category_always_wins() {
    let weakest = ["23457", "22345", "22334", "22234", "A2345", "22233", "22223"];
    let strongest = ["AKQJ9", "AAKQJ", "AAKKQ", "AAAKQ", "TJQKA", "AAAKK", "AAAAK"];
    for i in 0..weakest.len() {
        let strong = scored(weakest[i]);
        assert_eq!(score_seq(&strong), i + 1);
        for j in 0..i {
            let weak = scored(strongest[j]);
            assert_eq!(compare_hands(&strong, &weak), Ordering::Less);
            assert_eq!(compare_hands(&weak, &strong), Ordering::Greater);
        }
    }
}

#[test]
fn wheel_loses_to_six_high_straight() {
    let wheel = scored("A2345");
    let six = scored("23456");
    assert_eq!(wheel, Score::Straight(Card::Five));
    assert_eq!(six, Score::Straight(Card::Six));
    assert_eq!(compare_hands(&six, &wheel), Ordering::Less);
    assert_eq!(compare_hands(&wheel, &six), Ordering::Greater);
}

#[test]
fn three_of_a_kind_compares_high_kicker_first() {
    let left = Score::ThreeOfAKind { card: Card::Four, high_kicker: Card::Six, low_kicker: Card::Five };
    let right = Score::ThreeOfAKind { card: Card::Four, high_kicker: Card::Seven, low_kicker: Card::Two };
    assert_eq!(compare_hands(&left, &right), Ordering::Greater);
    let same_high = Score::ThreeOfAKind { card: Card::Four, high_kicker: Card::Six, low_kicker: Card::Three };
    assert_eq!(compare_hands(&left, &same_high), Ordering::Less);
}

#[test]
fn pair_compares_lowest_kicker_first() {
    let left = Score::Pair { card: Card::Nine, kickers: [Card::Three, Card::Four, Card::Ace] };
    let right = Score::Pair { card: Card::Nine, kickers: [Card::Two, Card::Ten, Card::King] };
    assert_eq!(compare_hands(&left, &right), Ordering::Less);
}

#[test]
fn two_pair_compares_high_pair_then_low_pair_then_kicker() {
    assert_eq!(compare_hands(&scored("AA225"), &scored("KKQQJ")), Ordering::Less);
    assert_eq!(compare_hands(&scored("AA225"), &scored("AA33K")), Ordering::Greater);
    assert_eq!(compare_hands(&scored("AA226"), &scored("AA225")), Ordering::Less);
    assert_eq!(compare_hands(&scored("AA225"), &scored("2A5A2")), Ordering::Equal);
}

#[test]
fn full_house_and_four_of_a_kind_tie_breaks() {
    assert_eq!(compare_hands(&scored("22233"), &scored("AAA22")), Ordering::Greater);
    assert_eq!(compare_hands(&scored("KKKAA"), &scored("KKKQQ")), Ordering::Less);
    assert_eq!(compare_hands(&scored("33332"), &scored("2222A")), Ordering::Less);
    assert_eq!(compare_hands(&scored("3333A"), &scored("3333K")), Ordering::Less);
}

#[test]
fn high_card_compares_best_card_first() {
    assert_eq!(compare_hands(&scored("A2347"), &scored("KQJ97")), Ordering::Less);
}

#[test]
fn cmp_cards_puts_the_higher_card_first() {
    assert_eq!(cmp_cards(&Card::Ace, &Card::King), Ordering::Less);
    assert_eq!(cmp_cards(&Card::Two, &Card::Three), Ordering::Greater);
    assert_eq!(cmp_cards(&Card::Ten, &Card::Ten), Ordering::Equal);
}

#[test]
fn score_seq_orders_categories() {
    assert_eq!(score_seq(&scored("AKQJ9")), 1);
    assert_eq!(score_seq(&scored("22345")), 2);
    assert_eq!(score_seq(&scored("22334")), 3);
    assert_eq!(score_seq(&scored("22234")), 4);
    assert_eq!(score_seq(&scored("23456")), 5);
    assert_eq!(score_seq(&scored("22233")), 6);
    assert_eq!(score_seq(&scored("22223")), 7);
}
