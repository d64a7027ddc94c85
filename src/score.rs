//! Scores of hands, and the order in which they beat one another.

use vstd::prelude::*;

use crate::cards::{Card, card_seq};
use core::cmp::Ordering;

verus! {

/// The category of a hand, with the ranks that break ties inside it.
/// Kickers are stored lowest first.
#[derive(Debug, PartialEq, Eq)]
#[allow(inconsistent_fields)]
pub enum Score {
    HighCard { card: Card, kickers: [Card; 4] },
    Pair { card: Card, kickers: [Card; 3] },
    TwoPair { low_pair: Card, high_pair: Card, kicker: Card },
    ThreeOfAKind { card: Card, high_kicker: Card, low_kicker: Card },
    Straight(Card),
    FullHouse { pair: Card, three_of_a_kind: Card },
    FourOfAKind { four_of_a_kind: Card, kicker: Card },
}

/// A score as a mathematical value: the kicker arrays become sequences.
#[allow(inconsistent_fields)]
pub enum ScoreView {
    HighCard { card: Card, kickers: Seq<Card> },
    Pair { card: Card, kickers: Seq<Card> },
    TwoPair { low_pair: Card, high_pair: Card, kicker: Card },
    ThreeOfAKind { card: Card, high_kicker: Card, low_kicker: Card },
    Straight(Card),
    FullHouse { pair: Card, three_of_a_kind: Card },
    FourOfAKind { four_of_a_kind: Card, kicker: Card },
}

impl View for Score {
    type V = ScoreView;

    open spec fn view(&self) -> ScoreView {
        match *self {
            Score::HighCard { card, kickers } => ScoreView::HighCard { card, kickers: kickers@ },
            Score::Pair { card, kickers } => ScoreView::Pair { card, kickers: kickers@ },
            Score::TwoPair { low_pair, high_pair, kicker } => ScoreView::TwoPair {
                low_pair,
                high_pair,
                kicker,
            },
            Score::ThreeOfAKind { card, high_kicker, low_kicker } => ScoreView::ThreeOfAKind {
                card,
                high_kicker,
                low_kicker,
            },
            Score::Straight(card) => ScoreView::Straight(card),
            Score::FullHouse { pair, three_of_a_kind } => ScoreView::FullHouse {
                pair,
                three_of_a_kind,
            },
            Score::FourOfAKind { four_of_a_kind, kicker } => ScoreView::FourOfAKind {
                four_of_a_kind,
                kicker,
            },
        }
    }
}

impl ScoreView {
    /// The strength of the category, from 1 for a high card to 7 for four of a kind.
    pub open spec fn strength(self) -> int {
        match self {
            ScoreView::HighCard { .. } => 1,
            ScoreView::Pair { .. } => 2,
            ScoreView::TwoPair { .. } => 3,
            ScoreView::ThreeOfAKind { .. } => 4,
            ScoreView::Straight(_) => 5,
            ScoreView::FullHouse { .. } => 6,
            ScoreView::FourOfAKind { .. } => 7,
        }
    }

    /// What decides between two scores, most significant first: the
    /// category's strength, then the category's ranks in the order in which
    /// they are compared.
    pub open spec fn key(self) -> Seq<int> {
        match self {
            ScoreView::HighCard { card, kickers } => seq![
                1,
                card.value(),
                kickers[0].value(),
                kickers[1].value(),
                kickers[2].value(),
                kickers[3].value(),
            ],
            ScoreView::Pair { card, kickers } => seq![
                2,
                card.value(),
                kickers[0].value(),
                kickers[1].value(),
                kickers[2].value(),
            ],
            ScoreView::TwoPair { low_pair, high_pair, kicker } => seq![
                3,
                high_pair.value(),
                low_pair.value(),
                kicker.value(),
            ],
            ScoreView::ThreeOfAKind { card, high_kicker, low_kicker } => seq![
                4,
                card.value(),
                high_kicker.value(),
                low_kicker.value(),
            ],
            ScoreView::Straight(card) => seq![5, card.value()],
            ScoreView::FullHouse { pair, three_of_a_kind } => seq![
                6,
                three_of_a_kind.value(),
                pair.value(),
            ],
            ScoreView::FourOfAKind { four_of_a_kind, kicker } => seq![
                7,
                four_of_a_kind.value(),
                kicker.value(),
            ],
        }
    }
}

/// Lexicographic order on sequences of integers; a proper prefix comes first.
pub open spec fn lex_cmp(a: Seq<int>, b: Seq<int>) -> Ordering
    decreases a.len(),
{
    if a.len() == 0 || b.len() == 0 {
        if a.len() < b.len() {
            Ordering::Less
        } else if a.len() > b.len() {
            Ordering::Greater
        } else {
            Ordering::Equal
        }
    } else if a[0] < b[0] {
        Ordering::Less
    } else if a[0] > b[0] {
        Ordering::Greater
    } else {
        lex_cmp(a.drop_first(), b.drop_first())
    }
}

/// The outcome of a game between two scores: `Less` when the left one
/// wins, `Greater` when the right one wins, `Equal` on a tie.
pub open spec fn outcome(left: ScoreView, right: ScoreView) -> Ordering {
    lex_cmp(right.key(), left.key())
}

/// The opposite outcome.
pub open spec fn flip(o: Ordering) -> Ordering {
    match o {
        Ordering::Less => Ordering::Greater,
        Ordering::Equal => Ordering::Equal,
        Ordering::Greater => Ordering::Less,
    }
}

/// The strength of a score's category: 1 for a high card up to 7 for four
/// of a kind.
pub fn score_seq(score: &Score) -> (r: usize)
    ensures
        r == score@.strength(),
{
    match score {
        Score::HighCard { .. } => 1,
        Score::Pair { .. } => 2,
        Score::TwoPair { .. } => 3,
        Score::ThreeOfAKind { .. } => 4,
        Score::Straight(_) => 5,
        Score::FullHouse { .. } => 6,
        Score::FourOfAKind { .. } => 7,
    }
}

/// Compares two cards as hands are compared: `Less` when the left card is
/// the higher.
pub fn cmp_cards(left_card: &Card, right_card: &Card) -> (r: Ordering)
    ensures
        (r == Ordering::Less) <==> left_card.value() > right_card.value(),
        (r == Ordering::Equal) <==> left_card.value() == right_card.value(),
        (r == Ordering::Greater) <==> left_card.value() < right_card.value(),
{
    let l = card_seq(left_card);
    let r = card_seq(right_card);
    if r < l {
        Ordering::Less
    } else if r > l {
        Ordering::Greater
    } else {
        Ordering::Equal
    }
}

/// The tie-break key of a score, as machine integers.
fn tie_break_key(score: &Score) -> (k: Vec<usize>)
    ensures
        k@.len() == score@.key().len(),
        forall|i: int| 0 <= i < k@.len() ==> k@[i] as int == score@.key()[i],
{
    let mut k: Vec<usize> = Vec::new();
    k.push(score_seq(score));
    match score {
        Score::HighCard { card, kickers } => {
            k.push(card_seq(card));
            k.push(card_seq(&kickers[0]));
            k.push(card_seq(&kickers[1]));
            k.push(card_seq(&kickers[2]));
            k.push(card_seq(&kickers[3]));
        },
        Score::Pair { card, kickers } => {
            k.push(card_seq(card));
            k.push(card_seq(&kickers[0]));
            k.push(card_seq(&kickers[1]));
            k.push(card_seq(&kickers[2]));
        },
        Score::TwoPair { low_pair, high_pair, kicker } => {
            k.push(card_seq(high_pair));
            k.push(card_seq(low_pair));
            k.push(card_seq(kicker));
        },
        Score::ThreeOfAKind { card, high_kicker, low_kicker } => {
            k.push(card_seq(card));
            k.push(card_seq(high_kicker));
            k.push(card_seq(low_kicker));
        },
        Score::Straight(card) => {
            k.push(card_seq(card));
        },
        Score::FullHouse { pair, three_of_a_kind } => {
            k.push(card_seq(three_of_a_kind));
            k.push(card_seq(pair));
        },
        Score::FourOfAKind { four_of_a_kind, kicker } => {
            k.push(card_seq(four_of_a_kind));
            k.push(card_seq(kicker));
        },
    }
    k
}

/// Compares two scored hands: `Less` when the left hand wins, `Greater`
/// when the right hand wins, `Equal` on a tie. A stronger category wins;
/// inside a category the ranks are compared in the order of `key`.
pub fn compare_hands(left_score: &Score, right_score: &Score) -> (r: Ordering)
    ensures
        r == outcome(left_score@, right_score@),
{
    let lk = tie_break_key(left_score);
    let rk = tie_break_key(right_score);
    let ghost a = right_score@.key();
    let ghost b = left_score@.key();
    let mut i: usize = 0;
    assert(a.skip(0) =~= a);
    assert(b.skip(0) =~= b);
    while i < rk.len() && i < lk.len()
        invariant
            a == right_score@.key(),
            b == left_score@.key(),
            i <= a.len(),
            i <= b.len(),
            rk@.len() == a.len(),
            lk@.len() == b.len(),
            forall|j: int| 0 <= j < a.len() ==> rk@[j] as int == a[j],
            forall|j: int| 0 <= j < b.len() ==> lk@[j] as int == b[j],
            lex_cmp(a.skip(i as int), b.skip(i as int)) == lex_cmp(a, b),
        decreases a.len() - i,
    {
        let ghost sa = a.skip(i as int);
        let ghost sb = b.skip(i as int);
        assert(sa.drop_first() =~= a.skip(i + 1));
        assert(sb.drop_first() =~= b.skip(i + 1));
        assert(sa[0] == a[i as int] && sb[0] == b[i as int]);
        assert(sa.len() > 0 && sb.len() > 0);
        if rk[i] < lk[i] {
            assert(lex_cmp(sa, sb) == Ordering::Less);
            return Ordering::Less;
        } else if rk[i] > lk[i] {
            assert(lex_cmp(sa, sb) == Ordering::Greater);
            return Ordering::Greater;
        }
        i = i + 1;
    }
    if rk.len() < lk.len() {
        Ordering::Less
    } else if rk.len() > lk.len() {
        Ordering::Greater
    } else {
        Ordering::Equal
    }
}

/// Swapping the sequences swaps the outcome.
pub proof fn lemma_lex_cmp_flip(a: Seq<int>, b: Seq<int>)
    ensures
        lex_cmp(b, a) == flip(lex_cmp(a, b)),
    decreases a.len(),
{
    if a.len() > 0 && b.len() > 0 && a[0] == b[0] {
        lemma_lex_cmp_flip(a.drop_first(), b.drop_first());
    }
}

/// Two sequences compare as equal exactly when they are equal.
pub proof fn lemma_lex_cmp_equal(a: Seq<int>, b: Seq<int>)
    ensures
        (lex_cmp(a, b) == Ordering::Equal) <==> (a == b),
    decreases a.len(),
{
    if a.len() > 0 && b.len() > 0 {
        lemma_lex_cmp_equal(a.drop_first(), b.drop_first());
        if a[0] == b[0] && a.drop_first() == b.drop_first() {
            assert forall|i: int| 0 <= i < a.len() implies a[i] == b[i] by {
                if i > 0 {
                    assert(a[i] == a.drop_first()[i - 1]);
                    assert(b[i] == b.drop_first()[i - 1]);
                }
            }
            assert(a =~= b);
        }
    } else if a.len() == 0 && b.len() == 0 {
        assert(a =~= b);
    }
}

/// The strict order is transitive.
pub proof fn lemma_lex_cmp_transitive(a: Seq<int>, b: Seq<int>, c: Seq<int>)
    requires
        lex_cmp(a, b) == Ordering::Less,
        lex_cmp(b, c) == Ordering::Less,
    ensures
        lex_cmp(a, c) == Ordering::Less,
    decreases a.len(),
{
    if a.len() > 0 && b.len() > 0 && c.len() > 0 && a[0] == b[0] && b[0] == c[0] {
        lemma_lex_cmp_transitive(a.drop_first(), b.drop_first(), c.drop_first());
    }
}

/// A score ties with itself.
pub proof fn lemma_compare_reflexive(s: Score)
    ensures
        outcome(s@, s@) == Ordering::Equal,
{
    lemma_lex_cmp_equal(s@.key(), s@.key());
}

/// Swapping the hands swaps the winner.
pub proof fn lemma_compare_antisymmetric(a: Score, b: Score)
    ensures
        outcome(b@, a@) == flip(outcome(a@, b@)),
{
    lemma_lex_cmp_flip(b@.key(), a@.key());
}

/// If `a` beats `b` and `b` beats `c`, then `a` beats `c`; the same holds
/// for ties and for losses.
pub proof fn lemma_compare_transitive(a: Score, b: Score, c: Score)
    requires
        outcome(a@, b@) == outcome(b@, c@),
    ensures
        outcome(a@, c@) == outcome(a@, b@),
{
    let (ka, kb, kc) = (a@.key(), b@.key(), c@.key());
    lemma_lex_cmp_equal(kb, ka);
    lemma_lex_cmp_equal(kc, kb);
    lemma_lex_cmp_flip(kb, ka);
    lemma_lex_cmp_flip(kc, kb);
    lemma_lex_cmp_flip(kc, ka);
    if outcome(a@, b@) == Ordering::Less {
        lemma_lex_cmp_transitive(kc, kb, ka);
    } else if outcome(a@, b@) == Ordering::Greater {
        lemma_lex_cmp_transitive(ka, kb, kc);
    } else {
        lemma_lex_cmp_equal(kc, ka);
    }
}

/// Two hands that tie fare the same against any third hand.
pub proof fn lemma_compare_tie_substitutes(a: Score, b: Score, c: Score)
    requires
        outcome(a@, b@) == Ordering::Equal,
    ensures
        outcome(a@, c@) == outcome(b@, c@),
        outcome(c@, a@) == outcome(c@, b@),
{
    lemma_lex_cmp_equal(b@.key(), a@.key());
}

/// A stronger category wins, whatever the ranks in either hand.
pub proof fn lemma_stronger_category_wins(a: Score, b: Score)
    requires
        a@.strength() > b@.strength(),
    ensures
        outcome(a@, b@) == Ordering::Less,
        outcome(b@, a@) == Ordering::Greater,
{
    assert(a@.key()[0] == a@.strength());
    assert(b@.key()[0] == b@.strength());
}

} // verus!
