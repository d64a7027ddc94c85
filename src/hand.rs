//! Hands of five cards: reading them from text, and classifying them.

use vstd::multiset::Multiset;
use vstd::prelude::*;

use crate::cards::{Card, all_ranks, card_seq, nth_rank};
use crate::score::{Score, ScoreView};
use crate::input::chars_of;
use crate::text::{decimal, push_decimal};

verus! {

broadcast use vstd::seq_lib::group_to_multiset_ensures;

/// Five cards, in the order in which they were given.
#[derive(Debug, PartialEq, Eq)]
pub struct PokerHand {
    pub cards: [Card; 5],
}

/// The ranks among the `j` lowest that `m` holds exactly `n` times, lowest
/// first.
pub open spec fn ranks_with_count(m: Multiset<Card>, n: nat, j: int) -> Seq<Card>
    decreases j,
{
    if j <= 0 {
        Seq::empty()
    } else {
        let lower = ranks_with_count(m, n, j - 1);
        if m.count(all_ranks()[j - 1]) == n {
            lower.push(all_ranks()[j - 1])
        } else {
            lower
        }
    }
}

/// The ranks that `m` holds exactly `n` times, lowest first.
pub open spec fn group(m: Multiset<Card>, n: nat) -> Seq<Card> {
    ranks_with_count(m, n, 13)
}

/// Two, three, four, five and ace, in that order: the straight topped by five.
pub open spec fn is_wheel(s: Seq<Card>) -> bool {
    &&& s.len() == 5
    &&& s[0] == Card::Two
    &&& s[1] == Card::Three
    &&& s[2] == Card::Four
    &&& s[3] == Card::Five
    &&& s[4] == Card::Ace
}

/// Five ranks, each one above the one before.
pub open spec fn is_run(s: Seq<Card>) -> bool {
    &&& s.len() == 5
    &&& s[1].value() == s[0].value() + 1
    &&& s[2].value() == s[0].value() + 2
    &&& s[3].value() == s[0].value() + 3
    &&& s[4].value() == s[0].value() + 4
}

/// The score of the cards `m`. The ranks are grouped by how often they
/// occur; the first category that fits, from the strongest down, is taken.
pub open spec fn classify(m: Multiset<Card>) -> ScoreView {
    let quads = group(m, 4);
    let trips = group(m, 3);
    let pairs = group(m, 2);
    let singles = group(m, 1);
    if quads.len() > 0 {
        ScoreView::FourOfAKind { four_of_a_kind: quads[0], kicker: singles[0] }
    } else if trips.len() > 0 && pairs.len() > 0 {
        ScoreView::FullHouse { pair: pairs[0], three_of_a_kind: trips[0] }
    } else if is_wheel(singles) {
        ScoreView::Straight(Card::Five)
    } else if is_run(singles) {
        ScoreView::Straight(singles[4])
    } else if pairs.len() == 2 {
        ScoreView::TwoPair { low_pair: pairs[0], high_pair: pairs[1], kicker: singles[0] }
    } else if trips.len() > 0 {
        ScoreView::ThreeOfAKind { card: trips[0], high_kicker: singles[1], low_kicker: singles[0] }
    } else if pairs.len() > 0 {
        ScoreView::Pair { card: pairs[0], kickers: singles.subrange(0, 3) }
    } else {
        ScoreView::HighCard { card: singles[4], kickers: singles.subrange(0, 4) }
    }
}

/// How many cards `m` holds of the `j` lowest ranks.
pub open spec fn count_below(m: Multiset<Card>, j: int) -> nat
    decreases j,
{
    if j <= 0 {
        0
    } else {
        count_below(m, j - 1) + m.count(all_ranks()[j - 1])
    }
}

proof fn lemma_count_below_empty(j: int)
    ensures
        count_below(Multiset::empty(), j) == 0,
    decreases j,
{
    if j > 0 {
        lemma_count_below_empty(j - 1);
    }
}

proof fn lemma_count_below_insert(m: Multiset<Card>, x: Card, j: int)
    requires
        j <= 13,
    ensures
        count_below(m.insert(x), j) == count_below(m, j) + if x.value() - 2 < j {
            1nat
        } else {
            0nat
        },
    decreases j,
{
    if j > 0 {
        lemma_count_below_insert(m, x, j - 1);
    }
}

/// Every card of a hand is of one of the thirteen ranks.
proof fn lemma_count_below_all(h: Seq<Card>)
    ensures
        count_below(h.to_multiset(), 13) == h.len(),
    decreases h.len(),
{
    if h.len() == 0 {
        assert(h.to_multiset() =~= Multiset::empty());
        lemma_count_below_empty(13);
    } else {
        let init = h.drop_last();
        assert(h =~= init.push(h.last()));
        lemma_count_below_all(init);
        lemma_count_below_insert(init.to_multiset(), h.last(), 13);
    }
}

/// The cards counted by group size add up to the cards of those ranks.
proof fn lemma_group_sizes(m: Multiset<Card>, j: int)
    requires
        j <= 13,
        forall|c: Card| m.count(c) <= 4,
    ensures
        4 * ranks_with_count(m, 4, j).len() + 3 * ranks_with_count(m, 3, j).len() + 2
            * ranks_with_count(m, 2, j).len() + ranks_with_count(m, 1, j).len() == count_below(
            m,
            j,
        ),
    decreases j,
{
    if j > 0 {
        lemma_group_sizes(m, j - 1);
        assert(m.count(all_ranks()[j - 1]) <= 4);
    }
}

/// How many of the five cards are of each rank, lowest rank first.
fn rank_counts(cards: &[Card; 5]) -> (counts: Vec<usize>)
    ensures
        counts@.len() == 13,
        forall|j: int|
            0 <= j < 13 ==> #[trigger] counts@[j] == cards@.to_multiset().count(all_ranks()[j]),
{
    let mut counts: Vec<usize> = Vec::new();
    while counts.len() < 13
        invariant
            counts@.len() <= 13,
            forall|j: int| 0 <= j < counts@.len() ==> #[trigger] counts@[j] == 0,
        decreases 13 - counts@.len(),
    {
        counts.push(0);
    }
    let mut i: usize = 0;
    while i < 5
        invariant
            i <= 5,
            counts@.len() == 13,
            forall|j: int|
                0 <= j < 13 ==> #[trigger] counts@[j] == cards@.subrange(
                    0,
                    i as int,
                ).to_multiset().count(all_ranks()[j]),
            forall|j: int| 0 <= j < 13 ==> #[trigger] counts@[j] <= i,
        decreases 5 - i,
    {
        assert(cards@.subrange(0, i + 1) =~= cards@.subrange(0, i as int).push(cards@[i as int]));
        let b = card_seq(&cards[i]) - 2;
        assert(all_ranks()[b as int] == cards@[i as int]);
        let n = counts[b] + 1;
        counts.set(b, n);
        i = i + 1;
    }
    assert(cards@.subrange(0, 5) =~= cards@);
    counts
}

/// The text of the error for input that is not five characters long.
pub open spec fn length_message(n: nat) -> Seq<char> {
    "Required 5 characters but found "@ + decimal(n) + "."@
}

/// Each character of `s` names a rank.
pub open spec fn all_ranks_valid(s: Seq<char>) -> bool {
    forall|i: int| 0 <= i < s.len() ==> Card::of_char(#[trigger] s[i]) is Some
}

/// `i` is the first position of `s` whose character names no rank.
pub open spec fn first_invalid(s: Seq<char>, i: int) -> bool {
    &&& 0 <= i < s.len()
    &&& Card::of_char(s[i]) is None
    &&& forall|j: int| 0 <= j < i ==> Card::of_char(#[trigger] s[j]) is Some
}

/// The hand that `t` writes, or the text of the error: the length is
/// checked first, then the characters from the first on.
pub open spec fn parse_hand(t: Seq<char>) -> Result<Seq<Card>, Seq<char>> {
    if t.len() != 5 {
        Err(length_message(t.len()))
    } else if all_ranks_valid(t) {
        Ok(t.map_values(|c: char| Card::of_char(c)->Some_0))
    } else {
        Err(Card::invalid_char_message(t[choose|i: int| first_invalid(t, i)]))
    }
}

impl PokerHand {
    /// The cards of the hand, as an unordered collection.
    pub open spec fn holds(self) -> Multiset<Card> {
        self.cards@.to_multiset()
    }

    /// No rank occurs five times: the hand belongs to one of the categories.
    pub open spec fn classifiable(self) -> bool {
        forall|c: Card| self.holds().count(c) <= 4
    }

    /// Tells whether the hand can be scored, that is, whether no rank occurs
    /// five times.
    pub fn is_classifiable(&self) -> (r: bool)
        ensures
            r == self.classifiable(),
    {
        let counts = rank_counts(&self.cards);
        let mut j: usize = 0;
        while j < 13
            invariant
                j <= 13,
                counts@.len() == 13,
                forall|k: int| 0 <= k < 13 ==> #[trigger] counts@[k] == self.holds().count(all_ranks()[k]),
                forall|k: int| 0 <= k < j ==> self.holds().count(#[trigger] all_ranks()[k]) <= 4,
            decreases 13 - j,
        {
            if counts[j] > 4 {
                return false;
            }
            j = j + 1;
        }
        assert forall|c: Card| self.holds().count(c) <= 4 by {
            assert(c == all_ranks()[c.value() - 2]);
        }
        true
    }

    /// Reads a hand from five rank characters, such as `"TJQKA"`.
    pub fn from_str(input: &str) -> (r: Result<PokerHand, String>)
        ensures
            match parse_hand(input@) {
                Ok(cards) => r is Ok && r->Ok_0.cards@ == cards,
                Err(msg) => r is Err && r->Err_0@ == msg,
            },
    {
        let chars = chars_of(input);
        assert(chars@.subrange(0, chars@.len() as int) =~= input@);
        PokerHand::from_chars(&chars, 0, chars.len())
    }

    /// Reads a hand from the characters of `chars` from `lo` up to `hi`.
    pub(crate) fn from_chars(chars: &Vec<char>, lo: usize, hi: usize) -> (r: Result<
        PokerHand,
        String,
    >)
        requires
            lo <= hi <= chars@.len(),
        ensures
            match parse_hand(chars@.subrange(lo as int, hi as int)) {
                Ok(cards) => r is Ok && r->Ok_0.cards@ == cards,
                Err(msg) => r is Err && r->Err_0@ == msg,
            },
    {
        let ghost t = chars@.subrange(lo as int, hi as int);
        if hi - lo != 5 {
            let mut msg = String::from_str("Required 5 characters but found ");
            push_decimal(&mut msg, hi - lo);
            msg.append(".");
            return Err(msg);
        }
        let mut cards: Vec<Card> = Vec::new();
        let mut i: usize = 0;
        while i < 5
            invariant
                i <= 5,
                hi == lo + 5,
                hi <= chars@.len(),
                t == chars@.subrange(lo as int, hi as int),
                cards@.len() == i,
                forall|j: int| 0 <= j < i ==> Some(#[trigger] cards@[j]) == Card::of_char(t[j]),
            decreases 5 - i,
        {
            match Card::from_char(chars[lo + i]) {
                Ok(card) => cards.push(card),
                Err(e) => {
                    assert forall|j: int| 0 <= j < i implies Card::of_char(#[trigger] t[j]) is Some by {
                        assert(Some(cards@[j]) == Card::of_char(t[j]));
                    }
                    assert(first_invalid(t, i as int));
                    let ghost k = choose|k: int| first_invalid(t, k);
                    assert(k == i) by {
                        if k < i {
                            assert(Some(cards@[k]) == Card::of_char(t[k]));
                        }
                    }
                    return Err(e);
                },
            }
            i = i + 1;
        }
        let hand = PokerHand { cards: [cards[0], cards[1], cards[2], cards[3], cards[4]] };
        assert forall|j: int| 0 <= j < 5 implies Card::of_char(#[trigger] t[j]) is Some by {
            assert(Some(cards@[j]) == Card::of_char(t[j]));
        }
        assert(hand.cards@ =~= t.map_values(|c: char| Card::of_char(c)->Some_0));
        Ok(hand)
    }

    /// Classifies the hand: its category, with the ranks that break ties
    /// inside the category. The order of the cards does not matter.
    pub fn score(&self) -> (s: Score)
        requires
            self.classifiable(),
        ensures
            s@ == classify(self.holds()),
    {
        let ghost m = self.holds();
        let counts = rank_counts(&self.cards);
        let mut quads: Vec<Card> = Vec::new();
        let mut trips: Vec<Card> = Vec::new();
        let mut pairs: Vec<Card> = Vec::new();
        let mut singles: Vec<Card> = Vec::new();
        let mut j: usize = 0;
        while j < 13
            invariant
                j <= 13,
                m == self.holds(),
                counts@.len() == 13,
                forall|k: int| 0 <= k < 13 ==> #[trigger] counts@[k] == m.count(all_ranks()[k]),
                quads@ == ranks_with_count(m, 4, j as int),
                trips@ == ranks_with_count(m, 3, j as int),
                pairs@ == ranks_with_count(m, 2, j as int),
                singles@ == ranks_with_count(m, 1, j as int),
            decreases 13 - j,
        {
            let c = nth_rank(j);
            let n = counts[j];
            if n == 4 {
                quads.push(c);
            } else if n == 3 {
                trips.push(c);
            } else if n == 2 {
                pairs.push(c);
            } else if n == 1 {
                singles.push(c);
            }
            j = j + 1;
        }
        proof {
            lemma_group_sizes(m, 13);
            lemma_count_below_all(self.cards@);
        }
        if quads.len() > 0 {
            return Score::FourOfAKind { four_of_a_kind: quads[0], kicker: singles[0] };
        }
        if trips.len() > 0 && pairs.len() > 0 {
            return Score::FullHouse { pair: pairs[0], three_of_a_kind: trips[0] };
        }
        if singles.len() == 5 && singles[0] == Card::Two && singles[1] == Card::Three
            && singles[2] == Card::Four && singles[3] == Card::Five && singles[4] == Card::Ace {
            return Score::Straight(Card::Five);
        }
        if singles.len() == 5 {
            let low = card_seq(&singles[0]);
            if card_seq(&singles[1]) == low + 1 && card_seq(&singles[2]) == low + 2
                && card_seq(&singles[3]) == low + 3 && card_seq(&singles[4]) == low + 4 {
                return Score::Straight(singles[4]);
            }
        }
        if pairs.len() == 2 {
            return Score::TwoPair { low_pair: pairs[0], high_pair: pairs[1], kicker: singles[0] };
        }
        if trips.len() > 0 {
            return Score::ThreeOfAKind {
                card: trips[0],
                high_kicker: singles[1],
                low_kicker: singles[0],
            };
        }
        if pairs.len() > 0 {
            let kickers = [singles[0], singles[1], singles[2]];
            assert(kickers@ =~= singles@.subrange(0, 3));
            return Score::Pair { card: pairs[0], kickers };
        }
        let kickers = [singles[0], singles[1], singles[2], singles[3]];
        assert(kickers@ =~= singles@.subrange(0, 4));
        Score::HighCard { card: singles[4], kickers }
    }

    /// The five cards, in the order in which they were given.
    pub fn cards(&self) -> (r: &[Card; 5])
        ensures
            *r == self.cards,
    {
        &self.cards
    }
}

/// `c` is one of the five ranks of the straight topped by `top`.
pub open spec fn in_straight(top: Card, c: Card) -> bool {
    ||| top.value() - 4 <= c.value() <= top.value()
    ||| top == Card::Five && c == Card::Ace
}

/// `s` is a score that the cards `m` make: each rank in it occurs in `m` as
/// often as its place in the category says, and kickers are in ascending
/// order.
pub open spec fn fits(m: Multiset<Card>, s: ScoreView) -> bool {
    match s {
        ScoreView::FourOfAKind { four_of_a_kind, kicker } => m.count(four_of_a_kind) == 4
            && m.count(kicker) == 1,
        ScoreView::FullHouse { pair, three_of_a_kind } => m.count(three_of_a_kind) == 3 && m.count(
            pair,
        ) == 2,
        ScoreView::Straight(top) => top.value() >= 5 && forall|c: Card|
            in_straight(top, c) ==> #[trigger] m.count(c) == 1,
        ScoreView::TwoPair { low_pair, high_pair, kicker } => {
            &&& m.count(low_pair) == 2
            &&& m.count(high_pair) == 2
            &&& low_pair.value() < high_pair.value()
            &&& m.count(kicker) == 1
        },
        ScoreView::ThreeOfAKind { card, high_kicker, low_kicker } => {
            &&& m.count(card) == 3
            &&& m.count(low_kicker) == 1
            &&& m.count(high_kicker) == 1
            &&& low_kicker.value() < high_kicker.value()
        },
        ScoreView::Pair { card, kickers } => {
            &&& m.count(card) == 2
            &&& kickers.len() == 3
            &&& forall|i: int| 0 <= i < 3 ==> m.count(#[trigger] kickers[i]) == 1
            &&& kickers[0].value() < kickers[1].value() < kickers[2].value()
        },
        ScoreView::HighCard { card, kickers } => {
            &&& m.count(card) == 1
            &&& kickers.len() == 4
            &&& forall|i: int| 0 <= i < 4 ==> m.count(#[trigger] kickers[i]) == 1
            &&& kickers[0].value() < kickers[1].value() < kickers[2].value() < kickers[3].value()
                < card.value()
        },
    }
}

proof fn lemma_ranks_with_count(m: Multiset<Card>, n: nat, j: int)
    requires
        j <= 13,
    ensures
        forall|i: int|
            0 <= i < ranks_with_count(m, n, j).len() ==> m.count(
                #[trigger] ranks_with_count(m, n, j)[i],
            ) == n && ranks_with_count(m, n, j)[i].value() < j + 2,
        forall|i: int, k: int|
            0 <= i < k < ranks_with_count(m, n, j).len() ==> #[trigger] ranks_with_count(
                m,
                n,
                j,
            )[i].value() < #[trigger] ranks_with_count(m, n, j)[k].value(),
    decreases j,
{
    if j > 0 {
        lemma_ranks_with_count(m, n, j - 1);
        let lower = ranks_with_count(m, n, j - 1);
        let x = all_ranks()[j - 1];
        assert(x.value() == j + 1);
        if m.count(x) == n {
            assert(ranks_with_count(m, n, j) == lower.push(x));
            assert forall|i: int| 0 <= i < lower.len() implies lower.push(x)[i] == lower[i] by {}
        } else {
            assert(ranks_with_count(m, n, j) == lower);
        }
    }
}

/// Every hand in which no rank occurs five times gets exactly one score, and
/// that score fits the hand.
pub proof fn lemma_classification_fits(h: PokerHand)
    requires
        h.classifiable(),
    ensures
        fits(h.holds(), classify(h.holds())),
{
    let m = h.holds();
    lemma_group_sizes(m, 13);
    lemma_count_below_all(h.cards@);
    lemma_ranks_with_count(m, 1, 13);
    lemma_ranks_with_count(m, 2, 13);
    lemma_ranks_with_count(m, 3, 13);
    lemma_ranks_with_count(m, 4, 13);
    let singles = group(m, 1);
    if classify(m) is Straight {
        assert forall|c: Card| in_straight(classify(m)->Straight_0, c) implies #[trigger] m.count(
            c,
        ) == 1 by {
            if is_wheel(singles) {
                assert(c == singles[0] || c == singles[1] || c == singles[2] || c == singles[3]
                    || c == singles[4]);
            } else {
                assert(c == singles[c.value() - singles[0].value()]);
            }
        }
    }
}

/// The score of a hand depends only on which cards it holds: two hands
/// with the same cards in any order score the same.
pub proof fn lemma_score_ignores_order(a: PokerHand, b: PokerHand)
    requires
        a.holds() == b.holds(),
    ensures
        classify(a.holds()) == classify(b.holds()),
        a.classifiable() == b.classifiable(),
{
}

} // verus!
