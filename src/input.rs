//! The text that a game is read from: a line with the number of games, then
//! one line per game with the two hands.

use vstd::prelude::*;
use vstd::std_specs::iter::IteratorSpec;

use crate::cards::Card;
use crate::hand::{PokerHand, parse_hand};
use crate::text::push_char;

verus! {

broadcast use vstd::string::group_string_axioms;

/// The characters of `s`, one by one.
pub fn chars_of(s: &str) -> (r: Vec<char>)
    ensures
        r@ == s@,
{
    let mut out: Vec<char> = Vec::new();
    let mut it = s.chars();
    loop
        invariant
            it.obeys_prophetic_iter_laws(),
            out@ + it.remaining() == s@,
            it.decrease() is Some,
        decreases it.decrease()->0,
    {
        match it.next() {
            Some(c) => {
                out.push(c);
                assert(out@ + it.remaining() =~= s@);
            },
            None => {
                assert(out@ =~= s@);
                return out;
            },
        }
    }
}

/// Unicode's White_Space property, which `str::trim` strips.
pub open spec fn is_white_space(c: char) -> bool {
    let u = c as u32;
    ||| 9 <= u <= 13
    ||| u == 32
    ||| u == 0x85
    ||| u == 0xa0
    ||| u == 0x1680
    ||| 0x2000 <= u <= 0x200a
    ||| u == 0x2028
    ||| u == 0x2029
    ||| u == 0x202f
    ||| u == 0x205f
    ||| u == 0x3000
}

/// `s` without its leading white space.
pub open spec fn trim_start(s: Seq<char>) -> Seq<char>
    decreases s.len(),
{
    if s.len() > 0 && is_white_space(s[0]) {
        trim_start(s.drop_first())
    } else {
        s
    }
}

/// `s` without its trailing white space.
pub open spec fn trim_end(s: Seq<char>) -> Seq<char>
    decreases s.len(),
{
    if s.len() > 0 && is_white_space(s.last()) {
        trim_end(s.drop_last())
    } else {
        s
    }
}

/// `s` without white space at either end.
pub open spec fn trim(s: Seq<char>) -> Seq<char> {
    trim_end(trim_start(s))
}

fn white_space(c: char) -> (r: bool)
    ensures
        r == is_white_space(c),
{
    let u = c as u32;
    (9 <= u && u <= 13) || u == 32 || u == 0x85 || u == 0xa0 || u == 0x1680 || (0x2000 <= u && u
        <= 0x200a) || u == 0x2028 || u == 0x2029 || u == 0x202f || u == 0x205f || u == 0x3000
}

/// The bounds of the characters from `lo` up to `hi` without white space at
/// either end.
fn trim_range(s: &Vec<char>, lo: usize, hi: usize) -> (r: (usize, usize))
    requires
        lo <= hi <= s@.len(),
    ensures
        lo <= r.0 <= r.1 <= hi,
        s@.subrange(r.0 as int, r.1 as int) == trim(s@.subrange(lo as int, hi as int)),
{
    let mut a = lo;
    while a < hi && white_space(s[a])
        invariant
            lo <= a <= hi <= s@.len(),
            trim_start(s@.subrange(lo as int, hi as int)) == trim_start(
                s@.subrange(a as int, hi as int),
            ),
        decreases hi - a,
    {
        assert(s@.subrange(a as int, hi as int).drop_first() =~= s@.subrange(a + 1, hi as int));
        a = a + 1;
    }
    let mut b = hi;
    while b > a && white_space(s[b - 1])
        invariant
            lo <= a <= b <= hi <= s@.len(),
            trim_end(s@.subrange(a as int, hi as int)) == trim_end(
                s@.subrange(a as int, b as int),
            ),
        decreases b - a,
    {
        assert(s@.subrange(a as int, b as int).drop_last() =~= s@.subrange(a as int, b - 1));
        b = b - 1;
    }
    (a, b)
}

/// A decimal digit, '0' to '9'.
pub open spec fn is_digit(c: char) -> bool {
    48 <= c as u32 <= 57
}

/// The number that the decimal digits `d` write.
pub open spec fn digits_value(d: Seq<char>) -> nat
    decreases d.len(),
{
    if d.len() == 0 {
        0
    } else {
        digits_value(d.drop_last()) * 10 + (d.last() as u32 - 48) as nat
    }
}

/// `t` without a leading plus sign.
pub open spec fn unsigned_part(t: Seq<char>) -> Seq<char> {
    if t.len() > 0 && t[0] == '+' {
        t.drop_first()
    } else {
        t
    }
}

/// The count that `t` writes, as `str::parse::<usize>` reads it: an optional
/// plus sign, then one or more decimal digits, of a value that fits in a
/// `usize`.
pub open spec fn count_value(t: Seq<char>) -> Option<nat> {
    let d = unsigned_part(t);
    if d.len() > 0 && (forall|i: int| 0 <= i < d.len() ==> is_digit(#[trigger] d[i]))
        && digits_value(d) <= usize::MAX {
        Some(digits_value(d))
    } else {
        None
    }
}

proof fn lemma_digits_value_grows(d: Seq<char>, j: int, k: int)
    requires
        0 <= j <= k <= d.len(),
    ensures
        digits_value(d.subrange(0, j)) <= digits_value(d.subrange(0, k)),
    decreases k - j,
{
    if j < k {
        lemma_digits_value_grows(d, j, k - 1);
        assert(d.subrange(0, k).drop_last() =~= d.subrange(0, k - 1));
    }
}

/// Reads the count written by the characters from `lo` up to `hi`.
fn parse_count(s: &Vec<char>, lo: usize, hi: usize) -> (r: Option<usize>)
    requires
        lo <= hi <= s@.len(),
    ensures
        match r {
            Some(n) => count_value(s@.subrange(lo as int, hi as int)) == Some(n as nat),
            None => count_value(s@.subrange(lo as int, hi as int)) is None,
        },
{
    let ghost t = s@.subrange(lo as int, hi as int);
    let mut start = lo;
    if lo < hi && s[lo] == '+' {
        start = lo + 1;
    }
    let ghost d = s@.subrange(start as int, hi as int);
    assert(d =~= unsigned_part(t));
    if start == hi {
        return None;
    }
    let mut acc: usize = 0;
    let mut i = start;
    while i < hi
        invariant
            lo <= start <= i <= hi <= s@.len(),
            d == s@.subrange(start as int, hi as int),
            t == s@.subrange(lo as int, hi as int),
            d == unsigned_part(t),
            d.len() > 0,
            forall|k: int| 0 <= k < i - start ==> is_digit(#[trigger] d[k]),
            acc == digits_value(d.subrange(0, i - start)),
        decreases hi - i,
    {
        let c = s[i];
        let u = c as u32;
        if u < 48 || u > 57 {
            assert(!is_digit(d[i - start]));
            return None;
        }
        let digit = (u - 48) as usize;
        assert(d.subrange(0, i + 1 - start).drop_last() =~= d.subrange(0, i - start));
        if acc > (usize::MAX - digit) / 10 {
            assert(acc * 10 + digit > usize::MAX) by (nonlinear_arith)
                requires
                    acc > (usize::MAX - digit) / 10,
                    digit <= 9,
            ;
            proof {
                lemma_digits_value_grows(d, i + 1 - start, d.len() as int);
                assert(d.subrange(0, d.len() as int) =~= d);
            }
            return None;
        }
        assert(acc * 10 + digit <= usize::MAX) by (nonlinear_arith)
            requires
                acc <= (usize::MAX - digit) / 10,
                digit <= 9,
        ;
        acc = acc * 10 + digit;
        i = i + 1;
    }
    assert(d.subrange(0, d.len() as int) =~= d);
    Some(acc)
}

/// Why the text of the games could not be read.
#[derive(Debug, PartialEq, Eq)]
pub enum ParseError {
    /// The first line does not hold a count; it holds this text.
    LineParse(String),
    /// The text ends before the count of games is reached.
    FewLines,
    /// A game's line has no hand.
    MissingLeftHand,
    /// A game's line has only one hand.
    MissingRightHand,
    /// The first hand of the game with this number is not a hand.
    LeftHandInvalid(usize, String),
    /// The second hand of the game with this number is not a hand.
    RightHandInvalid(usize, String),
}

/// A `ParseError` with its texts as sequences of characters.
pub enum ParseErrorView {
    LineParse(Seq<char>),
    FewLines,
    MissingLeftHand,
    MissingRightHand,
    LeftHandInvalid(nat, Seq<char>),
    RightHandInvalid(nat, Seq<char>),
}

impl View for ParseError {
    type V = ParseErrorView;

    open spec fn view(&self) -> ParseErrorView {
        match self {
            ParseError::LineParse(t) => ParseErrorView::LineParse(t@),
            ParseError::FewLines => ParseErrorView::FewLines,
            ParseError::MissingLeftHand => ParseErrorView::MissingLeftHand,
            ParseError::MissingRightHand => ParseErrorView::MissingRightHand,
            ParseError::LeftHandInvalid(n, m) => ParseErrorView::LeftHandInvalid(*n as nat, m@),
            ParseError::RightHandInvalid(n, m) => ParseErrorView::RightHandInvalid(*n as nat, m@),
        }
    }
}

/// White space as `str::split_ascii_whitespace` splits on it.
pub open spec fn is_ascii_space(c: char) -> bool {
    c == ' ' || c == '\t' || c == '\n' || c == '\x0C' || c == '\r'
}

/// The end of the line that starts at `pos`: just after its newline, or the
/// end of the text.
pub open spec fn line_end(s: Seq<char>, pos: int) -> int
    decreases s.len() - pos,
{
    if pos < 0 || pos >= s.len() {
        s.len() as int
    } else if s[pos] == '\n' {
        pos + 1
    } else {
        line_end(s, pos + 1)
    }
}

/// The first position from `i` on and below `hi` that holds no white space,
/// or `hi`.
pub open spec fn skip_spaces(s: Seq<char>, i: int, hi: int) -> int
    decreases hi - i,
{
    if i < hi && is_ascii_space(s[i]) {
        skip_spaces(s, i + 1, hi)
    } else {
        i
    }
}

/// The first position from `i` on and below `hi` that holds white space, or
/// `hi`.
pub open spec fn word_end(s: Seq<char>, i: int, hi: int) -> int
    decreases hi - i,
{
    if i < hi && !is_ascii_space(s[i]) {
        word_end(s, i + 1, hi)
    } else {
        i
    }
}

/// The two hands of a game, each as its cards.
pub type GameView = (Seq<Card>, Seq<Card>);

/// The game on the line from `lo` up to `hi`, the game numbered `number`:
/// the first two words of the line are its hands; more words are ignored.
pub open spec fn game_line(s: Seq<char>, lo: int, hi: int, number: nat) -> Result<
    GameView,
    ParseErrorView,
> {
    let a0 = skip_spaces(s, lo, hi);
    let b0 = word_end(s, a0, hi);
    let a1 = skip_spaces(s, b0, hi);
    let b1 = word_end(s, a1, hi);
    if a0 >= hi {
        Err(ParseErrorView::MissingLeftHand)
    } else if a1 >= hi {
        Err(ParseErrorView::MissingRightHand)
    } else {
        match parse_hand(s.subrange(a0, b0)) {
            Err(e) => Err(ParseErrorView::LeftHandInvalid(number, e)),
            Ok(left) => match parse_hand(s.subrange(a1, b1)) {
                Err(e) => Err(ParseErrorView::RightHandInvalid(number, e)),
                Ok(right) => Ok((left, right)),
            },
        }
    }
}

/// Reads games `k + 1` to `n` from the lines that start at `pos`, after the
/// games `done`. The first line in error decides the error.
pub open spec fn games_from(
    s: Seq<char>,
    pos: int,
    k: nat,
    n: nat,
    done: Seq<GameView>,
) -> Result<Seq<GameView>, ParseErrorView>
    decreases n - k,
{
    if k >= n {
        Ok(done)
    } else if pos >= s.len() {
        Err(ParseErrorView::FewLines)
    } else {
        let end = line_end(s, pos);
        match game_line(s, pos, end, k + 1) {
            Err(e) => Err(e),
            Ok(g) => games_from(s, end, k + 1, n, done.push(g)),
        }
    }
}

/// The games that the text `s` holds: the first line, trimmed, gives their
/// count, and each following line one game.
pub open spec fn parse_games(s: Seq<char>) -> Result<Seq<GameView>, ParseErrorView> {
    let end = line_end(s, 0);
    let count = trim(s.subrange(0, end));
    match count_value(count) {
        None => Err(ParseErrorView::LineParse(count)),
        Some(n) => games_from(s, end, 0, n, Seq::empty()),
    }
}

/// Games as the cards of their two hands.
pub open spec fn games_view(v: Seq<(PokerHand, PokerHand)>) -> Seq<GameView> {
    v.map_values(|g: (PokerHand, PokerHand)| (g.0.cards@, g.1.cards@))
}

fn find_line_end(s: &Vec<char>, pos: usize) -> (r: usize)
    requires
        pos <= s@.len(),
    ensures
        r == line_end(s@, pos as int),
        pos <= r <= s@.len(),
        pos < s@.len() ==> pos < r,
{
    let mut i = pos;
    while i < s.len() && s[i] != '\n'
        invariant
            pos <= i <= s@.len(),
            line_end(s@, pos as int) == line_end(s@, i as int),
        decreases s@.len() - i,
    {
        i = i + 1;
    }
    if i < s.len() {
        i + 1
    } else {
        i
    }
}

fn find_word_start(s: &Vec<char>, i: usize, hi: usize) -> (r: usize)
    requires
        i <= hi <= s@.len(),
    ensures
        r == skip_spaces(s@, i as int, hi as int),
        i <= r <= hi,
{
    let mut j = i;
    while j < hi && (s[j] == ' ' || s[j] == '\t' || s[j] == '\n' || s[j] == '\x0C' || s[j]
        == '\r')
        invariant
            i <= j <= hi <= s@.len(),
            skip_spaces(s@, i as int, hi as int) == skip_spaces(s@, j as int, hi as int),
        decreases hi - j,
    {
        j = j + 1;
    }
    j
}

fn find_word_end(s: &Vec<char>, i: usize, hi: usize) -> (r: usize)
    requires
        i <= hi <= s@.len(),
    ensures
        r == word_end(s@, i as int, hi as int),
        i <= r <= hi,
{
    let mut j = i;
    while j < hi && !(s[j] == ' ' || s[j] == '\t' || s[j] == '\n' || s[j] == '\x0C' || s[j]
        == '\r')
        invariant
            i <= j <= hi <= s@.len(),
            word_end(s@, i as int, hi as int) == word_end(s@, j as int, hi as int),
        decreases hi - j,
    {
        j = j + 1;
    }
    j
}

/// The characters from `lo` up to `hi`, as a string.
fn text_of(s: &Vec<char>, lo: usize, hi: usize) -> (r: String)
    requires
        lo <= hi <= s@.len(),
    ensures
        r@ == s@.subrange(lo as int, hi as int),
{
    let mut out = String::new();
    let mut i = lo;
    while i < hi
        invariant
            lo <= i <= hi <= s@.len(),
            out@ == s@.subrange(lo as int, i as int),
        decreases hi - i,
    {
        push_char(&mut out, s[i]);
        assert(out@ =~= s@.subrange(lo as int, i + 1));
        i = i + 1;
    }
    out
}

/// Reads the game on the line from `lo` up to `hi`.
fn read_game(s: &Vec<char>, lo: usize, hi: usize, number: usize) -> (r: Result<
    (PokerHand, PokerHand),
    ParseError,
>)
    requires
        lo <= hi <= s@.len(),
    ensures
        match game_line(s@, lo as int, hi as int, number as nat) {
            Ok(g) => r is Ok && g == (r->Ok_0.0.cards@, r->Ok_0.1.cards@),
            Err(e) => r is Err && r->Err_0@ == e,
        },
{
    let a0 = find_word_start(s, lo, hi);
    let b0 = find_word_end(s, a0, hi);
    let a1 = find_word_start(s, b0, hi);
    let b1 = find_word_end(s, a1, hi);
    if a0 >= hi {
        return Err(ParseError::MissingLeftHand);
    }
    if a1 >= hi {
        return Err(ParseError::MissingRightHand);
    }
    let left = match PokerHand::from_chars(s, a0, b0) {
        Ok(h) => h,
        Err(e) => {
            return Err(ParseError::LeftHandInvalid(number, e));
        },
    };
    let right = match PokerHand::from_chars(s, a1, b1) {
        Ok(h) => h,
        Err(e) => {
            return Err(ParseError::RightHandInvalid(number, e));
        },
    };
    Ok((left, right))
}

/// Reads the games from their text: a first line with their count, then
/// one line per game with its two hands, left then right, apart by white
/// space. Games are numbered from 1 in errors.
pub fn parse(input: &str) -> (r: Result<Vec<(PokerHand, PokerHand)>, ParseError>)
    ensures
        match parse_games(input@) {
            Ok(games) => r is Ok && games_view(r->Ok_0@) == games,
            Err(e) => r is Err && r->Err_0@ == e,
        },
{
    let s = chars_of(input);
    let end = find_line_end(&s, 0);
    let (a, b) = trim_range(&s, 0, end);
    let n = match parse_count(&s, a, b) {
        Some(n) => n,
        None => {
            return Err(ParseError::LineParse(text_of(&s, a, b)));
        },
    };
    let mut games: Vec<(PokerHand, PokerHand)> = Vec::new();
    let mut pos = end;
    let mut k: usize = 0;
    assert(games_view(games@) =~= Seq::<GameView>::empty());
    while k < n
        invariant
            s@ == input@,
            k <= n,
            pos <= s@.len(),
            parse_games(s@) == games_from(s@, pos as int, k as nat, n as nat, games_view(games@)),
        decreases n - k,
    {
        if pos >= s.len() {
            return Err(ParseError::FewLines);
        }
        let line_end = find_line_end(&s, pos);
        let game = match read_game(&s, pos, line_end, k + 1) {
            Ok(g) => g,
            Err(e) => {
                return Err(e);
            },
        };
        let ghost before = games@;
        games.push(game);
        assert(games_view(games@) =~= games_view(before).push(
            (game.0.cards@, game.1.cards@),
        ));
        pos = line_end;
        k = k + 1;
    }
    Ok(games)
}

} // verus!
