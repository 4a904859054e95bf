//! Reading the words of a move: a declared hand value such as `pair 10` or
//! `fullhouse 5 A`, and the player and card counts of a new game.
use crate::card::Rank;
use crate::poker::{BPFlush, BPStraightFlush, HandValue};
use vstd::prelude::*;

verus! {

/// The whitespace-separated words of a line, in order.
pub uninterp spec fn words_of(s: Seq<char>) -> Seq<Seq<char>>;

/// The value of a decimal `u8` written as `s`, if `s` is one.
pub uninterp spec fn u8_of(s: Seq<char>) -> Option<u8>;

/// Relies on `str::split_whitespace`: the words of `s`, in order.
#[verifier::external_body]
fn split_words(s: &str) -> (r: Vec<String>)
    ensures
        r@.len() == words_of(s@).len(),
        forall|i: int| 0 <= i < r@.len() ==> (#[trigger] r@[i])@ == words_of(s@)[i],
{
    s.split_whitespace().map(|w| w.to_string()).collect()
}

/// Relies on `str::parse::<u8>`: the number written in `s`, if it is a `u8`.
#[verifier::external_body]
fn parse_u8(s: &str) -> (r: Option<u8>)
    ensures
        r == u8_of(s@),
{
    s.parse::<u8>().ok()
}

/// The views of a list of words.
pub open spec fn views(words: Seq<String>) -> Seq<Seq<char>> {
    words.map_values(|w: String| w@)
}

/// The hand value that the words declare: a kind followed by one rank, or,
/// for `twopair` and `fullhouse`, by two.
pub open spec fn claim_of(ws: Seq<Seq<char>>) -> Option<HandValue> {
    if ws.len() == 2 {
        match Rank::parse_token(ws[1]) {
            Some(r) => if ws[0] == "high"@ {
                Some(HandValue::HighCard(r))
            } else if ws[0] == "pair"@ {
                Some(HandValue::OnePair(r))
            } else if ws[0] == "triple"@ {
                Some(HandValue::ThreeOfAKind(r))
            } else if ws[0] == "straight"@ {
                Some(HandValue::Straight(r))
            } else if ws[0] == "flush"@ {
                Some(HandValue::Flush(BPFlush { rank: r }))
            } else if ws[0] == "quad"@ {
                Some(HandValue::FourOfAKind(r))
            } else if ws[0] == "straightflush"@ {
                Some(HandValue::StraightFlush(BPStraightFlush { rank: r }))
            } else {
                None
            },
            None => None,
        }
    } else if ws.len() == 3 {
        match (Rank::parse_token(ws[1]), Rank::parse_token(ws[2])) {
            (Some(a), Some(b)) => if ws[0] == "twopair"@ {
                Some(HandValue::TwoPair(a, b))
            } else if ws[0] == "fullhouse"@ {
                Some(HandValue::FullHouse(a, b))
            } else {
                None
            },
            _ => None,
        }
    } else {
        None
    }
}

/// The player and card counts that the words give: two numbers.
pub open spec fn counts_of(ws: Seq<Seq<char>>) -> Option<(u8, u8)> {
    if ws.len() == 2 {
        match (u8_of(ws[0]), u8_of(ws[1])) {
            (Some(a), Some(b)) => Some((a, b)),
            _ => None,
        }
    } else {
        None
    }
}

/// Whether the word is `lit`.
fn is_word(w: &String, lit: &str) -> (r: bool)
    ensures
        r == (w@ == lit@),
{
    let l = String::from_str(lit);
    w.eq(&l)
}

/// The hand value declared by a list of words.
pub fn parse_claim_words(words: &Vec<String>) -> (r: Option<HandValue>)
    ensures
        r == claim_of(views(words@)),
{
    let ghost ws = views(words@);
    if words.len() == 2 {
        let r = match Rank::from_str(words[1].as_str()) {
            Some(r) => if is_word(&words[0], "high") {
                Some(HandValue::HighCard(r))
            } else if is_word(&words[0], "pair") {
                Some(HandValue::OnePair(r))
            } else if is_word(&words[0], "triple") {
                Some(HandValue::ThreeOfAKind(r))
            } else if is_word(&words[0], "straight") {
                Some(HandValue::Straight(r))
            } else if is_word(&words[0], "flush") {
                Some(HandValue::Flush(BPFlush { rank: r }))
            } else if is_word(&words[0], "quad") {
                Some(HandValue::FourOfAKind(r))
            } else if is_word(&words[0], "straightflush") {
                Some(HandValue::StraightFlush(BPStraightFlush { rank: r }))
            } else {
                None
            },
            None => None,
        };
        assert(ws[0] == words@[0]@ && ws[1] == words@[1]@);
        r
    } else if words.len() == 3 {
        let a = Rank::from_str(words[1].as_str());
        let b = Rank::from_str(words[2].as_str());
        assert(ws[0] == words@[0]@ && ws[1] == words@[1]@ && ws[2] == words@[2]@);
        match (a, b) {
            (Some(a), Some(b)) => if is_word(&words[0], "twopair") {
                Some(HandValue::TwoPair(a, b))
            } else if is_word(&words[0], "fullhouse") {
                Some(HandValue::FullHouse(a, b))
            } else {
                None
            },
            _ => None,
        }
    } else {
        None
    }
}

/// The hand value declared by a line such as `pair 10` or `twopair K 4`.
pub fn parse_handvalue(line: &str) -> (r: Option<HandValue>)
    ensures
        r == claim_of(words_of(line@)),
{
    let words = split_words(line);
    assert(views(words@) =~= words_of(line@));
    parse_claim_words(&words)
}

/// The player count and hand size given by a line such as `5 6`.
pub fn parse_players_cards(line: &str) -> (r: Option<(u8, u8)>)
    ensures
        r == counts_of(words_of(line@)),
{
    let words = split_words(line);
    if words.len() != 2 {
        return None;
    }
    let players = parse_u8(words[0].as_str());
    let cards = parse_u8(words[1].as_str());
    match (players, cards) {
        (Some(p), Some(c)) => Some((p, c)),
        _ => None,
    }
}

} // verus!
