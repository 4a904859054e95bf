//! Ranks, suits and cards, with their numeric codes and text forms.
use vstd::prelude::*;

verus! {

/// The four suits; they carry no order.
#[derive(Clone, Copy, Debug, PartialEq, Eq, Structural)]
pub enum Suit {
    Clubs,
    Spades,
    Hearts,
    Diamonds,
}

/// Card ranks from Two (lowest) to Ace (highest).
#[derive(Clone, Copy, Debug, PartialEq, Eq, Structural, PartialOrd, Ord)]
pub enum Rank {
    Two,
    Three,
    Four,
    Five,
    Six,
    Seven,
    Eight,
    Nine,
    Ten,
    Jack,
    Queen,
    King,
    Ace,
}

/// A playing card.
#[derive(Clone, Copy, Debug, PartialEq, Eq, Structural)]
pub struct Card {
    pub suit: Suit,
    pub rank: Rank,
}

impl Suit {
    /// The glyph that stands for the suit.
    pub open spec fn glyph(self) -> Seq<char> {
        match self {
            Suit::Clubs => seq!['♣'],
            Suit::Diamonds => seq!['♦'],
            Suit::Hearts => seq!['♥'],
            Suit::Spades => seq!['♠'],
        }
    }

    pub fn to_string(&self) -> (r: &'static str)
        ensures
            r@ == self.glyph(),
    {
        proof {
            reveal_strlit("♣");
            reveal_strlit("♦");
            reveal_strlit("♥");
            reveal_strlit("♠");
        }
        match self {
            Suit::Clubs => "♣",
            Suit::Diamonds => "♦",
            Suit::Hearts => "♥",
            Suit::Spades => "♠",
        }
    }
}

impl Rank {
    /// The face value: 2 for Two up to 14 for Ace.
    pub open spec fn code(self) -> int {
        match self {
            Rank::Two => 2,
            Rank::Three => 3,
            Rank::Four => 4,
            Rank::Five => 5,
            Rank::Six => 6,
            Rank::Seven => 7,
            Rank::Eight => 8,
            Rank::Nine => 9,
            Rank::Ten => 10,
            Rank::Jack => 11,
            Rank::Queen => 12,
            Rank::King => 13,
            Rank::Ace => 14,
        }
    }

    /// The rank whose face value is `n`, if there is one.
    pub open spec fn from_code(n: int) -> Option<Rank> {
        if n == 2 {
            Some(Rank::Two)
        } else if n == 3 {
            Some(Rank::Three)
        } else if n == 4 {
            Some(Rank::Four)
        } else if n == 5 {
            Some(Rank::Five)
        } else if n == 6 {
            Some(Rank::Six)
        } else if n == 7 {
            Some(Rank::Seven)
        } else if n == 8 {
            Some(Rank::Eight)
        } else if n == 9 {
            Some(Rank::Nine)
        } else if n == 10 {
            Some(Rank::Ten)
        } else if n == 11 {
            Some(Rank::Jack)
        } else if n == 12 {
            Some(Rank::Queen)
        } else if n == 13 {
            Some(Rank::King)
        } else if n == 14 {
            Some(Rank::Ace)
        } else {
            None
        }
    }

    /// The short token that names the rank.
    pub open spec fn token(self) -> Seq<char> {
        match self {
            Rank::Two => seq!['2'],
            Rank::Three => seq!['3'],
            Rank::Four => seq!['4'],
            Rank::Five => seq!['5'],
            Rank::Six => seq!['6'],
            Rank::Seven => seq!['7'],
            Rank::Eight => seq!['8'],
            Rank::Nine => seq!['9'],
            Rank::Ten => seq!['1', '0'],
            Rank::Jack => seq!['J'],
            Rank::Queen => seq!['Q'],
            Rank::King => seq!['K'],
            Rank::Ace => seq!['A'],
        }
    }

    pub fn to_string(&self) -> (r: &'static str)
        ensures
            r@ == self.token(),
    {
        proof {
            reveal_strlit("2");
            reveal_strlit("3");
            reveal_strlit("4");
            reveal_strlit("5");
            reveal_strlit("6");
            reveal_strlit("7");
            reveal_strlit("8");
            reveal_strlit("9");
            reveal_strlit("10");
            reveal_strlit("J");
            reveal_strlit("Q");
            reveal_strlit("K");
            reveal_strlit("A");
        }
        let r = match self {
            Rank::Two => "2",
            Rank::Three => "3",
            Rank::Four => "4",
            Rank::Five => "5",
            Rank::Six => "6",
            Rank::Seven => "7",
            Rank::Eight => "8",
            Rank::Nine => "9",
            Rank::Ten => "10",
            Rank::Jack => "J",
            Rank::Queen => "Q",
            Rank::King => "K",
            Rank::Ace => "A",
        };
        assert(r@ =~= self.token());
        r
    }

    pub fn to_u8(&self) -> (r: u8)
        ensures
            r as int == self.code(),
    {
        match self {
            Rank::Two => 2,
            Rank::Three => 3,
            Rank::Four => 4,
            Rank::Five => 5,
            Rank::Six => 6,
            Rank::Seven => 7,
            Rank::Eight => 8,
            Rank::Nine => 9,
            Rank::Ten => 10,
            Rank::Jack => 11,
            Rank::Queen => 12,
            Rank::King => 13,
            Rank::Ace => 14,
        }
    }

    pub fn from_u8(num: u8) -> (r: Option<Rank>)
        ensures
            r == Rank::from_code(num as int),
    {
        match num {
            2 => Some(Rank::Two),
            3 => Some(Rank::Three),
            4 => Some(Rank::Four),
            5 => Some(Rank::Five),
            6 => Some(Rank::Six),
            7 => Some(Rank::Seven),
            8 => Some(Rank::Eight),
            9 => Some(Rank::Nine),
            10 => Some(Rank::Ten),
            11 => Some(Rank::Jack),
            12 => Some(Rank::Queen),
            13 => Some(Rank::King),
            14 => Some(Rank::Ace),
            _ => None,
        }
    }

    /// The rank whose token is `t`, if there is one.
    pub open spec fn parse_token(t: Seq<char>) -> Option<Rank> {
        if exists|k: Rank| k.token() == t {
            Some(choose|k: Rank| k.token() == t)
        } else {
            None
        }
    }

    /// Reads a rank token such as `"7"`, `"10"` or `"Q"`.
    pub fn from_str(s: &str) -> (r: Option<Rank>)
        ensures
            match r {
                Some(k) => k.token() == s@,
                None => forall|k: Rank| k.token() != s@,
            },
            r == Rank::parse_token(s@),
    {
        let n = s.unicode_len();
        let r = if n == 1 {
            let c = s.get_char(0);
            let r = if c == '2' {
                Some(Rank::Two)
            } else if c == '3' {
                Some(Rank::Three)
            } else if c == '4' {
                Some(Rank::Four)
            } else if c == '5' {
                Some(Rank::Five)
            } else if c == '6' {
                Some(Rank::Six)
            } else if c == '7' {
                Some(Rank::Seven)
            } else if c == '8' {
                Some(Rank::Eight)
            } else if c == '9' {
                Some(Rank::Nine)
            } else if c == 'J' {
                Some(Rank::Jack)
            } else if c == 'Q' {
                Some(Rank::Queen)
            } else if c == 'K' {
                Some(Rank::King)
            } else if c == 'A' {
                Some(Rank::Ace)
            } else {
                None
            };
            proof {
                match r {
                    Some(k) => {
                        assert(k.token() =~= s@);
                    },
                    None => {
                        assert forall|k: Rank| k.token() != s@ by {
                            if k.token() == s@ {
                                assert(k.token()[0] == s@[0]);
                            }
                        }
                    },
                }
            }
            r
        } else if n == 2 && s.get_char(0) == '1' && s.get_char(1) == '0' {
            assert(Rank::Ten.token() =~= s@);
            Some(Rank::Ten)
        } else {
            assert forall|k: Rank| k.token() != s@ by {
                if k.token() == s@ {
                    assert(k.token()[0] == s@[0]);
                    assert(k.token()[1] == s@[1]);
                }
            }
            None
        };
        proof {
            if let Some(k) = r {
                let c = choose|c: Rank| c.token() == s@;
                lemma_token_injective(k, c);
            }
        }
        r
    }
}

/// How two cards compare: by rank alone, the suit breaking no tie.
pub open spec fn rank_order(a: Card, b: Card) -> core::cmp::Ordering {
    if a.rank.code() < b.rank.code() {
        core::cmp::Ordering::Less
    } else if a.rank.code() > b.rank.code() {
        core::cmp::Ordering::Greater
    } else {
        core::cmp::Ordering::Equal
    }
}

impl PartialOrd for Card {
    fn partial_cmp(&self, other: &Card) -> (r: Option<core::cmp::Ordering>)
        ensures
            r == Some(rank_order(*self, *other)),
    {
        let a = self.rank.to_u8();
        let b = other.rank.to_u8();
        if a < b {
            Some(core::cmp::Ordering::Less)
        } else if a > b {
            Some(core::cmp::Ordering::Greater)
        } else {
            Some(core::cmp::Ordering::Equal)
        }
    }
}

impl vstd::std_specs::cmp::PartialOrdSpecImpl for Card {
    open spec fn obeys_partial_cmp_spec() -> bool {
        true
    }

    open spec fn partial_cmp_spec(&self, other: &Card) -> Option<core::cmp::Ordering> {
        Some(rank_order(*self, *other))
    }
}

/// The numeric code of a rank and its reading back are inverse: reading the
/// code of any rank gives that rank, every code from 2 to 14 reads as the rank
/// with that code, and no other code reads as a rank.
pub proof fn lemma_code_round_trip(r: Rank, n: int)
    ensures
        Rank::from_code(r.code()) == Some(r),
        2 <= n <= 14 ==> (Rank::from_code(n) matches Some(k) && k.code() == n),
        !(2 <= n <= 14) ==> Rank::from_code(n) is None,
{
}

/// Distinct ranks have distinct tokens.
pub proof fn lemma_token_injective(a: Rank, b: Rank)
    ensures
        a.token() == b.token() ==> a == b,
{
    if a.token() == b.token() {
        assert(a.token()[0] == b.token()[0]);
        assert(a.token().len() == b.token().len());
    }
}

impl Card {
    /// The gap between a rank token and a glyph: none after the two-character
    /// token of a Ten, one space otherwise.
    pub open spec fn gap(self) -> Seq<char> {
        if self.rank == Rank::Ten {
            Seq::empty()
        } else {
            seq![' ']
        }
    }

    /// Line `line` of the five-line picture of the card.
    pub open spec fn line_text(self, line: u8) -> Seq<char> {
        if line == 1 {
            "|"@ + self.rank.token() + self.gap() + self.suit.glyph() + "  |"@
        } else if line == 2 {
            "|  "@ + self.suit.glyph() + "  |"@
        } else if line == 3 {
            "|  "@ + self.suit.glyph() + self.gap() + self.rank.token() + "|"@
        } else {
            "+-----+"@
        }
    }

    /// The whole picture: its five lines joined by line breaks.
    pub open spec fn picture(self) -> Seq<char> {
        self.line_text(0) + "\n"@ + self.line_text(1) + "\n"@ + self.line_text(2) + "\n"@
            + self.line_text(3) + "\n"@ + self.line_text(4)
    }

    pub fn to_single_string(&self, line: u8) -> (r: String)
        ensures
            r@ == self.line_text(line),
    {
        if line == 1 {
            let mut out = String::from_str("|");
            out.append(self.rank.to_string());
            if self.rank != Rank::Ten {
                out.append(" ");
            }
            out.append(self.suit.to_string());
            out.append("  |");
            proof {
                reveal_strlit(" ");
            }
            assert(out@ =~= self.line_text(line));
            out
        } else if line == 2 {
            let mut out = String::from_str("|  ");
            out.append(self.suit.to_string());
            out.append("  |");
            out
        } else if line == 3 {
            let mut out = String::from_str("|  ");
            out.append(self.suit.to_string());
            if self.rank != Rank::Ten {
                out.append(" ");
            }
            out.append(self.rank.to_string());
            out.append("|");
            proof {
                reveal_strlit(" ");
            }
            assert(out@ =~= self.line_text(line));
            out
        } else {
            String::from_str("+-----+")
        }
    }

    pub fn to_string(&self) -> (r: String)
        ensures
            r@ == self.picture(),
    {
        let mut out = String::new();
        let mut i: u8 = 0;
        while i < 4
            invariant
                i <= 4,
                out@ == self.picture_prefix(i as int),
            decreases 4 - i,
        {
            let line = self.to_single_string(i);
            out.append(line.as_str());
            out.append("\n");
            i = i + 1;
        }
        let last = self.to_single_string(4);
        out.append(last.as_str());
        proof {
            reveal_with_fuel(Card::picture_prefix, 5);
        }
        assert(out@ =~= self.picture());
        out
    }

    /// The first `n` lines of the picture, each followed by a line break.
    pub open spec fn picture_prefix(self, n: int) -> Seq<char>
        decreases n,
    {
        if n <= 0 {
            Seq::empty()
        } else {
            self.picture_prefix(n - 1) + self.line_text((n - 1) as u8) + "\n"@
        }
    }

    /// The four cards of a rank, in the suit order Clubs, Diamonds, Hearts,
    /// Spades.
    pub open spec fn all_with_rank(rank: Rank) -> Seq<Card> {
        seq![
            Card { suit: Suit::Clubs, rank },
            Card { suit: Suit::Diamonds, rank },
            Card { suit: Suit::Hearts, rank },
            Card { suit: Suit::Spades, rank },
        ]
    }

    pub fn get_all_with_rank(rank: Rank) -> (r: [Card; 4])
        ensures
            r@ == Card::all_with_rank(rank),
    {
        let r = [
            Card { suit: Suit::Clubs, rank: rank },
            Card { suit: Suit::Diamonds, rank: rank },
            Card { suit: Suit::Hearts, rank: rank },
            Card { suit: Suit::Spades, rank: rank },
        ];
        assert(r@ =~= Card::all_with_rank(rank));
        r
    }
}

/// Every rank has exactly four cards, one of each suit, all of that rank.
pub proof fn lemma_all_with_rank(rank: Rank)
    ensures
        Card::all_with_rank(rank).len() == 4,
        forall|i: int| 0 <= i < 4 ==> (#[trigger] Card::all_with_rank(rank)[i]).rank == rank,
        forall|s: Suit| Card::all_with_rank(rank).contains(Card { suit: s, rank }),
        Card::all_with_rank(rank).no_duplicates(),
{
    let cs = Card::all_with_rank(rank);
    assert forall|s: Suit| cs.contains(Card { suit: s, rank }) by {
        match s {
            Suit::Clubs => assert(cs[0] == Card { suit: s, rank }),
            Suit::Diamonds => assert(cs[1] == Card { suit: s, rank }),
            Suit::Hearts => assert(cs[2] == Card { suit: s, rank }),
            Suit::Spades => assert(cs[3] == Card { suit: s, rank }),
        }
    }
}

} // verus!
