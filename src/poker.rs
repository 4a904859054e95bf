//! Hands, declared hand values, and the evaluator that decides whether a
//! declared hand value can be found in a pool of cards.
use crate::card::{lemma_all_with_rank, lemma_code_round_trip, Card, Rank, Suit};
use vstd::prelude::*;

verus! {

/// The top card's rank of a declared flush; the suit is found in the pool.
#[derive(Clone, Copy, Debug, PartialEq, Eq, Structural, PartialOrd, Ord)]
pub struct BPFlush {
    pub rank: Rank,
}

/// The top card's rank of a declared straight flush; the suit is found in the
/// pool.
#[derive(Clone, Copy, Debug, PartialEq, Eq, Structural, PartialOrd, Ord)]
pub struct BPStraightFlush {
    pub rank: Rank,
}

/// A declared hand value: a claim that the pool holds such a hand.
#[derive(Clone, Copy, Debug, PartialEq, Eq, Structural, PartialOrd, Ord)]
pub enum HandValue {
    HighCard(Rank),
    OnePair(Rank),
    TwoPair(Rank, Rank),
    ThreeOfAKind(Rank),
    Straight(Rank),
    Flush(BPFlush),
    FullHouse(Rank, Rank),
    FourOfAKind(Rank),
    StraightFlush(BPStraightFlush),
}

/// An unordered collection of cards: one player's hand, a deck, or a pool.
#[derive(Clone, Debug)]
pub struct Hand {
    pub cards: Vec<Card>,
}

impl View for Hand {
    type V = Seq<Card>;

    open spec fn view(&self) -> Seq<Card> {
        self.cards@
    }
}

/// 1 when the card is in the pool, else 0.
pub open spec fn present(pool: Seq<Card>, c: Card) -> int {
    if pool.contains(c) {
        1
    } else {
        0
    }
}

/// How many of the four cards of `r` are in the pool.
pub open spec fn rank_count(pool: Seq<Card>, r: Rank) -> int {
    present(pool, Card { suit: Suit::Clubs, rank: r }) + present(
        pool,
        Card { suit: Suit::Diamonds, rank: r },
    ) + present(pool, Card { suit: Suit::Hearts, rank: r }) + present(
        pool,
        Card { suit: Suit::Spades, rank: r },
    )
}

/// Some card whose rank has face value `k` is in the pool.
pub open spec fn code_present(pool: Seq<Card>, k: int) -> bool {
    match Rank::from_code(k) {
        Some(r) => rank_count(pool, r) >= 1,
        None => false,
    }
}

/// The card of suit `s` whose rank has face value `k` is in the pool.
pub open spec fn suited_present(pool: Seq<Card>, k: int, s: Suit) -> bool {
    match Rank::from_code(k) {
        Some(r) => pool.contains(Card { suit: s, rank: r }),
        None => false,
    }
}

/// How many face values in `[lo, hi)` have their card of suit `s` in the pool.
pub open spec fn suited_count(pool: Seq<Card>, s: Suit, lo: int, hi: int) -> int
    decreases hi - lo,
{
    if hi <= lo {
        0
    } else {
        suited_count(pool, s, lo, hi - 1) + if suited_present(pool, hi - 1, s) {
            1int
        } else {
            0int
        }
    }
}

/// The cards of the pool of rank `r`, in pool order.
pub open spec fn with_rank(pool: Seq<Card>, r: Rank) -> Seq<Card> {
    pool.filter(|c: Card| c.rank == r)
}

/// The cards of the pool of suit `s`, in pool order.
pub open spec fn with_suit(pool: Seq<Card>, s: Suit) -> Seq<Card> {
    pool.filter(|c: Card| c.suit == s)
}

/// The suit of the first card of rank `r` in the pool.
pub open spec fn lead_suit(pool: Seq<Card>, r: Rank) -> Suit {
    with_rank(pool, r)[0].suit
}

/// Five consecutive ranks ending at `top` each have a card in the pool.
pub open spec fn is_straight(pool: Seq<Card>, top: Rank) -> bool {
    &&& top.code() >= 6
    &&& forall|k: int| top.code() - 4 <= k <= top.code() ==> code_present(pool, k)
}

/// A card of rank `top` is in the pool and, in the suit of the first such
/// card, it and the cards below it reach five.
pub open spec fn is_flush(pool: Seq<Card>, top: Rank) -> bool {
    &&& with_rank(pool, top).len() > 0
    &&& 1 + suited_count(pool, lead_suit(pool, top), 2, top.code()) >= 5
}

/// A card of rank `top` is in the pool and, in the suit of the first such
/// card, so are the four ranks below it.
pub open spec fn is_straight_flush(pool: Seq<Card>, top: Rank) -> bool {
    &&& top.code() >= 6
    &&& with_rank(pool, top).len() > 0
    &&& forall|k: int|
        top.code() - 4 <= k < top.code() ==> suited_present(pool, k, lead_suit(pool, top))
}

/// Whether the pool holds the declared hand value.
pub open spec fn satisfies(pool: Seq<Card>, value: HandValue) -> bool {
    match value {
        HandValue::HighCard(r) => rank_count(pool, r) >= 1,
        HandValue::OnePair(r) => rank_count(pool, r) >= 2,
        HandValue::TwoPair(hi, lo) => rank_count(pool, hi) >= 2 && rank_count(pool, lo) >= 2,
        HandValue::ThreeOfAKind(r) => rank_count(pool, r) >= 3,
        HandValue::Straight(top) => is_straight(pool, top),
        HandValue::Flush(f) => is_flush(pool, f.rank),
        HandValue::FullHouse(three, two) => rank_count(pool, three) >= 3 && rank_count(pool, two)
            >= 2,
        HandValue::FourOfAKind(r) => rank_count(pool, r) == 4,
        HandValue::StraightFlush(f) => is_straight_flush(pool, f.rank),
    }
}

/// One line of the side-by-side picture of `cards`: line `line` of each
/// card's picture, each followed by a space.
pub open spec fn row(cards: Seq<Card>, line: u8) -> Seq<char>
    decreases cards.len(),
{
    if cards.len() == 0 {
        Seq::empty()
    } else {
        row(cards.drop_last(), line) + cards.last().line_text(line) + " "@
    }
}

/// The first `n` lines of the side-by-side picture of `cards`, each followed
/// by a line break.
pub open spec fn rows(cards: Seq<Card>, n: int) -> Seq<char>
    decreases n,
{
    if n <= 0 {
        Seq::empty()
    } else {
        rows(cards, n - 1) + row(cards, (n - 1) as u8) + "\n"@
    }
}

/// A straight or straight flush declared with a top card below Six is held
/// by no pool.
pub proof fn lemma_low_straight_never_held(pool: Seq<Card>, top: Rank)
    requires
        top.code() < 6,
    ensures
        !satisfies(pool, HandValue::Straight(top)),
        !satisfies(pool, HandValue::StraightFlush(BPStraightFlush { rank: top })),
{
}

/// A standard deck in some order: 52 cards, no two alike, every card there.
pub open spec fn is_full_deck(d: Seq<Card>) -> bool {
    &&& d.len() == 52
    &&& d.no_duplicates()
    &&& forall|c: Card| d.contains(c)
}

/// Relies on rand's `SliceRandom::shuffle` (with `thread_rng`): it reorders
/// the slice in place by swaps, so the same cards come back, in some order.
#[verifier::external_body]
fn shuffle_cards(cards: &mut Vec<Card>)
    ensures
        final(cards)@.to_multiset() == old(cards)@.to_multiset(),
{
    rand::seq::SliceRandom::shuffle(cards.as_mut_slice(), &mut rand::thread_rng());
}

/// A reordering keeps a sequence a full deck.
proof fn lemma_permuted_full_deck(d: Seq<Card>, e: Seq<Card>)
    requires
        is_full_deck(d),
        e.to_multiset() == d.to_multiset(),
    ensures
        is_full_deck(e),
{
    d.to_multiset_ensures();
    e.to_multiset_ensures();
    d.lemma_multiset_has_no_duplicates();
    e.lemma_multiset_has_no_duplicates_conv();
    assert forall|c: Card| e.contains(c) by {
        assert(d.contains(c));
        assert(d.to_multiset().count(c) > 0);
        assert(e.to_multiset().count(c) > 0);
    }
}

impl Hand {
    pub fn empty_hand() -> (r: Hand)
        ensures
            r@ == Seq::<Card>::empty(),
    {
        Hand { cards: Vec::new() }
    }

    /// Puts all of `new_cards` after the cards already held.
    pub fn add_cards(&mut self, new_cards: Hand)
        ensures
            final(self)@ == old(self)@ + new_cards@,
    {
        let mut new_cards = new_cards;
        self.cards.append(&mut new_cards.cards);
    }

    /// The 52 cards in order of rank, from Two to Ace, and within a rank in
    /// the suit order Clubs, Diamonds, Hearts, Spades.
    pub fn ordered_deck() -> (r: Hand)
        ensures
            is_full_deck(r@),
    {
        let mut cards: Vec<Card> = Vec::new();
        let mut k: u8 = 2;
        while k < 15
            invariant
                2 <= k <= 15,
                cards@.len() == 4 * (k - 2),
                cards@.no_duplicates(),
                forall|j: int| 0 <= j < cards@.len() ==> (#[trigger] cards@[j]).rank.code() < k,
                forall|c: Card| c.rank.code() < k ==> cards@.contains(c),
            decreases 15 - k,
        {
            let rank = Rank::from_u8(k).unwrap();
            let all = Card::get_all_with_rank(rank);
            let ghost before = cards@;
            cards.push(all[0]);
            cards.push(all[1]);
            cards.push(all[2]);
            cards.push(all[3]);
            proof {
                let added = Card::all_with_rank(rank);
                lemma_all_with_rank(rank);
                assert(cards@ =~= before + added);
                assert forall|i: int, j: int|
                    0 <= i < cards@.len() && 0 <= j < cards@.len() && i != j implies cards@[i]
                    != cards@[j] by {
                    if i < before.len() && j >= before.len() {
                        assert(cards@[i].rank.code() < k);
                    } else if j < before.len() && i >= before.len() {
                        assert(cards@[j].rank.code() < k);
                    }
                }
                assert forall|c: Card| c.rank.code() < k + 1 implies cards@.contains(c) by {
                    if c.rank.code() < k {
                        assert(before.contains(c));
                        let idx = choose|idx: int| 0 <= idx < before.len() && before[idx] == c;
                        assert(cards@[idx] == c);
                    } else {
                        lemma_code_round_trip(c.rank, k as int);
                        assert(c.rank == rank);
                        assert(added.contains(c));
                        let idx = choose|idx: int| 0 <= idx < 4 && added[idx] == c;
                        assert(cards@[before.len() + idx] == c);
                    }
                }
            }
            k = k + 1;
        }
        Hand { cards: cards }
    }

    /// A full deck in random order.
    pub fn get_full_deck() -> (r: Hand)
        ensures
            is_full_deck(r@),
    {
        let mut deck = Hand::ordered_deck();
        let ghost before = deck@;
        shuffle_cards(&mut deck.cards);
        proof {
            lemma_permuted_full_deck(before, deck@);
        }
        deck
    }

    /// Draws the first `size` cards of `deck`, which keeps the rest.
    pub fn hand_from(deck: &mut Hand, size: usize) -> (r: Hand)
        requires
            size <= old(deck)@.len(),
        ensures
            r@ == old(deck)@.subrange(0, size as int),
            final(deck)@ == old(deck)@.subrange(size as int, old(deck)@.len() as int),
    {
        let mut drawn = deck.cards.split_off(size);
        core::mem::swap(&mut deck.cards, &mut drawn);
        Hand { cards: drawn }
    }

    /// `size` distinct cards, drawn from the top of a freshly shuffled deck.
    pub fn random_hand(size: usize) -> (r: Hand)
        requires
            size <= 52,
        ensures
            r@.len() == size,
            r@.no_duplicates(),
            exists|d: Seq<Card>| is_full_deck(d) && r@ == d.subrange(0, size as int),
    {
        let mut deck = Hand::get_full_deck();
        let ghost d = deck@;
        let r = Hand::hand_from(&mut deck, size);
        assert forall|i: int, j: int|
            0 <= i < r@.len() && 0 <= j < r@.len() && i != j implies r@[i] != r@[j] by {
            assert(r@[i] == d[i] && r@[j] == d[j]);
        }
        assert(is_full_deck(d) && r@ == d.subrange(0, size as int));
        r
    }

    /// The cards side by side, five lines high, each line ending in a line
    /// break.
    pub fn to_string(&self) -> (r: String)
        ensures
            r@ == rows(self@, 5),
    {
        let mut out = String::new();
        let mut line: u8 = 0;
        while line < 5
            invariant
                line <= 5,
                out@ == rows(self@, line as int),
            decreases 5 - line,
        {
            let ghost start = out@;
            let mut i: usize = 0;
            while i < self.cards.len()
                invariant
                    line < 5,
                    i <= self@.len(),
                    out@ == start + row(self@.subrange(0, i as int), line),
                decreases self@.len() - i,
            {
                let piece = self.cards[i].to_single_string(line);
                let ghost mid = out@;
                out.append(piece.as_str());
                out.append(" ");
                proof {
                    let after = self@.subrange(0, i + 1);
                    assert(after.drop_last() =~= self@.subrange(0, i as int));
                    assert(after.last() == self@[i as int]);
                    assert(out@ =~= start + row(after, line));
                }
                i = i + 1;
            }
            assert(self@.subrange(0, self@.len() as int) =~= self@);
            out.append("\n");
            assert(out@ =~= rows(self@, line + 1));
            line = line + 1;
        }
        out
    }

    /// Whether the card is in the hand.
    pub fn has_card(&self, c: Card) -> (r: bool)
        ensures
            r == self@.contains(c),
    {
        let mut i: usize = 0;
        while i < self.cards.len()
            invariant
                i <= self@.len(),
                forall|j: int| 0 <= j < i ==> self@[j] != c,
            decreases self@.len() - i,
        {
            if self.cards[i] == c {
                return true;
            }
            i = i + 1;
        }
        false
    }

    /// How many of the four cards of `rank` are in the hand.
    fn count_rank(&self, rank: Rank) -> (n: u8)
        ensures
            n as int == rank_count(self@, rank),
    {
        let all = Card::get_all_with_rank(rank);
        let mut n: u8 = 0;
        if self.has_card(all[0]) {
            n = n + 1;
        }
        if self.has_card(all[1]) {
            n = n + 1;
        }
        if self.has_card(all[2]) {
            n = n + 1;
        }
        if self.has_card(all[3]) {
            n = n + 1;
        }
        n
    }

    /// The cards of rank `rank`, in hand order.
    pub fn get_cards_with_rank(&self, rank: Rank) -> (r: Vec<Card>)
        ensures
            r@ == with_rank(self@, rank),
    {
        let mut out: Vec<Card> = Vec::new();
        let mut i: usize = 0;
        while i < self.cards.len()
            invariant
                i <= self@.len(),
                out@ == with_rank(self@.subrange(0, i as int), rank),
            decreases self@.len() - i,
        {
            let ghost before = self@.subrange(0, i as int);
            let ghost after = self@.subrange(0, i + 1);
            assert(after.drop_last() =~= before);
            proof {
                reveal(Seq::filter);
            }
            assert(after.last() == self@[i as int]);
            if self.cards[i].rank == rank {
                out.push(self.cards[i]);
            }
            assert(out@ == with_rank(after, rank));
            i = i + 1;
        }
        assert(self@.subrange(0, self@.len() as int) =~= self@);
        out
    }

    /// The cards of suit `suit`, in hand order.
    pub fn get_cards_with_suit(&self, suit: Suit) -> (r: Vec<Card>)
        ensures
            r@ == with_suit(self@, suit),
    {
        let mut out: Vec<Card> = Vec::new();
        let mut i: usize = 0;
        while i < self.cards.len()
            invariant
                i <= self@.len(),
                out@ == with_suit(self@.subrange(0, i as int), suit),
            decreases self@.len() - i,
        {
            let ghost before = self@.subrange(0, i as int);
            let ghost after = self@.subrange(0, i + 1);
            assert(after.drop_last() =~= before);
            proof {
                reveal(Seq::filter);
            }
            assert(after.last() == self@[i as int]);
            if self.cards[i].suit == suit {
                out.push(self.cards[i]);
            }
            assert(out@ == with_suit(after, suit));
            i = i + 1;
        }
        assert(self@.subrange(0, self@.len() as int) =~= self@);
        out
    }

    /// Whether the five ranks ending at `top` each have a card in the hand.
    fn contains_straight(&self, top: Rank) -> (r: bool)
        ensures
            r == is_straight(self@, top),
    {
        let code = top.to_u8();
        if code < 6 {
            return false;
        }
        let mut k: u8 = code - 4;
        while k <= code
            invariant
                6 <= code <= 14,
                code == top.code(),
                code - 4 <= k <= code + 1,
                forall|j: int| code - 4 <= j < k ==> code_present(self@, j),
            decreases code + 1 - k,
        {
            let rank = Rank::from_u8(k).unwrap();
            if self.count_rank(rank) == 0 {
                assert(!code_present(self@, k as int));
                return false;
            }
            k = k + 1;
        }
        true
    }

    /// Whether the hand holds the flush declared with top rank `top`.
    fn contains_flush(&self, top: Rank) -> (r: bool)
        ensures
            r == is_flush(self@, top),
    {
        let tops = self.get_cards_with_rank(top);
        if tops.len() == 0 {
            return false;
        }
        let suit = tops[0].suit;
        let code = top.to_u8();
        let mut total: u8 = 1;
        let mut k: u8 = 2;
        while k < code
            invariant
                2 <= k <= 14,
                code == top.code(),
                k <= code || code < 2,
                tops@ == with_rank(self@, top),
                tops@.len() > 0,
                suit == lead_suit(self@, top),
                total == 1 + suited_count(self@, suit, 2, k as int),
                total <= k,
            decreases code - k,
        {
            let rank = Rank::from_u8(k).unwrap();
            if self.has_card(Card { suit: suit, rank: rank }) {
                total = total + 1;
            }
            k = k + 1;
        }
        total >= 5
    }

    /// Whether the hand holds the straight flush declared with top rank `top`.
    fn contains_straight_flush(&self, top: Rank) -> (r: bool)
        ensures
            r == is_straight_flush(self@, top),
    {
        let tops = self.get_cards_with_rank(top);
        if tops.len() == 0 {
            return false;
        }
        let code = top.to_u8();
        if code < 6 {
            return false;
        }
        let suit = tops[0].suit;
        let mut k: u8 = code - 4;
        while k < code
            invariant
                6 <= code <= 14,
                code == top.code(),
                code - 4 <= k <= code,
                suit == lead_suit(self@, top),
                forall|j: int| code - 4 <= j < k ==> suited_present(self@, j, suit),
            decreases code - k,
        {
            let rank = Rank::from_u8(k).unwrap();
            if !self.has_card(Card { suit: suit, rank: rank }) {
                assert(!suited_present(self@, k as int, suit));
                return false;
            }
            k = k + 1;
        }
        true
    }

    /// Whether the hand, taken as a pool, holds the declared hand value.
    pub fn contains_handvalue(&self, value: &HandValue) -> (r: bool)
        ensures
            r == satisfies(self@, *value),
    {
        match value {
            HandValue::HighCard(rank) => self.count_rank(*rank) >= 1,
            HandValue::OnePair(rank) => self.count_rank(*rank) >= 2,
            HandValue::TwoPair(hi, lo) => {
                if self.count_rank(*hi) < 2 {
                    return false;
                }
                self.count_rank(*lo) >= 2
            },
            HandValue::ThreeOfAKind(rank) => self.count_rank(*rank) >= 3,
            HandValue::Straight(top) => self.contains_straight(*top),
            HandValue::Flush(f) => self.contains_flush(f.rank),
            HandValue::FullHouse(three, two) => {
                if self.count_rank(*three) < 3 {
                    return false;
                }
                self.count_rank(*two) >= 2
            },
            HandValue::FourOfAKind(rank) => self.count_rank(*rank) == 4,
            HandValue::StraightFlush(f) => self.contains_straight_flush(f.rank),
        }
    }
}

} // verus!
