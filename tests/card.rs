use bull_poker::card::{Card, Rank, Suit};

const RANKS: [Rank; 13] = [
    Rank::Two,
    Rank::Three,
    Rank::Four,
    Rank::Five,
    Rank::Six,
    Rank::Seven,
    Rank::Eight,
    Rank::Nine,
    Rank::Ten,
    Rank::Jack,
    Rank::Queen,
    Rank::King,
    Rank::Ace,
];

#[test]
fn rank_codes_round_trip() {
    for (i, r) in RANKS.iter().enumerate() {
        assert_eq!(r.to_u8(), i as u8 + 2);
        assert_eq!(Rank::from_u8(r.to_u8()), Some(*r));
    }
    for n in 2..15u8 {
        assert_eq!(Rank::from_u8(n).unwrap().to_u8(), n);
    }
    assert_eq!(Rank::from_u8(0), None);
    assert_eq!(Rank::from_u8(1), None);
    assert_eq!(Rank::from_u8(15), None);
    assert_eq!(Rank::from_u8(255), None);
}

#[test]
fn rank_tokens_read_back() {
    for r in RANKS.iter() {
        assert_eq!(Rank::from_str(r.to_string()), Some(*r));
    }
    assert_eq!(Rank::Ten.to_string(), "10");
    assert_eq!(Rank::Queen.to_string(), "Q");
    assert_eq!(Rank::from_str("10"), Some(Rank::Ten));
    assert_eq!(Rank::from_str("A"), Some(Rank::Ace));
    assert_eq!(Rank::from_str("1"), None);
    assert_eq!(Rank::from_str("11"), None);
    assert_eq!(Rank::from_str("a"), None);
    assert_eq!(Rank::from_str(""), None);
    assert_eq!(Rank::from_str("10 "), None);
}

#[test]
fn suit_glyphs() {
    assert_eq!(Suit::Clubs.to_string(), "♣");
    assert_eq!(Suit::Diamonds.to_string(), "♦");
    assert_eq!(Suit::Hearts.to_string(), "♥");
    assert_eq!(Suit::Spades.to_string(), "♠");
}

#[test]
fn all_with_rank_gives_one_card_per_suit() {
    for r in RANKS.iter() {
        let cards = Card::get_all_with_rank(*r);
        assert_eq!(cards.len(), 4);
        assert_eq!(cards[0], Card { suit: Suit::Clubs, rank: *r });
        assert_eq!(cards[1], Card { suit: Suit::Diamonds, rank: *r });
        assert_eq!(cards[2], Card { suit: Suit::Hearts, rank: *r });
        assert_eq!(cards[3], Card { suit: Suit::Spades, rank: *r });
    }
}

#[test]
fn card_lines() {
    let ace = Card { suit: Suit::Spades, rank: Rank::Ace };
    let ten = Card { suit: Suit::Hearts, rank: Rank::Ten };
    assert_eq!(ace.to_single_string(0), "+-----+");
    assert_eq!(ace.to_single_string(1), "|A ♠  |");
    assert_eq!(ace.to_single_string(2), "|  ♠  |");
    assert_eq!(ace.to_single_string(3), "|  ♠ A|");
    assert_eq!(ace.to_single_string(4), "+-----+");
    assert_eq!(ace.to_single_string(200), "+-----+");
    assert_eq!(ten.to_single_string(1), "|10♥  |");
    assert_eq!(ten.to_single_string(3), "|  ♥10|");
}

#[test]
fn card_picture() {
    let ace = Card { suit: Suit::Spades, rank: Rank::Ace };
    assert_eq!(
        ace.to_string(),
        "+-----+\n|A ♠  |\n|  ♠  |\n|  ♠ A|\n+-----+"
    );
}

#[test]
fn cards_order_by_rank_alone() {
    let ace_clubs = Card { suit: Suit::Clubs, rank: Rank::Ace };
    let ace_spades = Card { suit: Suit::Spades, rank: Rank::Ace };
    let king_spades = Card { suit: Suit::Spades, rank: Rank::King };
    assert!(ace_clubs > king_spades);
    assert!(king_spades < ace_spades);
    assert_eq!(ace_clubs.partial_cmp(&ace_spades), Some(std::cmp::Ordering::Equal));
    assert!(ace_clubs != ace_spades);
    assert!(Rank::Two < Rank::Three && Rank::King < Rank::Ace);
}
