use bull_poker::card::{Card, Rank, Suit};
use bull_poker::game::{GameError, GameMove, GameState, Player};
use bull_poker::poker::{Hand, HandValue};

fn card(rank: Rank, suit: Suit) -> Card {
    Card { rank: rank, suit: suit }
}

fn player(name: u8, cards: Vec<Card>) -> Player {
    Player { name: name, hand: Hand { cards: cards } }
}

/// Seat 0 holds the Two of Clubs; seat 1 the Three and Four of Clubs; seat 2
/// the Five of Clubs.
fn table(turn: usize, bet: Option<HandValue>) -> GameState {
    GameState {
        players: vec![
            player(0, vec![card(Rank::Two, Suit::Clubs)]),
            player(1, vec![card(Rank::Three, Suit::Clubs), card(Rank::Four, Suit::Clubs)]),
            player(2, vec![card(Rank::Five, Suit::Clubs)]),
        ],
        current_turn: turn,
        current_bet: bet,
    }
}

fn names(g: &GameState) -> Vec<u8> {
    g.players.iter().map(|p| p.name).collect()
}

fn sizes(g: &GameState) -> Vec<usize> {
    g.players.iter().map(|p| p.hand.cards.len()).collect()
}

#[test]
fn init_game_refuses_more_than_a_deck() {
    assert!(GameState::init_game(5, 11).is_none());
    assert!(GameState::init_game(255, 255).is_none());
    assert!(GameState::init_game(53, 1).is_none());
}

#[test]
fn init_game_deals_distinct_hands() {
    let g = GameState::init_game(5, 10).unwrap();
    assert_eq!(g.players.len(), 5);
    assert_eq!(g.current_turn, 0);
    assert!(g.current_bet.is_none());
    assert_eq!(names(&g), vec![0, 1, 2, 3, 4]);
    assert_eq!(sizes(&g), vec![10, 10, 10, 10, 10]);
    let mut all: Vec<Card> = vec![];
    for p in &g.players {
        all.extend(p.hand.cards.iter().copied());
    }
    for i in 0..all.len() {
        for j in 0..all.len() {
            assert!(i == j || all[i] != all[j]);
        }
    }
    let full = GameState::init_game(4, 13).unwrap();
    assert_eq!(sizes(&full), vec![13, 13, 13, 13]);
    let none = GameState::init_game(0, 7).unwrap();
    assert!(none.players.is_empty());
}

#[test]
fn deal_game_takes_runs_from_the_top() {
    let g = GameState::deal_game(Hand::ordered_deck(), 2, 3);
    assert_eq!(names(&g), vec![0, 1]);
    assert_eq!(
        g.players[0].hand.cards,
        vec![card(Rank::Two, Suit::Clubs), card(Rank::Two, Suit::Diamonds), card(Rank::Two, Suit::Hearts)]
    );
    assert_eq!(
        g.players[1].hand.cards,
        vec![card(Rank::Two, Suit::Spades), card(Rank::Three, Suit::Clubs), card(Rank::Three, Suit::Diamonds)]
    );
}

#[test]
fn new_game_move_refused_keeps_state() {
    let before = table(1, None);
    let (after, err) = before.clone().handle_gamemove(GameMove::NewGame(5, 11));
    assert_eq!(err, Some(GameError::InitializationError));
    assert_eq!(names(&after), names(&before));
    assert_eq!(after.current_turn, 1);
    let (fresh, err) = after.handle_gamemove(GameMove::NewGame(3, 4));
    assert_eq!(err, None);
    assert_eq!(sizes(&fresh), vec![4, 4, 4]);
    assert_eq!(fresh.current_turn, 0);
}

#[test]
fn bet_moves_turn_on_by_one() {
    let bet = HandValue::OnePair(Rank::Four);
    let (g, err) = table(0, None).handle_gamemove(GameMove::Bet(bet));
    assert_eq!(err, None);
    assert_eq!(g.current_bet, Some(bet));
    assert_eq!(g.current_turn, 1);
    let (g, _) = g.handle_gamemove(GameMove::Bet(HandValue::HighCard(Rank::Two)));
    assert_eq!(g.current_turn, 2);
    assert_eq!(g.current_bet, Some(HandValue::HighCard(Rank::Two)));
    let (g, _) = g.handle_gamemove(GameMove::Bet(bet));
    assert_eq!(g.current_turn, 0);
    assert_eq!(sizes(&g), vec![1, 2, 1]);
}

#[test]
fn call_without_bet_is_reported() {
    let (g, err) = table(1, None).handle_gamemove(GameMove::Call());
    assert_eq!(err, Some(GameError::NoActiveBet));
    assert_eq!(g.current_turn, 1);
    assert_eq!(names(&g), vec![0, 1, 2]);
    assert_eq!(sizes(&g), vec![1, 2, 1]);
    let mut h = table(2, None);
    assert_eq!(h.handle_call(), Err(GameError::NoActiveBet));
    assert_eq!(h.current_turn, 2);
}

#[test]
fn failed_call_costs_the_caller_a_card() {
    let mut g = table(1, Some(HandValue::Straight(Rank::Six)));
    assert_eq!(g.handle_call(), Ok(true));
    assert_eq!(names(&g), vec![1, 2]);
    let mut g = table(1, Some(HandValue::HighCard(Rank::Two)));
    assert_eq!(g.handle_call(), Ok(false));
    assert_eq!(g.current_turn, 1);
    assert_eq!(sizes(&g), vec![1, 1, 1]);
    assert_eq!(g.players[1].hand.cards, vec![card(Rank::Three, Suit::Clubs)]);
}

#[test]
fn failed_call_with_last_card_eliminates_the_caller() {
    let (g, err) = table(0, Some(HandValue::HighCard(Rank::Two))).handle_gamemove(GameMove::Call());
    assert_eq!(err, None);
    assert_eq!(names(&g), vec![1, 2]);
    assert_eq!(g.current_turn, 1);
    assert!(g.current_bet.is_none());
    let mut g = table(2, Some(HandValue::HighCard(Rank::Five)));
    assert_eq!(g.handle_call(), Ok(false));
    assert_eq!(names(&g), vec![0, 1]);
    assert_eq!(g.current_turn, 1);
}

#[test]
fn caught_bluff_eliminates_the_bettor() {
    let mut g = table(1, Some(HandValue::HighCard(Rank::Ace)));
    assert_eq!(g.handle_call(), Ok(true));
    assert_eq!(names(&g), vec![1, 2]);
    assert_eq!(g.current_turn, 0);
    assert!(g.current_bet.is_none());
    let mut g = table(0, Some(HandValue::OnePair(Rank::Two)));
    assert_eq!(g.handle_call(), Ok(true));
    assert_eq!(names(&g), vec![0, 1]);
    assert_eq!(g.current_turn, 0);
}

#[test]
fn caught_bluff_costs_the_bettor_a_card() {
    let mut g = table(2, Some(HandValue::FourOfAKind(Rank::Two)));
    assert_eq!(g.handle_call(), Ok(true));
    assert_eq!(sizes(&g), vec![1, 1, 1]);
    assert_eq!(g.current_turn, 1);
}

#[test]
fn last_player_eliminated_leaves_empty_table() {
    let mut g = GameState {
        players: vec![player(0, vec![card(Rank::Two, Suit::Clubs)])],
        current_turn: 0,
        current_bet: Some(HandValue::HighCard(Rank::Two)),
    };
    assert_eq!(g.handle_call(), Ok(false));
    assert!(g.players.is_empty());
    assert_eq!(g.current_turn, 0);
}

#[test]
fn redeal_keeps_names_and_sizes() {
    let mut g = table(1, Some(HandValue::HighCard(Rank::Two)));
    g.redeal();
    assert_eq!(names(&g), vec![0, 1, 2]);
    assert_eq!(sizes(&g), vec![1, 2, 1]);
    assert_eq!(g.current_turn, 1);
    assert_eq!(g.current_bet, Some(HandValue::HighCard(Rank::Two)));
}
