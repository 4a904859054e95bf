//! The game state machine: players, whose turn it is, and the outstanding
//! bet, moved on by new-game, bet and call moves.
use crate::card::Card;
use crate::poker::{is_full_deck, satisfies, Hand, HandValue};
use vstd::arithmetic::div_mod::{lemma_mod_self_0, lemma_small_mod};
use vstd::prelude::*;

verus! {

/// A seat at the table: a name that stays fixed and the cards held.
#[derive(Clone, Debug)]
pub struct Player {
    pub name: u8,
    pub hand: Hand,
}

/// The players still in the game, whose turn it is, and the outstanding bet.
#[derive(Clone, Debug)]
pub struct GameState {
    pub players: Vec<Player>,
    pub current_turn: usize,
    pub current_bet: Option<HandValue>,
}

/// A move: start a game with a number of players and a hand size, bet a
/// hand value, or call the outstanding bet.
pub enum GameMove {
    NewGame(u8, u8),
    Bet(HandValue),
    Call(),
}

/// Why a move left the game as it was.
#[derive(Clone, Copy, Debug, PartialEq, Eq, Structural)]
pub enum GameError {
    /// The hands asked for need more than the 52 cards of a deck.
    InitializationError,
    /// A call was made with no bet outstanding.
    NoActiveBet,
}

/// All cards held by the players, hand after hand.
pub open spec fn pool_of(players: Seq<Player>) -> Seq<Card>
    decreases players.len(),
{
    if players.len() == 0 {
        Seq::empty()
    } else {
        pool_of(players.drop_last()) + players.last().hand@
    }
}

/// Player `i` is named `i` and holds the cards `[i * size, (i + 1) * size)`
/// of `deck`.
pub open spec fn dealt_from(players: Seq<Player>, deck: Seq<Card>, size: int) -> bool {
    forall|i: int|
        0 <= i < players.len() ==> {
            &&& (#[trigger] players[i]).name == i
            &&& players[i].hand@ == deck.subrange(i * size, i * size + size)
            &&& players[i].hand@.len() == size
        }
}

/// `after` is `before` with player `i` holding one card less: the last one.
pub open spec fn lost_card(before: Seq<Player>, after: Seq<Player>, i: int) -> bool {
    &&& after.len() == before.len()
    &&& forall|j: int| 0 <= j < before.len() && j != i ==> after[j] == before[j]
    &&& after[i].name == before[i].name
    &&& after[i].hand@ == before[i].hand@.drop_last()
}

impl GameState {
    /// The turn points at a player, or is 0 when none is left.
    pub open spec fn wf(&self) -> bool {
        ||| self.current_turn < self.players.len()
        ||| (self.players.len() == 0 && self.current_turn == 0)
    }

    /// The cards of all players.
    pub open spec fn pool(&self) -> Seq<Card> {
        pool_of(self.players@)
    }

    /// The seat after the current one, going round.
    pub open spec fn next_seat(&self) -> int {
        if self.current_turn + 1 >= self.players.len() {
            0
        } else {
            self.current_turn + 1
        }
    }

    /// The seat before the current one, going round: the player who bet.
    pub open spec fn previous_seat(&self) -> int {
        if self.current_turn == 0 {
            self.players.len() - 1
        } else {
            self.current_turn - 1
        }
    }

    /// Who loses a call: the caller when the bet held, else the bettor.
    pub open spec fn loser(&self, held: bool) -> int {
        if held {
            self.current_turn as int
        } else {
            self.previous_seat()
        }
    }

    /// The loser of the call has at most one card and leaves the game.
    pub open spec fn eliminates(&self, held: bool) -> bool {
        self.players@[self.loser(held)].hand@.len() <= 1
    }

    /// The turn once a call is resolved. When the loser leaves, the turn
    /// steps back one seat; from seat 0 it goes to the last seat left if the
    /// caller left, and stays if the bettor did. When the loser only drops a
    /// card, the caller keeps the turn if the bet held, else the bettor
    /// takes it.
    pub open spec fn turn_after_call(&self, held: bool) -> int {
        let t = self.current_turn as int;
        let n = self.players.len() as int;
        if self.eliminates(held) {
            if t > 0 {
                t - 1
            } else if held && n >= 2 {
                n - 2
            } else {
                0
            }
        } else if held {
            t
        } else {
            self.previous_seat()
        }
    }

    /// `after` is `before` once a call on the outstanding bet was resolved, the bet
    /// having held (`held`) or not: the loser drops a card, or leaves the
    /// game when it held at most one, the turn moves, and no bet remains.
    pub open spec fn call_resolved(before: GameState, after: GameState, held: bool) -> bool {
        let l = before.loser(held);
        &&& after.current_bet is None
        &&& after.current_turn == before.turn_after_call(held)
        &&& if before.eliminates(held) {
            after.players@ == before.players@.remove(l)
        } else {
            lost_card(before.players@, after.players@, l)
        }
    }

    /// A game just dealt: `num_players` players named in order, each with
    /// `hand_size` cards, the first to act at seat 0 and no bet.
    pub open spec fn fresh(&self, num_players: int, hand_size: int) -> bool {
        &&& self.players.len() == num_players
        &&& self.current_turn == 0
        &&& self.current_bet is None
        &&& exists|d: Seq<Card>| is_full_deck(d) && dealt_from(self.players@, d, hand_size)
    }

    /// Deals a game from `deck`: player `i` takes the `i`-th run of
    /// `hand_size` cards from the top.
    pub fn deal_game(deck: Hand, num_players: u8, hand_size: u8) -> (r: GameState)
        requires
            num_players * hand_size <= deck@.len(),
        ensures
            r.players.len() == num_players,
            dealt_from(r.players@, deck@, hand_size as int),
            r.current_turn == 0,
            r.current_bet is None,
            r.wf(),
    {
        let ghost full = deck@;
        let hs = hand_size as usize;
        let mut deck = deck;
        let mut players: Vec<Player> = Vec::new();
        let mut i: u8 = 0;
        while i < num_players
            invariant
                i <= num_players,
                hs == hand_size,
                num_players * hand_size <= full.len(),
                players@.len() == i,
                deck@ == full.subrange(i * hs, full.len() as int),
                dealt_from(players@, full, hs as int),
            decreases num_players - i,
        {
            proof {
                assert((i + 1) * hs == i * hs + hs) by (nonlinear_arith);
                assert((i + 1) * hs <= num_players * hs) by (nonlinear_arith)
                    requires
                        i < num_players,
                ;
            }
            let hand = Hand::hand_from(&mut deck, hs);
            players.push(Player { name: i, hand: hand });
            proof {
                assert(hand@ =~= full.subrange(i * hs, i * hs + hs));
                assert(deck@ =~= full.subrange((i + 1) * hs, full.len() as int));
                assert forall|j: int| 0 <= j < players@.len() implies {
                    &&& (#[trigger] players@[j]).name == j
                    &&& players@[j].hand@ == full.subrange(j * hs, j * hs + hs)
                    &&& players@[j].hand@.len() == hs
                } by {}
            }
            i = i + 1;
        }
        GameState { players: players, current_turn: 0, current_bet: None }
    }

    /// Deals every player a new hand of the same size from a freshly shuffled
    /// deck, hand after hand from the top.
    pub fn redeal(&mut self)
        requires
            old(self).pool().len() <= 52,
        ensures
            final(self).players.len() == old(self).players.len(),
            forall|i: int|
                0 <= i < old(self).players.len() ==> {
                    &&& (#[trigger] final(self).players@[i]).name == old(self).players@[i].name
                    &&& final(self).players@[i].hand@.len() == old(self).players@[i].hand@.len()
                },
            exists|d: Seq<Card>|
                is_full_deck(d) && final(self).pool() == d.subrange(0, old(self).pool().len() as int),
            final(self).current_turn == old(self).current_turn,
            final(self).current_bet == old(self).current_bet,
    {
        let mut deck = Hand::get_full_deck();
        let ghost d = deck@;
        let ghost ps = self.players@;
        let mut dealt: Vec<Player> = Vec::new();
        let mut i: usize = 0;
        while i < self.players.len()
            invariant
                self.players@ == ps,
                pool_of(ps).len() <= 52,
                is_full_deck(d),
                i <= ps.len(),
                dealt@.len() == i,
                forall|j: int|
                    0 <= j < i ==> {
                        &&& (#[trigger] dealt@[j]).name == ps[j].name
                        &&& dealt@[j].hand@.len() == ps[j].hand@.len()
                    },
                pool_of(dealt@) == d.subrange(0, pool_of(ps.subrange(0, i as int)).len() as int),
                deck@ == d.subrange(pool_of(ps.subrange(0, i as int)).len() as int, 52),
            decreases ps.len() - i,
        {
            let ghost taken = pool_of(ps.subrange(0, i as int)).len() as int;
            proof {
                assert(ps.subrange(0, i + 1).drop_last() =~= ps.subrange(0, i as int));
                lemma_pool_prefix_len(ps, i + 1);
            }
            let size = self.players[i].hand.cards.len();
            let hand = Hand::hand_from(&mut deck, size);
            let ghost before = dealt@;
            dealt.push(Player { name: self.players[i].name, hand: hand });
            proof {
                assert(dealt@.drop_last() =~= before);
                assert(hand@ =~= d.subrange(taken, taken + size));
                assert(pool_of(dealt@) =~= d.subrange(0, taken + size));
                assert(deck@ =~= d.subrange(taken + size, 52));
            }
            i = i + 1;
        }
        assert(ps.subrange(0, ps.len() as int) =~= ps);
        self.players = dealt;
    }

    /// Starts a game: deals `init_handsize` cards from a freshly shuffled deck
    /// to each of `num_players` players, or gives `None` when that needs more
    /// than 52 cards.
    pub fn init_game(num_players: u8, init_handsize: u8) -> (r: Option<GameState>)
        ensures
            r is None <==> num_players * init_handsize > 52,
            r matches Some(g) ==> g.fresh(num_players as int, init_handsize as int) && g.wf(),
    {
        assert((num_players as usize) * (init_handsize as usize) <= 255 * 255) by (nonlinear_arith)
            requires
                num_players <= 255,
                init_handsize <= 255,
        ;
        if (num_players as usize) * (init_handsize as usize) > 52 {
            return None;
        }
        let deck = Hand::get_full_deck();
        let ghost d = deck@;
        let g = GameState::deal_game(deck, num_players, init_handsize);
        assert(is_full_deck(d) && dealt_from(g.players@, d, init_handsize as int));
        Some(g)
    }

    /// Records `new_bet` as the outstanding bet and passes the turn on.
    fn turn_after(&mut self, new_bet: HandValue)
        requires
            old(self).wf(),
        ensures
            final(self).current_bet == Some(new_bet),
            final(self).current_turn == old(self).next_seat(),
            final(self).players == old(self).players,
            final(self).wf(),
    {
        self.current_bet = Some(new_bet);
        if self.current_turn + 1 >= self.players.len() {
            self.current_turn = 0;
        } else {
            self.current_turn = self.current_turn + 1;
        }
    }

    /// Takes the last card from the hand of the player at seat `index`.
    fn remove_card_from(&mut self, index: usize)
        requires
            index < old(self).players.len(),
            old(self).players@[index as int].hand@.len() > 0,
        ensures
            lost_card(old(self).players@, final(self).players@, index as int),
            final(self).current_turn == old(self).current_turn,
            final(self).current_bet == old(self).current_bet,
    {
        let mut player = self.players.remove(index);
        let _ = player.hand.cards.pop();
        self.players.insert(index, player);
    }

    /// All cards held by the players, hand after hand.
    fn pooled_cards(&self) -> (r: Hand)
        ensures
            r@ == self.pool(),
    {
        let mut all = Hand::empty_hand();
        let mut i: usize = 0;
        while i < self.players.len()
            invariant
                i <= self.players@.len(),
                all@ == pool_of(self.players@.subrange(0, i as int)),
            decreases self.players@.len() - i,
        {
            let ghost start = all@;
            let hand = &self.players[i].hand;
            let mut j: usize = 0;
            while j < hand.cards.len()
                invariant
                    j <= hand@.len(),
                    all@ == start + hand@.subrange(0, j as int),
                decreases hand@.len() - j,
            {
                all.cards.push(hand.cards[j]);
                assert(all@ =~= start + hand@.subrange(0, j + 1));
                j = j + 1;
            }
            proof {
                let after = self.players@.subrange(0, i + 1);
                assert(after.drop_last() =~= self.players@.subrange(0, i as int));
                assert(hand@.subrange(0, hand@.len() as int) =~= hand@);
            }
            i = i + 1;
        }
        assert(self.players@.subrange(0, self.players@.len() as int) =~= self.players@);
        all
    }

    /// Resolves a call on the outstanding bet against the cards of all
    /// players. Gives whether the caller caught a bluff, or `NoActiveBet`,
    /// with the game left as it was, when no bet is outstanding.
    pub fn handle_call(&mut self) -> (r: Result<bool, GameError>)
        requires
            old(self).wf(),
            old(self).current_bet is Some ==> old(self).players.len() > 0,
        ensures
            final(self).wf(),
            old(self).current_bet is None ==> r == Err::<bool, GameError>(GameError::NoActiveBet)
                && *final(self) == *old(self),
            old(self).current_bet matches Some(bet) ==> {
                let held = satisfies(old(self).pool(), bet);
                &&& r == Ok::<bool, GameError>(!held)
                &&& GameState::call_resolved(*old(self), *final(self), held)
            },
    {
        let bet = match self.current_bet {
            Some(b) => b,
            None => {
                return Err(GameError::NoActiveBet);
            },
        };
        let all = self.pooled_cards();
        let held = all.contains_handvalue(&bet);
        let n = self.players.len();
        let turn = self.current_turn;
        let loser = if held {
            turn
        } else if turn == 0 {
            n - 1
        } else {
            turn - 1
        };
        if self.players[loser].hand.cards.len() <= 1 {
            self.players.remove(loser);
            if turn > 0 {
                self.current_turn = turn - 1;
            } else if held && n >= 2 {
                self.current_turn = n - 2;
            } else {
                self.current_turn = 0;
            }
        } else {
            self.remove_card_from(loser);
            self.current_turn = loser;
        }
        self.current_bet = None;
        Ok(!held)
    }

    /// Applies a move. Gives the next state, and the error when the move
    /// was refused, in which case the state is the one given.
    pub fn handle_gamemove(self, gm: GameMove) -> (r: (GameState, Option<GameError>))
        requires
            self.wf(),
            gm is Call && self.current_bet is Some ==> self.players.len() > 0,
        ensures
            r.0.wf(),
            gm matches GameMove::NewGame(num_players, hand_size) ==> if num_players * hand_size
                > 52 {
                r.0 == self && r.1 == Some(GameError::InitializationError)
            } else {
                r.0.fresh(num_players as int, hand_size as int) && r.1 is None
            },
            gm matches GameMove::Bet(hv) ==> {
                &&& r.0.current_bet == Some(hv)
                &&& r.0.current_turn == self.next_seat()
                &&& self.players.len() > 0 ==> r.0.current_turn == (self.current_turn + 1) % (
                self.players.len() as int)
                &&& r.0.players == self.players
                &&& r.1 is None
            },
            gm is Call && self.current_bet is None ==> r.0 == self && r.1 == Some(
                GameError::NoActiveBet,
            ),
            gm is Call && self.current_bet is Some ==> GameState::call_resolved(
                self,
                r.0,
                satisfies(self.pool(), self.current_bet->0),
            ) && r.1 is None,
    {
        match gm {
            GameMove::NewGame(num_players, hand_size) => {
                match GameState::init_game(num_players, hand_size) {
                    Some(g) => (g, None),
                    None => (self, Some(GameError::InitializationError)),
                }
            },
            GameMove::Bet(hv) => {
                let ghost t = self.current_turn as int;
                let ghost n = self.players.len() as int;
                let mut s = self;
                s.turn_after(hv);
                proof {
                    if n > 0 {
                        if t + 1 >= n {
                            lemma_mod_self_0(n);
                        } else {
                            lemma_small_mod((t + 1) as nat, n as nat);
                        }
                    }
                }
                (s, None)
            },
            GameMove::Call() => {
                let mut s = self;
                match s.handle_call() {
                    Ok(_) => (s, None),
                    Err(e) => (s, Some(e)),
                }
            },
        }
    }
}

/// The cards of the first `i` players are no more than those of all.
proof fn lemma_pool_prefix_len(ps: Seq<Player>, i: int)
    requires
        0 <= i <= ps.len(),
    ensures
        pool_of(ps.subrange(0, i)).len() <= pool_of(ps).len(),
    decreases ps.len(),
{
    if i == ps.len() {
        assert(ps.subrange(0, i) =~= ps);
    } else {
        let rest = ps.drop_last();
        assert(rest.subrange(0, i) =~= ps.subrange(0, i));
        lemma_pool_prefix_len(rest, i);
    }
}

/// A call whose loser held at most one card takes exactly that seat out of
/// the game: one player fewer, the others kept in their order.
pub proof fn lemma_call_eliminates(before: GameState, after: GameState, held: bool)
    requires
        before.wf(),
        before.players.len() > 0,
        GameState::call_resolved(before, after, held),
        before.eliminates(held),
    ensures
        after.players.len() == before.players.len() - 1,
        forall|j: int| 0 <= j < before.loser(held) ==> after.players@[j] == before.players@[j],
        forall|j: int|
            before.loser(held) < j < before.players.len() ==> after.players@[j - 1] == before.players@[j],
        after.wf(),
{
}

} // verus!
