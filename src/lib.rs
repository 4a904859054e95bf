//! Rules engine for Bull Poker: a card model, an evaluator that decides whether
//! a declared poker hand can be found in a pool of cards, and the turn and
//! elimination state machine driven by bets and calls.

pub mod card;
pub mod poker;
pub mod game;
pub mod command;
