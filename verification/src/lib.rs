//! A verified core for a seated multiplayer card-game service: a deck with
//! shuffling and dealing, a five-card hand evaluator with a best-of-seven
//! search, and the per-room state machine that seats players, runs one hand
//! at a time, applies player actions in turn order and settles the pot.

pub mod cards;
pub mod deck;
pub mod errors;
pub mod eval;
pub mod manager;
pub mod rank;
pub mod room;
pub mod service;
pub mod timer;

pub use cards::Card;
pub use cards::Suit;
pub use rank::HandRank;
