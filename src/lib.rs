//! Matchmaking, payoff and ledger state machine for a two-party wagering game
//! modelled on the iterated prisoner's dilemma.

pub mod draw;
pub mod game;
pub mod ledger;
pub mod matches;
pub mod text;

pub use game::{GameError, PlayOutcome, PrisonerDilemma, Settlement, TransferRequest};
pub use matches::{Match, Player, Vote};
