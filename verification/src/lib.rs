//! Core of a terminal word-forming game: a letter bank drawn from a fixed
//! weighted pool, appraisal of candidate words against the bank and a
//! dictionary, scoring, replenishment, and the command bridge that lets
//! remote viewers swap single letters in the live bank.

pub mod appraise;
pub mod channel;
pub mod dict;
pub mod game;
pub mod letters;
pub mod rng;
pub mod service;

pub use appraise::WordQuality;
pub use channel::{Command, CommandQueue};
pub use game::GameState;
pub use letters::Letter;
pub use service::RequestDecision;
