//! A verified tic-tac-toe engine with a tabular Q-learning agent.
//!
//! The board engine enforces legal moves and detects wins and draws; the
//! agent encodes board states into integer keys, keeps a table of value
//! estimates in fixed-point arithmetic, and trains by self-play.
pub mod agent;
pub mod board;
pub mod encoding;
pub mod fixed;
mod rng;

pub use agent::BestState;
pub use agent::SmartMorpion;
pub use agent::TableError;
pub use board::Cell;
pub use board::Morpion;
pub use board::Player;
