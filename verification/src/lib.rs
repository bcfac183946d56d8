//! A verified engine for the game of the amazons on a ten-by-ten board:
//! queen-line geometry, move legality, in-place move application and
//! reversal, terminal detection, a mobility heuristic, and a family of
//! move-search strategies, with a driver that plays two strategies against
//! each other. Every public operation carries a contract; every strategy is
//! proved to return only legal moves, and a full game is proved to end.

pub mod ansi;
pub mod board;
pub mod di;
pub mod game;
pub mod heuristic;
pub mod look_ahead;
pub mod minimax;
pub mod player;
pub mod pos;
pub mod random;
pub mod rays;
pub mod rng;
pub mod snail;
pub mod state;
pub mod strategy;
pub mod text;

pub use ansi::BoardStyle;
pub use ansi::Color;
pub use ansi::ColorCode;
pub use ansi::Style;
pub use ansi::StyleElem;
pub use board::Board;
pub use board::Slot;
pub use di::DeepIdiot;
pub use game::Game;
pub use heuristic::Reachability;
pub use heuristic::Value;
pub use heuristic::MAX_VAL;
pub use heuristic::MIN_VAL;
pub use look_ahead::LookAhead;
pub use minimax::Minimax;
pub use player::Player;
pub use pos::Pos;
pub use random::Random;
pub use snail::RandomSnail;
pub use snail::Snail;
pub use state::GameState;
pub use state::Move;
pub use strategy::Strategy;
