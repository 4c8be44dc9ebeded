//! Turn controller of a two-player match-3 game: positions on the board,
//! the gem kinds, the per-participant resource ledgers and the state machine
//! that turns board events and player input into view effects and board
//! commands.

pub mod position;
pub mod gem;
pub mod ledger;
pub mod board;
pub mod controller;
