//! Quantum tic-tac-toe: a move places a mark on two cells at once, and the
//! cells stay entangled until a cycle of such joint marks forces them to
//! collapse to one symbol each.
//!
//! The engine is the [`board`] with its entanglement graph, the [`game`] that
//! sequences marks and collapses on it, and the small types that they share.
//! [`ipc`] holds what a server and its clients tell each other, [`server`]
//! the decisions of a server that runs games, and [`history_service`] the
//! errors of the service that keeps the games played.

use vstd::prelude::*;

pub mod board;
pub mod cycle;
pub mod field;
pub mod field_coordinate;
pub mod game;
pub mod game_status;
pub mod history_service;
pub mod ipc;
pub mod move_type;
pub mod player_move;
pub mod player_symbol;
pub mod server;

verus! {

/// Side length of the board used when none is given.
pub const DEFAULT_BOARD_SIZE: usize = 3;

} // verus!
