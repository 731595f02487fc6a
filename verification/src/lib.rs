//! A room-based chat broker whose rooms can host a game of Reversi.

pub mod board;
pub mod broker;
pub mod reversi;
pub mod text;
pub mod wire;
pub mod server;
pub mod session;
