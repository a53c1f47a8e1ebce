//! A two-player chess server library: the chess rules engine, the JSON-RPC
//! message protocol with its wire codec, the session-ownership table that
//! binds each player identity to one live connection, the turn-notification
//! bus, and the per-connection dispatch state machine.
pub mod board;
pub mod bus;
pub mod codec;
pub mod conn;
pub mod game;
pub mod json;
pub mod pieces;
pub mod rpc;
pub mod session;
pub mod text;
