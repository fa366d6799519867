//! The hub of the iuro game server.
//!
//! Peers connect, gather in rooms by name, chat there, and play: a room
//! that is full plays round after round, each round settled when everyone
//! in the room has sent an input. This crate is the part that decides: who
//! is where, what a command changes, what goes out to whom, who has won.
//! It holds no socket and no clock. Whoever runs it hands it each command
//! in turn and sends what it decides on.
//!
//! - [`table`]: tables keyed by connection id, in the order of arrival.
//! - [`games`]: the games, and how a round is collected and settled.
//! - [`room`]: a room, from the first join to the last leave.
//! - [`server`]: the hub, one step per command.
//! - [`session`]: what one connection keeps, and how it tells a live
//!   peer from a dead one.
//! - [`messages`]: what travels between them.
//! - [`error`]: what can go wrong, and the words for it.
pub mod error;
pub mod games;
pub mod messages;
pub mod room;
pub mod server;
pub mod session;
pub mod table;

pub use crate::error::{internal_error, IuroError};
pub use crate::server::IuroServer;
pub use crate::session::{handle_text, IuroSession};
