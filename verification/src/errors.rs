//! Error values of the engine and its surrounding server.
//!
//! Each is a unit marker; how an error is rendered or attached to context
//! is the caller's concern.

use vstd::prelude::*;

verus! {

/// Fatal startup failure: the server cannot begin listening.
#[derive(Debug, Clone, Copy, PartialEq, Eq, Structural)]
pub struct ServerError;

/// A failure confined to one client's connection.
#[derive(Debug, Clone, Copy, PartialEq, Eq, Structural)]
pub struct ConnectionError;

/// A failure of a game-state operation, such as addressing a player that
/// has already been removed.
#[derive(Debug, Clone, Copy, PartialEq, Eq, Structural)]
pub struct GameError;

/// A failure while encoding or transmitting an outbound message.
#[derive(Debug, Clone, Copy, PartialEq, Eq, Structural)]
pub struct SendError;

} // verus!
