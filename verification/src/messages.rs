//! Wire message shapes, as plain values.
//!
//! JSON encoding and decoding of these shapes happens outside the library;
//! the engine only constructs and consumes the values.

use vstd::prelude::*;
use crate::snake::Snake;
use crate::types::{FieldHeightT, FieldWidthT, Name, PlayerId, Point, Score};

verus! {

/// Everything a snapshot reports about one player.
pub type PlayerInfo = (Snake, PlayerId, Name, Score);

/// A message from a client to the server.
#[derive(Debug)]
pub enum ClientMessage {
    Register { name: String },
    Turn { direction: crate::types::Direction },
}

/// A message from the server to a client: the one-time configuration
/// reply, or the per-tick full world snapshot.
#[derive(Debug)]
pub enum ServerMessage {
    Register { field_width: FieldWidthT, field_height: FieldHeightT },
    Turn { players: Vec<PlayerInfo>, food: Vec<Point> },
}

} // verus!
