//! The events: what a client sends to the server, and what the transport tells the
//! server about its clients.

use vstd::prelude::*;
use crate::geometry::{Vec2, Vec3};

verus! {

/// An intention to move in a particular direction.
#[derive(Clone, Copy, Debug, PartialEq, Eq, Structural)]
pub struct MoveDirection(pub Vec2);

/// Sent by a client when it moves its eyes.
#[derive(Clone, Copy, Debug, PartialEq, Eq, Structural)]
pub struct Aim(pub Vec3);

/// Sent by a client once, to say what it wants to be called.
#[derive(Debug)]
pub struct SetName(pub String);

/// What an administrator can ask of the server.
#[derive(Clone, Copy, Debug, PartialEq, Eq, Structural)]
pub enum AdminCommand {
    /// Builds a square wall of boxes, `side_size` boxes wide and high, with its
    /// lowest corner at `at`.
    SpawnBoxWall { side_size: u8, at: Vec3 },
}

/// An event together with the client that sent it.
#[derive(Debug)]
pub struct FromClient<T> {
    pub client_id: u64,
    pub event: T,
}

/// What the transport reports about a client.
#[derive(Clone, Copy, Debug, PartialEq, Eq, Structural)]
pub enum ServerEvent {
    ClientConnected { client_id: u64 },
    ClientDisconnected { client_id: u64 },
}

/// How an event type travels.
#[derive(Clone, Copy, Debug, PartialEq, Eq, Structural)]
pub enum EventType {
    /// Every event arrives, in the order in which it was sent.
    Ordered,
    /// Events may arrive in any order, or not at all.
    Unordered,
}

/// The kinds of client event, in the order in which they are registered.
#[derive(Clone, Copy, Debug, PartialEq, Eq, Structural)]
pub enum EventKind {
    AdminCommand,
    MoveDirection,
    SetName,
    Aim,
}

} // verus!
