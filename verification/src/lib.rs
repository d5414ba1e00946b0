//! Authoritative state replication and client events for a small multiplayer world.
//!
//! The server owns a [`world::World`] of entities under stable handles, each with a
//! fixed set of optional replicated records. Clients send events; the server applies
//! them once per tick, and at the end of the tick sends every client what has changed,
//! which the client writes into its own copy of the world.
//!
//! - [`registry`] numbers the channels of records and events, and lets a handshake
//!   check that both sides number them alike.
//! - [`records`], [`events`] and [`geometry`] hold the values that travel. Lengths
//!   are exact: every coordinate counts thousandths of a world unit.
//! - [`world`] is the arena of entities; [`sessions`] says which entity stands for
//!   which client.
//! - [`lifecycle`] and [`systems`] are what the server does with the transport's
//!   reports and the clients' events; [`server`] strings them into a tick;
//!   [`invariants`] says what stays true from tick to tick.
//! - [`replication`] works out what to send, and [`client`] takes it in.
//! - [`inbox`] holds the events that wait for the tick, and puts the events of an
//!   ordered channel back into the order in which they were sent.
//! - [`scheduler`] caps the tick rate; [`login`], [`enemy`] and [`mesh`] are the
//!   login screen's logic, the monster, and the index lists of level geometry.

pub mod client;
pub mod enemy;
pub mod events;
pub mod geometry;
pub mod inbox;
pub mod invariants;
pub mod lifecycle;
pub mod login;
pub mod mesh;
pub mod records;
pub mod registry;
pub mod replication;
pub mod scheduler;
pub mod server;
pub mod sessions;
pub mod systems;
pub mod world;
