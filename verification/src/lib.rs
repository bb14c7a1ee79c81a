//! A planning-poker room engine. Participants join a room over a
//! connection, submit numeric estimates, and see the board of the room: who
//! is in it and what they voted, with the votes hidden until they are asked
//! to be shown. Every change is pushed as a full board to each connection of
//! the room, and a connection that turns out dead is taken out of the room.
//!
//! - [`vote`] and [`ident`] read votes and room ids from text.
//! - [`models`] and [`template`] hold the records of messages, rooms and
//!   pages.
//! - [`vote_store`], [`room_registry`] and [`connection_registry`] are the
//!   three stores; [`hub`] holds them together so that a participant is in
//!   all three or in none.
//! - [`session`] says what each message does to a connection and to the
//!   hub, and [`broadcast`] how the board of a room is sent out.
//! - [`channel`] is the outbound queue of a connection.

pub mod broadcast;
pub mod channel;
pub mod connection_registry;
pub mod hub;
pub mod id_list;
pub mod ident;
pub mod models;
pub mod room_registry;
pub mod session;
pub mod template;
pub mod vote;
pub mod vote_store;
