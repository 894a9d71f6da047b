//! Core of a transparent TCP proxy for the MongoDB wire protocol.
//!
//! The proxy forwards bytes untouched in both directions and derives metrics
//! from a copy of the stream. This crate holds the decisions of that engine,
//! each with a contract that Verus proves; sockets, channels and the metrics
//! registry are driven by the program around it.
//!
//! - `address`, `connection`: what the accept loop decides for a connection.
//! - `shuttle`, `observer`, `pipeline`: one direction of a connection, from
//!   the socket that is read to the messages that are framed.
//! - `wire`, `framer`: the wire format and the reassembly of messages.
//! - `decoder`, `bson`, `compression`: what is read from a message.
//! - `tracker`: requests paired with replies.
//! - `admin`: the routes of the admin endpoint.

pub mod address;
pub mod admin;
pub mod bson;
pub mod chunk;
pub mod compression;
pub mod connection;
pub mod counter;
pub mod decoder;
pub mod framer;
pub mod observer;
pub mod pipeline;
pub mod shuttle;
pub mod text;
pub mod tracker;
pub mod wire;
