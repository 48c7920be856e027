//! Verified core of a console that authors one publish/subscribe channel on an
//! append-only ledger, ingests the readings and annotations published to it and
//! answers queries over what it has stored.
//!
//! Everything here is pure: ledger traffic, sockets, threads, locks and JSON
//! encoding belong to the program that embeds this library. That program hands
//! over plain values and carries out the actions that the functions here decide on.

pub mod http;
pub mod models;
pub mod store;
pub mod streams;
