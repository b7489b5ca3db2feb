//! A real-time file relay: connections announce a username and exchange
//! binary payloads addressed by username, with a live roster pushed to
//! every connection.
//!
//! The library holds the logic and no socket. A caller feeds it what the
//! channels yield and performs what it answers:
//!
//! - [`codec`] reads and writes join requests, file relay frames and roster
//!   frames.
//! - [`registry`] is the connection registry: the live connections with
//!   their delivery handles, and the players. [`model`] is its state as a
//!   mathematical value, and [`ledger`] holds that state against a ledger
//!   of sets and maps.
//! - [`actor`] is the protocol of one connection, as a state machine over
//!   the registry.
//! - [`dispatcher`] answers each roster event with the roster for every
//!   connection.
//! - [`relay`] states what holds of the pipeline as a whole.

pub mod actor;
pub mod codec;
pub mod dispatcher;
pub mod event;
pub mod frame;
pub mod ids;
pub mod ledger;
pub mod model;
pub mod registry;
pub mod relay;
pub mod username;
