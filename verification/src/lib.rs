//! Peer-to-peer messaging backend.
//!
//! The crate holds the verified core of a small peer-to-peer messaging
//! daemon: the length-prefixed JSON wire codec spoken on every socket, the
//! relational store of connections and messages, the restart-safe peer-id
//! allocator, and the request handlers that drive the peer and front-end
//! protocols.  Durability and transport (sockets, threads, the database
//! file) live outside the crate and hand plain values in and out.

pub mod frame;
pub mod handlers;
pub mod idseq;
pub mod jsonstr;
pub mod numtext;
pub mod proto;
pub mod store;
pub mod strutf8;
pub mod timestamp;
pub mod wire;
pub mod wiretext;
pub mod wiretok;

use vstd::prelude::*;

verus! {

/// Which kind of front-end the backend serves.
#[derive(Debug, Clone, Copy, PartialEq, Eq, Structural)]
pub enum FrontendType {
    CLI,
    WEB,
    NONE,
}

} // verus!
