//! A per-owner, capacity-bounded directory of link records.
//!
//! Each record is addressed by a handle (username) together with an owner
//! identity, holds an insertion-ordered list of at most ten links, and hands
//! out strictly increasing link identifiers that are never reused. Every
//! mutation is gated on the caller controlling the record's owner identity,
//! and the record's backing storage is resized to exactly the footprint its
//! current link count requires.

pub mod account;
pub mod address;
pub mod auth;
pub mod bounds;
pub mod directory;
pub mod link;
pub mod storage;
pub mod error;
pub mod identity;
pub mod text;
