//! A passwordless "magic-link" authentication gateway library.
//!
//! The library issues one-time ephemeral tokens bound to a user's email
//! address, encodes the outbound mail request that delivers them, and
//! decides, for every inbound request, which of the five gateway behaviors
//! applies: session check, authenticate, validate, logout, or static
//! delegation. Every decision is made on plain values and carries a
//! contract; the binary around the library only moves bytes in and out.

pub mod cookies;
pub mod mail;
pub mod models;
pub mod multipart;
pub mod router;
pub mod store;
pub mod urlenc;
pub mod utils;
