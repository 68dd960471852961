//! Forwards keyword-matched items from a content feed to a set of chat
//! subscribers, who join and leave through chat commands.
//!
//! The cycle logic is verified: what one feed poll emits and how it moves
//! the dedup marker (`feed`), how inbound chat commands change the
//! subscriber set and the update offset (`chat`, `registry`), and what is
//! sent to whom (`dispatch`). The fetching, sending and storage around it
//! are the caller's, which hands each cycle's outcome in as a plain value.

pub mod chat;
pub mod dispatch;
pub mod feed;
pub mod filter;
pub mod registry;
