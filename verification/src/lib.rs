//! Invite attribution for community guilds.
//!
//! The platform reports that a member joined, but not which invite was used.
//! This library keeps a per-guild cache of invites, reconciles it against a
//! freshly fetched invite list on every join, and decides which invite (and
//! so which inviter) the join is credited to.

pub mod config;
pub mod invite;
pub mod snapshot;
pub mod store;
pub mod attribution;
pub mod ledger;
pub mod protocol;
pub mod tracker;
pub mod text;
pub mod commands;
pub mod util;
pub mod table;
