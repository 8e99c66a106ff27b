//! Per-channel state: creating a channel, opening it from the store, joining one,
//! who may write to its log and who may read it, and what is persisted at each step.
//!
//! A channel at rest is a set of sealed segments. Sealing, the store and the
//! signatures are the caller's; this module decides what each segment holds, what
//! an opened segment means, and in which order things are refused.

pub mod about;
pub mod acts;
pub mod brought;
pub mod feeds;
pub mod kept;
pub mod log;
pub mod opening;
pub mod ops;
pub mod owing;
pub mod reading;
pub mod reopened;
pub mod rest;
pub mod segments;
pub mod session;
pub mod state;
pub mod sync;

pub use segments::{EntryKind, Rendered};
pub use state::ChannelState;
