//! A verified core for a GitHub notification poller.
//!
//! The library holds the logic that decides what the poller does: which
//! fetched notifications are genuinely new, what the persisted set becomes
//! after a cycle, how the on-disk config and cache records are encoded and
//! decoded, how the authorization flow reacts to events, and how long to
//! sleep before the next poll. All file, network and desktop I/O stays
//! outside, in unverified callers that hand plain values in and out.

pub mod auth;
pub mod cache;
pub mod codec;
pub mod data;
pub mod paths;
pub mod poll;
pub mod present;
pub mod remote;
