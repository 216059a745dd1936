//! A privacy-preserving record of nicknames that have been seen.
//!
//! A nickname is never stored. It is sharded into one of a fixed number of
//! buckets by a keyed hash, and the bucket holds salted one-way commitments of
//! the nicknames recorded under it. The library decides; its caller talks to
//! the store and to the network and hands the results back.

pub mod handlers;
pub mod hasher;
pub mod key;
pub mod lookup;
pub mod store;
pub mod race;
