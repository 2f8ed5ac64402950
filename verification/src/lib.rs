//! Core of a self-hosted audiobook server: session-authenticated delivery
//! and progress accounting.
//!
//! The crate verifies the three tightly coupled subsystems of the server:
//! the session lifecycle (creation, sliding renewal, expiry), the HTTP
//! byte-range protocol used to stream audio with seek support, and the
//! per-user, per-book listening-progress accounting.  Everything that talks
//! to the outside world (clock, randomness, password hashing) goes through
//! narrow trusted wrappers; all decisions are verified.

pub mod api;
pub mod auth;
pub mod catalog;
pub mod cover;
pub mod digits;
pub mod listfs;
pub mod order;
pub mod password;
pub mod probe;
pub mod progress;
pub mod range;
pub mod response;
pub mod session;
pub mod storage;
pub mod stream;
pub mod text;
pub mod users;
