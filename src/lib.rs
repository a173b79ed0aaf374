//! A provider module for the name service switch: it packs account, group,
//! shadow and host records that a backend supplies into the fixed C records
//! and caller-owned buffers that the resolver expects, walks "get all entries"
//! enumerations with a shared cursor, and maps backend outcomes onto the
//! provider's status codes and `errno`.
//!
//! - `buffer`: the bounded buffer that records are packed into, and how
//!   strings, pointer arrays and address blocks are laid out in it.
//! - `interop`: status codes, responses, the enumeration cursor, and how a
//!   response is handed to the caller.
//! - `passwd`, `group`, `shadow`, `host`: the records, how each is packed, and
//!   the lookups that go through a backend.
//! - `initgroups`: the group ids of a user.
//! - `authd`: the records of the authd service and the hooks built on it.
//! - `cmark`: text helpers of a Markdown writer.
pub mod buffer;
pub mod interop;
pub mod passwd;
pub mod shadow;
pub mod group;
pub mod host;
pub mod initgroups;
pub mod authd;
pub mod cmark;
