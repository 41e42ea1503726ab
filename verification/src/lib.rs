//! A typed binary-asset storage layer.
//!
//! The crate has two halves. The tag file half defines a fixed, versioned
//! container format: a 64-byte header carrying a group tag, a schema version,
//! a checksum over the payload, and magic markers, followed by the payload
//! bytes of a schema-defined struct. Encoding and decoding are checked against
//! exact byte-level contracts, and decoding validates the header, the
//! checksum (under the strict mode) and the group/version before any payload
//! is touched.
//!
//! The tag tree half defines an abstract hierarchical store of tags: wildcard
//! path filtering, recursive traversal, a caching decorator with a
//! configurable write strategy, and the overlay logic of a multi-directory
//! backing store.

pub mod bytes;
pub mod cache;
pub mod crc;
pub mod error;
pub mod filter;
pub mod overlay;
pub mod primitive;
pub mod schema;
pub mod store;
pub mod tag;
pub mod tree;
