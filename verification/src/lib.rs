//! A handle-management layer over an ordered key-value storage engine.
//!
//! The library models the store itself (an ordered keyspace per column
//! family), decodes caller-supplied option lists into typed configurations,
//! converts between raw byte buffers and the host's exchangeable values,
//! frames key/value pairs in a fixed binary record format, and exposes the
//! whole surface through a registry of database, transaction and cursor
//! handles whose lifecycles are stated and proved.

pub mod codec;
pub mod cursor;
pub mod dispatch;
pub mod engine;
pub mod errors;
pub mod keys;
pub mod options;
pub mod records;
pub mod registry;
pub mod txn;
