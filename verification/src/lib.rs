//! Symbol-resolution core for a small, flat intermediate-representation
//! language: classify what a cursor points at, resolve the visibility
//! boundary of the symbol, locate its definition and reference sites, and
//! plan a consistent multi-occurrence rename.
//!
//! The core is synchronous, stateless between calls, and pure computation
//! over an immutable snapshot supplied by the caller: the parser that builds
//! snapshots, the document cache, and the protocol transport all live outside
//! it.

pub mod classify;
pub mod edits;
pub mod laws;
pub mod locate;
pub mod ops;
pub mod scope;
pub mod syntax;
