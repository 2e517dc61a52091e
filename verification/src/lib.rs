//! A family of deterministic, frame-stepped 2D arcade simulations built on a
//! common contract, so that any game can be driven, serialized, queried, and
//! restored uniformly by an external runtime.
//!
//! The heart of the crate is the tile-grid traversal and state-painting engine
//! of the maze-chase game: a board of walkable tiles with a derived junction
//! topology, a closed set of movement behaviours shared by all actors, a
//! per-frame update algorithm that turns directional input into board
//! mutations and game events, and a textual snapshot codec whose round trip
//! is proved exact.

use vstd::prelude::*;

pub mod amidar;
pub mod board;
pub mod codec;
pub mod direction;
pub mod geometry;
pub mod graphics;
pub mod input;
pub mod mob;
pub mod newgame;
pub mod pitfall;
pub mod random;
pub mod snapshot;

verus! {

/// The failure conditions of a read-only introspection query.
///
/// All query failures are returned to the caller as typed results; the
/// simulation never aborts across the query boundary.
#[derive(Clone, Debug, PartialEq, Eq, Hash, PartialOrd, Ord)]
pub enum QueryError {
    /// The query name was not recognized.
    NoSuchQuery,
    /// The query arguments were present but failed to parse.
    BadInputArg,
    /// A well-formed in-memory state failed to serialize; a programming
    /// error, not a recoverable user error.
    InternalSerializationError(String),
}

} // verus!
