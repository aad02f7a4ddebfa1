//! Chunk streaming and persistence for an unbounded 2D tile world.
//!
//! The world is divided into square chunks of tiles. This crate holds the
//! spatial addressing, the per-chunk tile store, the versioned record format,
//! the bookkeeping of loaded chunks, and the per-tick streaming decisions.
//! Rendering and disk access are left to the caller, which hands in plain
//! values and carries out the actions the streaming functions return.
pub mod text;
pub mod tiles;
pub mod world;
