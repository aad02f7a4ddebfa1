//! Chunk generation, the record format, the registry of loaded chunks and
//! the streaming decisions.
pub mod generator;
pub mod loader;
pub mod manager;
pub mod serialization;

pub use generator::generate_chunk;
pub use manager::{EntityId, TileModification, WorldManager, WorldState, WorldStats};
