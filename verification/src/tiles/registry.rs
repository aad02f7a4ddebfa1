//! Registry of tile properties.
use super::types::TileId;
use vstd::prelude::*;

verus! {

/// Tile registry for tile properties and metadata. It holds none yet, and
/// takes every identifier as valid.
#[derive(Debug, Clone)]
pub struct TileRegistry {}

impl TileRegistry {
    /// An empty registry.
    pub fn new() -> (registry: Self)
        ensures
            registry == (TileRegistry {  }),
    {
        Self {  }
    }

    /// Check if a tile ID is valid: every one is.
    pub fn is_valid_tile(&self, _tile_id: TileId) -> (valid: bool)
        ensures
            valid,
    {
        true
    }
}

impl Default for TileRegistry {
    fn default() -> (registry: Self)
        ensures
            registry == (TileRegistry {  }),
    {
        Self::new()
    }
}

} // verus!
