//! Tile placement on grid maps: resolving tile identities through a tileset
//! registry, resolving conflicts with the current occupant of a coordinate
//! under several placement policies, and keeping animation and auto-tile
//! state in step with every write.
mod coord;
mod laws;
mod placement;
mod plugin;
mod store;
mod tile;
mod tileset;

pub use coord::{TileCoord, TilePos};
pub use laws::{
    lemma_animation_follows_index, lemma_one_occupant, lemma_place_displaces, lemma_remove_notifies,
    lemma_replace_gate, lemma_toggle_round_trip, lemma_try_place_blocks, lemma_unknown_tileset_rejected, located,
    texture_of,
};
pub use placement::{
    animation_of, blocks_replace, event_for, installed, lemma_find_tileset_id, place_spec, remove_spec, removed,
    replace_spec, toggle_matching_spec, toggle_spec, try_place_spec, updated, ExistingTile, PlacedTile,
    RemoveAutoTileEvent, TileParent, TilePlacementError, TilePlacementResult, TilePlacer,
};
pub use plugin::{TilesetMapLabel, TilesetMapStage};
pub use store::{
    cell_written, entity_at, flat_index, lemma_flat_bound, lemma_tile_at, layer_slot, placed, GpuAnimated, Layer,
    LayerBuilder, MapTileError, Tile, TileStore,
};
pub use tile::{group_equal, AutoTileId, TileData, TileGroupId, TileId, TileIndex, TilesetId};
pub use tileset::{serves, find_group, find_index, find_tileset, select_spec, TileEntry, Tileset, Tilesets};
