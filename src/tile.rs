use vstd::prelude::*;

verus! {

/// Identifies a tileset.
pub type TilesetId = u8;

/// Identifies a tile group within a tileset.
pub type TileGroupId = u32;

/// A logical tile identity: a group within a tileset, with optional variant
/// and auto-tile rule selectors.
#[derive(Copy, Clone, Debug, Hash, PartialEq, Eq, Structural)]
pub struct TileId {
    pub auto_index: Option<usize>,
    pub variant_index: Option<usize>,
    pub group_id: TileGroupId,
    pub tileset_id: TilesetId,
}

/// Two identities are group-equal when they name the same group of the same
/// tileset, whatever their variant and auto selectors.
pub open spec fn group_equal(a: TileId, b: TileId) -> bool {
    a.group_id == b.group_id && a.tileset_id == b.tileset_id
}

impl TileId {
    /// An identity with no variant or auto selector.
    pub fn new(group_id: TileGroupId, tileset_id: TilesetId) -> (r: TileId)
        ensures
            r == (TileId { auto_index: None, variant_index: None, group_id, tileset_id }),
    {
        TileId { auto_index: None, variant_index: None, group_id, tileset_id }
    }

    /// True when both identities belong to the same group and tileset.
    pub fn eq_tile_group(&self, other: &TileId) -> (r: bool)
        ensures
            r == group_equal(*self, *other),
    {
        self.group_id == other.group_id && self.eq_tileset(other)
    }

    /// True when both identities belong to the same tileset.
    pub fn eq_tileset(&self, other: &TileId) -> (r: bool)
        ensures
            r == (self.tileset_id == other.tileset_id),
    {
        self.tileset_id == other.tileset_id
    }
}

/// Render data resolved for an identity.
///
/// The playback speed of an animated tile is carried as the bit pattern of
/// its `f32` value.
#[derive(Copy, Clone, Debug, PartialEq, Eq, Structural)]
pub enum TileIndex {
    Standard(usize),
    Animated(usize, usize, u32),
}

impl TileIndex {
    pub open spec fn base_spec(self) -> usize {
        match self {
            TileIndex::Standard(i) => i,
            TileIndex::Animated(start, _, _) => start,
        }
    }

    /// The index of a standard tile, or the start index of an animated one.
    pub fn base_index(&self) -> (r: usize)
        ensures
            r == self.base_spec(),
    {
        match self {
            TileIndex::Standard(i) => *i,
            TileIndex::Animated(start, _, _) => *start,
        }
    }
}

/// Metadata of a tile group.
#[derive(Copy, Clone, Debug, Default, PartialEq, Eq, Structural)]
pub struct TileData {
    pub is_auto: bool,
}

impl TileData {
    pub fn is_auto(&self) -> (r: bool)
        ensures
            r == self.is_auto,
    {
        self.is_auto
    }
}

/// The auto-tile link attached to a tile that takes part in auto tiling.
#[derive(Copy, Clone, Debug, PartialEq, Eq, Structural)]
pub struct AutoTileId {
    pub group_id: TileGroupId,
    pub tileset_id: TilesetId,
}

} // verus!
