use vstd::prelude::*;
use crate::tile::{TileData, TileGroupId, TileId, TileIndex, TilesetId};

verus! {

/// A tile of a tileset, with the render data and metadata it resolves to.
///
/// An entry without a variant index stands for a whole group; one with a
/// variant index stands for that variant of a variant group.
#[derive(Copy, Clone, Debug, PartialEq, Eq, Structural)]
pub struct TileEntry {
    pub group_id: TileGroupId,
    pub variant_index: Option<usize>,
    pub index: TileIndex,
    pub data: TileData,
}

/// A tileset as the registry holds it: its groups, and the identity that each
/// texture index maps back to.
#[derive(Clone, Debug, PartialEq, Eq)]
pub struct Tileset {
    pub id: TilesetId,
    pub tiles: Vec<TileEntry>,
    pub indices: Vec<(usize, TileId)>,
}

/// The registry of all known tilesets.
#[derive(Clone, Debug, PartialEq, Eq)]
pub struct Tilesets {
    pub sets: Vec<Tileset>,
}

/// Entry `e` serves identity `id`: same group, and the variant that `id`
/// names where both name one. An identity without a variant index is served
/// by the first entry of its group.
pub open spec fn serves(e: TileEntry, id: TileId) -> bool {
    &&& e.group_id == id.group_id
    &&& (e.variant_index is None || id.variant_index is None || e.variant_index == id.variant_index)
}

/// The first entry of `tiles` that serves `id`.
pub open spec fn find_group(tiles: Seq<TileEntry>, id: TileId) -> Option<TileEntry>
    decreases tiles.len(),
{
    if tiles.len() == 0 {
        None
    } else if serves(tiles[0], id) {
        Some(tiles[0])
    } else {
        find_group(tiles.drop_first(), id)
    }
}

/// What an identity resolves to: its render data and metadata.
pub open spec fn select_spec(tiles: Seq<TileEntry>, id: TileId) -> Option<(TileIndex, TileData)> {
    match find_group(tiles, id) {
        Some(entry) => Some((entry.index, entry.data)),
        None => None,
    }
}

/// The identity paired with the first occurrence of texture index `t`.
pub open spec fn find_index(indices: Seq<(usize, TileId)>, t: usize) -> Option<TileId>
    decreases indices.len(),
{
    if indices.len() == 0 {
        None
    } else if indices[0].0 == t {
        Some(indices[0].1)
    } else {
        find_index(indices.drop_first(), t)
    }
}

/// The first tileset of `sets` whose id is `id`.
pub open spec fn find_tileset(sets: Seq<Tileset>, id: TilesetId) -> Option<Tileset>
    decreases sets.len(),
{
    if sets.len() == 0 {
        None
    } else if sets[0].id == id {
        Some(sets[0])
    } else {
        find_tileset(sets.drop_first(), id)
    }
}

impl Tileset {
    pub fn id(&self) -> (r: TilesetId)
        ensures
            r == self.id,
    {
        self.id
    }

    /// Resolves an identity to the render data and metadata of the first
    /// entry that serves it.
    pub fn select_tile_by_id(&self, tile_id: &TileId) -> (r: Option<(TileIndex, TileData)>)
        ensures
            r == select_spec(self.tiles@, *tile_id),
    {
        let mut i: usize = 0;
        assert(self.tiles@.subrange(0, self.tiles@.len() as int) =~= self.tiles@);
        while i < self.tiles.len()
            invariant
                0 <= i <= self.tiles@.len(),
                find_group(self.tiles@, *tile_id) == find_group(self.tiles@.subrange(i as int, self.tiles@.len() as int), *tile_id),
            decreases self.tiles@.len() - i,
        {
            let e: TileEntry = self.tiles[i];
            if e.group_id == tile_id.group_id && (e.variant_index.is_none() || tile_id.variant_index.is_none()
                || e.variant_index == tile_id.variant_index) {
                assert(self.tiles@.subrange(i as int, self.tiles@.len() as int)[0] == e);
                return Some((e.index, e.data));
            }
            assert(self.tiles@.subrange(i as int, self.tiles@.len() as int).drop_first()
                =~= self.tiles@.subrange(i + 1, self.tiles@.len() as int));
            i = i + 1;
        }
        None
    }

    /// Maps a texture index back to the identity it belongs to.
    pub fn get_tile_id(&self, index: usize) -> (r: Option<TileId>)
        ensures
            r == find_index(self.indices@, index),
    {
        let mut i: usize = 0;
        assert(self.indices@.subrange(0, self.indices@.len() as int) =~= self.indices@);
        while i < self.indices.len()
            invariant
                0 <= i <= self.indices@.len(),
                find_index(self.indices@, index) == find_index(self.indices@.subrange(i as int, self.indices@.len() as int), index),
            decreases self.indices@.len() - i,
        {
            let (t, id) = self.indices[i];
            if t == index {
                assert(self.indices@.subrange(i as int, self.indices@.len() as int)[0] == (t, id));
                return Some(id);
            }
            assert(self.indices@.subrange(i as int, self.indices@.len() as int).drop_first()
                =~= self.indices@.subrange(i + 1, self.indices@.len() as int));
            i = i + 1;
        }
        None
    }
}

impl Tilesets {
    pub fn new() -> (r: Tilesets)
        ensures
            r.sets@ == Seq::<Tileset>::empty(),
    {
        Tilesets { sets: Vec::new() }
    }

    /// Registers a tileset; an earlier one with the same id keeps precedence.
    pub fn add(&mut self, tileset: Tileset)
        ensures
            final(self).sets@ == old(self).sets@.push(tileset),
    {
        self.sets.push(tileset);
    }

    /// The position of the tileset with the given id.
    pub fn position_of(&self, id: TilesetId) -> (r: Option<usize>)
        ensures
            match r {
                Some(i) => i < self.sets@.len() && find_tileset(self.sets@, id) == Some(self.sets@[i as int]),
                None => find_tileset(self.sets@, id).is_none(),
            },
    {
        let mut i: usize = 0;
        assert(self.sets@.subrange(0, self.sets@.len() as int) =~= self.sets@);
        while i < self.sets.len()
            invariant
                0 <= i <= self.sets@.len(),
                find_tileset(self.sets@, id) == find_tileset(self.sets@.subrange(i as int, self.sets@.len() as int), id),
            decreases self.sets@.len() - i,
        {
            if self.sets[i].id == id {
                assert(self.sets@.subrange(i as int, self.sets@.len() as int)[0] == self.sets@[i as int]);
                return Some(i);
            }
            assert(self.sets@.subrange(i as int, self.sets@.len() as int).drop_first()
                =~= self.sets@.subrange(i + 1, self.sets@.len() as int));
            i = i + 1;
        }
        None
    }
}

} // verus!
