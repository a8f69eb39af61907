//! Placing and removing tiles.
use vstd::prelude::*;
use crate::coord::{TileCoord, TilePos};
use crate::store::{entity_at, flat_index, lemma_flat_bound, lemma_fresh_layer_write, lemma_tile_at, placed, GpuAnimated, LayerBuilder, MapTileError, Tile, TileStore};
use crate::tile::{group_equal, AutoTileId, TileData, TileId, TileIndex, TilesetId};
use crate::tileset::{find_index, find_tileset, select_spec, Tileset, Tilesets};

verus! {

/// Errors related to the placement of tiles.
#[derive(Copy, Clone, Debug, PartialEq, Eq, Structural)]
pub enum TilePlacementError {
    /// A tile already exists at the given coordinate.
    TileAlreadyExists {
        /// The identity of the tile to be placed.
        new: TileId,
        /// The identity of the existing tile, where it could be resolved.
        existing: Option<TileId>,
        /// The occupied position.
        pos: TilePos,
    },
    /// The tileset does not exist.
    InvalidTileset(TilesetId),
    /// The identity does not resolve within its tileset.
    InvalidTile(TileId),
    /// A failure of the tile store.
    MapError(MapTileError),
}

/// How a tile was placed or removed.
#[derive(Copy, Clone, Debug, PartialEq, Eq)]
pub enum PlacedTile {
    /// A tile was added.
    Added {
        /// The displaced tile.
        old_tile: Option<(u64, Option<TileId>)>,
        /// The placed tile.
        new_tile: (u64, TileId),
    },
    /// A tile was removed.
    Removed {
        /// The removed tile.
        old_tile: Option<(u64, Option<TileId>)>,
    },
}

pub type TilePlacementResult = Result<PlacedTile, TilePlacementError>;

/// The map and layer that a tile belongs to.
#[derive(Copy, Clone, Debug, PartialEq, Eq, Structural)]
pub struct TileParent {
    pub map_id: u16,
    pub layer_id: u16,
}

/// Announces that an auto tile left the map, so that its neighbours can be
/// recomputed.
#[derive(Copy, Clone, Debug, PartialEq, Eq, Structural)]
pub struct RemoveAutoTileEvent {
    pub entity: u64,
    pub pos: TilePos,
    pub parent: TileParent,
    pub auto_id: AutoTileId,
}

/// A snapshot of what occupies a coordinate.
#[derive(Copy, Clone, Debug, PartialEq, Eq, Structural)]
pub struct ExistingTile {
    pub entity: u64,
    /// The identity found by reverse lookup in the tileset of the tile being placed.
    pub id: Option<TileId>,
    pub texture_index: usize,
    pub is_animated: bool,
    pub is_auto: bool,
}

impl ExistingTile {
    pub fn new(entity: u64, id: Option<TileId>, texture_index: usize) -> (r: ExistingTile)
        ensures
            r == (ExistingTile { entity, id, texture_index, is_animated: false, is_auto: false }),
    {
        ExistingTile { entity, id, texture_index, is_animated: false, is_auto: false }
    }
}

/// Places and removes tiles in a store, resolving identities through a
/// registry of tilesets, and queues a notification for each auto tile that
/// leaves the map.
#[derive(Clone, Debug, PartialEq, Eq)]
pub struct TilePlacer {
    pub store: TileStore,
    pub tilesets: Tilesets,
    /// Auto-tile removal notifications, oldest first.
    pub events: Vec<RemoveAutoTileEvent>,
    /// Whether auto tiles are linked and tracked.
    pub auto_tile: bool,
}

/// The animation parameters that a render index calls for.
pub open spec fn animation_of(index: TileIndex) -> Option<GpuAnimated> {
    match index {
        TileIndex::Standard(_) => None,
        TileIndex::Animated(start, end, speed) => Some(
            GpuAnimated { start: start as u32, end: end as u32, speed_bits: speed },
        ),
    }
}

/// A search of `sets` by id finds a tileset with that id.
pub proof fn lemma_find_tileset_id(sets: Seq<Tileset>, id: TilesetId)
    ensures
        find_tileset(sets, id) is Some ==> find_tileset(sets, id)->Some_0.id == id,
    decreases sets.len(),
{
    if sets.len() > 0 && sets[0].id != id {
        lemma_find_tileset_id(sets.drop_first(), id);
    }
}

/// The notification for auto tile `t` of the given map and layer.
pub open spec fn event_for(t: Tile, map_id: u16, layer_id: u16) -> RemoveAutoTileEvent {
    RemoveAutoTileEvent {
        entity: t.entity,
        pos: t.pos,
        parent: TileParent { map_id, layer_id },
        auto_id: t.auto_tile->Some_0,
    }
}

/// `new` is `old` after removing the tile at `c`, a coordinate of the store.
pub open spec fn removed(old: TilePlacer, new: TilePlacer, c: TileCoord) -> bool {
    &&& new.wf()
    &&& new.store.tile_at(c) is None
    &&& old.store.tile_at(c) is Some ==> !new.store.has_entity(old.store.tile_at(c)->Some_0.entity)
    &&& new.store.agree_except(old.store, c)
    &&& new.store.same_layout(old.store)
    &&& forall|d: TileCoord| #[trigger] new.store.location_error(d) == old.store.location_error(d)
    &&& new.store.next_entity == old.store.next_entity
    &&& new.store.dirty@ == old.store.dirty@.push(c)
    &&& new.events@ == old.events@ + old.removal_events(c)
    &&& new.tilesets == old.tilesets
    &&& new.auto_tile == old.auto_tile
}

/// `new` is `old` after installing a tile of `id`, which resolved to `index`
/// and `data`, at `c`, a coordinate of the store; `r` is what the
/// installation returns.
pub open spec fn installed(
    old: TilePlacer,
    new: TilePlacer,
    id: TileId,
    c: TileCoord,
    index: TileIndex,
    data: TileData,
    r: TilePlacementResult,
) -> bool {
    let ex = old.existing(id, c);
    let e = old.store.next_entity;
    &&& r == Ok::<PlacedTile, TilePlacementError>(
        PlacedTile::Added {
            old_tile: match ex {
                Some(x) => Some((x.entity, x.id)),
                None => None,
            },
            new_tile: (e, id),
        },
    )
    &&& new.wf()
    &&& new.store.tile_at(c) == Some(placed(old.new_tile(id, index, data), e, c.pos))
    &&& ex is Some ==> !new.store.has_entity(ex->Some_0.entity)
    &&& new.store.agree_except(old.store, c)
    &&& new.store.same_layout(old.store)
    &&& forall|d: TileCoord| #[trigger] new.store.location_error(d) == old.store.location_error(d)
    &&& new.store.next_entity == e + 1
    &&& new.store.dirty@ == if ex is Some {
        old.store.dirty@.push(c).push(c)
    } else {
        old.store.dirty@.push(c)
    }
    &&& new.events@ == old.events@ + old.removal_events(c)
    &&& new.tilesets == old.tilesets
    &&& new.auto_tile == old.auto_tile
}

/// What an unconditional placement of `id` at `c` does, from `old` to `new`,
/// returning `r`: nothing changes when `id` does not resolve or `c` is no
/// coordinate of the store.
pub open spec fn place_spec(old: TilePlacer, new: TilePlacer, id: TileId, c: TileCoord, r: TilePlacementResult) -> bool {
    match old.resolve(id) {
        Err(e) => r == Err::<PlacedTile, TilePlacementError>(e) && new == old,
        Ok((index, data)) => match old.store.location_error(c) {
            Some(me) => r == Err::<PlacedTile, TilePlacementError>(TilePlacementError::MapError(me)) && new == old,
            None => installed(old, new, id, c, index, data, r),
        },
    }
}

/// The occupant of `c` resolves, in the tileset of `id`, to an identity of
/// the same group as `id`.
pub open spec fn blocks_replace(old: TilePlacer, id: TileId, c: TileCoord) -> bool {
    match old.existing(id, c) {
        Some(x) => x.id is Some && group_equal(x.id->Some_0, id),
        None => false,
    }
}

/// `new` is `old` after `update` rewrote the tile in cell `i` of layer `l` to
/// a tile of `id`, which resolved to `index` and `data`.
pub open spec fn updated(
    old: TilePlacer,
    new: TilePlacer,
    l: int,
    i: int,
    id: TileId,
    index: TileIndex,
    data: TileData,
) -> bool {
    let t = old.store.layers@[l].cells@[i]->Some_0;
    let c = old.store.coord_of(l, i);
    &&& new.wf()
    &&& old.store.tile_at(c) == Some(t)
    &&& new.store.tile_at(c) == Some(placed(old.new_tile(id, index, data), t.entity, t.pos))
    &&& new.store.agree_except(old.store, c)
    &&& new.store.same_layout(old.store)
    &&& forall|d: TileCoord| #[trigger] new.store.location_error(d) == old.store.location_error(d)
    &&& new.store.next_entity == old.store.next_entity
    &&& new.store.dirty@ == old.store.dirty@
    &&& new.events@ == if old.auto_tile && !data.is_auto && t.auto_tile is Some {
        old.events@.push(event_for(t, c.map_id, c.layer_id))
    } else {
        old.events@
    }
    &&& new.tilesets == old.tilesets
    &&& new.auto_tile == old.auto_tile
}

/// What `try_place` does: once the tileset of `tile_id` is known, it fails
/// where the coordinate is occupied, and places unconditionally otherwise.
pub open spec fn try_place_spec(old: TilePlacer, new: TilePlacer, tile_id: TileId, c: TileCoord, r: TilePlacementResult) -> bool {
    match old.tileset_of(tile_id) {
        None => r == Err::<PlacedTile, TilePlacementError>(TilePlacementError::InvalidTileset(tile_id.tileset_id))
            && new == old,
        Some(_) => {
            match old.existing(tile_id, c) {
                Some(x) => r == Err::<PlacedTile, TilePlacementError>(
                    TilePlacementError::TileAlreadyExists { new: tile_id, existing: x.id, pos: c.pos },
                ) && new == old,
                None => place_spec(old, new, tile_id, c, r),
            }
        },
    }
}

/// What `replace` does: once the tileset of `tile_id` is known, it fails
/// where the occupant is of the same group as `tile_id`, and places
/// unconditionally otherwise.
pub open spec fn replace_spec(old: TilePlacer, new: TilePlacer, tile_id: TileId, c: TileCoord, r: TilePlacementResult) -> bool {
    match old.tileset_of(tile_id) {
        None => r == Err::<PlacedTile, TilePlacementError>(TilePlacementError::InvalidTileset(tile_id.tileset_id))
            && new == old,
        Some(_) => {
            &&& blocks_replace(old, tile_id, c) ==> r == Err::<PlacedTile, TilePlacementError>(
                TilePlacementError::TileAlreadyExists {
                    new: tile_id,
                    existing: old.existing(tile_id, c)->Some_0.id,
                    pos: c.pos,
                },
            ) && new == old
            &&& !blocks_replace(old, tile_id, c) ==> place_spec(old, new, tile_id, c, r)
        },
    }
}

/// What `toggle_matching` does: once the tileset of `tile_id` is known, it
/// installs on an empty coordinate, removes an occupant of the same group,
/// and fails on any other occupant.
pub open spec fn toggle_matching_spec(
    old: TilePlacer,
    new: TilePlacer,
    tile_id: TileId,
    c: TileCoord,
    r: TilePlacementResult,
) -> bool {
    match old.tileset_of(tile_id) {
        None => r == Err::<PlacedTile, TilePlacementError>(TilePlacementError::InvalidTileset(tile_id.tileset_id))
            && new == old,
        Some(_) => {
            match old.existing(tile_id, c) {
                None => place_spec(old, new, tile_id, c, r),
                Some(x) => if blocks_replace(old, tile_id, c) {
                    &&& r == Ok::<PlacedTile, TilePlacementError>(PlacedTile::Removed { old_tile: Some((x.entity, x.id)) })
                    &&& removed(old, new, c)
                } else {
                    &&& r == Err::<PlacedTile, TilePlacementError>(
                        TilePlacementError::TileAlreadyExists { new: tile_id, existing: x.id, pos: c.pos },
                    )
                    &&& new == old
                },
            }
        },
    }
}

/// What `toggle` does: once the tileset of `tile_id` is known, it installs
/// on an empty coordinate and removes any occupant.
pub open spec fn toggle_spec(old: TilePlacer, new: TilePlacer, tile_id: TileId, c: TileCoord, r: TilePlacementResult) -> bool {
    match old.tileset_of(tile_id) {
        None => r == Err::<PlacedTile, TilePlacementError>(TilePlacementError::InvalidTileset(tile_id.tileset_id))
            && new == old,
        Some(_) => {
            match old.existing(tile_id, c) {
                None => place_spec(old, new, tile_id, c, r),
                Some(x) => {
                    &&& r == Ok::<PlacedTile, TilePlacementError>(PlacedTile::Removed { old_tile: Some((x.entity, x.id)) })
                    &&& removed(old, new, c)
                },
            }
        },
    }
}

/// What `remove` does: removing from an empty coordinate of the store
/// changes nothing.
pub open spec fn remove_spec(old: TilePlacer, new: TilePlacer, c: TileCoord, r: Result<(), TilePlacementError>) -> bool {
    match old.store.location_error(c) {
        Some(me) => r == Err::<(), TilePlacementError>(TilePlacementError::MapError(me)) && new == old,
        None => r is Ok && if old.store.tile_at(c) is Some {
            removed(old, new, c)
        } else {
            new == old
        },
    }
}

impl TilePlacer {
    pub open spec fn wf(self) -> bool {
        self.store.wf()
    }

    pub open spec fn tileset_of(self, id: TileId) -> Option<Tileset> {
        find_tileset(self.tilesets.sets@, id.tileset_id)
    }

    /// What `id` resolves to: its render index and metadata.
    pub open spec fn resolve(self, id: TileId) -> Result<(TileIndex, TileData), TilePlacementError> {
        match self.tileset_of(id) {
            None => Err(TilePlacementError::InvalidTileset(id.tileset_id)),
            Some(ts) => match select_spec(ts.tiles@, id) {
                None => Err(TilePlacementError::InvalidTile(id)),
                Some(p) => Ok(p),
            },
        }
    }

    /// What occupies `c`, seen by a caller placing `id`.
    pub open spec fn existing(self, id: TileId, c: TileCoord) -> Option<ExistingTile> {
        match self.store.tile_at(c) {
            None => None,
            Some(t) => Some(
                ExistingTile {
                    entity: t.entity,
                    id: match self.tileset_of(id) {
                        Some(ts) => find_index(ts.indices@, t.texture_index as usize),
                        None => None,
                    },
                    texture_index: t.texture_index as usize,
                    is_animated: t.animation is Some,
                    is_auto: t.auto_tile is Some,
                },
            ),
        }
    }

    /// The auto-tile link a tile of `id` carries.
    pub open spec fn link_for(self, id: TileId, data: TileData) -> Option<AutoTileId> {
        if self.auto_tile && data.is_auto {
            Some(AutoTileId { group_id: id.group_id, tileset_id: id.tileset_id })
        } else {
            None
        }
    }

    /// The components of a tile of `id`; its entity handle and position are
    /// filled in when it is installed.
    pub open spec fn new_tile(self, id: TileId, index: TileIndex, data: TileData) -> Tile {
        Tile {
            entity: 0,
            pos: TilePos { x: 0, y: 0 },
            texture_index: index.base_spec() as u16,
            animation: animation_of(index),
            tileset: Some(id.tileset_id),
            auto_tile: self.link_for(id, data),
        }
    }

    /// The notifications that removing the tile at `c` sends.
    pub open spec fn removal_events(self, c: TileCoord) -> Seq<RemoveAutoTileEvent> {
        match self.store.tile_at(c) {
            Some(t) => if self.auto_tile && t.auto_tile is Some {
                seq![RemoveAutoTileEvent {
                    entity: t.entity,
                    pos: c.pos,
                    parent: TileParent { map_id: c.map_id, layer_id: c.layer_id },
                    auto_id: t.auto_tile->Some_0,
                }]
            } else {
                Seq::empty()
            },
            None => Seq::empty(),
        }
    }

    /// The tileset that `id` names.
    fn get_tileset(&self, tile_id: &TileId) -> (r: Result<&Tileset, TilePlacementError>)
        ensures
            match self.tileset_of(*tile_id) {
                Some(ts) => r is Ok && *r->Ok_0 == ts,
                None => r == Err::<&Tileset, TilePlacementError>(TilePlacementError::InvalidTileset(tile_id.tileset_id)),
            },
    {
        match self.tilesets.position_of(tile_id.tileset_id) {
            Some(i) => Ok(&self.tilesets.sets[i]),
            None => Err(TilePlacementError::InvalidTileset(tile_id.tileset_id)),
        }
    }

    /// The id of the tileset that `id` names.
    fn get_tileset_id(&self, tile_id: &TileId) -> (r: Result<TilesetId, TilePlacementError>)
        ensures
            match self.tileset_of(*tile_id) {
                Some(ts) => r == Ok::<TilesetId, TilePlacementError>(tile_id.tileset_id),
                None => r == Err::<TilesetId, TilePlacementError>(TilePlacementError::InvalidTileset(tile_id.tileset_id)),
            },
    {
        proof {
            lemma_find_tileset_id(self.tilesets.sets@, tile_id.tileset_id);
        }
        let tileset = self.get_tileset(tile_id)?;
        Ok(tileset.id())
    }

    /// The render index that `id` resolves to.
    fn get_tile_index(&self, tile_id: &TileId) -> (r: Result<TileIndex, TilePlacementError>)
        ensures
            match self.resolve(*tile_id) {
                Ok(p) => r == Ok::<TileIndex, TilePlacementError>(p.0),
                Err(e) => r == Err::<TileIndex, TilePlacementError>(e),
            },
    {
        let tileset = self.get_tileset(tile_id)?;
        match tileset.select_tile_by_id(tile_id) {
            Some((index, _)) => Ok(index),
            None => Err(TilePlacementError::InvalidTile(*tile_id)),
        }
    }

    /// The metadata that `id` resolves to.
    fn get_tile_data(&self, tile_id: &TileId) -> (r: Result<TileData, TilePlacementError>)
        ensures
            match self.resolve(*tile_id) {
                Ok(p) => r == Ok::<TileData, TilePlacementError>(p.1),
                Err(e) => r == Err::<TileData, TilePlacementError>(e),
            },
    {
        let tileset = self.get_tileset(tile_id)?;
        match tileset.select_tile_by_id(tile_id) {
            Some((_, data)) => Ok(data),
            None => Err(TilePlacementError::InvalidTile(*tile_id)),
        }
    }

    /// What occupies `c`, with its identity looked up in the tileset of `tile_id`.
    fn get_existing(&self, tile_id: TileId, c: TileCoord) -> (r: Option<ExistingTile>)
        requires
            self.wf(),
        ensures
            r == self.existing(tile_id, c),
    {
        let mut tile = match self.store.get_tile(c) {
            Some(t) => {
                let mut existing = ExistingTile::new(t.entity, None, t.texture_index as usize);
                existing.is_animated = t.animation.is_some();
                existing.is_auto = t.auto_tile.is_some();
                Some(existing)
            },
            None => None,
        };
        if let Some(ref mut existing) = tile {
            if let Ok(tileset) = self.get_tileset(&tile_id) {
                existing.id = tileset.get_tile_id(existing.texture_index);
            }
        }
        tile
    }

    /// Queues the removal notification for the tile in cell `i` of layer `l`,
    /// where that tile is an auto tile; returns whether it was one.
    fn try_remove_auto_tile(&mut self, l: usize, i: usize) -> (r: bool)
        requires
            l < old(self).store.layers@.len(),
            i < old(self).store.layers@[l as int].cells@.len(),
        ensures
            ({
                let layer = old(self).store.layers@[l as int];
                let cell = layer.cells@[i as int];
                &&& r == (cell is Some && cell->Some_0.auto_tile is Some)
                &&& final(self).events@ == if r {
                    old(self).events@.push(event_for(cell->Some_0, layer.map_id, layer.layer_id))
                } else {
                    old(self).events@
                }
            }),
            final(self).store == old(self).store,
            final(self).tilesets == old(self).tilesets,
            final(self).auto_tile == old(self).auto_tile,
    {
        let map_id = self.store.layers[l].map_id;
        let layer_id = self.store.layers[l].layer_id;
        let event = match self.store.layers[l].cells[i] {
            Some(t) => match t.auto_tile {
                Some(auto_id) => Some(
                    RemoveAutoTileEvent {
                        entity: t.entity,
                        pos: t.pos,
                        parent: TileParent { map_id, layer_id },
                        auto_id,
                    },
                ),
                None => None,
            },
            None => None,
        };
        match event {
            Some(event) => {
                self.events.push(event);
                true
            },
            None => false,
        }
    }

    /// Removes the tile at `c`, first announcing it where it is an auto tile.
    /// Removing from an empty coordinate succeeds and changes nothing.
    pub fn remove(&mut self, c: TileCoord) -> (r: Result<(), TilePlacementError>)
        requires
            old(self).wf(),
        ensures
            remove_spec(*old(self), *final(self), c, r),
    {
        let (l, i) = match self.store.locate(c) {
            Ok(p) => p,
            Err(e) => {
                return Err(TilePlacementError::MapError(e));
            },
        };
        proof {
            lemma_tile_at(self.store, c);
            let ids = self.store.layer_ids();
            assert(ids.contains((c.map_id, c.layer_id)));
            assert(ids[l as int] == (c.map_id, c.layer_id));
            assert(self.store.tile_at(c) == self.store.layers@[l as int].cells@[i as int]);
        }
        if self.store.layers[l].cells[i].is_none() {
            return Ok(());
        }
        if self.auto_tile {
            self.try_remove_auto_tile(l, i);
            assert(self.events@ =~= old(self).events@ + old(self).removal_events(c));
        } else {
            assert(self.events@ =~= old(self).events@ + old(self).removal_events(c));
        }
        let ghost before = *self;
        match self.store.despawn_tile(c) {
            Ok(()) => {},
            Err(e) => {
                return Err(TilePlacementError::MapError(e));
            },
        }
        let ghost despawned = *self;
        self.store.notify_chunk_for_tile(c);
        proof {
            assert forall|d: TileCoord| d != c implies #[trigger] self.store.tile_at(d) == old(self).store.tile_at(d) by {
                assert(self.store.tile_at(d) == despawned.store.tile_at(d));
                assert(despawned.store.tile_at(d) == before.store.tile_at(d));
            }
            assert forall|d: TileCoord| #[trigger] self.store.location_error(d) == old(self).store.location_error(d) by {
                assert(self.store.location_error(d) == despawned.store.location_error(d));
                assert(despawned.store.location_error(d) == before.store.location_error(d));
            }
            assert(self.store.layers@ == despawned.store.layers@);
        }
        Ok(())
    }

    /// Installs a tile of `tile_id` at `c` without any check of what occupies
    /// it: the occupant, if any, is removed first.
    fn place_unchecked(&mut self, tile_id: TileId, c: TileCoord) -> (r: TilePlacementResult)
        requires
            old(self).wf(),
            old(self).store.next_entity < u64::MAX,
        ensures
            place_spec(*old(self), *final(self), tile_id, c, r),
    {
        let tileset_id = self.get_tileset_id(&tile_id)?;
        let tile_index = self.get_tile_index(&tile_id)?;
        let ghost start = *self;
        let old_tile = match self.get_existing(tile_id, c) {
            Some(existing) => {
                proof {
                    lemma_tile_at(self.store, c);
                }
                self.remove(c)?;
                Some((existing.entity, existing.id))
            },
            None => None,
        };
        let ghost mid = *self;
        let template = self.make_tile(&tile_id, tileset_id, tile_index);
        let entity = match self.store.set_tile(c, template) {
            Ok(e) => e,
            Err(e) => {
                return Err(TilePlacementError::MapError(e));
            },
        };
        let ghost after_set = *self;
        self.store.notify_chunk_for_tile(c);
        proof {
            assert forall|d: TileCoord| d != c implies #[trigger] self.store.tile_at(d) == start.store.tile_at(d) by {
                assert(self.store.tile_at(d) == after_set.store.tile_at(d));
                assert(after_set.store.tile_at(d) == mid.store.tile_at(d));
            }
            if old_tile is Some {
                let e0 = start.store.tile_at(c)->Some_0.entity;
                assert(e0 < start.store.next_entity);
                assert(!mid.store.has_entity(e0));
                assert(!after_set.store.has_entity(e0));
                assert(self.store.layers@ == after_set.store.layers@);
            }
            assert forall|d: TileCoord| #[trigger] self.store.location_error(d) == start.store.location_error(d) by {
                assert(self.store.location_error(d) == after_set.store.location_error(d));
                assert(after_set.store.location_error(d) == mid.store.location_error(d));
            }
            if old_tile is None {
                assert(mid == start);
                assert(start.removal_events(c) =~= Seq::<RemoveAutoTileEvent>::empty());
                assert(self.events@ =~= start.events@ + start.removal_events(c));
            }
            assert(self.store.agree_except(start.store, c));
        }
        Ok(PlacedTile::Added { old_tile, new_tile: (entity, tile_id) })
    }

    /// A placer over an empty store.
    pub fn new(tilesets: Tilesets, auto_tile: bool) -> (r: TilePlacer)
        ensures
            r.wf(),
            r.store.layers@.len() == 0,
            r.store.next_entity == 0,
            r.store.dirty@.len() == 0,
            r.tilesets == tilesets,
            r.events@.len() == 0,
            r.auto_tile == auto_tile,
    {
        TilePlacer { store: TileStore::new(), tilesets, events: Vec::new(), auto_tile }
    }

    /// The auto-tile link that a tile of `tile_id` is to carry: one where auto
    /// tiling is enabled and the identity is an auto tile.
    fn auto_link(&self, tile_id: &TileId, tileset_id: TilesetId) -> (r: Option<AutoTileId>)
        requires
            self.resolve(*tile_id) is Ok,
            tileset_id == tile_id.tileset_id,
        ensures
            r == self.link_for(*tile_id, self.resolve(*tile_id)->Ok_0.1),
    {
        if !self.auto_tile {
            return None;
        }
        let is_auto = match self.get_tile_data(tile_id) {
            Ok(data) => data.is_auto(),
            Err(_) => false,
        };
        if is_auto {
            Some(AutoTileId { group_id: tile_id.group_id, tileset_id })
        } else {
            None
        }
    }

    /// The components of a tile of `tile_id`.
    fn make_tile(&self, tile_id: &TileId, tileset_id: TilesetId, tile_index: TileIndex) -> (r: Tile)
        requires
            self.resolve(*tile_id) is Ok,
            tileset_id == tile_id.tileset_id,
            tile_index == self.resolve(*tile_id)->Ok_0.0,
        ensures
            r == self.new_tile(*tile_id, tile_index, self.resolve(*tile_id)->Ok_0.1),
    {
        let animation = match tile_index {
            TileIndex::Standard(_) => None,
            TileIndex::Animated(start, end, speed) => Some(
                GpuAnimated {
                    start: #[verifier::truncate] (start as u32),
                    end: #[verifier::truncate] (end as u32),
                    speed_bits: speed,
                },
            ),
        };
        Tile {
            entity: 0,
            pos: TilePos { x: 0, y: 0 },
            texture_index: #[verifier::truncate] (tile_index.base_index() as u16),
            animation,
            tileset: Some(tileset_id),
            auto_tile: self.auto_link(tile_id, tileset_id),
        }
    }

    /// Places a tile, removing whatever occupies the coordinate.
    pub fn place(&mut self, tile_id: TileId, c: TileCoord) -> (r: TilePlacementResult)
        requires
            old(self).wf(),
            old(self).store.next_entity < u64::MAX,
        ensures
            place_spec(*old(self), *final(self), tile_id, c, r),
    {
        self.place_unchecked(tile_id, c)
    }

    /// Places a tile only where the coordinate is empty.
    pub fn try_place(&mut self, tile_id: TileId, c: TileCoord) -> (r: TilePlacementResult)
        requires
            old(self).wf(),
            old(self).store.next_entity < u64::MAX,
        ensures
            try_place_spec(*old(self), *final(self), tile_id, c, r),
    {
        self.get_tileset_id(&tile_id)?;
        if let Some(existing) = self.get_existing(tile_id, c) {
            return Err(TilePlacementError::TileAlreadyExists { new: tile_id, existing: existing.id, pos: c.pos });
        }
        self.place_unchecked(tile_id, c)
    }

    /// Places a tile unless the coordinate holds a tile of the same group.
    pub fn replace(&mut self, tile_id: TileId, c: TileCoord) -> (r: TilePlacementResult)
        requires
            old(self).wf(),
            old(self).store.next_entity < u64::MAX,
        ensures
            replace_spec(*old(self), *final(self), tile_id, c, r),
    {
        self.get_tileset_id(&tile_id)?;
        if let Some(existing) = self.get_existing(tile_id, c) {
            if let Some(existing_id) = existing.id {
                if existing_id.eq_tile_group(&tile_id) {
                    return Err(TilePlacementError::TileAlreadyExists { new: tile_id, existing: existing.id, pos: c.pos });
                }
            }
        }
        self.place_unchecked(tile_id, c)
    }

    /// Places a tile where the coordinate is empty, removes the occupant where
    /// it is of the same group, and fails otherwise.
    pub fn toggle_matching(&mut self, tile_id: TileId, c: TileCoord) -> (r: TilePlacementResult)
        requires
            old(self).wf(),
            old(self).store.next_entity < u64::MAX,
        ensures
            toggle_matching_spec(*old(self), *final(self), tile_id, c, r),
    {
        self.get_tileset_id(&tile_id)?;
        if let Some(existing) = self.get_existing(tile_id, c) {
            if let Some(existing_id) = existing.id {
                if existing_id.eq_tile_group(&tile_id) {
                    proof {
                        lemma_tile_at(self.store, c);
                    }
                    self.remove(c)?;
                    return Ok(PlacedTile::Removed { old_tile: Some((existing.entity, Some(existing_id))) });
                }
            }
            return Err(TilePlacementError::TileAlreadyExists { new: tile_id, existing: existing.id, pos: c.pos });
        }
        self.place_unchecked(tile_id, c)
    }

    /// Places a tile where the coordinate is empty, and removes the occupant
    /// otherwise.
    pub fn toggle(&mut self, tile_id: TileId, c: TileCoord) -> (r: TilePlacementResult)
        requires
            old(self).wf(),
            old(self).store.next_entity < u64::MAX,
        ensures
            toggle_spec(*old(self), *final(self), tile_id, c, r),
    {
        self.get_tileset_id(&tile_id)?;
        if let Some(existing) = self.get_existing(tile_id, c) {
            proof {
                lemma_tile_at(self.store, c);
            }
            self.remove(c)?;
            return Ok(PlacedTile::Removed { old_tile: Some((existing.entity, existing.id)) });
        }
        self.place_unchecked(tile_id, c)
    }

    /// Rewrites the tile of `entity` in place to a tile of `tile_id`, with no
    /// check of what it held before.
    pub fn update(&mut self, tile_id: TileId, entity: u64) -> (r: Result<(), TilePlacementError>)
        requires
            old(self).wf(),
        ensures
            match old(self).resolve(tile_id) {
                Err(e) => r == Err::<(), TilePlacementError>(e) && *final(self) == *old(self),
                Ok((index, data)) => if !old(self).store.has_entity(entity) {
                    &&& r == Err::<(), TilePlacementError>(TilePlacementError::MapError(MapTileError::NonExistent))
                    &&& *final(self) == *old(self)
                } else {
                    &&& r is Ok
                    &&& exists|l: int, i: int|
                        entity_at(old(self).store.layers@, l, i, entity)
                            && #[trigger] updated(*old(self), *final(self), l, i, tile_id, index, data)
                },
            },
    {
        let tileset_id = self.get_tileset_id(&tile_id)?;
        let tile_index = self.get_tile_index(&tile_id)?;
        let (l, i) = match self.store.find_entity(entity) {
            Some(p) => p,
            None => {
                return Err(TilePlacementError::MapError(MapTileError::NonExistent));
            },
        };
        let current = match self.store.layers[l].cells[i] {
            Some(t) => t,
            None => {
                return Err(TilePlacementError::MapError(MapTileError::NonExistent));
            },
        };
        let ghost start = *self;
        let template = self.make_tile(&tile_id, tileset_id, tile_index);
        if self.auto_tile && template.auto_tile.is_none() {
            self.try_remove_auto_tile(l, i);
        }
        let t = Tile { entity: current.entity, pos: current.pos, ..template };
        self.store.rewrite(l, i, t);
        proof {
            let (index, data) = start.resolve(tile_id)->Ok_0;
            let c = start.store.coord_of(l as int, i as int);
            assert(start.store.layer_ids()[l as int] == (c.map_id, c.layer_id));
            assert(updated(start, *self, l as int, i as int, tile_id, index, data));
        }
        Ok(())
    }

    /// Adds a tile to a layer under construction, which the store does not
    /// hold yet: the tile is written in the builder, with no removal and no
    /// notification.
    pub fn add_to_layer(&mut self, tile_id: TileId, pos: TilePos, builder: &mut LayerBuilder) -> (r: TilePlacementResult)
        requires
            old(self).wf(),
            old(self).store.next_entity < u64::MAX,
            old(self).store.fresh_layer(old(builder).layer),
        ensures
            match old(self).resolve(tile_id) {
                Err(e) => r == Err::<PlacedTile, TilePlacementError>(e) && *final(self) == *old(self)
                    && *final(builder) == *old(builder),
                Ok((index, data)) => if !old(builder).layer.in_bounds(pos) {
                    &&& r == Err::<PlacedTile, TilePlacementError>(TilePlacementError::MapError(MapTileError::OutOfBounds))
                    &&& *final(self) == *old(self)
                    &&& *final(builder) == *old(builder)
                } else {
                    let e = match old(builder).layer.cell(pos) {
                        Some(t) => t.entity,
                        None => old(self).store.next_entity,
                    };
                    &&& r == Ok::<PlacedTile, TilePlacementError>(PlacedTile::Added { old_tile: None, new_tile: (e, tile_id) })
                    &&& final(builder).layer.cell(pos) == Some(placed(old(self).new_tile(tile_id, index, data), e, pos))
                    &&& forall|p: TilePos| p != pos ==> #[trigger] final(builder).layer.cell(p) == old(builder).layer.cell(p)
                    &&& final(builder).layer.wf()
                    &&& final(builder).layer.map_id == old(builder).layer.map_id
                    &&& final(builder).layer.layer_id == old(builder).layer.layer_id
                    &&& final(builder).layer.width == old(builder).layer.width
                    &&& final(builder).layer.height == old(builder).layer.height
                    &&& final(self).store.fresh_layer(final(builder).layer)
                    &&& final(self).store.next_entity == if old(builder).layer.cell(pos) is Some {
                        old(self).store.next_entity
                    } else {
                        (old(self).store.next_entity + 1) as u64
                    }
                    &&& final(self).wf()
                    &&& final(self).store.layers == old(self).store.layers
                    &&& final(self).store.dirty == old(self).store.dirty
                    &&& final(self).events == old(self).events
                    &&& final(self).tilesets == old(self).tilesets
                    &&& final(self).auto_tile == old(self).auto_tile
                },
            },
    {
        let tileset_id = self.get_tileset_id(&tile_id)?;
        let tile_index = self.get_tile_index(&tile_id)?;
        let template = self.make_tile(&tile_id, tileset_id, tile_index);
        let fresh = self.store.next_entity;
        let entity = match builder.set_tile(pos, template, fresh) {
            Ok(e) => e,
            Err(e) => {
                return Err(TilePlacementError::MapError(e));
            },
        };
        if entity == fresh {
            self.store.next_entity = fresh + 1;
        }
        proof {
            assert(self.store.layer_ids() == old(self).store.layer_ids());
            assert(self.store.wf());
            assert(old(builder).layer.entities_below(self.store.next_entity));
            let old_cell = old(builder).layer.cell(pos);
            lemma_flat_bound(old(builder).layer.width, old(builder).layer.height, pos);
            assert(old(builder).layer.cells@[flat_index(old(builder).layer.width, pos)] == old_cell);
            if old_cell is Some {
                assert(old(builder).layer.cells@[flat_index(old(builder).layer.width, pos)] is Some);
            }
            lemma_fresh_layer_write(
                old(self).store,
                self.store,
                old(builder).layer,
                builder.layer,
                flat_index(old(builder).layer.width, pos),
                placed(template, entity, pos),
            );
        }
        Ok(PlacedTile::Added { old_tile: None, new_tile: (entity, tile_id) })
    }
}

} // verus!
