//! Properties of the placement engine that relate several calls, or hold of
//! every state.
use vstd::prelude::*;
use crate::coord::TileCoord;
use crate::placement::{
    place_spec, remove_spec, replace_spec, toggle_matching_spec, toggle_spec, try_place_spec, PlacedTile,
    RemoveAutoTileEvent, TileParent, TilePlacementError, TilePlacer, animation_of,
};
use crate::store::{flat_index, lemma_tile_at, placed, Tile, TileStore};
use crate::tile::{group_equal, TileId};
use crate::tileset::find_index;

verus! {

/// Cell `i` of layer `l` holds a tile that lies at `c`.
pub open spec fn located(s: TileStore, l: int, i: int, c: TileCoord) -> bool {
    &&& 0 <= l < s.layers@.len()
    &&& 0 <= i < s.layers@[l].cells@.len()
    &&& s.layers@[l].cells@[i] is Some
    &&& s.layers@[l].map_id == c.map_id
    &&& s.layers@[l].layer_id == c.layer_id
    &&& s.layers@[l].cells@[i]->Some_0.pos == c.pos
}

/// The texture index that a tile of `id` is drawn with, for an identity that resolves.
pub open spec fn texture_of(p: TilePlacer, id: TileId) -> usize {
    p.new_tile(id, p.resolve(id)->Ok_0.0, p.resolve(id)->Ok_0.1).texture_index as usize
}

/// At most one tile occupies a coordinate: in a well-formed store, two cells
/// whose tiles lie at the same coordinate are one cell. Every operation of the
/// store and of the placer keeps the store well formed.
pub proof fn lemma_one_occupant(s: TileStore, c: TileCoord, l1: int, i1: int, l2: int, i2: int)
    requires
        s.wf(),
        located(s, l1, i1, c),
        located(s, l2, i2, c),
    ensures
        l1 == l2,
        i1 == i2,
{
    if l1 != l2 {
        assert(s.layer_ids()[l1] == s.layer_ids()[l2]);
    }
    assert(s.layers@[l1].wf());
    assert(flat_index(s.layers@[l1].width, c.pos) == i1);
}

/// Placing `b` where a tile that resolves to `a` lies always succeeds, reports
/// `a` as displaced and installs `b`.
pub proof fn lemma_place_displaces(
    old: TilePlacer,
    new: TilePlacer,
    a: TileId,
    b: TileId,
    c: TileCoord,
    r: Result<PlacedTile, TilePlacementError>,
)
    requires
        old.wf(),
        place_spec(old, new, b, c, r),
        old.resolve(b) is Ok,
        old.existing(b, c) is Some,
        old.existing(b, c)->Some_0.id == Some(a),
    ensures
        r == Ok::<PlacedTile, TilePlacementError>(
            PlacedTile::Added {
                old_tile: Some((old.existing(b, c)->Some_0.entity, Some(a))),
                new_tile: (old.store.next_entity, b),
            },
        ),
        new.store.tile_at(c) == Some(
            placed(old.new_tile(b, old.resolve(b)->Ok_0.0, old.resolve(b)->Ok_0.1), old.store.next_entity, c.pos),
        ),
{
    lemma_tile_at(old.store, c);
}

/// After `try_place(a, c)` on an empty coordinate, `try_place(b, c)` fails,
/// names `a` as the occupant, and leaves `a` in place, whether or not `b`
/// resolves; the tileset of `b` must be registered, and `a`'s texture must
/// map back to `a` in it.
pub proof fn lemma_try_place_blocks(
    s0: TilePlacer,
    s1: TilePlacer,
    s2: TilePlacer,
    a: TileId,
    b: TileId,
    c: TileCoord,
    r1: Result<PlacedTile, TilePlacementError>,
    r2: Result<PlacedTile, TilePlacementError>,
)
    requires
        s0.wf(),
        try_place_spec(s0, s1, a, c, r1),
        try_place_spec(s1, s2, b, c, r2),
        s0.store.tile_at(c) is None,
        s0.store.location_error(c) is None,
        s0.resolve(a) is Ok,
        s0.tileset_of(b) is Some,
        find_index(s0.tileset_of(b)->Some_0.indices@, texture_of(s0, a)) == Some(a),
    ensures
        r1 == Ok::<PlacedTile, TilePlacementError>(
            PlacedTile::Added { old_tile: None, new_tile: (s0.store.next_entity, a) },
        ),
        r2 == Err::<PlacedTile, TilePlacementError>(
            TilePlacementError::TileAlreadyExists { new: b, existing: Some(a), pos: c.pos },
        ),
        s2 == s1,
        s2.store.tile_at(c) == Some(
            placed(s0.new_tile(a, s0.resolve(a)->Ok_0.0, s0.resolve(a)->Ok_0.1), s0.store.next_entity, c.pos),
        ),
{
}

/// Toggling `a` three times at an empty coordinate installs it, removes it
/// (reporting `a`), and installs it again: the coordinate ends as it was after
/// the first call but for the entity handle, and no other coordinate changes.
pub proof fn lemma_toggle_round_trip(
    s0: TilePlacer,
    s1: TilePlacer,
    s2: TilePlacer,
    s3: TilePlacer,
    a: TileId,
    c: TileCoord,
    r1: Result<PlacedTile, TilePlacementError>,
    r2: Result<PlacedTile, TilePlacementError>,
    r3: Result<PlacedTile, TilePlacementError>,
)
    requires
        s0.wf(),
        toggle_spec(s0, s1, a, c, r1),
        toggle_spec(s1, s2, a, c, r2),
        toggle_spec(s2, s3, a, c, r3),
        s0.store.tile_at(c) is None,
        s0.store.location_error(c) is None,
        s0.resolve(a) is Ok,
        find_index(s0.tileset_of(a)->Some_0.indices@, texture_of(s0, a)) == Some(a),
    ensures
        r1 == Ok::<PlacedTile, TilePlacementError>(
            PlacedTile::Added { old_tile: None, new_tile: (s0.store.next_entity, a) },
        ),
        r2 == Ok::<PlacedTile, TilePlacementError>(
            PlacedTile::Removed { old_tile: Some((s0.store.next_entity, Some(a))) },
        ),
        s2.store.tile_at(c) is None,
        r3 == Ok::<PlacedTile, TilePlacementError>(
            PlacedTile::Added { old_tile: None, new_tile: (s2.store.next_entity, a) },
        ),
        s3.store.tile_at(c) == Some(Tile { entity: s2.store.next_entity, ..s1.store.tile_at(c)->Some_0 }),
        forall|d: TileCoord| d != c ==> #[trigger] s3.store.tile_at(d) == s0.store.tile_at(d),
{
    assert forall|d: TileCoord| d != c implies #[trigger] s3.store.tile_at(d) == s0.store.tile_at(d) by {
        assert(s3.store.tile_at(d) == s2.store.tile_at(d));
        assert(s2.store.tile_at(d) == s1.store.tile_at(d));
    }
}

/// After placing `a1`, `replace` refuses `a2` of the same group, naming `a1`,
/// and changes nothing, whether or not `a2` resolves; it accepts `other`, of
/// another group, and displaces `a1`. `a1` and `other` resolve; `a1`'s
/// texture maps back to `a1` in its tileset, and to nothing of `other`'s group
/// in `other`'s tileset.
pub proof fn lemma_replace_gate(
    s0: TilePlacer,
    s1: TilePlacer,
    s2: TilePlacer,
    s3: TilePlacer,
    a1: TileId,
    a2: TileId,
    other: TileId,
    c: TileCoord,
    r1: Result<PlacedTile, TilePlacementError>,
    r2: Result<PlacedTile, TilePlacementError>,
    r3: Result<PlacedTile, TilePlacementError>,
)
    requires
        s0.wf(),
        place_spec(s0, s1, a1, c, r1),
        replace_spec(s1, s2, a2, c, r2),
        replace_spec(s1, s3, other, c, r3),
        group_equal(a1, a2),
        !group_equal(a1, other),
        s0.store.location_error(c) is None,
        s0.resolve(a1) is Ok,
        s0.resolve(other) is Ok,
        find_index(s0.tileset_of(a1)->Some_0.indices@, texture_of(s0, a1)) == Some(a1),
        find_index(s0.tileset_of(other)->Some_0.indices@, texture_of(s0, a1)) is Some ==> !group_equal(
            find_index(s0.tileset_of(other)->Some_0.indices@, texture_of(s0, a1))->Some_0,
            other,
        ),
    ensures
        r2 == Err::<PlacedTile, TilePlacementError>(
            TilePlacementError::TileAlreadyExists { new: a2, existing: Some(a1), pos: c.pos },
        ),
        s2 == s1,
        r3 == Ok::<PlacedTile, TilePlacementError>(
            PlacedTile::Added {
                old_tile: Some((s0.store.next_entity, find_index(s0.tileset_of(other)->Some_0.indices@, texture_of(s0, a1)))),
                new_tile: (s1.store.next_entity, other),
            },
        ),
        s3.store.tile_at(c) == Some(
            placed(s0.new_tile(other, s0.resolve(other)->Ok_0.0, s0.resolve(other)->Ok_0.1), s1.store.next_entity, c.pos),
        ),
{
}

/// Removing an auto tile queues exactly one notification, which holds the
/// tile's entity, its position before removal and its map and layer; removing
/// any other tile queues none.
pub proof fn lemma_remove_notifies(old: TilePlacer, new: TilePlacer, c: TileCoord, r: Result<(), TilePlacementError>)
    requires
        old.wf(),
        remove_spec(old, new, c, r),
        old.auto_tile,
        old.store.tile_at(c) is Some,
    ensures
        r is Ok,
        old.store.tile_at(c)->Some_0.pos == c.pos,
        old.store.tile_at(c)->Some_0.auto_tile is Some ==> new.events@ == old.events@.push(
            RemoveAutoTileEvent {
                entity: old.store.tile_at(c)->Some_0.entity,
                pos: old.store.tile_at(c)->Some_0.pos,
                parent: TileParent { map_id: c.map_id, layer_id: c.layer_id },
                auto_id: old.store.tile_at(c)->Some_0.auto_tile->Some_0,
            },
        ),
        old.store.tile_at(c)->Some_0.auto_tile is None ==> new.events@ == old.events@,
{
    lemma_tile_at(old.store, c);
    assert(new.events@ =~= old.events@ + old.removal_events(c));
    if old.store.tile_at(c)->Some_0.auto_tile is Some {
        let t = old.store.tile_at(c)->Some_0;
        let ev = RemoveAutoTileEvent {
            entity: t.entity,
            pos: c.pos,
            parent: TileParent { map_id: c.map_id, layer_id: c.layer_id },
            auto_id: t.auto_tile->Some_0,
        };
        assert(old.events@ + seq![ev] =~= old.events@.push(ev));
    } else {
        assert(old.events@ + Seq::<RemoveAutoTileEvent>::empty() =~= old.events@);
    }
}

/// A placement leaves the new tile with the animation its render index calls
/// for: none for a standard index, whatever occupied the coordinate before,
/// and the start, end and speed of an animated one.
pub proof fn lemma_animation_follows_index(
    old: TilePlacer,
    new: TilePlacer,
    id: TileId,
    c: TileCoord,
    r: Result<PlacedTile, TilePlacementError>,
)
    requires
        old.wf(),
        place_spec(old, new, id, c, r),
        old.resolve(id) is Ok,
        old.store.location_error(c) is None,
    ensures
        new.store.tile_at(c) is Some,
        new.store.tile_at(c)->Some_0.animation == animation_of(old.resolve(id)->Ok_0.0),
{
}

/// Every placement policy, called with an identity whose tileset is not
/// registered, fails with `InvalidTileset` and changes nothing, whatever
/// occupies the coordinate.
pub proof fn lemma_unknown_tileset_rejected(
    old: TilePlacer,
    new_place: TilePlacer,
    new_try: TilePlacer,
    new_replace: TilePlacer,
    new_toggle: TilePlacer,
    new_matching: TilePlacer,
    id: TileId,
    c: TileCoord,
    r_place: Result<PlacedTile, TilePlacementError>,
    r_try: Result<PlacedTile, TilePlacementError>,
    r_replace: Result<PlacedTile, TilePlacementError>,
    r_toggle: Result<PlacedTile, TilePlacementError>,
    r_matching: Result<PlacedTile, TilePlacementError>,
)
    requires
        old.tileset_of(id) is None,
        place_spec(old, new_place, id, c, r_place),
        try_place_spec(old, new_try, id, c, r_try),
        replace_spec(old, new_replace, id, c, r_replace),
        toggle_spec(old, new_toggle, id, c, r_toggle),
        toggle_matching_spec(old, new_matching, id, c, r_matching),
    ensures
        r_place == Err::<PlacedTile, TilePlacementError>(TilePlacementError::InvalidTileset(id.tileset_id)),
        new_place == old,
        r_try == Err::<PlacedTile, TilePlacementError>(TilePlacementError::InvalidTileset(id.tileset_id)),
        new_try == old,
        r_replace == Err::<PlacedTile, TilePlacementError>(TilePlacementError::InvalidTileset(id.tileset_id)),
        new_replace == old,
        r_toggle == Err::<PlacedTile, TilePlacementError>(TilePlacementError::InvalidTileset(id.tileset_id)),
        new_toggle == old,
        r_matching == Err::<PlacedTile, TilePlacementError>(TilePlacementError::InvalidTileset(id.tileset_id)),
        new_matching == old,
{
}

} // verus!
