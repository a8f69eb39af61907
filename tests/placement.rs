use bevy_tileset_map::{
    GpuAnimated, Layer, LayerBuilder, MapTileError, PlacedTile, RemoveAutoTileEvent, TileCoord, TileData,
    TileEntry, TileId, TileIndex, TileParent, TilePlacementError, TilePlacer, TilePos, Tileset, Tilesets,
    AutoTileId, ExistingTile,
};

fn grass() -> TileId {
    TileId::new(0, 1)
}

fn water() -> TileId {
    TileId::new(1, 1)
}

fn wall() -> TileId {
    TileId::new(2, 1)
}

fn stone() -> TileId {
    TileId::new(0, 2)
}

fn flower(variant: usize) -> TileId {
    TileId { auto_index: None, variant_index: Some(variant), group_id: 4, tileset_id: 1 }
}

fn registry() -> Tilesets {
    let mut sets = Tilesets::new();
    sets.add(Tileset {
        id: 1,
        tiles: vec![
            TileEntry { group_id: 0, variant_index: None, index: TileIndex::Standard(3), data: TileData { is_auto: false } },
            TileEntry {
                group_id: 1,
                variant_index: None,
                index: TileIndex::Animated(5, 8, 1.5f32.to_bits()),
                data: TileData { is_auto: false },
            },
            TileEntry { group_id: 2, variant_index: None, index: TileIndex::Standard(9), data: TileData { is_auto: true } },
            TileEntry { group_id: 3, variant_index: None, index: TileIndex::Standard(70000), data: TileData { is_auto: false } },
            TileEntry { group_id: 4, variant_index: Some(0), index: TileIndex::Standard(20), data: TileData { is_auto: false } },
            TileEntry { group_id: 4, variant_index: Some(1), index: TileIndex::Standard(21), data: TileData { is_auto: false } },
        ],
        indices: vec![(3, grass()), (5, water()), (9, wall()), (20, flower(0)), (21, flower(1))],
    });
    sets.add(Tileset {
        id: 2,
        tiles: vec![TileEntry { group_id: 0, variant_index: None, index: TileIndex::Standard(4), data: TileData { is_auto: false } }],
        indices: vec![(4, stone())],
    });
    sets
}

fn placer(auto_tile: bool) -> TilePlacer {
    let mut p = TilePlacer::new(registry(), auto_tile);
    p.store.add_layer(Layer::new(0, 0, 4, 4)).unwrap();
    p
}

fn at(x: u32, y: u32) -> TileCoord {
    TileCoord { pos: TilePos { x, y }, map_id: 0, layer_id: 0 }
}

#[test]
fn coord_pos_casts_each_component() {
    let c = TileCoord { pos: TilePos { x: 3, y: u32::MAX }, map_id: 1, layer_id: 2 };
    assert_eq!(c.pos(), (3, -1));
}

#[test]
fn group_equality_ignores_variant_but_not_tileset() {
    let a = TileId { auto_index: None, variant_index: Some(0), group_id: 4, tileset_id: 1 };
    let b = TileId { auto_index: Some(2), variant_index: Some(1), group_id: 4, tileset_id: 1 };
    assert!(a.eq_tile_group(&b));
    assert!(!a.eq_tile_group(&TileId::new(4, 2)));
    assert!(!a.eq_tile_group(&TileId::new(5, 1)));
    assert!(a.eq_tileset(&TileId::new(5, 1)));
}

#[test]
fn base_index_of_both_shapes() {
    assert_eq!(TileIndex::Standard(7).base_index(), 7);
    assert_eq!(TileIndex::Animated(2, 6, 0).base_index(), 2);
}

#[test]
fn registry_lookups() {
    let sets = registry();
    assert_eq!(sets.position_of(2), Some(1));
    assert_eq!(sets.position_of(9), None);
    let ts = &sets.sets[0];
    assert_eq!(ts.select_tile_by_id(&water()), Some((TileIndex::Animated(5, 8, 1.5f32.to_bits()), TileData { is_auto: false })));
    assert_eq!(ts.select_tile_by_id(&TileId::new(8, 1)), None);
    assert_eq!(ts.get_tile_id(9), Some(wall()));
    assert_eq!(ts.get_tile_id(4), None);
}

#[test]
fn place_on_empty_installs() {
    let mut p = placer(false);
    let r = p.place(grass(), at(1, 2));
    assert_eq!(r, Ok(PlacedTile::Added { old_tile: None, new_tile: (0, grass()) }));
    let t = p.store.get_tile(at(1, 2)).unwrap();
    assert_eq!(t.entity, 0);
    assert_eq!(t.pos, TilePos { x: 1, y: 2 });
    assert_eq!(t.texture_index, 3);
    assert_eq!(t.animation, None);
    assert_eq!(t.tileset, Some(1));
    assert_eq!(t.auto_tile, None);
    assert_eq!(p.store.dirty, vec![at(1, 2)]);
    assert_eq!(p.store.get_tile(at(2, 1)), None);
}

#[test]
fn place_displaces_any_occupant() {
    let mut p = placer(false);
    p.place(grass(), at(0, 0)).unwrap();
    let r = p.place(water(), at(0, 0));
    assert_eq!(r, Ok(PlacedTile::Added { old_tile: Some((0, Some(grass()))), new_tile: (1, water()) }));
    assert_eq!(p.store.get_tile(at(0, 0)).unwrap().entity, 1);
    assert_eq!(p.store.dirty, vec![at(0, 0), at(0, 0), at(0, 0)]);
}

#[test]
fn try_place_on_occupied_fails_and_keeps_occupant() {
    let mut p = placer(false);
    assert_eq!(p.try_place(grass(), at(3, 3)), Ok(PlacedTile::Added { old_tile: None, new_tile: (0, grass()) }));
    let before = p.clone();
    let r = p.try_place(water(), at(3, 3));
    assert_eq!(
        r,
        Err(TilePlacementError::TileAlreadyExists { new: water(), existing: Some(grass()), pos: TilePos { x: 3, y: 3 } })
    );
    assert_eq!(p, before);
    assert_eq!(p.store.get_tile(at(3, 3)).unwrap().texture_index, 3);
}

#[test]
fn toggle_three_times_returns_to_occupied() {
    let mut p = placer(false);
    assert_eq!(p.toggle(grass(), at(2, 2)), Ok(PlacedTile::Added { old_tile: None, new_tile: (0, grass()) }));
    let first = p.store.get_tile(at(2, 2)).unwrap();
    assert_eq!(p.toggle(grass(), at(2, 2)), Ok(PlacedTile::Removed { old_tile: Some((0, Some(grass()))) }));
    assert_eq!(p.store.get_tile(at(2, 2)), None);
    assert_eq!(p.toggle(grass(), at(2, 2)), Ok(PlacedTile::Added { old_tile: None, new_tile: (1, grass()) }));
    let third = p.store.get_tile(at(2, 2)).unwrap();
    assert_eq!(third.entity, 1);
    assert_eq!(third.texture_index, first.texture_index);
    assert_eq!(third.tileset, first.tileset);
    assert_eq!(third.animation, first.animation);
}

#[test]
fn toggle_removes_any_occupant() {
    let mut p = placer(false);
    p.place(water(), at(1, 1)).unwrap();
    assert_eq!(p.toggle(grass(), at(1, 1)), Ok(PlacedTile::Removed { old_tile: Some((0, Some(water()))) }));
    assert_eq!(p.store.get_tile(at(1, 1)), None);
}

#[test]
fn replace_blocks_same_group_and_accepts_other() {
    let mut p = placer(false);
    p.place(grass(), at(0, 1)).unwrap();
    let variant = TileId { auto_index: None, variant_index: Some(1), group_id: 0, tileset_id: 1 };
    let before = p.clone();
    assert_eq!(
        p.replace(variant, at(0, 1)),
        Err(TilePlacementError::TileAlreadyExists { new: variant, existing: Some(grass()), pos: TilePos { x: 0, y: 1 } })
    );
    assert_eq!(p, before);
    assert_eq!(p.replace(water(), at(0, 1)), Ok(PlacedTile::Added { old_tile: Some((0, Some(grass()))), new_tile: (1, water()) }));
    assert_eq!(p.store.get_tile(at(0, 1)).unwrap().texture_index, 5);
}

#[test]
fn replace_on_empty_places() {
    let mut p = placer(false);
    assert_eq!(p.replace(grass(), at(0, 0)), Ok(PlacedTile::Added { old_tile: None, new_tile: (0, grass()) }));
}

#[test]
fn occupant_of_other_tileset_is_unresolved_but_occupied() {
    let mut p = placer(false);
    p.place(stone(), at(2, 0)).unwrap();
    assert_eq!(
        p.try_place(grass(), at(2, 0)),
        Err(TilePlacementError::TileAlreadyExists { new: grass(), existing: None, pos: TilePos { x: 2, y: 0 } })
    );
    assert_eq!(p.replace(grass(), at(2, 0)), Ok(PlacedTile::Added { old_tile: Some((0, None)), new_tile: (1, grass()) }));
}

#[test]
fn toggle_matching_three_ways() {
    let mut p = placer(false);
    assert_eq!(p.toggle_matching(grass(), at(1, 3)), Ok(PlacedTile::Added { old_tile: None, new_tile: (0, grass()) }));
    let before = p.clone();
    assert_eq!(
        p.toggle_matching(water(), at(1, 3)),
        Err(TilePlacementError::TileAlreadyExists { new: water(), existing: Some(grass()), pos: TilePos { x: 1, y: 3 } })
    );
    assert_eq!(p, before);
    assert_eq!(p.toggle_matching(grass(), at(1, 3)), Ok(PlacedTile::Removed { old_tile: Some((0, Some(grass()))) }));
    assert_eq!(p.store.get_tile(at(1, 3)), None);
}

#[test]
fn removing_auto_tile_sends_one_event() {
    let mut p = placer(true);
    p.place(wall(), at(3, 1)).unwrap();
    let t = p.store.get_tile(at(3, 1)).unwrap();
    assert_eq!(t.auto_tile, Some(AutoTileId { group_id: 2, tileset_id: 1 }));
    assert_eq!(p.remove(at(3, 1)), Ok(()));
    assert_eq!(
        p.events,
        vec![RemoveAutoTileEvent {
            entity: 0,
            pos: TilePos { x: 3, y: 1 },
            parent: TileParent { map_id: 0, layer_id: 0 },
            auto_id: AutoTileId { group_id: 2, tileset_id: 1 },
        }]
    );
    assert_eq!(p.store.get_tile(at(3, 1)), None);
}

#[test]
fn removing_plain_tile_sends_no_event() {
    let mut p = placer(true);
    p.place(grass(), at(3, 1)).unwrap();
    assert_eq!(p.remove(at(3, 1)), Ok(()));
    assert!(p.events.is_empty());
}

#[test]
fn displacing_auto_tile_sends_event() {
    let mut p = placer(true);
    p.place(wall(), at(0, 2)).unwrap();
    p.place(grass(), at(0, 2)).unwrap();
    assert_eq!(p.events.len(), 1);
    assert_eq!(p.events[0].entity, 0);
}

#[test]
fn without_auto_tiling_no_link_and_no_event() {
    let mut p = placer(false);
    p.place(wall(), at(0, 2)).unwrap();
    assert_eq!(p.store.get_tile(at(0, 2)).unwrap().auto_tile, None);
    p.remove(at(0, 2)).unwrap();
    assert!(p.events.is_empty());
}

#[test]
fn remove_is_idempotent_and_reports_bad_locations() {
    let mut p = placer(false);
    assert_eq!(p.remove(at(1, 1)), Ok(()));
    assert_eq!(p.remove(at(1, 1)), Ok(()));
    assert!(p.store.dirty.is_empty());
    assert_eq!(p.remove(at(4, 0)), Err(TilePlacementError::MapError(MapTileError::OutOfBounds)));
    let missing = TileCoord { pos: TilePos { x: 0, y: 0 }, map_id: 0, layer_id: 5 };
    assert_eq!(p.remove(missing), Err(TilePlacementError::MapError(MapTileError::NonExistent)));
}

#[test]
fn standard_over_animated_clears_animation() {
    let mut p = placer(false);
    p.place(water(), at(2, 3)).unwrap();
    let t = p.store.get_tile(at(2, 3)).unwrap();
    assert_eq!(t.texture_index, 5);
    assert_eq!(t.animation, Some(GpuAnimated { start: 5, end: 8, speed_bits: 1.5f32.to_bits() }));
    p.place(grass(), at(2, 3)).unwrap();
    assert_eq!(p.store.get_tile(at(2, 3)).unwrap().animation, None);
    p.place(water(), at(2, 3)).unwrap();
    assert_eq!(
        p.store.get_tile(at(2, 3)).unwrap().animation,
        Some(GpuAnimated { start: 5, end: 8, speed_bits: 1.5f32.to_bits() })
    );
}

#[test]
fn texture_index_keeps_low_sixteen_bits() {
    let mut p = placer(false);
    p.place(TileId::new(3, 1), at(0, 0)).unwrap();
    assert_eq!(p.store.get_tile(at(0, 0)).unwrap().texture_index, 4464);
}

#[test]
fn unknown_tileset_fails_without_writes() {
    let mut p = placer(false);
    p.place(grass(), at(0, 0)).unwrap();
    let before = p.clone();
    let unknown = TileId::new(0, 9);
    assert_eq!(p.place(unknown, at(1, 0)), Err(TilePlacementError::InvalidTileset(9)));
    assert_eq!(p.place(unknown, at(0, 0)), Err(TilePlacementError::InvalidTileset(9)));
    assert_eq!(p.replace(unknown, at(0, 0)), Err(TilePlacementError::InvalidTileset(9)));
    assert_eq!(p.try_place(unknown, at(1, 0)), Err(TilePlacementError::InvalidTileset(9)));
    assert_eq!(p.toggle(unknown, at(1, 0)), Err(TilePlacementError::InvalidTileset(9)));
    assert_eq!(p.toggle_matching(unknown, at(1, 0)), Err(TilePlacementError::InvalidTileset(9)));
    assert_eq!(p.update(unknown, 0), Err(TilePlacementError::InvalidTileset(9)));
    assert_eq!(p, before);
}

#[test]
fn unknown_tile_fails_without_writes() {
    let mut p = placer(false);
    let before = p.clone();
    assert_eq!(p.place(TileId::new(8, 1), at(0, 0)), Err(TilePlacementError::InvalidTile(TileId::new(8, 1))));
    assert_eq!(p, before);
}

#[test]
fn place_outside_the_store_is_a_map_error() {
    let mut p = placer(false);
    assert_eq!(p.place(grass(), at(0, 4)), Err(TilePlacementError::MapError(MapTileError::OutOfBounds)));
    let missing = TileCoord { pos: TilePos { x: 0, y: 0 }, map_id: 3, layer_id: 0 };
    assert_eq!(p.place(grass(), missing), Err(TilePlacementError::MapError(MapTileError::NonExistent)));
    assert_eq!(p.store.next_entity, 0);
}

#[test]
fn update_rewrites_in_place() {
    let mut p = placer(true);
    p.place(grass(), at(1, 0)).unwrap();
    assert_eq!(p.update(water(), 0), Ok(()));
    let t = p.store.get_tile(at(1, 0)).unwrap();
    assert_eq!(t.entity, 0);
    assert_eq!(t.texture_index, 5);
    assert_eq!(t.animation, Some(GpuAnimated { start: 5, end: 8, speed_bits: 1.5f32.to_bits() }));
    assert_eq!(p.update(wall(), 0), Ok(()));
    let t = p.store.get_tile(at(1, 0)).unwrap();
    assert_eq!(t.animation, None);
    assert_eq!(t.auto_tile, Some(AutoTileId { group_id: 2, tileset_id: 1 }));
    assert!(p.events.is_empty());
    assert_eq!(p.update(grass(), 0), Ok(()));
    assert_eq!(p.store.get_tile(at(1, 0)).unwrap().auto_tile, None);
    assert_eq!(p.events.len(), 1);
    assert_eq!(p.events[0].auto_id, AutoTileId { group_id: 2, tileset_id: 1 });
    assert_eq!(p.update(grass(), 42), Err(TilePlacementError::MapError(MapTileError::NonExistent)));
}

#[test]
fn add_to_layer_builds_a_layer() {
    let mut p = placer(true);
    let mut builder = LayerBuilder::new(0, 1, 2, 2);
    let pos = TilePos { x: 1, y: 1 };
    assert_eq!(p.add_to_layer(grass(), pos, &mut builder), Ok(PlacedTile::Added { old_tile: None, new_tile: (0, grass()) }));
    assert_eq!(p.store.next_entity, 1);
    assert_eq!(p.add_to_layer(wall(), pos, &mut builder), Ok(PlacedTile::Added { old_tile: None, new_tile: (0, wall()) }));
    assert_eq!(p.store.next_entity, 1);
    assert_eq!(
        p.add_to_layer(grass(), TilePos { x: 2, y: 0 }, &mut builder),
        Err(TilePlacementError::MapError(MapTileError::OutOfBounds))
    );
    assert_eq!(
        p.add_to_layer(TileId::new(0, 9), pos, &mut builder),
        Err(TilePlacementError::InvalidTileset(9))
    );
    assert_eq!(p.store.add_layer(builder.build()), Ok(()));
    let c = TileCoord { pos, map_id: 0, layer_id: 1 };
    let t = p.store.get_tile(c).unwrap();
    assert_eq!(t.entity, 0);
    assert_eq!(t.texture_index, 9);
    assert_eq!(t.auto_tile, Some(AutoTileId { group_id: 2, tileset_id: 1 }));
    assert!(p.events.is_empty());
    assert_eq!(p.place(grass(), at(0, 0)), Ok(PlacedTile::Added { old_tile: None, new_tile: (1, grass()) }));
}

#[test]
fn adding_a_layer_twice_is_refused() {
    let mut p = placer(false);
    assert_eq!(p.store.add_layer(Layer::new(0, 0, 1, 1)), Err(MapTileError::AlreadyExists));
    assert_eq!(p.store.add_layer(Layer::new(1, 0, 1, 1)), Ok(()));
}

#[test]
fn existing_tile_snapshot_defaults() {
    let e = ExistingTile::new(4, Some(grass()), 3);
    assert_eq!(e.entity, 4);
    assert!(!e.is_animated);
    assert!(!e.is_auto);
}

#[test]
fn variants_resolve_by_index() {
    let mut p = placer(false);
    p.place(flower(1), at(0, 0)).unwrap();
    assert_eq!(p.store.get_tile(at(0, 0)).unwrap().texture_index, 21);
    p.place(TileId::new(4, 1), at(1, 0)).unwrap();
    assert_eq!(p.store.get_tile(at(1, 0)).unwrap().texture_index, 20);
    let variant_of_plain = TileId { auto_index: None, variant_index: Some(7), group_id: 0, tileset_id: 1 };
    p.place(variant_of_plain, at(2, 0)).unwrap();
    assert_eq!(p.store.get_tile(at(2, 0)).unwrap().texture_index, 3);
    assert_eq!(p.place(flower(5), at(3, 0)), Err(TilePlacementError::InvalidTile(flower(5))));
}

#[test]
fn replace_sees_other_variant_as_same_group() {
    let mut p = placer(false);
    p.place(flower(0), at(0, 3)).unwrap();
    assert_eq!(
        p.replace(flower(1), at(0, 3)),
        Err(TilePlacementError::TileAlreadyExists { new: flower(1), existing: Some(flower(0)), pos: TilePos { x: 0, y: 3 } })
    );
}

#[test]
fn unknown_tileset_fails_on_occupied_coordinate() {
    let mut p = placer(false);
    p.place(grass(), at(0, 0)).unwrap();
    let before = p.clone();
    let unknown = TileId::new(0, 9);
    assert_eq!(p.try_place(unknown, at(0, 0)), Err(TilePlacementError::InvalidTileset(9)));
    assert_eq!(p.toggle(unknown, at(0, 0)), Err(TilePlacementError::InvalidTileset(9)));
    assert_eq!(p.toggle_matching(unknown, at(0, 0)), Err(TilePlacementError::InvalidTileset(9)));
    assert_eq!(p, before);
}

#[test]
fn unresolved_identity_of_known_tileset_meets_the_occupant_first() {
    let mut p = placer(false);
    p.place(flower(0), at(0, 0)).unwrap();
    let before = p.clone();
    let missing_variant = flower(5);
    let missing_group = TileId::new(8, 1);
    let pos = TilePos { x: 0, y: 0 };
    assert_eq!(
        p.try_place(missing_group, at(0, 0)),
        Err(TilePlacementError::TileAlreadyExists { new: missing_group, existing: Some(flower(0)), pos })
    );
    assert_eq!(
        p.replace(missing_variant, at(0, 0)),
        Err(TilePlacementError::TileAlreadyExists { new: missing_variant, existing: Some(flower(0)), pos })
    );
    assert_eq!(
        p.toggle_matching(missing_group, at(0, 0)),
        Err(TilePlacementError::TileAlreadyExists { new: missing_group, existing: Some(flower(0)), pos })
    );
    assert_eq!(p, before);
    assert_eq!(p.replace(missing_group, at(0, 0)), Err(TilePlacementError::InvalidTile(missing_group)));
    assert_eq!(p, before);
    assert_eq!(
        p.toggle_matching(missing_variant, at(0, 0)),
        Ok(PlacedTile::Removed { old_tile: Some((0, Some(flower(0)))) })
    );
    assert_eq!(p.store.get_tile(at(0, 0)), None);
    p.place(grass(), at(0, 0)).unwrap();
    assert_eq!(p.toggle(missing_group, at(0, 0)), Ok(PlacedTile::Removed { old_tile: Some((1, Some(grass()))) }));
    assert_eq!(p.store.get_tile(at(0, 0)), None);
    assert_eq!(p.try_place(missing_group, at(0, 0)), Err(TilePlacementError::InvalidTile(missing_group)));
}

#[test]
fn remove_on_empty_changes_nothing() {
    let mut p = placer(true);
    p.place(grass(), at(0, 0)).unwrap();
    let before = p.clone();
    assert_eq!(p.remove(at(1, 1)), Ok(()));
    assert_eq!(p, before);
}

#[test]
fn removed_and_displaced_handles_leave_the_store() {
    let mut p = placer(false);
    p.place(grass(), at(0, 0)).unwrap();
    p.place(water(), at(0, 0)).unwrap();
    assert_eq!(p.store.find_entity(0), None);
    assert!(p.store.find_entity(1).is_some());
    p.remove(at(0, 0)).unwrap();
    assert_eq!(p.store.find_entity(1), None);
}
