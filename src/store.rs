use vstd::prelude::*;
use crate::coord::{TileCoord, TilePos};
use crate::tile::{AutoTileId, TilesetId};

verus! {

/// Animation parameters of a tile: the first and last texture index of the
/// loop, and the bit pattern of its `f32` playback speed.
#[derive(Copy, Clone, Debug, PartialEq, Eq, Structural)]
pub struct GpuAnimated {
    pub start: u32,
    pub end: u32,
    pub speed_bits: u32,
}

/// A tile entity with its components.
#[derive(Copy, Clone, Debug, PartialEq, Eq, Structural)]
pub struct Tile {
    /// The entity handle.
    pub entity: u64,
    pub pos: TilePos,
    pub texture_index: u16,
    pub animation: Option<GpuAnimated>,
    /// The tileset this tile was placed from.
    pub tileset: Option<TilesetId>,
    pub auto_tile: Option<AutoTileId>,
}

/// Failures of the tile store.
#[derive(Copy, Clone, Debug, PartialEq, Eq, Structural)]
pub enum MapTileError {
    /// The position lies outside the layer.
    OutOfBounds,
    /// The layer already exists.
    AlreadyExists,
    /// The map or layer does not exist, or holds no such tile.
    NonExistent,
}

/// One layer of a map: `width * height` cells, stored row after row.
#[derive(Clone, Debug, PartialEq, Eq)]
pub struct Layer {
    pub map_id: u16,
    pub layer_id: u16,
    pub width: u32,
    pub height: u32,
    pub cells: Vec<Option<Tile>>,
}

/// The cell that holds position `pos` in a layer of the given width.
pub open spec fn flat_index(width: u32, pos: TilePos) -> int {
    pos.y as int * width as int + pos.x as int
}

/// Every position within a layer's bounds names one of its cells.
pub proof fn lemma_flat_bound(w: u32, h: u32, pos: TilePos)
    requires
        pos.x < w,
        pos.y < h,
    ensures
        0 <= flat_index(w, pos) < w as int * h as int,
{
    let (x, y, wi, hi) = (pos.x as int, pos.y as int, w as int, h as int);
    assert(y * wi + x < wi * hi) by (nonlinear_arith)
        requires
            0 <= x < wi,
            0 <= y < hi,
    ;
    assert(0 <= y * wi) by (nonlinear_arith)
        requires
            0 <= y,
            0 <= wi,
    ;
}

proof fn lemma_flat_injective(w: u32, a: TilePos, b: TilePos)
    requires
        a.x < w,
        b.x < w,
        flat_index(w, a) == flat_index(w, b),
    ensures
        a == b,
{
    let (ax, ay, bx, by_, wi) = (a.x as int, a.y as int, b.x as int, b.y as int, w as int);
    assert(ay == by_) by (nonlinear_arith)
        requires
            0 <= ax < wi,
            0 <= bx < wi,
            0 <= ay,
            0 <= by_,
            ay * wi + ax == by_ * wi + bx,
    {
        if ay < by_ {
            assert(ay * wi + wi <= by_ * wi);
        } else if by_ < ay {
            assert(by_ * wi + wi <= ay * wi);
        }
    }
}

impl Layer {
    pub open spec fn in_bounds(self, pos: TilePos) -> bool {
        pos.x < self.width && pos.y < self.height
    }

    /// Every cell that holds a tile holds one whose position names that cell.
    pub open spec fn wf(self) -> bool {
        &&& self.cells@.len() == self.width as int * self.height as int
        &&& forall|i: int|
            0 <= i < self.cells@.len() && (#[trigger] self.cells@[i]) is Some ==> {
                &&& self.in_bounds(self.cells@[i]->Some_0.pos)
                &&& flat_index(self.width, self.cells@[i]->Some_0.pos) == i
            }
    }

    /// What occupies `pos`.
    pub open spec fn cell(self, pos: TilePos) -> Option<Tile> {
        if self.in_bounds(pos) {
            self.cells@[flat_index(self.width, pos)]
        } else {
            None
        }
    }

    /// No two cells of the layer hold the same handle.
    pub open spec fn unique_entities(self) -> bool {
        forall|i: int, j: int|
            0 <= i < self.cells@.len() && 0 <= j < self.cells@.len() && (#[trigger] self.cells@[i]) is Some
                && (#[trigger] self.cells@[j]) is Some && self.cells@[i]->Some_0.entity == self.cells@[j]->Some_0.entity
                ==> i == j
    }

    /// Every tile of the layer has an entity handle below `n`.
    pub open spec fn entities_below(self, n: u64) -> bool {
        forall|i: int| 0 <= i < self.cells@.len() && (#[trigger] self.cells@[i]) is Some ==> self.cells@[i]->Some_0.entity < n
    }

    /// An empty layer.
    pub fn new(map_id: u16, layer_id: u16, width: u32, height: u32) -> (r: Layer)
        requires
            width as int * height as int <= usize::MAX,
        ensures
            r.wf(),
            r.map_id == map_id,
            r.layer_id == layer_id,
            r.width == width,
            r.height == height,
            forall|p: TilePos| r.cell(p) is None,
            forall|i: int| 0 <= i < r.cells@.len() ==> (#[trigger] r.cells@[i]) is None,
    {
        let n: usize = (width as usize) * (height as usize);
        let mut cells: Vec<Option<Tile>> = Vec::new();
        let mut i: usize = 0;
        while i < n
            invariant
                i <= n,
                cells@.len() == i,
                forall|j: int| 0 <= j < i ==> (#[trigger] cells@[j]) is None,
            decreases n - i,
        {
            cells.push(None);
            i = i + 1;
        }
        let r = Layer { map_id, layer_id, width, height, cells };
        assert forall|p: TilePos| r.cell(p) is None by {
            if r.in_bounds(p) {
                lemma_flat_bound(width, height, p);
            }
        }
        r
    }

    /// The cell that holds `pos`, if `pos` lies within the layer.
    pub fn slot(&self, pos: TilePos) -> (r: Option<usize>)
        requires
            self.wf(),
        ensures
            match r {
                Some(i) => self.in_bounds(pos) && i == flat_index(self.width, pos) && i < self.cells@.len(),
                None => !self.in_bounds(pos),
            },
    {
        let n: usize = self.cells.len();
        if pos.x < self.width && pos.y < self.height {
            proof {
                lemma_flat_bound(self.width, self.height, pos);
            }
            Some((pos.y as usize) * (self.width as usize) + (pos.x as usize))
        } else {
            None
        }
    }
}

/// `new` is `old` with cell `i` of layer `l` set to `v`.
pub open spec fn cell_written(old: Seq<Layer>, new: Seq<Layer>, l: int, i: int, v: Option<Tile>) -> bool {
    &&& new.len() == old.len()
    &&& 0 <= l < old.len()
    &&& forall|k: int| 0 <= k < old.len() && k != l ==> new[k] == old[k]
    &&& new[l].map_id == old[l].map_id
    &&& new[l].layer_id == old[l].layer_id
    &&& new[l].width == old[l].width
    &&& new[l].height == old[l].height
    &&& new[l].cells@ == old[l].cells@.update(i, v)
}

/// The layers of all maps, and what has been marked dirty for re-rendering.
#[derive(Clone, Debug, PartialEq, Eq)]
pub struct TileStore {
    pub layers: Vec<Layer>,
    /// The handle that the next tile entity receives.
    pub next_entity: u64,
    /// Coordinates whose region must be rendered again, oldest first.
    pub dirty: Vec<TileCoord>,
}

/// `t` as installed at `pos` under entity handle `entity`.
pub open spec fn placed(t: Tile, entity: u64, pos: TilePos) -> Tile {
    Tile { entity, pos, ..t }
}

/// Cell `i` of layer `l` holds the tile of entity `e`.
pub open spec fn entity_at(layers: Seq<Layer>, l: int, i: int, e: u64) -> bool {
    &&& 0 <= l < layers.len()
    &&& 0 <= i < layers[l].cells@.len()
    &&& layers[l].cells@[i] is Some
    &&& layers[l].cells@[i]->Some_0.entity == e
}

/// No two cells hold a tile with the same entity handle.
pub open spec fn unique_handles(layers: Seq<Layer>) -> bool {
    forall|a: int, i: int, b: int, j: int, e: u64|
        #[trigger] entity_at(layers, a, i, e) && #[trigger] entity_at(layers, b, j, e) ==> a == b && i == j
}

/// The cells of `new` other than cell `i` of layer `l` are those of `old`.
proof fn lemma_written_slot(old: Seq<Layer>, new: Seq<Layer>, l: int, i: int, v: Option<Tile>, a: int, x: int)
    requires
        cell_written(old, new, l, i, v),
        0 <= i < old[l].cells@.len(),
        0 <= a < old.len(),
    ensures
        new[a].cells@.len() == old[a].cells@.len(),
        (a != l || x != i) && 0 <= x < old[a].cells@.len() ==> new[a].cells@[x] == old[a].cells@[x],
        a == l && x == i && 0 <= x < old[a].cells@.len() ==> new[a].cells@[x] == v,
{
}

/// The position of `key` in `ids`.
pub open spec fn layer_slot(ids: Seq<(u16, u16)>, key: (u16, u16)) -> int {
    choose|i: int| 0 <= i < ids.len() && ids[i] == key
}

impl TileStore {
    pub open spec fn layer_ids(self) -> Seq<(u16, u16)> {
        self.layers@.map_values(|l: Layer| (l.map_id, l.layer_id))
    }

    /// Layers are well formed, no two share their map and layer ids, every
    /// entity handle lies below `next_entity`, and no two cells hold the same
    /// handle.
    pub open spec fn wf(self) -> bool {
        &&& forall|l: int| 0 <= l < self.layers@.len() ==> (#[trigger] self.layers@[l]).wf()
        &&& forall|a: int, b: int|
            0 <= a < self.layers@.len() && 0 <= b < self.layers@.len() && a != b ==> #[trigger] self.layer_ids()[a]
                != #[trigger] self.layer_ids()[b]
        &&& forall|l: int, i: int|
            0 <= l < self.layers@.len() && 0 <= i < self.layers@[l].cells@.len() && (#[trigger] self.layers@[l].cells@[i]) is Some
                ==> self.layers@[l].cells@[i]->Some_0.entity < self.next_entity
        &&& unique_handles(self.layers@)
    }

    /// `layer` can join the store: it is well formed, its handles are
    /// distinct, lie below `next_entity`, and none is already in the store.
    pub open spec fn fresh_layer(self, layer: Layer) -> bool {
        &&& layer.wf()
        &&& layer.unique_entities()
        &&& layer.entities_below(self.next_entity)
        &&& forall|i: int|
            0 <= i < layer.cells@.len() && (#[trigger] layer.cells@[i]) is Some ==> !self.has_entity(
                layer.cells@[i]->Some_0.entity,
            )
    }

    pub open spec fn has_layer(self, map_id: u16, layer_id: u16) -> bool {
        self.layer_ids().contains((map_id, layer_id))
    }

    pub open spec fn layer_of(self, map_id: u16, layer_id: u16) -> Layer {
        self.layers@[layer_slot(self.layer_ids(), (map_id, layer_id))]
    }

    /// The tile that occupies `c`.
    pub open spec fn tile_at(self, c: TileCoord) -> Option<Tile> {
        if self.has_layer(c.map_id, c.layer_id) {
            self.layer_of(c.map_id, c.layer_id).cell(c.pos)
        } else {
            None
        }
    }

    /// Why `c` names no cell of the store, if it does not.
    pub open spec fn location_error(self, c: TileCoord) -> Option<MapTileError> {
        if !self.has_layer(c.map_id, c.layer_id) {
            Some(MapTileError::NonExistent)
        } else if !self.layer_of(c.map_id, c.layer_id).in_bounds(c.pos) {
            Some(MapTileError::OutOfBounds)
        } else {
            None
        }
    }

    /// The layers of both stores have the same ids and sizes, in the same order.
    pub open spec fn same_layout(self, other: TileStore) -> bool {
        &&& self.layers@.len() == other.layers@.len()
        &&& forall|l: int|
            0 <= l < self.layers@.len() ==> {
                &&& (#[trigger] self.layers@[l]).map_id == other.layers@[l].map_id
                &&& self.layers@[l].layer_id == other.layers@[l].layer_id
                &&& self.layers@[l].width == other.layers@[l].width
                &&& self.layers@[l].height == other.layers@[l].height
            }
    }

    /// `self` and `other` agree on every coordinate but `c`.
    pub open spec fn agree_except(self, other: TileStore, c: TileCoord) -> bool {
        forall|d: TileCoord| d != c ==> #[trigger] self.tile_at(d) == other.tile_at(d)
    }

    pub open spec fn has_entity(self, e: u64) -> bool {
        exists|l: int, i: int| entity_at(self.layers@, l, i, e)
    }

    /// An empty store.
    pub fn new() -> (r: TileStore)
        ensures
            r.wf(),
            r.layers@.len() == 0,
            r.next_entity == 0,
            r.dirty@.len() == 0,
            forall|c: TileCoord| r.tile_at(c) is None,
    {
        TileStore { layers: Vec::new(), next_entity: 0, dirty: Vec::new() }
    }

    /// The layer with the given ids.
    pub fn find_layer(&self, map_id: u16, layer_id: u16) -> (r: Option<usize>)
        requires
            self.wf(),
        ensures
            match r {
                Some(l) => {
                    &&& self.has_layer(map_id, layer_id)
                    &&& l < self.layers@.len()
                    &&& l == layer_slot(self.layer_ids(), (map_id, layer_id))
                },
                None => !self.has_layer(map_id, layer_id),
            },
    {
        let mut l: usize = 0;
        while l < self.layers.len()
            invariant
                l <= self.layers@.len(),
                self.wf(),
                forall|k: int| 0 <= k < l ==> self.layer_ids()[k] != (map_id, layer_id),
            decreases self.layers@.len() - l,
        {
            if self.layers[l].map_id == map_id && self.layers[l].layer_id == layer_id {
                proof {
                    let ids = self.layer_ids();
                    assert(ids[l as int] == (map_id, layer_id));
                    let j = layer_slot(ids, (map_id, layer_id));
                    assert(ids[j] == (map_id, layer_id));
                    if j != l as int {
                        assert(self.layer_ids()[j] != self.layer_ids()[l as int]);
                    }
                }
                return Some(l);
            }
            l = l + 1;
        }
        proof {
            let ids = self.layer_ids();
            assert(!ids.contains((map_id, layer_id))) by {
                if ids.contains((map_id, layer_id)) {
                    let j = choose|j: int| 0 <= j < ids.len() && ids[j] == (map_id, layer_id);
                    assert(self.layer_ids()[j] != (map_id, layer_id));
                }
            }
        }
        None
    }

    /// The layer and cell that hold `c`.
    pub fn locate(&self, c: TileCoord) -> (r: Result<(usize, usize), MapTileError>)
        requires
            self.wf(),
        ensures
            match r {
                Ok((l, i)) => {
                    &&& self.location_error(c) is None
                    &&& l < self.layers@.len()
                    &&& l == layer_slot(self.layer_ids(), (c.map_id, c.layer_id))
                    &&& self.layers@[l as int].in_bounds(c.pos)
                    &&& i == flat_index(self.layers@[l as int].width, c.pos)
                    &&& i < self.layers@[l as int].cells@.len()
                },
                Err(e) => self.location_error(c) == Some(e),
            },
    {
        match self.find_layer(c.map_id, c.layer_id) {
            None => Err(MapTileError::NonExistent),
            Some(l) => {
                assert(self.layers@[l as int].wf());
                match self.layers[l].slot(c.pos) {
                    None => Err(MapTileError::OutOfBounds),
                    Some(i) => Ok((l, i)),
                }
            },
        }
    }

    /// What occupies `c`.
    pub fn get_tile(&self, c: TileCoord) -> (r: Option<Tile>)
        requires
            self.wf(),
        ensures
            r == self.tile_at(c),
    {
        match self.locate(c) {
            Err(_) => None,
            Ok((l, i)) => self.layers[l].cells[i],
        }
    }

    fn write_cell(&mut self, l: usize, i: usize, v: Option<Tile>)
        requires
            l < old(self).layers@.len(),
            i < old(self).layers@[l as int].cells@.len(),
        ensures
            cell_written(old(self).layers@, final(self).layers@, l as int, i as int, v),
            final(self).next_entity == old(self).next_entity,
            final(self).dirty@ == old(self).dirty@,
    {
        let mut layer = self.layers.remove(l);
        layer.cells.set(i, v);
        self.layers.insert(l, layer);
    }

    /// Installs `tile` at `c` under a fresh entity handle, which it returns.
    pub fn set_tile(&mut self, c: TileCoord, tile: Tile) -> (r: Result<u64, MapTileError>)
        requires
            old(self).wf(),
            old(self).next_entity < u64::MAX,
        ensures
            match old(self).location_error(c) {
                Some(e) => r == Err::<u64, MapTileError>(e) && *final(self) == *old(self),
                None => {
                    &&& r == Ok::<u64, MapTileError>(old(self).next_entity)
                    &&& final(self).wf()
                    &&& final(self).next_entity == old(self).next_entity + 1
                    &&& final(self).same_layout(*old(self))
                    &&& final(self).agree_except(*old(self), c)
                    &&& final(self).tile_at(c) == Some(placed(tile, old(self).next_entity, c.pos))
                    &&& forall|e: u64| #[trigger] final(self).has_entity(e) ==> old(self).has_entity(e) || e == old(self).next_entity
                    &&& forall|d: TileCoord| #[trigger] final(self).location_error(d) == old(self).location_error(d)
                    &&& final(self).dirty@ == old(self).dirty@
                },
            },
    {
        match self.locate(c) {
            Err(e) => Err(e),
            Ok((l, i)) => {
                let entity = self.next_entity;
                let t = Tile { entity, pos: c.pos, ..tile };
                let ghost before = *self;
                self.write_cell(l, i, Some(t));
                self.next_entity = entity + 1;
                proof {
                    lemma_write(before, *self, l as int, i as int, Some(t), c);
                }
                Ok(entity)
            },
        }
    }

    /// Deletes the tile at `c`, if there is one.
    pub fn despawn_tile(&mut self, c: TileCoord) -> (r: Result<(), MapTileError>)
        requires
            old(self).wf(),
        ensures
            match old(self).location_error(c) {
                Some(e) => r == Err::<(), MapTileError>(e) && *final(self) == *old(self),
                None => {
                    &&& r is Ok
                    &&& final(self).wf()
                    &&& final(self).next_entity == old(self).next_entity
                    &&& final(self).same_layout(*old(self))
                    &&& final(self).agree_except(*old(self), c)
                    &&& final(self).tile_at(c) is None
                    &&& forall|e: u64| #[trigger] final(self).has_entity(e) ==> old(self).has_entity(e)
                    &&& old(self).tile_at(c) is Some ==> !final(self).has_entity(old(self).tile_at(c)->Some_0.entity)
                    &&& forall|d: TileCoord| #[trigger] final(self).location_error(d) == old(self).location_error(d)
                    &&& final(self).dirty@ == old(self).dirty@
                },
            },
    {
        match self.locate(c) {
            Err(e) => Err(e),
            Ok((l, i)) => {
                let ghost before = *self;
                self.write_cell(l, i, None);
                proof {
                    lemma_write(before, *self, l as int, i as int, None, c);
                }
                Ok(())
            },
        }
    }

    /// Where the tile of entity `e` lies.
    pub fn find_entity(&self, e: u64) -> (r: Option<(usize, usize)>)
        ensures
            match r {
                Some((l, i)) => entity_at(self.layers@, l as int, i as int, e),
                None => !self.has_entity(e),
            },
    {
        let mut l: usize = 0;
        while l < self.layers.len()
            invariant
                l <= self.layers@.len(),
                forall|a: int, j: int| 0 <= a < l ==> !entity_at(self.layers@, a, j, e),
            decreases self.layers@.len() - l,
        {
            let mut i: usize = 0;
            while i < self.layers[l].cells.len()
                invariant
                    l < self.layers@.len(),
                    i <= self.layers@[l as int].cells@.len(),
                    forall|j: int| 0 <= j < i ==> !entity_at(self.layers@, l as int, j, e),
                decreases self.layers@[l as int].cells@.len() - i,
            {
                match self.layers[l].cells[i] {
                    Some(t) => {
                        if t.entity == e {
                            return Some((l, i));
                        }
                    },
                    None => {},
                }
                i = i + 1;
            }
            l = l + 1;
        }
        None
    }

    /// The coordinate of cell `i` of layer `l`, for a cell that holds a tile.
    pub open spec fn coord_of(self, l: int, i: int) -> TileCoord {
        TileCoord {
            pos: self.layers@[l].cells@[i]->Some_0.pos,
            map_id: self.layers@[l].map_id,
            layer_id: self.layers@[l].layer_id,
        }
    }

    /// Replaces the components of the tile in cell `i` of layer `l`; the tile
    /// keeps its entity handle and position.
    pub fn rewrite(&mut self, l: usize, i: usize, t: Tile)
        requires
            old(self).wf(),
            l < old(self).layers@.len(),
            i < old(self).layers@[l as int].cells@.len(),
            old(self).layers@[l as int].cells@[i as int] is Some,
            t.entity == old(self).layers@[l as int].cells@[i as int]->Some_0.entity,
            t.pos == old(self).layers@[l as int].cells@[i as int]->Some_0.pos,
        ensures
            final(self).wf(),
            final(self).next_entity == old(self).next_entity,
            final(self).dirty@ == old(self).dirty@,
            final(self).same_layout(*old(self)),
            old(self).tile_at(old(self).coord_of(l as int, i as int)) == old(self).layers@[l as int].cells@[i as int],
            final(self).tile_at(old(self).coord_of(l as int, i as int)) == Some(t),
            final(self).agree_except(*old(self), old(self).coord_of(l as int, i as int)),
            forall|d: TileCoord| #[trigger] final(self).location_error(d) == old(self).location_error(d),
            final(self).layers@[l as int].cells@[i as int] == Some(t),
    {
        let ghost before = *self;
        let ghost c = before.coord_of(l as int, i as int);
        proof {
            assert(before.layers@[l as int].wf());
            assert(before.layer_ids()[l as int] == (c.map_id, c.layer_id));
        }
        self.write_cell(l, i, Some(t));
        proof {
            lemma_write(before, *self, l as int, i as int, Some(t), c);
        }
    }

    /// Adds a layer built apart from the store.
    pub fn add_layer(&mut self, layer: Layer) -> (r: Result<(), MapTileError>)
        requires
            old(self).wf(),
            old(self).fresh_layer(layer),
        ensures
            old(self).has_layer(layer.map_id, layer.layer_id) ==> r == Err::<(), MapTileError>(MapTileError::AlreadyExists)
                && *final(self) == *old(self),
            !old(self).has_layer(layer.map_id, layer.layer_id) ==> {
                &&& r is Ok
                &&& final(self).layers@ == old(self).layers@.push(layer)
                &&& final(self).next_entity == old(self).next_entity
                &&& final(self).dirty@ == old(self).dirty@
            },
            final(self).wf(),
    {
        match self.find_layer(layer.map_id, layer.layer_id) {
            Some(_) => Err(MapTileError::AlreadyExists),
            None => {
                let ghost before = *self;
                self.layers.push(layer);
                proof {
                    let ids = before.layer_ids();
                    let n = ids.len();
                    assert(self.layer_ids() =~= ids.push((layer.map_id, layer.layer_id)));
                    assert forall|a: int, b: int|
                        0 <= a < self.layers@.len() && 0 <= b < self.layers@.len() && a != b
                        implies #[trigger] self.layer_ids()[a] != #[trigger] self.layer_ids()[b] by {
                        if a == n {
                            assert(!ids.contains(self.layer_ids()[a]));
                            assert(ids[b] == self.layer_ids()[b]);
                        } else if b == n {
                            assert(!ids.contains(self.layer_ids()[b]));
                            assert(ids[a] == self.layer_ids()[a]);
                        } else {
                            assert(ids[a] == self.layer_ids()[a]);
                            assert(ids[b] == self.layer_ids()[b]);
                        }
                    }
                    assert forall|k: int| 0 <= k < self.layers@.len() implies (#[trigger] self.layers@[k]).wf() by {
                        if k < n {
                            assert(before.layers@[k] == self.layers@[k]);
                        }
                    }
                    assert forall|a: int, j: int|
                        0 <= a < self.layers@.len() && 0 <= j < self.layers@[a].cells@.len()
                            && (#[trigger] self.layers@[a].cells@[j]) is Some
                        implies self.layers@[a].cells@[j]->Some_0.entity < self.next_entity by {
                        if a < n {
                            assert(before.layers@[a] == self.layers@[a]);
                        }
                    }
                    assert forall|a: int, x: int, b: int, y: int, e: u64|
                        #[trigger] entity_at(self.layers@, a, x, e) && #[trigger] entity_at(self.layers@, b, y, e)
                        implies a == b && x == y by {
                        if a < n {
                            assert(before.layers@[a] == self.layers@[a]);
                        }
                        if b < n {
                            assert(before.layers@[b] == self.layers@[b]);
                        }
                        if a < n && b < n {
                            assert(entity_at(before.layers@, a, x, e) && entity_at(before.layers@, b, y, e));
                        } else if a == n && b == n {
                            assert(layer.cells@[x] is Some && layer.cells@[y] is Some);
                        } else if a == n {
                            assert(entity_at(before.layers@, b, y, e));
                            assert(layer.cells@[x] is Some);
                        } else {
                            assert(entity_at(before.layers@, a, x, e));
                            assert(layer.cells@[y] is Some);
                        }
                    }
                }
                Ok(())
            },
        }
    }

    /// Marks the region that holds `c` for re-rendering.
    pub fn notify_chunk_for_tile(&mut self, c: TileCoord)
        ensures
            final(self).dirty@ == old(self).dirty@.push(c),
            final(self).layers == old(self).layers,
            final(self).next_entity == old(self).next_entity,
    {
        self.dirty.push(c);
    }
}

/// A tile that occupies `c` lies at `c`'s position, in a layer that exists
/// and within its bounds.
pub proof fn lemma_tile_at(s: TileStore, c: TileCoord)
    requires
        s.wf(),
    ensures
        s.tile_at(c) is Some ==> s.location_error(c) is None && s.tile_at(c)->Some_0.pos == c.pos,
        s.tile_at(c) is Some ==> s.tile_at(c)->Some_0.entity < s.next_entity,
{
    if s.has_layer(c.map_id, c.layer_id) {
        let l = layer_slot(s.layer_ids(), (c.map_id, c.layer_id));
        let layer = s.layers@[l];
        assert(layer.wf());
        if layer.in_bounds(c.pos) {
            lemma_flat_bound(layer.width, layer.height, c.pos);
            let i = flat_index(layer.width, c.pos);
            if layer.cells@[i] is Some {
                lemma_flat_injective(layer.width, layer.cells@[i]->Some_0.pos, c.pos);
            }
        }
    }
}

/// Writing one cell, with a tile that names that cell, keeps the store well
/// formed and changes what occupies that cell's coordinate alone.
proof fn lemma_write(old: TileStore, new: TileStore, l: int, i: int, v: Option<Tile>, c: TileCoord)
    requires
        old.wf(),
        cell_written(old.layers@, new.layers@, l, i, v),
        old.layer_ids()[l] == (c.map_id, c.layer_id),
        old.layers@[l].in_bounds(c.pos),
        i == flat_index(old.layers@[l].width, c.pos),
        v is Some ==> v->Some_0.pos == c.pos && v->Some_0.entity < new.next_entity,
        v is Some ==> v->Some_0.entity >= old.next_entity || (old.layers@[l].cells@[i] is Some
            && old.layers@[l].cells@[i]->Some_0.entity == v->Some_0.entity),
        new.next_entity >= old.next_entity,
    ensures
        new.wf(),
        forall|e: u64| #[trigger] new.has_entity(e) ==> old.has_entity(e) || (v is Some && e == v->Some_0.entity),
        old.layers@[l].cells@[i] is Some && (v is None || v->Some_0.entity != old.layers@[l].cells@[i]->Some_0.entity)
            ==> !new.has_entity(old.layers@[l].cells@[i]->Some_0.entity),
        new.same_layout(old),
        new.tile_at(c) == v,
        old.tile_at(c) == old.layers@[l].cells@[i],
        new.agree_except(old, c),
        forall|d: TileCoord| #[trigger] new.location_error(d) == old.location_error(d),
{
    let ids = old.layer_ids();
    assert(new.layer_ids() =~= ids);
    lemma_flat_bound(old.layers@[l].width, old.layers@[l].height, c.pos);
    assert(old.layers@[l].wf());
    assert(new.layers@[l].wf()) by {
        assert forall|k: int| 0 <= k < new.layers@[l].cells@.len() && (#[trigger] new.layers@[l].cells@[k]) is Some implies {
            &&& new.layers@[l].in_bounds(new.layers@[l].cells@[k]->Some_0.pos)
            &&& flat_index(new.layers@[l].width, new.layers@[l].cells@[k]->Some_0.pos) == k
        } by {
            if k != i {
                assert(old.layers@[l].cells@[k] == new.layers@[l].cells@[k]);
            }
        }
    }
    assert forall|k: int| 0 <= k < new.layers@.len() implies (#[trigger] new.layers@[k]).wf() by {
        if k != l {
            assert(old.layers@[k].wf());
        }
    }
    assert forall|a: int, j: int|
        0 <= a < new.layers@.len() && 0 <= j < new.layers@[a].cells@.len() && (#[trigger] new.layers@[a].cells@[j]) is Some
        implies new.layers@[a].cells@[j]->Some_0.entity < new.next_entity by {
        if a != l || j != i {
            assert(old.layers@[a].cells@[j] == new.layers@[a].cells@[j]);
        }
    }
    assert forall|a: int, x: int, b: int, y: int, e: u64|
        #[trigger] entity_at(new.layers@, a, x, e) && #[trigger] entity_at(new.layers@, b, y, e) implies a == b && x == y by {
        lemma_written_slot(old.layers@, new.layers@, l, i, v, a, x);
        lemma_written_slot(old.layers@, new.layers@, l, i, v, b, y);
        if (a != l || x != i) && (b != l || y != i) {
            assert(entity_at(old.layers@, a, x, e) && entity_at(old.layers@, b, y, e));
        } else if a != l || x != i {
            assert(entity_at(old.layers@, a, x, e));
            assert(old.layers@[a].cells@[x] is Some);
            assert(entity_at(old.layers@, l, i, e));
        } else if b != l || y != i {
            assert(entity_at(old.layers@, b, y, e));
            assert(old.layers@[b].cells@[y] is Some);
            assert(entity_at(old.layers@, l, i, e));
        }
    }
    assert forall|e: u64| #[trigger] new.has_entity(e) implies old.has_entity(e) || (v is Some && e == v->Some_0.entity) by {
        let (a, x) = choose|a: int, x: int| entity_at(new.layers@, a, x, e);
        lemma_written_slot(old.layers@, new.layers@, l, i, v, a, x);
        if a != l || x != i {
            assert(entity_at(old.layers@, a, x, e));
        }
    }
    if old.layers@[l].cells@[i] is Some && (v is None || v->Some_0.entity != old.layers@[l].cells@[i]->Some_0.entity) {
        let e0 = old.layers@[l].cells@[i]->Some_0.entity;
        if new.has_entity(e0) {
            let (a, x) = choose|a: int, x: int| entity_at(new.layers@, a, x, e0);
            lemma_written_slot(old.layers@, new.layers@, l, i, v, a, x);
            assert(entity_at(old.layers@, a, x, e0));
            assert(entity_at(old.layers@, l, i, e0));
        }
    }
    assert(ids.contains((c.map_id, c.layer_id)));
    let sc = layer_slot(ids, (c.map_id, c.layer_id));
    assert(sc == l);
    assert forall|d: TileCoord| d != c implies #[trigger] new.tile_at(d) == old.tile_at(d) by {
        let key = (d.map_id, d.layer_id);
        if ids.contains(key) {
            let sd = layer_slot(ids, key);
            if sd == l {
                let w = old.layers@[l].width;
                if old.layers@[l].in_bounds(d.pos) {
                    lemma_flat_bound(w, old.layers@[l].height, d.pos);
                    if flat_index(w, d.pos) == i {
                        lemma_flat_injective(w, d.pos, c.pos);
                    }
                }
            }
        }
    }
    assert forall|d: TileCoord| #[trigger] new.location_error(d) == old.location_error(d) by {
        let key = (d.map_id, d.layer_id);
        if ids.contains(key) {
            let sd = layer_slot(ids, key);
        }
    }
}

/// A layer under construction, before it is added to a store.
#[derive(Clone, Debug, PartialEq, Eq)]
pub struct LayerBuilder {
    pub layer: Layer,
}

impl LayerBuilder {
    pub fn new(map_id: u16, layer_id: u16, width: u32, height: u32) -> (r: LayerBuilder)
        requires
            width as int * height as int <= usize::MAX,
        ensures
            r.layer.wf(),
            r.layer.map_id == map_id,
            r.layer.layer_id == layer_id,
            r.layer.width == width,
            r.layer.height == height,
            forall|p: TilePos| r.layer.cell(p) is None,
            forall|i: int| 0 <= i < r.layer.cells@.len() ==> (#[trigger] r.layer.cells@[i]) is None,
    {
        LayerBuilder { layer: Layer::new(map_id, layer_id, width, height) }
    }

    /// Installs `tile` at `pos`. The tile keeps the entity handle of the tile
    /// it overwrites, or receives `fresh` where the cell was empty; the handle
    /// is returned.
    pub fn set_tile(&mut self, pos: TilePos, tile: Tile, fresh: u64) -> (r: Result<u64, MapTileError>)
        requires
            old(self).layer.wf(),
        ensures
            !old(self).layer.in_bounds(pos) ==> r == Err::<u64, MapTileError>(MapTileError::OutOfBounds)
                && *final(self) == *old(self),
            old(self).layer.in_bounds(pos) ==> {
                let e = match old(self).layer.cell(pos) {
                    Some(t) => t.entity,
                    None => fresh,
                };
                &&& r == Ok::<u64, MapTileError>(e)
                &&& final(self).layer.cell(pos) == Some(placed(tile, e, pos))
                &&& final(self).layer.cells@ == old(self).layer.cells@.update(
                    flat_index(old(self).layer.width, pos),
                    Some(placed(tile, e, pos)),
                )
            },
            final(self).layer.wf(),
            final(self).layer.map_id == old(self).layer.map_id,
            final(self).layer.layer_id == old(self).layer.layer_id,
            final(self).layer.width == old(self).layer.width,
            final(self).layer.height == old(self).layer.height,
            forall|p: TilePos| p != pos ==> #[trigger] final(self).layer.cell(p) == old(self).layer.cell(p),
            forall|n: u64|
                old(self).layer.entities_below(n) && (old(self).layer.cell(pos) is Some || fresh < n)
                    ==> #[trigger] final(self).layer.entities_below(n),
    {
        match self.layer.slot(pos) {
            None => Err(MapTileError::OutOfBounds),
            Some(i) => {
                let entity = match self.layer.cells[i] {
                    Some(t) => t.entity,
                    None => fresh,
                };
                let ghost before = self.layer;
                let t = Tile { entity, pos, ..tile };
                self.layer.cells.set(i, Some(t));
                proof {
                    let after = self.layer;
                    lemma_flat_bound(before.width, before.height, pos);
                    assert forall|k: int| 0 <= k < after.cells@.len() && (#[trigger] after.cells@[k]) is Some implies {
                        &&& after.in_bounds(after.cells@[k]->Some_0.pos)
                        &&& flat_index(after.width, after.cells@[k]->Some_0.pos) == k
                    } by {
                        if k != i {
                            assert(before.cells@[k] == after.cells@[k]);
                        }
                    }
                    assert forall|p: TilePos| p != pos implies #[trigger] after.cell(p) == before.cell(p) by {
                        if before.in_bounds(p) {
                            lemma_flat_bound(before.width, before.height, p);
                            if flat_index(before.width, p) == i {
                                lemma_flat_injective(before.width, p, pos);
                            }
                        }
                    }
                    assert forall|n: u64|
                        before.entities_below(n) && (before.cell(pos) is Some || fresh < n) implies #[trigger] after.entities_below(
                        n,
                    ) by {
                        assert forall|k: int| 0 <= k < after.cells@.len() && (#[trigger] after.cells@[k]) is Some
                            implies after.cells@[k]->Some_0.entity < n by {
                            if k != i {
                                assert(before.cells@[k] == after.cells@[k]);
                            }
                        }
                    }
                }
                Ok(entity)
            },
        }
    }

    /// The finished layer.
    pub fn build(self) -> (r: Layer)
        ensures
            r == self.layer,
    {
        self.layer
    }
}

/// Writing cell `i` of a builder that may join `s`, with the handle the cell
/// held or, for an empty cell, with the store's next handle, leaves a builder
/// that may join the store once its counter has moved past that handle.
pub proof fn lemma_fresh_layer_write(s: TileStore, s2: TileStore, old: Layer, new: Layer, i: int, t: Tile)
    requires
        s.wf(),
        s.fresh_layer(old),
        0 <= i < old.cells@.len(),
        new.wf(),
        new.cells@ == old.cells@.update(i, Some(t)),
        s2.layers == s.layers,
        (old.cells@[i] is Some && t.entity == old.cells@[i]->Some_0.entity && s2.next_entity == s.next_entity) || (
        old.cells@[i] is None && t.entity == s.next_entity && s2.next_entity == s.next_entity + 1),
    ensures
        s2.fresh_layer(new),
{
    assert forall|x: int, y: int|
        0 <= x < new.cells@.len() && 0 <= y < new.cells@.len() && (#[trigger] new.cells@[x]) is Some
            && (#[trigger] new.cells@[y]) is Some && new.cells@[x]->Some_0.entity == new.cells@[y]->Some_0.entity
        implies x == y by {
        if x != i && y != i {
            assert(old.cells@[x] is Some && old.cells@[y] is Some);
        } else if x != i {
            assert(old.cells@[x] is Some);
            if old.cells@[i] is Some {
                assert(old.cells@[i] is Some);
            }
        } else if y != i {
            assert(old.cells@[y] is Some);
            if old.cells@[i] is Some {
                assert(old.cells@[i] is Some);
            }
        }
    }
    assert forall|x: int| 0 <= x < new.cells@.len() && (#[trigger] new.cells@[x]) is Some
        implies new.cells@[x]->Some_0.entity < s2.next_entity by {
        if x != i {
            assert(old.cells@[x] is Some);
        } else if old.cells@[i] is Some {
            assert(old.cells@[i] is Some);
        }
    }
    assert forall|x: int| 0 <= x < new.cells@.len() && (#[trigger] new.cells@[x]) is Some
        implies !s2.has_entity(new.cells@[x]->Some_0.entity) by {
        let e = new.cells@[x]->Some_0.entity;
        if x != i {
            assert(old.cells@[x] is Some);
        } else if old.cells@[i] is Some {
            assert(old.cells@[i] is Some);
        } else if s2.has_entity(e) {
            let (a, y) = choose|a: int, y: int| entity_at(s2.layers@, a, y, e);
            assert(s.layers@[a].cells@[y] is Some);
        }
    }
}

} // verus!
