use vstd::prelude::*;

verus! {

/// The position of a tile within its layer.
#[derive(Copy, Clone, Debug, Default, Hash, PartialEq, Eq, Structural)]
pub struct TilePos {
    pub x: u32,
    pub y: u32,
}

/// The coordinates of a tile, including the `map_id` and `layer_id`.
#[derive(Copy, Clone, Debug, Default, Hash, PartialEq, Eq, Structural)]
pub struct TileCoord {
    pub pos: TilePos,
    pub map_id: u16,
    pub layer_id: u16,
}

impl TileCoord {
    /// The position as a signed vector, each component cast from `u32` to `i32`.
    pub fn pos(&self) -> (r: (i32, i32))
        ensures
            r == (self.pos.x as i32, self.pos.y as i32),
    {
        (self.pos.x as i32, self.pos.y as i32)
    }
}

} // verus!
