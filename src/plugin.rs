use vstd::prelude::*;

verus! {

/// The stage, run before the tilemap's own, in which removal notifications
/// are consumed.
#[derive(Copy, Clone, Debug, PartialEq, Eq, Hash, Structural)]
pub struct TilesetMapStage;

/// Labels of the systems that react to auto-tile changes.
#[derive(Copy, Clone, Debug, PartialEq, Eq, Hash, Structural)]
pub enum TilesetMapLabel {
    /// The system that handles auto tile updates.
    UpdateAutoTiles,
    /// The system that handles auto tile removals.
    RemoveAutoTiles,
}

} // verus!
