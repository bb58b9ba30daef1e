//! Core data carried by tiles, actors and the turn machinery.

use vstd::prelude::*;

verus! {

/// A grid coordinate: a (column, row) address of a map cell.
#[derive(Clone, Copy, PartialEq, Eq, Structural, Debug, Hash)]
pub struct GridPos {
    pub x: u32,
    pub y: u32,
}

/// A signed grid vector, used for positions that may lie outside the map
/// (line endpoints, room corners) and for directional offsets.
#[derive(Clone, Copy, PartialEq, Eq, Structural, Debug, Hash)]
pub struct IPos {
    pub x: i32,
    pub y: i32,
}

/// Width and height of the tile map, in cells.
#[derive(Clone, Copy, PartialEq, Eq, Structural, Debug)]
pub struct MapSize {
    pub x: u32,
    pub y: u32,
}

impl MapSize {
    /// Whether a signed coordinate pair lies within `[0, x) x [0, y)`.
    pub open spec fn spec_contains(self, px: int, py: int) -> bool {
        0 <= px < self.x && 0 <= py < self.y
    }
}

/// What a map cell is made of.  Walls occlude sight and block movement.
#[derive(Clone, Copy, PartialEq, Eq, Structural, Debug)]
pub enum TileKind {
    Floor,
    Wall,
}

/// A current/maximum hit-point pair.
#[derive(Clone, Copy, PartialEq, Eq, Structural, Debug)]
pub struct Health {
    pub current: i32,
    pub max: i32,
}

/// Damage dealt by an actor when an attack intention resolves.
#[derive(Clone, Copy, PartialEq, Eq, Structural, Debug)]
pub struct Attack {
    pub damage: i32,
}

/// The player-controlled actor's spatial state: its grid coordinate, the
/// tiles it currently sees, the tiles it has ever seen, and whether its
/// visible set must be recomputed before next use.
#[derive(Clone, Debug)]
pub struct Player {
    pub pos: GridPos,
    pub visible_tiles: Vec<GridPos>,
    pub visited_tiles: Vec<GridPos>,
    pub needs_fov_update: bool,
}

/// The action set the input layer can report for the current tick.
#[derive(Clone, Copy, PartialEq, Eq, Structural, Debug, Hash)]
pub enum RLAction {
    Up,
    Down,
    Left,
    Right,
}

/// A requested action awaiting validation and resolution, bound to its
/// source actor by the pipeline.
#[derive(Clone, Copy, PartialEq, Eq, Structural, Debug)]
pub enum IntentionKind {
    MoveTo { target: GridPos },
    Attack { target: u64, target_pos: GridPos },
    Wait,
}

/// Presentation state of the turn-end button.
#[derive(Clone, Copy, PartialEq, Eq, Structural, Debug)]
pub enum ButtonStatus {
    Normal,
    Hovered,
    Pressed,
    Disabled,
}

/// Signal emitted when a turn boundary is reached.
#[derive(Clone, Copy, PartialEq, Eq, Structural, Debug)]
pub struct TurnEndEvent;

/// Signal emitted when an intention has finished resolving.
#[derive(Clone, Copy, PartialEq, Eq, Structural, Debug)]
pub struct IntentionEndEvent;

} // verus!
