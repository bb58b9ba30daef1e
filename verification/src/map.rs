//! The tile grid: kinds, occluder flags and occupant references.
//!
//! Tiles are owned by the map, created at generation time and mutated in
//! place; the whole map is replaced on regeneration.  The map maintains the
//! invariant that a tile occludes sight exactly when its kind is `Wall`.

use vstd::prelude::*;
use vstd::pervasive::VecAdditionalExecFns;
use crate::components::{GridPos, MapSize, TileKind};

verus! {

/// Largest accepted map extent per axis.
pub const MAP_EXTENT_LIMIT: u32 = 0x4000;

/// One map cell: its kind, whether it blocks line-of-sight rays, and the
/// actor standing on it, if any.
#[derive(Clone, Copy, Debug)]
pub struct Tile {
    pub kind: TileKind,
    pub occluder: bool,
    pub occupant: Option<u64>,
}

/// The tile grid, stored row-major.
#[derive(Clone, Debug)]
pub struct TileMap {
    pub size: MapSize,
    pub tiles: Vec<Tile>,
}

proof fn lemma_extent_product(w: int, h: int)
    requires
        0 <= w <= MAP_EXTENT_LIMIT,
        0 <= h <= MAP_EXTENT_LIMIT,
    ensures
        0 <= h * w <= 0x1000_0000,
{
    assert(0 <= h * w <= 0x1000_0000) by (nonlinear_arith)
        requires 0 <= w <= 0x4000 && 0 <= h <= 0x4000;
}

proof fn lemma_index_bound(w: int, h: int, px: int, py: int)
    requires
        0 <= px < w,
        0 <= py < h,
    ensures
        0 <= py * w + px < h * w,
    decreases h,
{
    assert(py * w + px < h * w) by (nonlinear_arith)
        requires 0 <= px < w && 0 <= py < h;
    assert(py * w >= 0) by (nonlinear_arith)
        requires 0 <= py && 0 < w;
}

proof fn lemma_index_unique(w: int, px: int, py: int, qx: int, qy: int)
    requires
        0 <= px < w,
        0 <= qx < w,
        0 <= py,
        0 <= qy,
        py * w + px == qy * w + qx,
    ensures
        px == qx && py == qy,
{
    assert(px == qx && py == qy) by (nonlinear_arith)
        requires
            0 <= px < w && 0 <= qx < w && 0 <= py && 0 <= qy && py * w + px == qy * w + qx;
}

impl TileMap {
    /// The tile vector covers the whole grid and every wall, and only a
    /// wall, carries the occluder flag.
    pub open spec fn wf(self) -> bool {
        &&& 1 <= self.size.x <= MAP_EXTENT_LIMIT
        &&& 1 <= self.size.y <= MAP_EXTENT_LIMIT
        &&& self.tiles@.len() == self.size.y * self.size.x
        &&& forall|i: int|
            0 <= i < self.tiles@.len() ==> (#[trigger] self.tiles@[i].occluder) == (
            self.tiles@[i].kind == TileKind::Wall)
    }

    pub open spec fn tile_at(self, px: int, py: int) -> Tile
        recommends
            self.size.spec_contains(px, py),
    {
        self.tiles@[py * self.size.x + px]
    }

    pub open spec fn kind_at(self, px: int, py: int) -> TileKind {
        self.tile_at(px, py).kind
    }

    pub open spec fn is_wall_at(self, px: int, py: int) -> bool {
        self.kind_at(px, py) == TileKind::Wall
    }

    /// Whether the cell blocks line-of-sight rays.
    pub open spec fn occludes_at(self, px: int, py: int) -> bool {
        self.tile_at(px, py).occluder
    }

    pub open spec fn occupant_at(self, px: int, py: int) -> Option<u64> {
        self.tile_at(px, py).occupant
    }

    /// The two maps have the same extent and the same tile kinds
    /// everywhere; occupants may differ.
    pub open spec fn same_kinds(self, other: TileMap) -> bool {
        &&& other.size == self.size
        &&& forall|px: int, py: int|
            self.size.spec_contains(px, py) ==> #[trigger] other.kind_at(px, py) == self.kind_at(
                px,
                py,
            )
    }

    /// A fresh map of the given extent: all floor, nothing occupied.
    pub fn new(size: MapSize) -> (r: TileMap)
        requires
            1 <= size.x <= MAP_EXTENT_LIMIT,
            1 <= size.y <= MAP_EXTENT_LIMIT,
        ensures
            r.wf(),
            r.size == size,
            forall|px: int, py: int|
                size.spec_contains(px, py) ==> #[trigger] r.tile_at(px, py) == (Tile {
                    kind: TileKind::Floor,
                    occluder: false,
                    occupant: None::<u64>,
                }),
    {
        proof {
            lemma_extent_product(size.x as int, size.y as int);
        }
        let total: usize = (size.y as usize) * (size.x as usize);
        let mut tiles: Vec<Tile> = Vec::new();
        let mut i: usize = 0;
        while i < total
            invariant
                i <= total,
                tiles@.len() == i,
                forall|j: int|
                    0 <= j < i ==> #[trigger] tiles@[j] == (Tile {
                        kind: TileKind::Floor,
                        occluder: false,
                        occupant: None::<u64>,
                    }),
            decreases total - i,
        {
            tiles.push(Tile { kind: TileKind::Floor, occluder: false, occupant: None });
            i = i + 1;
        }
        let r = TileMap { size, tiles };
        proof {
            assert forall|px: int, py: int| size.spec_contains(px, py) implies #[trigger] r.tile_at(
                px,
                py,
            ) == (Tile { kind: TileKind::Floor, occluder: false, occupant: None::<u64> }) by {
                lemma_index_bound(size.x as int, size.y as int, px, py);
            }
        }
        r
    }

    /// Whether the coordinate lies on the map.
    pub fn in_bounds(&self, pos: GridPos) -> (r: bool)
        ensures
            r == self.size.spec_contains(pos.x as int, pos.y as int),
    {
        pos.x < self.size.x && pos.y < self.size.y
    }

    fn index_of(&self, pos: GridPos) -> (r: usize)
        requires
            self.wf(),
            self.size.spec_contains(pos.x as int, pos.y as int),
        ensures
            r == pos.y * self.size.x + pos.x,
            r < self.tiles@.len(),
    {
        proof {
            lemma_extent_product(self.size.x as int, self.size.y as int);
            lemma_index_bound(self.size.x as int, self.size.y as int, pos.x as int, pos.y as int);
        }
        (pos.y as usize) * (self.size.x as usize) + (pos.x as usize)
    }

    /// Read the tile under a coordinate.
    pub fn get_tile(&self, pos: GridPos) -> (t: Tile)
        requires
            self.wf(),
            self.size.spec_contains(pos.x as int, pos.y as int),
        ensures
            t == self.tile_at(pos.x as int, pos.y as int),
    {
        let i = self.index_of(pos);
        self.tiles[i]
    }

    /// Whether the tile under a coordinate is a wall.
    pub fn is_wall(&self, pos: GridPos) -> (r: bool)
        requires
            self.wf(),
            self.size.spec_contains(pos.x as int, pos.y as int),
        ensures
            r == self.is_wall_at(pos.x as int, pos.y as int),
    {
        match self.get_tile(pos).kind {
            TileKind::Wall => true,
            TileKind::Floor => false,
        }
    }

    /// Change a tile's kind; its occluder flag follows the kind, so the
    /// wall/occluder invariant is enforced at mutation time.
    pub fn set_kind(&mut self, pos: GridPos, kind: TileKind)
        requires
            old(self).wf(),
            old(self).size.spec_contains(pos.x as int, pos.y as int),
        ensures
            final(self).wf(),
            final(self).size == old(self).size,
            final(self).tile_at(pos.x as int, pos.y as int) == (Tile {
                kind,
                occluder: kind == TileKind::Wall,
                occupant: old(self).tile_at(pos.x as int, pos.y as int).occupant,
            }),
            forall|qx: int, qy: int|
                old(self).size.spec_contains(qx, qy) && (qx != pos.x || qy != pos.y)
                    ==> #[trigger] final(self).tile_at(qx, qy) == old(self).tile_at(qx, qy),
    {
        let i = self.index_of(pos);
        let occupant = self.tiles[i].occupant;
        let occluder = match kind {
            TileKind::Wall => true,
            TileKind::Floor => false,
        };
        self.tiles.set(i, Tile { kind, occluder, occupant });
        proof {
            assert forall|qx: int, qy: int|
                self.size.spec_contains(qx, qy) && (qx != pos.x || qy != pos.y)
                    implies #[trigger] self.tile_at(qx, qy) == old(self).tile_at(qx, qy) by {
                lemma_index_bound(self.size.x as int, self.size.y as int, qx, qy);
                if qy * self.size.x + qx == pos.y * self.size.x + pos.x {
                    lemma_index_unique(self.size.x as int, pos.x as int, pos.y as int, qx, qy);
                }
            }
        }
    }

    /// Change which actor stands on a tile.
    pub fn set_occupant(&mut self, pos: GridPos, occupant: Option<u64>)
        requires
            old(self).wf(),
            old(self).size.spec_contains(pos.x as int, pos.y as int),
        ensures
            final(self).wf(),
            final(self).size == old(self).size,
            final(self).tile_at(pos.x as int, pos.y as int) == (Tile {
                kind: old(self).tile_at(pos.x as int, pos.y as int).kind,
                occluder: old(self).tile_at(pos.x as int, pos.y as int).occluder,
                occupant,
            }),
            forall|qx: int, qy: int|
                old(self).size.spec_contains(qx, qy) && (qx != pos.x || qy != pos.y)
                    ==> #[trigger] final(self).tile_at(qx, qy) == old(self).tile_at(qx, qy),
    {
        let i = self.index_of(pos);
        let t = self.tiles[i];
        self.tiles.set(i, Tile { kind: t.kind, occluder: t.occluder, occupant });
        proof {
            assert forall|qx: int, qy: int|
                self.size.spec_contains(qx, qy) && (qx != pos.x || qy != pos.y)
                    implies #[trigger] self.tile_at(qx, qy) == old(self).tile_at(qx, qy) by {
                lemma_index_bound(self.size.x as int, self.size.y as int, qx, qy);
                if qy * self.size.x + qx == pos.y * self.size.x + pos.x {
                    lemma_index_unique(self.size.x as int, pos.x as int, pos.y as int, qx, qy);
                }
            }
        }
    }
}

} // verus!
