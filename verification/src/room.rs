//! Rectangular rooms used during dungeon generation.
//!
//! A room is a transient rectangle (origin plus size) that exists only
//! inside a generation pass; it produces derived cell sets (border,
//! interior, all cells) and a center point.

use vstd::prelude::*;
use crate::components::IPos;
use crate::rng::rand_range_i32;

verus! {

broadcast use vstd::seq_lib::lemma_seq_contains_after_push;

/// Coordinate magnitude bound inside which room arithmetic cannot overflow.
pub const ROOM_COORD_LIMIT: i32 = 0x10_0000;

#[derive(Clone, Debug, PartialEq, Eq, Structural, Hash)]
pub struct Room {
    pub pos: IPos,
    pub size: IPos,
}

/// All cells of the axis-aligned rectangle `[x0, x1) x [y0, y1)`, in
/// column-major order.
#[verifier::loop_isolation(false)]
fn rect_cells(x0: i32, y0: i32, x1: i32, y1: i32) -> (r: Vec<IPos>)
    requires
        -2 * ROOM_COORD_LIMIT <= x0 <= 2 * ROOM_COORD_LIMIT,
        -2 * ROOM_COORD_LIMIT <= y0 <= 2 * ROOM_COORD_LIMIT,
        -2 * ROOM_COORD_LIMIT <= x1 <= 2 * ROOM_COORD_LIMIT,
        -2 * ROOM_COORD_LIMIT <= y1 <= 2 * ROOM_COORD_LIMIT,
    ensures
        forall|p: IPos| #[trigger]
            r@.contains(p) <==> (x0 <= p.x < x1 && y0 <= p.y < y1),
        r@.len() == if x0 < x1 && y0 < y1 {
            (x1 - x0) * (y1 - y0)
        } else {
            0
        },
{
    let ghost rows: int = if y0 < y1 { y1 - y0 } else { 0 };
    let mut cells: Vec<IPos> = Vec::new();
    let mut x = x0;
    while x < x1
        invariant
            x0 <= x <= x1 || x == x0,
            -2 * ROOM_COORD_LIMIT <= x <= 2 * ROOM_COORD_LIMIT,
            rows == if y0 < y1 { y1 - y0 } else { 0 },
            cells@.len() == (x - x0) * rows,
            forall|p: IPos| #[trigger]
                cells@.contains(p) <==> (x0 <= p.x < x && y0 <= p.y < y1),
        decreases 2 * ROOM_COORD_LIMIT + 1 - x,
    {
        let mut y = y0;
        while y < y1
            invariant
                y0 <= y <= y1 || y == y0,
                -2 * ROOM_COORD_LIMIT <= y <= 2 * ROOM_COORD_LIMIT,
                x0 <= x < x1,
                rows == if y0 < y1 { y1 - y0 } else { 0 },
                cells@.len() == (x - x0) * rows + (y - y0),
                forall|p: IPos| #[trigger]
                    cells@.contains(p) <==> ((x0 <= p.x < x && y0 <= p.y < y1) || (p.x == x && y0
                        <= p.y < y)),
            decreases 2 * ROOM_COORD_LIMIT + 1 - y,
        {
            cells.push(IPos { x, y });
            y = y + 1;
        }
        proof {
            assert((x + 1 - x0) * rows == (x - x0) * rows + rows) by (nonlinear_arith);
        }
        x = x + 1;
    }
    proof {
        if x0 < x1 {
            assert(cells@.len() == (x1 - x0) * rows);
        } else {
            assert(cells@.len() == (x0 - x0) * rows);
            assert((x0 - x0) * rows == 0) by (nonlinear_arith);
        }
    }
    cells
}

impl Room {
    /// Sizes are at least one cell and all coordinates stay small enough
    /// for the derived-cell arithmetic.
    pub open spec fn wf(self) -> bool {
        &&& 1 <= self.size.x <= ROOM_COORD_LIMIT
        &&& 1 <= self.size.y <= ROOM_COORD_LIMIT
        &&& -ROOM_COORD_LIMIT <= self.pos.x <= ROOM_COORD_LIMIT
        &&& -ROOM_COORD_LIMIT <= self.pos.y <= ROOM_COORD_LIMIT
    }

    /// The cell `(px, py)` lies inside the room's rectangle.
    pub open spec fn contains_cell(self, px: int, py: int) -> bool {
        &&& self.pos.x <= px < self.pos.x + self.size.x
        &&& self.pos.y <= py < self.pos.y + self.size.y
    }

    /// The cell lies on the outermost ring of the rectangle.
    pub open spec fn on_border(self, px: int, py: int) -> bool {
        self.contains_cell(px, py) && (px == self.pos.x || px == self.pos.x + self.size.x - 1 || py
            == self.pos.y || py == self.pos.y + self.size.y - 1)
    }

    /// The cell lies strictly inside the border ring.
    pub open spec fn in_interior(self, px: int, py: int) -> bool {
        &&& self.pos.x < px < self.pos.x + self.size.x - 1
        &&& self.pos.y < py < self.pos.y + self.size.y - 1
    }

    /// The inclusive bounding-box overlap test used for room rejection.
    pub open spec fn intersects_spec(self, other: Room) -> bool {
        &&& self.pos.x <= other.pos.x + other.size.x
        &&& self.pos.x + self.size.x >= other.pos.x
        &&& self.pos.y <= other.pos.y + other.size.y
        &&& self.pos.y + self.size.y >= other.pos.y
    }

    pub open spec fn center_spec(self) -> (int, int) {
        (self.pos.x + self.size.x / 2, self.pos.y + self.size.y / 2)
    }

    pub fn new(pos: IPos, size: IPos) -> (r: Self)
        ensures
            r.pos == pos && r.size == size,
    {
        Self { pos, size }
    }

    /// The cells of the room's outermost ring, two per column then two per
    /// row, so each corner cell appears twice.
    #[verifier::loop_isolation(false)]
    pub fn border_cells(&self) -> (r: Vec<IPos>)
        requires
            self.wf(),
        ensures
            forall|p: IPos| #[trigger]
                r@.contains(p) <==> self.on_border(p.x as int, p.y as int),
            r@.len() == 2 * self.size.x + 2 * self.size.y,
    {
        let mut cells: Vec<IPos> = Vec::new();
        let x_end = self.pos.x + self.size.x;
        let y_end = self.pos.y + self.size.y;
        let y_last = y_end - 1;
        let x_last = x_end - 1;

        let mut x = self.pos.x;
        while x < x_end
            invariant
                self.wf(),
                x_end == self.pos.x + self.size.x && y_end == self.pos.y + self.size.y,
                y_last == y_end - 1 && x_last == x_end - 1,
                self.pos.x <= x <= x_end,
                cells@.len() == 2 * (x - self.pos.x),
                forall|p: IPos| #[trigger]
                    cells@.contains(p) <==> (self.pos.x <= p.x < x && (p.y == self.pos.y || p.y
                        == y_last)),
            decreases x_end - x,
        {
            cells.push(IPos { x, y: self.pos.y });
            cells.push(IPos { x, y: y_last });
            x = x + 1;
        }

        let mut y = self.pos.y;
        while y < y_end
            invariant
                self.wf(),
                x_end == self.pos.x + self.size.x && y_end == self.pos.y + self.size.y,
                y_last == y_end - 1 && x_last == x_end - 1,
                self.pos.y <= y <= y_end,
                cells@.len() == 2 * self.size.x + 2 * (y - self.pos.y),
                forall|p: IPos| #[trigger]
                    cells@.contains(p) <==> ((self.pos.x <= p.x < x_end && (p.y == self.pos.y
                        || p.y == y_last)) || ((p.x == self.pos.x || p.x == x_last) && self.pos.y
                        <= p.y < y)),
            decreases y_end - y,
        {
            cells.push(IPos { x: self.pos.x, y });
            cells.push(IPos { x: x_last, y });
            y = y + 1;
        }
        cells
    }

    /// The cells strictly inside the border ring.
    pub fn interior_cells(&self) -> (r: Vec<IPos>)
        requires
            self.wf(),
        ensures
            forall|p: IPos| #[trigger]
                r@.contains(p) <==> self.in_interior(p.x as int, p.y as int),
            r@.len() == if self.size.x > 2 && self.size.y > 2 {
                (self.size.x - 2) * (self.size.y - 2)
            } else {
                0
            },
    {
        rect_cells(self.pos.x + 1, self.pos.y + 1, self.pos.x + self.size.x - 1, self.pos.y
            + self.size.y - 1)
    }

    /// All cells of the room's rectangle.
    pub fn cells(&self) -> (r: Vec<IPos>)
        requires
            self.wf(),
        ensures
            forall|p: IPos| #[trigger]
                r@.contains(p) <==> self.contains_cell(p.x as int, p.y as int),
            r@.len() == self.size.x * self.size.y,
    {
        rect_cells(self.pos.x, self.pos.y, self.pos.x + self.size.x, self.pos.y + self.size.y)
    }

    /// The inclusive bounding-box overlap test: rooms that merely touch
    /// (or sit one cell apart) still count as intersecting, which keeps a
    /// one-cell gap between accepted rooms.
    pub fn intersects(&self, other: &Room) -> (r: bool)
        requires
            self.wf(),
            other.wf(),
        ensures
            r == self.intersects_spec(*other),
    {
        self.pos.x <= other.pos.x + other.size.x && self.pos.x + self.size.x >= other.pos.x
            && self.pos.y <= other.pos.y + other.size.y && self.pos.y + self.size.y >= other.pos.y
    }

    /// The room's center cell (rounded down).
    pub fn center(&self) -> (r: IPos)
        requires
            self.wf(),
        ensures
            (r.x as int, r.y as int) == self.center_spec(),
    {
        IPos { x: self.pos.x + self.size.x / 2, y: self.pos.y + self.size.y / 2 }
    }

    /// A room with a random origin inside `[0, width) x [0, height)` and a
    /// random size in `[5, 15)` per axis.
    pub fn create_random(width: i32, height: i32) -> (r: Self)
        requires
            0 < width <= ROOM_COORD_LIMIT,
            0 < height <= ROOM_COORD_LIMIT,
        ensures
            r.wf(),
            0 <= r.pos.x < width && 0 <= r.pos.y < height,
            5 <= r.size.x < 15 && 5 <= r.size.y < 15,
    {
        let x = rand_range_i32(0, width);
        let y = rand_range_i32(0, height);
        let w = rand_range_i32(5, 15);
        let h = rand_range_i32(5, 15);
        Self::new(IPos { x, y }, IPos { x: w, y: h })
    }

    /// A room with a random origin inside the given rectangle and a random
    /// size drawn from the two half-open ranges (width range, height range).
    pub fn create_random_in_rect(top_left: IPos, size: IPos, room_size_range: ((u32, u32), (u32, u32))) -> (r: Self)
        requires
            -ROOM_COORD_LIMIT <= top_left.x <= ROOM_COORD_LIMIT,
            -ROOM_COORD_LIMIT <= top_left.y <= ROOM_COORD_LIMIT,
            0 < size.x <= ROOM_COORD_LIMIT,
            0 < size.y <= ROOM_COORD_LIMIT,
            top_left.x + size.x <= ROOM_COORD_LIMIT,
            top_left.y + size.y <= ROOM_COORD_LIMIT,
            1 <= (room_size_range.0).0 < (room_size_range.0).1 <= ROOM_COORD_LIMIT as u32,
            1 <= (room_size_range.1).0 < (room_size_range.1).1 <= ROOM_COORD_LIMIT as u32,
        ensures
            r.wf(),
            top_left.x <= r.pos.x < top_left.x + size.x,
            top_left.y <= r.pos.y < top_left.y + size.y,
            (room_size_range.0).0 as i32 <= r.size.x && r.size.x < (room_size_range.0).1 as i32,
            (room_size_range.1).0 as i32 <= r.size.y && r.size.y < (room_size_range.1).1 as i32,
    {
        let x = rand_range_i32(top_left.x, top_left.x + size.x);
        let y = rand_range_i32(top_left.y, top_left.y + size.y);
        let w = rand_range_i32((room_size_range.0).0 as i32, (room_size_range.0).1 as i32);
        let h = rand_range_i32((room_size_range.1).0 as i32, (room_size_range.1).1 as i32);
        Self::new(IPos { x, y }, IPos { x: w, y: h })
    }
}

} // verus!
