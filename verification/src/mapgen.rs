//! Procedural carving of the playable space.
//!
//! Rooms are placed by rejection sampling, their borders become occluding
//! walls and their interiors floor, and successive room centers are joined
//! by three parallel traced corridors that clear any wall they cross.

use vstd::prelude::*;
use crate::algorithms::{abs_int, bresenham_line, cells_view, line_cells};
use crate::components::{GridPos, IPos, MapSize, TileKind};
use crate::map::{TileMap, MAP_EXTENT_LIMIT};
use crate::room::Room;
use crate::rng::rand_range_i32;

verus! {

broadcast use vstd::seq_lib::lemma_seq_contains_after_push;

/// What a dungeon generation pass hands back: the accepted rooms and the
/// actor's spawn cell.
pub struct Dungeon {
    pub rooms: Vec<Room>,
    pub spawn: Option<IPos>,
}

pub open spec fn rooms_wf(rooms: Seq<Room>) -> bool {
    forall|i: int| 0 <= i < rooms.len() ==> (#[trigger] rooms[i]).wf()
}

/// No two accepted rooms overlap (inclusive bounding-box test).
pub open spec fn rooms_separated(rooms: Seq<Room>) -> bool {
    forall|i: int, j: int|
        #![trigger rooms[i].intersects_spec(rooms[j])]
        0 <= i < rooms.len() && 0 <= j < rooms.len() && i != j ==> !rooms[i].intersects_spec(
            rooms[j],
        )
}

pub open spec fn on_any_border(rooms: Seq<Room>, px: int, py: int) -> bool {
    exists|i: int| 0 <= i < rooms.len() && (#[trigger] rooms[i]).on_border(px, py)
}

pub open spec fn in_any_interior(rooms: Seq<Room>, px: int, py: int) -> bool {
    exists|i: int| 0 <= i < rooms.len() && (#[trigger] rooms[i]).in_interior(px, py)
}

/// The cell lies on one of the three parallel corridors traced between a
/// consecutive pair of room centers (offsets -1, 0, +1 on the column axis).
pub open spec fn on_corridor(rooms: Seq<Room>, size: MapSize, px: int, py: int) -> bool {
    exists|i: int, o: int|
        #![trigger corridor_line(rooms, size, i, o).contains((px, py))]
        0 <= i && i + 1 < rooms.len() && -1 <= o <= 1 && corridor_line(
            rooms,
            size,
            i,
            o,
        ).contains((px, py))
}

/// The traced path of one corridor line between centers `i` and `i + 1`:
/// the offset is applied along the axis perpendicular to the corridor's
/// dominant direction, so the three lines run side by side.
pub open spec fn corridor_line(rooms: Seq<Room>, size: MapSize, i: int, o: int) -> Seq<(int, int)> {
    let a = rooms[i].center_spec();
    let b = rooms[i + 1].center_spec();
    if abs_int(a.0 - b.0) >= abs_int(a.1 - b.1) {
        line_cells(a.0, a.1 + o, b.0, b.1 + o, size)
    } else {
        line_cells(a.0 + o, a.1, b.0 + o, b.1, size)
    }
}

/// What room carving (without corridors) leaves on a cell: border cells of
/// accepted rooms become walls, interiors floor, everything else keeps the
/// base map's kind.
pub open spec fn rooms_kind(base: TileMap, rooms: Seq<Room>, px: int, py: int) -> TileKind {
    if on_any_border(rooms, px, py) {
        TileKind::Wall
    } else if in_any_interior(rooms, px, py) {
        TileKind::Floor
    } else {
        base.kind_at(px, py)
    }
}

/// The final kind after a full generation pass: corridor cells are floor
/// (clearing any wall they cross), then room carving, then the base map.
pub open spec fn carved_kind(base: TileMap, rooms: Seq<Room>, px: int, py: int) -> TileKind {
    if on_corridor(rooms, base.size, px, py) {
        TileKind::Floor
    } else {
        rooms_kind(base, rooms, px, py)
    }
}

/// A room accepted by the generation pass sits inside the map's rectangle
/// (its origin does; its far edge may hang over, the carving clips it) and
/// has each side in `[10, 25)`.
pub open spec fn accepted_room(r: Room, size: MapSize) -> bool {
    &&& r.wf()
    &&& 0 <= r.pos.x < size.x
    &&& 0 <= r.pos.y < size.y
    &&& 10 <= r.size.x < 25
    &&& 10 <= r.size.y < 25
}

pub open spec fn rooms_accepted(rooms: Seq<Room>, size: MapSize) -> bool {
    forall|i: int| 0 <= i < rooms.len() ==> accepted_room(#[trigger] rooms[i], size)
}

proof fn lemma_intersects_symmetric(a: Room, b: Room)
    ensures
        a.intersects_spec(b) == b.intersects_spec(a),
{
}

/// Cells of rooms that do not intersect are disjoint.
proof fn lemma_separated_disjoint(a: Room, b: Room, px: int, py: int)
    requires
        !a.intersects_spec(b),
        a.contains_cell(px, py),
    ensures
        !b.contains_cell(px, py),
{
}

/// Place up to four non-overlapping rooms by rejection sampling: propose a
/// random room, accept it only when it intersects none of the accepted
/// ones, and give up after 1000 attempts.  The first candidate has nothing
/// to intersect, so at least one room is always placed.
fn place_rooms(size: MapSize) -> (rooms: Vec<Room>)
    requires
        1 <= size.x <= MAP_EXTENT_LIMIT,
        1 <= size.y <= MAP_EXTENT_LIMIT,
    ensures
        1 <= rooms@.len() <= 4,
        rooms_wf(rooms@),
        rooms_separated(rooms@),
        rooms_accepted(rooms@, size),
{
    let mut rooms: Vec<Room> = Vec::new();
    let mut attempts: u32 = 0;
    while rooms.len() < 4 && attempts < 1000
        invariant
            1 <= size.x <= MAP_EXTENT_LIMIT,
            1 <= size.y <= MAP_EXTENT_LIMIT,
            rooms@.len() <= 4,
            rooms_wf(rooms@),
            rooms_separated(rooms@),
            rooms_accepted(rooms@, size),
            attempts <= 1000,
            attempts == 0 ==> rooms@.len() == 0,
            1 <= attempts ==> 1 <= rooms@.len(),
        decreases 1000 - attempts,
    {
        let candidate = Room::create_random_in_rect(
            IPos { x: 0, y: 0 },
            IPos { x: size.x as i32, y: size.y as i32 },
            ((10, 25), (10, 25)),
        );

        let mut ok = true;
        let mut j: usize = 0;
        while j < rooms.len()
            invariant
                j <= rooms.len(),
                candidate.wf(),
                rooms_wf(rooms@),
                rooms@.len() == 0 ==> ok,
                ok ==> forall|k: int|
                    0 <= k < j ==> !candidate.intersects_spec(#[trigger] rooms@[k]),
            decreases rooms.len() - j,
        {
            if candidate.intersects(&rooms[j]) {
                ok = false;
            }
            j = j + 1;
        }

        if ok && rooms.len() < 4 {
            proof {
                assert forall|k: int| 0 <= k < rooms@.len() implies !(#[trigger] rooms@[k]).intersects_spec(
                    candidate,
                ) by {
                    lemma_intersects_symmetric(rooms@[k], candidate);
                }
            }
            rooms.push(candidate);
        }
        attempts = attempts + 1;
    }
    rooms
}

/// Set every listed cell that lies on the map to the given kind, leaving
/// every other tile and all occupants untouched.
fn carve_cells(map: &mut TileMap, cells: &Vec<IPos>, kind: TileKind)
    requires
        old(map).wf(),
    ensures
        final(map).wf(),
        final(map).size == old(map).size,
        forall|px: int, py: int|
            old(map).size.spec_contains(px, py) ==> #[trigger] final(map).kind_at(px, py) == (
            if cells@.contains(IPos { x: px as i32, y: py as i32 }) {
                kind
            } else {
                old(map).kind_at(px, py)
            }),
        forall|px: int, py: int|
            old(map).size.spec_contains(px, py) ==> #[trigger] final(map).occupant_at(px, py)
                == old(map).occupant_at(px, py),
{
    let mut k: usize = 0;
    while k < cells.len()
        invariant
            map.wf(),
            map.size == old(map).size,
            k <= cells.len(),
            forall|px: int, py: int|
                map.size.spec_contains(px, py) ==> #[trigger] map.kind_at(px, py) == (
                if cells@.take(k as int).contains(IPos { x: px as i32, y: py as i32 }) {
                    kind
                } else {
                    old(map).kind_at(px, py)
                }),
            forall|px: int, py: int|
                map.size.spec_contains(px, py) ==> #[trigger] map.occupant_at(px, py)
                    == old(map).occupant_at(px, py),
        decreases cells.len() - k,
    {
        let c = cells[k];
        let ghost top = *map;
        proof {
            assert(cells@.take(k as int + 1) =~= cells@.take(k as int).push(cells@[k as int]));
        }
        if c.x >= 0 && c.y >= 0 && c.x < map.size.x as i32 && c.y < map.size.y as i32 {
            let g = GridPos { x: c.x as u32, y: c.y as u32 };
            map.set_kind(g, kind);
        }
        proof {
            assert forall|px: int, py: int| map.size.spec_contains(px, py)
                implies #[trigger] map.kind_at(px, py) == (
                if cells@.take(k as int + 1).contains(IPos { x: px as i32, y: py as i32 }) {
                    kind
                } else {
                    old(map).kind_at(px, py)
                }) by {
                let q = IPos { x: px as i32, y: py as i32 };
                assert(cells@.take(k as int).push(c).contains(q) == (cells@.take(
                    k as int,
                ).contains(q) || q == c));
                assert(cells@.take(k as int + 1).contains(q) == (cells@.take(k as int).contains(q)
                    || q == c));
                if q == c {
                    assert(map.size.spec_contains(c.x as int, c.y as int));
                    assert(map.kind_at(px, py) == kind);
                } else {
                    assert(map.kind_at(px, py) == top.kind_at(px, py));
                }
            }
            assert forall|px: int, py: int| map.size.spec_contains(px, py)
                implies #[trigger] map.occupant_at(px, py) == old(map).occupant_at(px, py) by {
                assert(map.occupant_at(px, py) == top.occupant_at(px, py));
            }
        }
        k = k + 1;
    }
    proof {
        assert(cells@.take(cells@.len() as int) =~= cells@);
    }
}

/// Carve the accepted rooms into the map: border cells that lie on the map
/// become occluding walls, interior cells become floor.  Occupants are
/// untouched.
fn carve_rooms(map: &mut TileMap, rooms: &Vec<Room>)
    requires
        old(map).wf(),
        rooms_wf(rooms@),
        rooms_separated(rooms@),
    ensures
        final(map).wf(),
        final(map).size == old(map).size,
        forall|px: int, py: int|
            old(map).size.spec_contains(px, py) ==> #[trigger] final(map).kind_at(px, py)
                == rooms_kind(*old(map), rooms@, px, py),
        forall|px: int, py: int|
            old(map).size.spec_contains(px, py) ==> #[trigger] final(map).occupant_at(px, py)
                == old(map).occupant_at(px, py),
{
    let mut ri: usize = 0;
    while ri < rooms.len()
        invariant
            map.wf(),
            map.size == old(map).size,
            rooms_wf(rooms@),
            rooms_separated(rooms@),
            ri <= rooms.len(),
            forall|px: int, py: int|
                old(map).size.spec_contains(px, py) ==> #[trigger] map.kind_at(px, py)
                    == rooms_kind(*old(map), rooms@.take(ri as int), px, py),
            forall|px: int, py: int|
                old(map).size.spec_contains(px, py) ==> #[trigger] map.occupant_at(px, py)
                    == old(map).occupant_at(px, py),
        decreases rooms.len() - ri,
    {
        let room = &rooms[ri];
        let ghost pre = *map;

        let bcells = room.border_cells();
        carve_cells(map, &bcells, TileKind::Wall);
        let ghost mid = *map;

        let icells = room.interior_cells();
        carve_cells(map, &icells, TileKind::Floor);

        proof {
            assert forall|px: int, py: int| pre.size.spec_contains(px, py)
                implies #[trigger] mid.kind_at(px, py) == (
                if rooms@[ri as int].on_border(px, py) {
                    TileKind::Wall
                } else {
                    pre.kind_at(px, py)
                }) by {
                assert(bcells@.contains(IPos { x: px as i32, y: py as i32 })
                    == rooms@[ri as int].on_border(px, py));
            }
            assert forall|px: int, py: int| pre.size.spec_contains(px, py)
                implies #[trigger] map.kind_at(px, py) == (
                if rooms@[ri as int].in_interior(px, py) {
                    TileKind::Floor
                } else {
                    mid.kind_at(px, py)
                }) by {
                assert(icells@.contains(IPos { x: px as i32, y: py as i32 })
                    == rooms@[ri as int].in_interior(px, py));
            }
            lemma_room_step(*old(map), rooms@, ri as int, pre, mid, *map);
        }
        ri = ri + 1;
    }
    proof {
        assert(rooms@.take(rooms@.len() as int) =~= rooms@);
    }
}

/// One room's carving step turns the partial formula over `take(ri)` into
/// the formula over `take(ri + 1)`.
proof fn lemma_room_step(
    base: TileMap,
    rooms: Seq<Room>,
    ri: int,
    pre: TileMap,
    mid: TileMap,
    post: TileMap,
)
    requires
        0 <= ri < rooms.len(),
        rooms_wf(rooms),
        rooms_separated(rooms),
        pre.size == base.size,
        mid.size == base.size,
        post.size == base.size,
        forall|px: int, py: int|
            base.size.spec_contains(px, py) ==> #[trigger] pre.kind_at(px, py) == rooms_kind(
                base,
                rooms.take(ri),
                px,
                py,
            ),
        forall|px: int, py: int|
            base.size.spec_contains(px, py) ==> #[trigger] mid.kind_at(px, py) == (
            if rooms[ri].on_border(px, py) {
                TileKind::Wall
            } else {
                pre.kind_at(px, py)
            }),
        forall|px: int, py: int|
            base.size.spec_contains(px, py) ==> #[trigger] post.kind_at(px, py) == (
            if rooms[ri].in_interior(px, py) {
                TileKind::Floor
            } else {
                mid.kind_at(px, py)
            }),
    ensures
        forall|px: int, py: int|
            base.size.spec_contains(px, py) ==> #[trigger] post.kind_at(px, py) == rooms_kind(
                base,
                rooms.take(ri + 1),
                px,
                py,
            ),
{
    assert forall|px: int, py: int| base.size.spec_contains(px, py)
        implies #[trigger] post.kind_at(px, py) == rooms_kind(base, rooms.take(ri + 1), px, py) by {
        let prefix = rooms.take(ri);
        let ext = rooms.take(ri + 1);
        let room = rooms[ri];

        // relate the prefix quantifiers
        assert(on_any_border(ext, px, py) == (on_any_border(prefix, px, py) || room.on_border(
            px,
            py,
        ))) by {
            if on_any_border(ext, px, py) {
                let i = choose|i: int| 0 <= i < ext.len() && (#[trigger] ext[i]).on_border(px, py);
                if i < ri {
                    assert(prefix[i] == ext[i]);
                    assert(on_any_border(prefix, px, py));
                }
            }
            if on_any_border(prefix, px, py) {
                let i = choose|i: int|
                    0 <= i < prefix.len() && (#[trigger] prefix[i]).on_border(px, py);
                assert(ext[i] == prefix[i]);
                assert(on_any_border(ext, px, py));
            }
            if room.on_border(px, py) {
                assert(ext[ri] == room);
                assert(on_any_border(ext, px, py));
            }
        }
        assert(in_any_interior(ext, px, py) == (in_any_interior(prefix, px, py)
            || room.in_interior(px, py))) by {
            if in_any_interior(ext, px, py) {
                let i = choose|i: int|
                    0 <= i < ext.len() && (#[trigger] ext[i]).in_interior(px, py);
                if i < ri {
                    assert(prefix[i] == ext[i]);
                    assert(in_any_interior(prefix, px, py));
                }
            }
            if in_any_interior(prefix, px, py) {
                let i = choose|i: int|
                    0 <= i < prefix.len() && (#[trigger] prefix[i]).in_interior(px, py);
                assert(ext[i] == prefix[i]);
                assert(in_any_interior(ext, px, py));
            }
            if room.in_interior(px, py) {
                assert(ext[ri] == room);
                assert(in_any_interior(ext, px, py));
            }
        }

        // a cell of the current room belongs to no earlier room
        if room.contains_cell(px, py) {
            assert forall|i: int| 0 <= i < prefix.len() implies !(#[trigger] prefix[i]).contains_cell(
                px,
                py,
            ) by {
                assert(rooms[i].intersects_spec(rooms[ri]) == false);
                lemma_separated_disjoint(room, rooms[i], px, py);
            }
            assert(!on_any_border(prefix, px, py));
            assert(!in_any_interior(prefix, px, py));
        }
    }
}

/// The corridor lines already traced, counting `3 * i + o + 1` lines once
/// line `(i, o)` is done; lines are traced in order of pair index, then
/// offset `-1, 0, +1`.
spec fn on_corridor_prefix(rooms: Seq<Room>, size: MapSize, n: int, px: int, py: int) -> bool {
    exists|i: int, o: int|
        #![trigger corridor_line(rooms, size, i, o).contains((px, py))]
        0 <= i && i + 1 < rooms.len() && -1 <= o <= 1 && 3 * i + o + 1 < n && corridor_line(
            rooms,
            size,
            i,
            o,
        ).contains((px, py))
}

proof fn lemma_corridor_prefix_step(
    rooms: Seq<Room>,
    size: MapSize,
    i: int,
    o: int,
    px: int,
    py: int,
)
    requires
        0 <= i,
        i + 1 < rooms.len(),
        -1 <= o <= 1,
    ensures
        on_corridor_prefix(rooms, size, 3 * i + o + 2, px, py) == (on_corridor_prefix(
            rooms,
            size,
            3 * i + o + 1,
            px,
            py,
        ) || corridor_line(rooms, size, i, o).contains((px, py))),
{
    if on_corridor_prefix(rooms, size, 3 * i + o + 2, px, py) {
        let (i2, o2) = choose|i2: int, o2: int|
            0 <= i2 && i2 + 1 < rooms.len() && -1 <= o2 <= 1 && 3 * i2 + o2 + 1 < 3 * i + o + 2
                && #[trigger] corridor_line(rooms, size, i2, o2).contains((px, py));
        if 3 * i2 + o2 + 1 < 3 * i + o + 1 {
            assert(on_corridor_prefix(rooms, size, 3 * i + o + 1, px, py));
        } else {
            assert(3 * i2 + o2 == 3 * i + o);
            assert(i2 == i && o2 == o);
        }
    }
}

proof fn lemma_corridor_prefix_full(rooms: Seq<Room>, size: MapSize, px: int, py: int)
    ensures
        on_corridor_prefix(rooms, size, 3 * rooms.len() - 3, px, py) == on_corridor(
            rooms,
            size,
            px,
            py,
        ),
{
}

/// Trace three parallel lines between each consecutive pair of room
/// centers and mark every traced cell as floor, clearing any wall it
/// crossed.  Occupants are untouched.
fn carve_corridors(map: &mut TileMap, rooms: &Vec<Room>)
    requires
        old(map).wf(),
        rooms_wf(rooms@),
    ensures
        final(map).wf(),
        final(map).size == old(map).size,
        forall|px: int, py: int|
            old(map).size.spec_contains(px, py) ==> #[trigger] final(map).kind_at(px, py) == (
            if on_corridor(rooms@, old(map).size, px, py) {
                TileKind::Floor
            } else {
                old(map).kind_at(px, py)
            }),
        forall|px: int, py: int|
            old(map).size.spec_contains(px, py) ==> #[trigger] final(map).occupant_at(px, py)
                == old(map).occupant_at(px, py),
{
    let ghost size = old(map).size;
    let mut corridor: Vec<IPos> = Vec::new();
    let mut i: usize = 0;
    while i + 1 < rooms.len()
        invariant
            *map == *old(map),
            map.wf(),
            size == old(map).size,
            rooms_wf(rooms@),
            i == 0 || i + 1 <= rooms.len(),
            forall|q: IPos| #[trigger]
                corridor@.contains(q) <==> on_corridor_prefix(
                    rooms@,
                    size,
                    3 * i as int,
                    q.x as int,
                    q.y as int,
                ),
        decreases rooms.len() - i,
    {
        let a = rooms[i].center();
        let b = rooms[i + 1].center();
        let mut oo: i32 = -1;
        while oo <= 1
            invariant
                *map == *old(map),
                map.wf(),
                size == old(map).size,
                rooms_wf(rooms@),
                i + 1 < rooms.len(),
                -1 <= oo <= 2,
                (a.x as int, a.y as int) == rooms@[i as int].center_spec(),
                (b.x as int, b.y as int) == rooms@[i as int + 1].center_spec(),
                forall|q: IPos| #[trigger]
                    corridor@.contains(q) <==> on_corridor_prefix(
                        rooms@,
                        size,
                        3 * i as int + oo as int + 1,
                        q.x as int,
                        q.y as int,
                    ),
        decreases 2 - oo,
        {
            proof {
                assert(rooms@[i as int].wf());
                assert(rooms@[i as int + 1].wf());
            }
            let adx = if a.x >= b.x {
                a.x - b.x
            } else {
                b.x - a.x
            };
            let ady = if a.y >= b.y {
                a.y - b.y
            } else {
                b.y - a.y
            };
            let path = if adx >= ady {
                bresenham_line(
                    IPos { x: a.x, y: a.y + oo },
                    IPos { x: b.x, y: b.y + oo },
                    &map.size,
                )
            } else {
                bresenham_line(
                    IPos { x: a.x + oo, y: a.y },
                    IPos { x: b.x + oo, y: b.y },
                    &map.size,
                )
            };
            proof {
                assert(cells_view(path@) == corridor_line(rooms@, size, i as int, oo as int));
            }
            let mut m: usize = 0;
            while m < path.len()
                invariant
                    m <= path.len(),
                    map.size == size,
                    cells_view(path@) == corridor_line(rooms@, size, i as int, oo as int),
                    i + 1 < rooms.len(),
                    -1 <= oo <= 1,
                    forall|j: int|
                        0 <= j < path@.len() ==> (#[trigger] path@[j]).x < size.x && path@[j].y
                            < size.y,
                    size.x <= MAP_EXTENT_LIMIT && size.y <= MAP_EXTENT_LIMIT,
                    forall|q: IPos| #[trigger]
                        corridor@.contains(q) <==> (on_corridor_prefix(
                            rooms@,
                            size,
                            3 * i as int + oo as int + 1,
                            q.x as int,
                            q.y as int,
                        ) || cells_view(path@).take(m as int).contains((q.x as int, q.y as int))),
                decreases path.len() - m,
            {
                let g = path[m];
                let c = IPos { x: g.x as i32, y: g.y as i32 };
                proof {
                    assert(cells_view(path@).take(m as int + 1) =~= cells_view(path@).take(
                        m as int,
                    ).push(cells_view(path@)[m as int]));
                }
                corridor.push(c);
                proof {
                    assert forall|q: IPos| #[trigger]
                        corridor@.contains(q) <==> (on_corridor_prefix(
                            rooms@,
                            size,
                            3 * i as int + oo as int + 1,
                            q.x as int,
                            q.y as int,
                        ) || cells_view(path@).take(m as int + 1).contains(
                            (q.x as int, q.y as int),
                        )) by {
                        let pair = (q.x as int, q.y as int);
                        assert(cells_view(path@).take(m as int).push(
                            cells_view(path@)[m as int],
                        ).contains(pair) == (cells_view(path@).take(m as int).contains(pair) || pair
                            == cells_view(path@)[m as int]));
                        assert(cells_view(path@)[m as int] == (g.x as int, g.y as int));
                        assert((pair == (g.x as int, g.y as int)) == (q == c));
                    }
                }
                m = m + 1;
            }
            proof {
                assert(cells_view(path@).take(path@.len() as int) =~= cells_view(path@));
                assert forall|q: IPos| #[trigger]
                    corridor@.contains(q) <==> on_corridor_prefix(
                        rooms@,
                        size,
                        3 * i as int + oo as int + 2,
                        q.x as int,
                        q.y as int,
                    ) by {
                    lemma_corridor_prefix_step(
                        rooms@,
                        size,
                        i as int,
                        oo as int,
                        q.x as int,
                        q.y as int,
                    );
                }
            }
            oo = oo + 1;
        }
        i = i + 1;
    }

    let ghost pre = *map;
    carve_cells(map, &corridor, TileKind::Floor);
    proof {
        assert forall|px: int, py: int| size.spec_contains(px, py)
            implies #[trigger] map.kind_at(px, py) == (
            if on_corridor(rooms@, size, px, py) {
                TileKind::Floor
            } else {
                pre.kind_at(px, py)
            }) by {
            let q = IPos { x: px as i32, y: py as i32 };
            assert(q.x as int == px && q.y as int == py);
            if rooms@.len() >= 2 {
                assert(3 * (rooms@.len() - 1) == 3 * rooms@.len() - 3);
                lemma_corridor_prefix_full(rooms@, size, px, py);
            } else {
                assert(!on_corridor_prefix(rooms@, size, 0, px, py));
                assert(!on_corridor(rooms@, size, px, py));
            }
        }
    }
}

/// Run a full dungeon-generation pass over the map: place up to four
/// non-overlapping rooms, carve their walls and floors, join consecutive
/// room centers with three parallel corridors, and pick a spawn cell in
/// the interior of a randomly chosen room.
pub fn map_room_generator(map: &mut TileMap) -> (d: Dungeon)
    requires
        old(map).wf(),
    ensures
        final(map).wf(),
        final(map).size == old(map).size,
        1 <= d.rooms@.len() <= 4,
        rooms_wf(d.rooms@),
        rooms_separated(d.rooms@),
        rooms_accepted(d.rooms@, old(map).size),
        forall|px: int, py: int|
            old(map).size.spec_contains(px, py) ==> #[trigger] final(map).kind_at(px, py)
                == carved_kind(*old(map), d.rooms@, px, py),
        forall|px: int, py: int|
            old(map).size.spec_contains(px, py) ==> #[trigger] final(map).occupant_at(px, py)
                == old(map).occupant_at(px, py),
        d.spawn is Some,
        forall|c: IPos|
            d.spawn == Some(c) ==> in_any_interior(d.rooms@, c.x as int, c.y as int),
{
    let rooms = place_rooms(map.size);
    carve_rooms(map, &rooms);
    carve_corridors(map, &rooms);

    let ridx = rand_range_i32(0, rooms.len() as i32) as usize;
    let room = &rooms[ridx];
    let icells = room.interior_cells();
    proof {
        assert(accepted_room(rooms@[ridx as int], old(map).size));
        assert((room.size.x - 2) * (room.size.y - 2) <= 529) by (nonlinear_arith)
            requires 10 <= room.size.x < 25 && 10 <= room.size.y < 25;
        assert((room.size.x - 2) * (room.size.y - 2) >= 1) by (nonlinear_arith)
            requires 10 <= room.size.x < 25 && 10 <= room.size.y < 25;
    }
    let cidx = rand_range_i32(0, icells.len() as i32) as usize;
    let c = icells[cidx];
    proof {
        assert(icells@.contains(c));
        assert(room.in_interior(c.x as int, c.y as int));
        assert(in_any_interior(rooms@, c.x as int, c.y as int));
    }

    Dungeon { rooms, spawn: Some(c) }
}

/// Build the base map of a session: all floor, then roughly three tiles in
/// ten turned into occluding walls at random, as the raw wilderness the
/// room generator carves into.
pub fn map_setup(size: MapSize) -> (r: TileMap)
    requires
        1 <= size.x <= MAP_EXTENT_LIMIT,
        1 <= size.y <= MAP_EXTENT_LIMIT,
    ensures
        r.wf(),
        r.size == size,
        forall|px: int, py: int|
            size.spec_contains(px, py) ==> #[trigger] r.occupant_at(px, py) is None,
{
    let mut map = TileMap::new(size);
    let mut y: u32 = 0;
    while y < size.y
        invariant
            map.wf(),
            map.size == size,
            1 <= size.x <= MAP_EXTENT_LIMIT && 1 <= size.y <= MAP_EXTENT_LIMIT,
            forall|px: int, py: int|
                size.spec_contains(px, py) ==> #[trigger] map.occupant_at(px, py) is None,
        decreases size.y - y,
    {
        let mut x: u32 = 0;
        while x < size.x
            invariant
                map.wf(),
                map.size == size,
                y < size.y,
                1 <= size.x <= MAP_EXTENT_LIMIT && 1 <= size.y <= MAP_EXTENT_LIMIT,
                forall|px: int, py: int|
                    size.spec_contains(px, py) ==> #[trigger] map.occupant_at(px, py) is None,
            decreases size.x - x,
        {
            if rand_range_i32(0, 10) >= 7 {
                let ghost top = map;
                map.set_kind(GridPos { x, y }, TileKind::Wall);
                proof {
                    assert forall|px: int, py: int| size.spec_contains(px, py)
                        implies #[trigger] map.occupant_at(px, py) is None by {
                        if px == x as int && py == y as int {
                            assert(map.occupant_at(px, py) == top.occupant_at(px, py));
                        } else {
                            assert(map.tile_at(px, py) == top.tile_at(px, py));
                        }
                    }
                }
            }
            x = x + 1;
        }
        y = y + 1;
    }
    map
}

} // verus!
