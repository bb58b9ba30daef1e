//! The visibility (field-of-view) engine.
//!
//! An actor's visible-tile set is recomputed from empty each pass: a ray is
//! traced from the actor's cell to every cell on the perimeter of a square
//! of half-width [`FOV_SIZE`], and each ray is walked cell by cell, stopping
//! at — and including — the first occluding cell.

use vstd::prelude::*;
use crate::algorithms::{bresenham_line, cells_view, line_cells, line_reversed, lemma_bounded_cells_contains, lemma_bounded_cells_sub, lemma_ray_hits_offset, lemma_raw_in_box, lemma_reverse_contains, oriented_points, raw_points, abs_int};
use crate::components::{GridPos, IPos, Player};
use crate::map::TileMap;

verus! {

broadcast use vstd::seq_lib::lemma_seq_contains_after_push;

/// The sight radius: half-width of the square whose perimeter receives a
/// ray.
pub const FOV_SIZE: i32 = 15;

/// The offset `(u, v)` lies on the perimeter of the square of half-width
/// `radius`.
pub open spec fn on_perimeter(u: int, v: int, radius: int) -> bool {
    &&& -radius <= u <= radius
    &&& -radius <= v <= radius
    &&& (u == radius || u == -radius || v == radius || v == -radius)
}

/// The ray from `(cx, cy)` toward the perimeter offset `(u, v)`.
pub open spec fn perimeter_ray(map: TileMap, cx: int, cy: int, u: int, v: int) -> Seq<(int, int)> {
    line_cells(cx, cy, cx + u, cy + v, map.size)
}

/// Walking `ray` cell by cell reaches `(px, py)`: the cell lies on the ray
/// and no cell strictly before it occludes.  The first occluder itself is
/// reached (and so visible); cells behind it are not.
pub open spec fn ray_sees(map: TileMap, ray: Seq<(int, int)>, px: int, py: int) -> bool {
    exists|j: int|
        0 <= j < ray.len() && ray[j] == (px, py) && (forall|k: int|
            0 <= k < j ==> !map.occludes_at(#[trigger] ray[k].0, ray[k].1))
}

/// The visibility pass marks `(px, py)` visible from `(cx, cy)`: some
/// perimeter ray reaches it before being interrupted.
pub open spec fn visible_spec(
    map: TileMap,
    cx: int,
    cy: int,
    radius: int,
    px: int,
    py: int,
) -> bool {
    exists|u: int, v: int|
        #![trigger ray_sees(map, perimeter_ray(map, cx, cy, u, v), px, py)]
        on_perimeter(u, v, radius) && ray_sees(map, perimeter_ray(map, cx, cy, u, v), px, py)
}

/// Rays already walked, in iteration order: all offsets lexicographically
/// before `(u, v)` (column first, then row).
spec fn visible_prefix(
    map: TileMap,
    cx: int,
    cy: int,
    radius: int,
    u: int,
    v: int,
    px: int,
    py: int,
) -> bool {
    exists|a: int, b: int|
        #![trigger ray_sees(map, perimeter_ray(map, cx, cy, a, b), px, py)]
        on_perimeter(a, b, radius) && (a < u || (a == u && b < v)) && ray_sees(
            map,
            perimeter_ray(map, cx, cy, a, b),
            px,
            py,
        )
}

/// A ray interrupted at index `stop - 1` sees nothing past that index.
proof fn lemma_ray_sees_cut(map: TileMap, ray: Seq<(int, int)>, stop: int, px: int, py: int)
    requires
        1 <= stop <= ray.len(),
        map.occludes_at(ray[stop - 1].0, ray[stop - 1].1),
        forall|k: int| 0 <= k < stop - 1 ==> !map.occludes_at(#[trigger] ray[k].0, ray[k].1),
    ensures
        ray_sees(map, ray, px, py) == (exists|j: int|
            0 <= j < stop && ray[j] == (px, py) && (forall|k: int|
                0 <= k < j ==> !map.occludes_at(#[trigger] ray[k].0, ray[k].1))),
{
    if ray_sees(map, ray, px, py) {
        let j = choose|j: int|
            0 <= j < ray.len() && ray[j] == (px, py) && (forall|k: int|
                0 <= k < j ==> !map.occludes_at(#[trigger] ray[k].0, ray[k].1));
        if j >= stop {
            assert(!map.occludes_at(ray[stop - 1].0, ray[stop - 1].1));
            assert(false);
        }
    }
}

fn contains_cell(v: &Vec<GridPos>, g: GridPos) -> (r: bool)
    ensures
        r == v@.contains(g),
{
    let mut i: usize = 0;
    while i < v.len()
        invariant
            i <= v.len(),
            forall|j: int| 0 <= j < i ==> v@[j] != g,
        decreases v.len() - i,
    {
        if v[i].x == g.x && v[i].y == g.y {
            return true;
        }
        i = i + 1;
    }
    false
}

/// Recompute the player's visible-tile set.
///
/// When the player's cell lies off the map the pass aborts without touching
/// any state.  Otherwise the previous set is discarded and rebuilt from
/// empty: the result holds exactly the cells some perimeter ray reaches
/// before being interrupted, each cell once, and the dirty flag is cleared.
pub fn update_visibile_tiles(map: &TileMap, player: &mut Player)
    requires
        map.wf(),
    ensures
        !map.size.spec_contains(old(player).pos.x as int, old(player).pos.y as int)
            ==> *final(player) == *old(player),
        map.size.spec_contains(old(player).pos.x as int, old(player).pos.y as int) ==> {
            &&& final(player).pos == old(player).pos
            &&& final(player).visited_tiles == old(player).visited_tiles
            &&& final(player).needs_fov_update == false
            &&& final(player).visible_tiles@.no_duplicates()
            &&& forall|g: GridPos| #[trigger]
                final(player).visible_tiles@.contains(g) <==> visible_spec(
                    *map,
                    old(player).pos.x as int,
                    old(player).pos.y as int,
                    FOV_SIZE as int,
                    g.x as int,
                    g.y as int,
                )
        },
{
    if !map.in_bounds(player.pos) {
        return ;
    }
    let cx = player.pos.x as i32;
    let cy = player.pos.y as i32;
    let ghost cxi = cx as int;
    let ghost cyi = cy as int;
    let ghost radius = FOV_SIZE as int;

    let mut visible: Vec<GridPos> = Vec::new();

    let mut u: i32 = -FOV_SIZE;
    while u <= FOV_SIZE
        invariant
            map.wf(),
            -FOV_SIZE <= u <= FOV_SIZE + 1,
            cx == old(player).pos.x as i32 && cy == old(player).pos.y as i32,
            cxi == cx as int && cyi == cy as int && radius == FOV_SIZE as int,
            map.size.spec_contains(cxi, cyi),
            visible@.no_duplicates(),
            forall|g: GridPos| #[trigger]
                visible@.contains(g) <==> visible_prefix(
                    *map,
                    cxi,
                    cyi,
                    radius,
                    u as int,
                    -radius,
                    g.x as int,
                    g.y as int,
                ),
        decreases FOV_SIZE + 1 - u,
    {
        let mut v: i32 = -FOV_SIZE;
        while v <= FOV_SIZE
            invariant
                map.wf(),
                -FOV_SIZE <= u <= FOV_SIZE,
                -FOV_SIZE <= v <= FOV_SIZE + 1,
                cx == old(player).pos.x as i32 && cy == old(player).pos.y as i32,
                cxi == cx as int && cyi == cy as int && radius == FOV_SIZE as int,
                map.size.spec_contains(cxi, cyi),
                visible@.no_duplicates(),
                forall|g: GridPos| #[trigger]
                    visible@.contains(g) <==> visible_prefix(
                        *map,
                        cxi,
                        cyi,
                        radius,
                        u as int,
                        v as int,
                        g.x as int,
                        g.y as int,
                    ),
            decreases FOV_SIZE + 1 - v,
        {
            if u == FOV_SIZE || u == -FOV_SIZE || v == FOV_SIZE || v == -FOV_SIZE {
                let path = bresenham_line(
                    IPos { x: cx, y: cy },
                    IPos { x: cx + u, y: cy + v },
                    &map.size,
                );
                let ghost ray = cells_view(path@);
                proof {
                    assert(ray == perimeter_ray(*map, cxi, cyi, u as int, v as int));
                }

                let mut m: usize = 0;
                let mut blocked = false;
                while m < path.len() && !blocked
                    invariant
                        map.wf(),
                        m <= path.len(),
                        ray == cells_view(path@),
                        ray == perimeter_ray(*map, cxi, cyi, u as int, v as int),
                        on_perimeter(u as int, v as int, radius),
                        forall|j: int|
                            0 <= j < path@.len() ==> (#[trigger] path@[j]).x < map.size.x
                                && path@[j].y < map.size.y,
                        !blocked ==> forall|k: int|
                            0 <= k < m ==> !map.occludes_at(
                                #[trigger] ray[k].0,
                                ray[k].1,
                            ),
                        blocked ==> 1 <= m <= ray.len() && map.occludes_at(
                            ray[m - 1].0,
                            ray[m - 1].1,
                        ) && (forall|k: int|
                            0 <= k < m - 1 ==> !map.occludes_at(#[trigger] ray[k].0, ray[k].1)),
                        visible@.no_duplicates(),
                        forall|g: GridPos| #[trigger]
                            visible@.contains(g) <==> (visible_prefix(
                                *map,
                                cxi,
                                cyi,
                                radius,
                                u as int,
                                v as int,
                                g.x as int,
                                g.y as int,
                            ) || (exists|j: int|
                                0 <= j < m && ray[j] == (g.x as int, g.y as int) && (forall|k: int|
                                    0 <= k < j ==> !map.occludes_at(
                                        #[trigger] ray[k].0,
                                        ray[k].1,
                                    )))),
                    decreases path.len() - m,
                {
                    let c = path[m];
                    let occ = map.get_tile(c).occluder;
                    proof {
                        assert(ray[m as int] == (c.x as int, c.y as int));
                    }
                    if !contains_cell(&visible, c) {
                        let ghost pre_vis = visible@;
                        visible.push(c);
                        proof {
                            assert(visible@ == pre_vis.push(c));
                            assert forall|g: GridPos| #[trigger]
                                visible@.contains(g) <==> (visible_prefix(
                                    *map,
                                    cxi,
                                    cyi,
                                    radius,
                                    u as int,
                                    v as int,
                                    g.x as int,
                                    g.y as int,
                                ) || (exists|j: int|
                                    0 <= j < m + 1 && ray[j] == (g.x as int, g.y as int) && (
                                    forall|k: int|
                                        0 <= k < j ==> !map.occludes_at(
                                            #[trigger] ray[k].0,
                                            ray[k].1,
                                        )))) by {
                                assert(visible@.contains(g) == (pre_vis.contains(g) || g == c));
                                if g == c {
                                    assert(ray[m as int] == (g.x as int, g.y as int));
                                } else {
                                    if ray[m as int] == (g.x as int, g.y as int) {
                                        assert(g.x == c.x && g.y == c.y);
                                        assert(false);
                                    }
                                }
                            }
                        }
                    } else {
                        proof {
                            assert forall|g: GridPos| #[trigger]
                                visible@.contains(g) <==> (visible_prefix(
                                    *map,
                                    cxi,
                                    cyi,
                                    radius,
                                    u as int,
                                    v as int,
                                    g.x as int,
                                    g.y as int,
                                ) || (exists|j: int|
                                    0 <= j < m + 1 && ray[j] == (g.x as int, g.y as int) && (
                                    forall|k: int|
                                        0 <= k < j ==> !map.occludes_at(
                                            #[trigger] ray[k].0,
                                            ray[k].1,
                                        )))) by {
                                if !visible@.contains(g) {
                                    if ray[m as int] == (g.x as int, g.y as int) {
                                        assert(g == c);
                                        assert(false);
                                    }
                                }
                            }
                        }
                    }
                    if occ {
                        blocked = true;
                    }
                    m = m + 1;
                }
                proof {
                    assert forall|g: GridPos| #[trigger]
                        visible@.contains(g) <==> (visible_prefix(
                            *map,
                            cxi,
                            cyi,
                            radius,
                            u as int,
                            v as int,
                            g.x as int,
                            g.y as int,
                        ) || ray_sees(*map, ray, g.x as int, g.y as int)) by {
                        if blocked {
                            lemma_ray_sees_cut(*map, ray, m as int, g.x as int, g.y as int);
                        }
                    }
                    assert forall|g: GridPos| #[trigger]
                        visible@.contains(g) <==> visible_prefix(
                            *map,
                            cxi,
                            cyi,
                            radius,
                            u as int,
                            v as int + 1,
                            g.x as int,
                            g.y as int,
                        ) by {
                        lemma_visible_prefix_step(
                            *map,
                            cxi,
                            cyi,
                            radius,
                            u as int,
                            v as int,
                            g.x as int,
                            g.y as int,
                        );
                    }
                }
            } else {
                proof {
                    assert forall|g: GridPos| #[trigger]
                        visible@.contains(g) <==> visible_prefix(
                            *map,
                            cxi,
                            cyi,
                            radius,
                            u as int,
                            v as int + 1,
                            g.x as int,
                            g.y as int,
                        ) by {
                        lemma_visible_prefix_skip(
                            *map,
                            cxi,
                            cyi,
                            radius,
                            u as int,
                            v as int,
                            g.x as int,
                            g.y as int,
                        );
                    }
                }
            }
            v = v + 1;
        }
        proof {
            assert forall|g: GridPos| #[trigger]
                visible@.contains(g) <==> visible_prefix(
                    *map,
                    cxi,
                    cyi,
                    radius,
                    u as int + 1,
                    -radius,
                    g.x as int,
                    g.y as int,
                ) by {
                lemma_visible_prefix_wrap(
                    *map,
                    cxi,
                    cyi,
                    radius,
                    u as int,
                    g.x as int,
                    g.y as int,
                );
            }
        }
        u = u + 1;
    }
    proof {
        assert forall|g: GridPos| #[trigger]
            visible@.contains(g) <==> visible_spec(
                *map,
                cxi,
                cyi,
                radius,
                g.x as int,
                g.y as int,
            ) by {
            lemma_visible_prefix_complete(*map, cxi, cyi, radius, g.x as int, g.y as int);
        }
    }
    player.visible_tiles = visible;
    player.needs_fov_update = false;
}

/// Walking ray `(u, v)` extends the prefix from `(u, v)` to `(u, v + 1)`.
proof fn lemma_visible_prefix_step(
    map: TileMap,
    cx: int,
    cy: int,
    radius: int,
    u: int,
    v: int,
    px: int,
    py: int,
)
    requires
        on_perimeter(u, v, radius),
    ensures
        visible_prefix(map, cx, cy, radius, u, v + 1, px, py) == (visible_prefix(
            map,
            cx,
            cy,
            radius,
            u,
            v,
            px,
            py,
        ) || ray_sees(map, perimeter_ray(map, cx, cy, u, v), px, py)),
{
    if visible_prefix(map, cx, cy, radius, u, v + 1, px, py) {
        let (a, b) = choose|a: int, b: int|
            on_perimeter(a, b, radius) && (a < u || (a == u && b < v + 1)) && #[trigger] ray_sees(
                map,
                perimeter_ray(map, cx, cy, a, b),
                px,
                py,
            );
        if a < u || (a == u && b < v) {
            assert(visible_prefix(map, cx, cy, radius, u, v, px, py));
        } else {
            assert(a == u && b == v);
        }
    }
}

/// Skipping a non-perimeter offset leaves the prefix unchanged.
proof fn lemma_visible_prefix_skip(
    map: TileMap,
    cx: int,
    cy: int,
    radius: int,
    u: int,
    v: int,
    px: int,
    py: int,
)
    requires
        !on_perimeter(u, v, radius),
    ensures
        visible_prefix(map, cx, cy, radius, u, v + 1, px, py) == visible_prefix(
            map,
            cx,
            cy,
            radius,
            u,
            v,
            px,
            py,
        ),
{
    if visible_prefix(map, cx, cy, radius, u, v + 1, px, py) {
        let (a, b) = choose|a: int, b: int|
            on_perimeter(a, b, radius) && (a < u || (a == u && b < v + 1)) && #[trigger] ray_sees(
                map,
                perimeter_ray(map, cx, cy, a, b),
                px,
                py,
            );
        assert(a < u || (a == u && b < v));
        assert(visible_prefix(map, cx, cy, radius, u, v, px, py));
    }
}

/// Finishing a column moves the prefix bound from `(u, radius + 1)` to
/// `(u + 1, -radius)`.
proof fn lemma_visible_prefix_wrap(
    map: TileMap,
    cx: int,
    cy: int,
    radius: int,
    u: int,
    px: int,
    py: int,
)
    ensures
        visible_prefix(map, cx, cy, radius, u, radius + 1, px, py) == visible_prefix(
            map,
            cx,
            cy,
            radius,
            u + 1,
            -radius,
            px,
            py,
        ),
{
    if visible_prefix(map, cx, cy, radius, u, radius + 1, px, py) {
        let (a, b) = choose|a: int, b: int|
            on_perimeter(a, b, radius) && (a < u || (a == u && b < radius + 1)) && #[trigger] ray_sees(
                map,
                perimeter_ray(map, cx, cy, a, b),
                px,
                py,
            );
        assert(a < u + 1);
        assert(visible_prefix(map, cx, cy, radius, u + 1, -radius, px, py));
    }
    if visible_prefix(map, cx, cy, radius, u + 1, -radius, px, py) {
        let (a, b) = choose|a: int, b: int|
            on_perimeter(a, b, radius) && (a < u + 1 || (a == u + 1 && b < -radius))
                && #[trigger] ray_sees(map, perimeter_ray(map, cx, cy, a, b), px, py);
        assert(a < u || (a == u && b < radius + 1));
        assert(visible_prefix(map, cx, cy, radius, u, radius + 1, px, py));
    }
}

/// Once every column is walked the prefix is the full visibility pass.
proof fn lemma_visible_prefix_complete(
    map: TileMap,
    cx: int,
    cy: int,
    radius: int,
    px: int,
    py: int,
)
    ensures
        visible_prefix(map, cx, cy, radius, radius + 1, -radius, px, py) == visible_spec(
            map,
            cx,
            cy,
            radius,
            px,
            py,
        ),
{
    if visible_spec(map, cx, cy, radius, px, py) {
        let (a, b) = choose|a: int, b: int|
            on_perimeter(a, b, radius) && #[trigger] ray_sees(
                map,
                perimeter_ray(map, cx, cy, a, b),
                px,
                py,
            );
        assert(a < radius + 1);
        assert(visible_prefix(map, cx, cy, radius, radius + 1, -radius, px, py));
    }
}

/// With no occluder anywhere in the square of half-width `radius` around
/// the actor, every on-map cell of that square ends up visible: some
/// perimeter ray passes through it and nothing interrupts the walk.
pub proof fn lemma_no_occluders_full_square(
    map: TileMap,
    cx: int,
    cy: int,
    radius: int,
    px: int,
    py: int,
)
    requires
        map.wf(),
        1 <= radius,
        map.size.spec_contains(cx, cy),
        map.size.spec_contains(px, py),
        abs_int(px - cx) <= radius,
        abs_int(py - cy) <= radius,
        forall|qx: int, qy: int|
            map.size.spec_contains(qx, qy) && abs_int(qx - cx) <= radius && abs_int(qy - cy)
                <= radius ==> !(#[trigger] map.occludes_at(qx, qy)),
    ensures
        visible_spec(map, cx, cy, radius, px, py),
{
    let t = lemma_ray_hits_offset(cx, cy, radius, px - cx, py - cy);
    let u = t.0;
    let v = t.1;
    let bx = cx + u;
    let by = cy + v;
    let raw = raw_points(cx, cy, bx, by);
    let o = oriented_points(cx, cy, bx, by);
    let ray = perimeter_ray(map, cx, cy, u, v);
    assert(raw.contains((px, py)));
    if line_reversed(cx, cy, bx, by) {
        lemma_reverse_contains(raw, (px, py));
        assert(o.contains((px, py)));
    }
    lemma_bounded_cells_contains(o, map.size, (px, py));
    assert(ray.contains((px, py)));
    let j = choose|j: int| 0 <= j < ray.len() && ray[j] == (px, py);

    assert forall|k: int| 0 <= k < j implies !map.occludes_at(
        #[trigger] ray[k].0,
        ray[k].1,
    ) by {
        lemma_bounded_cells_sub(o, map.size, k);
        let c = ray[k];
        if line_reversed(cx, cy, bx, by) {
            lemma_reverse_contains(raw, c);
        }
        assert(raw.contains(c));
        let m = choose|m: int| 0 <= m < raw.len() && raw[m] == c;
        lemma_raw_in_box(cx, cy, bx, by, m);
        assert(abs_int(2 * c.0 - cx - bx) <= abs_int(cx - bx));
        assert(abs_int(c.0 - cx) <= abs_int(u));
        assert(abs_int(2 * c.1 - cy - by) <= abs_int(cy - by));
        assert(abs_int(c.1 - cy) <= abs_int(v));
    }
    assert(ray_sees(map, ray, px, py));
    assert(on_perimeter(u, v, radius));
    assert(visible_spec(map, cx, cy, radius, px, py));
}

} // verus!