//! Integer rasterization of a straight path between two grid cells.
//!
//! The tracer is used both for corridor carving during dungeon generation
//! and for line-of-sight rays in the visibility engine.  Its output is
//! pinned exactly by [`line_cells`]: the classic digital-line algorithm,
//! expressed through the closed form [`bres_steps`] for the minor-axis
//! offset after a given number of major-axis steps.

use vstd::prelude::*;
use crate::components::{GridPos, IPos, MapSize};

verus! {

pub open spec fn abs_int(a: int) -> int {
    if a >= 0 {
        a
    } else {
        -a
    }
}

/// How many minor-axis steps the digital line has taken after `i` major-axis
/// steps, for a run with major extent `dx` and minor extent `dy`.
///
/// This is the unique `s` with `-dx < 2*dy*i - 2*dx*s <= dx`: the error
/// accumulator of the algorithm stays within half a major step of the true
/// line.
pub open spec fn bres_steps(dy: int, dx: int, i: int) -> int
    recommends
        0 <= dy <= dx,
        0 <= i <= dx,
{
    if dx == 0 {
        0
    } else {
        (2 * dy * i + dx - 1) / (2 * dx)
    }
}

/// The generation run of a traced line: coordinates after the steep-line
/// axis swap, ordered so generation advances along increasing major axis.
pub struct LineRun {
    /// The vertical span exceeded the horizontal span, so axes were swapped.
    pub steep: bool,
    /// Generation starts from the `b` endpoint (major coordinates were
    /// reordered), so the produced sequence may need reversing.
    pub flip: bool,
    pub x0: int,
    pub y0: int,
    pub x1: int,
    pub y1: int,
}

pub open spec fn line_run(ax: int, ay: int, bx: int, by: int) -> LineRun {
    let steep = abs_int(ax - bx) < abs_int(ay - by);
    let sax = if steep { ay } else { ax };
    let say = if steep { ax } else { ay };
    let sbx = if steep { by } else { bx };
    let sby = if steep { bx } else { by };
    let flip = sax > sbx;
    if flip {
        LineRun { steep, flip, x0: sbx, y0: sby, x1: sax, y1: say }
    } else {
        LineRun { steep, flip, x0: sax, y0: say, x1: sbx, y1: sby }
    }
}

pub open spec fn run_dx(r: LineRun) -> int {
    r.x1 - r.x0
}

pub open spec fn run_dy(r: LineRun) -> int {
    abs_int(r.y1 - r.y0)
}

pub open spec fn run_ystep(r: LineRun) -> int {
    if r.y1 > r.y0 {
        1
    } else {
        -1
    }
}

/// The `i`-th generated cell of the run, mapped back to original axes.
pub open spec fn run_point(r: LineRun, i: int) -> (int, int) {
    let px = r.x0 + i;
    let py = r.y0 + run_ystep(r) * bres_steps(run_dy(r), run_dx(r), i);
    if r.steep {
        (py, px)
    } else {
        (px, py)
    }
}

/// All generated cells, in generation order (from the low-major endpoint).
pub open spec fn raw_points(ax: int, ay: int, bx: int, by: int) -> Seq<(int, int)> {
    let r = line_run(ax, ay, bx, by);
    Seq::new((run_dx(r) + 1) as nat, |i: int| run_point(r, i))
}

/// Whether the generated sequence is reversed before being returned: the
/// first generated cell must differ from the requested start in **both**
/// axes.  This is the stricter reversal test; it deliberately leaves
/// axis-aligned lines whose generation began at the far end unreversed.
pub open spec fn line_reversed(ax: int, ay: int, bx: int, by: int) -> bool {
    let raw = raw_points(ax, ay, bx, by);
    raw[0].0 != ax && raw[0].1 != ay
}

/// The generated cells in caller-facing order, before bounds filtering.
pub open spec fn oriented_points(ax: int, ay: int, bx: int, by: int) -> Seq<(int, int)> {
    let raw = raw_points(ax, ay, bx, by);
    if line_reversed(ax, ay, bx, by) {
        raw.reverse()
    } else {
        raw
    }
}

/// Cells of `s` that lie on the map, kept in order.
pub open spec fn bounded_cells(s: Seq<(int, int)>, size: MapSize) -> Seq<(int, int)>
    decreases s.len(),
{
    if s.len() == 0 {
        Seq::empty()
    } else {
        let rest = bounded_cells(s.drop_last(), size);
        if size.spec_contains(s.last().0, s.last().1) {
            rest.push(s.last())
        } else {
            rest
        }
    }
}

/// The traced path from `(ax, ay)` to `(bx, by)`: every generated cell of
/// the digital line, with out-of-bounds cells dropped (not clamped).
pub open spec fn line_cells(ax: int, ay: int, bx: int, by: int, size: MapSize) -> Seq<(int, int)> {
    bounded_cells(oriented_points(ax, ay, bx, by), size)
}

pub open spec fn cells_view(v: Seq<GridPos>) -> Seq<(int, int)> {
    v.map_values(|g: GridPos| (g.x as int, g.y as int))
}

pub open spec fn ipos_view(v: Seq<IPos>) -> Seq<(int, int)> {
    v.map_values(|p: IPos| (p.x as int, p.y as int))
}

/// Coordinate magnitude under which the tracer's error arithmetic cannot
/// overflow a 32-bit signed accumulator.
pub const TRACE_COORD_LIMIT: i32 = 0x1000_0000;

/// `s` is the step count `bres_steps(dy, dx, i)` exactly when the error
/// term `2*dy*i - 2*dx*s` lies in `(-dx, dx]`.
proof fn lemma_steps_unique(dy: int, dx: int, i: int, s: int)
    requires
        0 <= dy <= dx,
        0 < dx,
        -dx < 2 * dy * i - 2 * dx * s <= dx,
    ensures
        s == bres_steps(dy, dx, i),
{
    let rem = 2 * dy * i - 2 * dx * s + dx - 1;
    assert(0 <= rem < 2 * dx);
    assert(2 * dy * i + dx - 1 == s * (2 * dx) + rem);
    vstd::arithmetic::div_mod::lemma_fundamental_div_mod_converse_div(
        2 * dy * i + dx - 1,
        2 * dx,
        s,
        rem,
    );
}

/// The error term of the closed form stays in `(-dx, dx]`.
proof fn lemma_steps_char(dy: int, dx: int, i: int)
    requires
        0 <= dy <= dx,
        0 < dx,
    ensures
        -dx < 2 * dy * i - 2 * dx * bres_steps(dy, dx, i) <= dx,
{
    let x = 2 * dy * i + dx - 1;
    let d = 2 * dx;
    vstd::arithmetic::div_mod::lemma_fundamental_div_mod(x, d);
    vstd::arithmetic::div_mod::lemma_mod_bound(x, d);
    assert(x == d * (x / d) + x % d);
    assert(2 * dy * i - 2 * dx * (x / d) == x % d - dx + 1);
}

/// The step count starts at zero, ends at `dy`, and never moves by more
/// than one per major step.
pub proof fn lemma_steps_bounds(dy: int, dx: int, i: int)
    requires
        0 <= dy <= dx,
        0 <= i <= dx,
    ensures
        0 <= bres_steps(dy, dx, i) <= dy,
        bres_steps(dy, dx, 0) == 0,
        bres_steps(dy, dx, dx) == dy,
{
    if dx == 0 {
    } else {
        lemma_steps_char(dy, dx, i);
        let s = bres_steps(dy, dx, i);
        assert(2 * dx * s < 2 * dy * i + dx);
        assert(2 * dy * i <= 2 * dx * dy) by (nonlinear_arith)
            requires 0 <= dy && 0 <= i <= dx;
        assert(2 * dx * s < 2 * dx * dy + dx);
        assert(s <= dy) by (nonlinear_arith)
            requires 2 * dx * s < 2 * dx * dy + dx && 0 < dx;
        assert(2 * dx * s >= 2 * dy * i - dx);
        assert(s >= 0) by (nonlinear_arith)
            requires 2 * dx * s >= 2 * dy * i - dx && 0 < dx && 0 <= dy && 0 <= i;
        lemma_steps_unique(dy, dx, 0, 0);
        assert(2 * dy * dx == 2 * dx * dy) by (nonlinear_arith);
        lemma_steps_unique(dy, dx, dx, dy);
    }
}

/// Consecutive step counts differ by zero or one.
pub proof fn lemma_steps_adjacent(dy: int, dx: int, i: int)
    requires
        0 <= dy <= dx,
        0 <= i,
        i + 1 <= dx,
    ensures
        bres_steps(dy, dx, i) <= bres_steps(dy, dx, i + 1) <= bres_steps(dy, dx, i) + 1,
{
    if dx == 0 {
    } else {
        lemma_steps_char(dy, dx, i);
        lemma_steps_char(dy, dx, i + 1);
        let s = bres_steps(dy, dx, i);
        let t = bres_steps(dy, dx, i + 1);
        assert(2 * dy * (i + 1) - 2 * dx * t - (2 * dy * i - 2 * dx * s) == 2 * dy - 2 * dx * (t
            - s)) by (nonlinear_arith);
        assert(-2 * dx < 2 * dy - 2 * dx * (t - s) < 2 * dx);
        assert(0 <= t - s <= 1) by (nonlinear_arith)
            requires
                -2 * dx < 2 * dy - 2 * dx * (t - s) < 2 * dx && 0 <= dy <= dx && 0 < dx;
    }
}

proof fn lemma_run_wf(ax: int, ay: int, bx: int, by: int)
    ensures
        0 <= run_dy(line_run(ax, ay, bx, by)) <= run_dx(line_run(ax, ay, bx, by)),
{
}

/// The generated sequence has one cell per major-axis step; it begins at
/// the low-major endpoint and ends at the other one.
proof fn lemma_raw_endpoints(ax: int, ay: int, bx: int, by: int)
    ensures
        raw_points(ax, ay, bx, by).len() == run_dx(line_run(ax, ay, bx, by)) + 1,
        raw_points(ax, ay, bx, by).first() == if line_run(ax, ay, bx, by).flip {
            (bx, by)
        } else {
            (ax, ay)
        },
        raw_points(ax, ay, bx, by).last() == if line_run(ax, ay, bx, by).flip {
            (ax, ay)
        } else {
            (bx, by)
        },
{
    let r = line_run(ax, ay, bx, by);
    lemma_run_wf(ax, ay, bx, by);
    lemma_steps_bounds(run_dy(r), run_dx(r), 0);
    lemma_steps_bounds(run_dy(r), run_dx(r), run_dx(r));
    if r.y1 > r.y0 {
        assert(run_ystep(r) * run_dy(r) == r.y1 - r.y0) by (nonlinear_arith)
            requires run_ystep(r) == 1 && run_dy(r) == r.y1 - r.y0;
    } else {
        assert(run_ystep(r) * run_dy(r) == r.y1 - r.y0) by (nonlinear_arith)
            requires run_ystep(r) == -1 && run_dy(r) == r.y0 - r.y1;
    }
}

/// Every generated cell lies in the bounding box of the two endpoints.
pub proof fn lemma_raw_in_box(ax: int, ay: int, bx: int, by: int, i: int)
    requires
        0 <= i < raw_points(ax, ay, bx, by).len(),
    ensures
        abs_int(2 * raw_points(ax, ay, bx, by)[i].0 - ax - bx) <= abs_int(ax - bx),
        abs_int(2 * raw_points(ax, ay, bx, by)[i].1 - ay - by) <= abs_int(ay - by),
{
    let r = line_run(ax, ay, bx, by);
    lemma_run_wf(ax, ay, bx, by);
    lemma_steps_bounds(run_dy(r), run_dx(r), i);
}

/// Consecutive generated cells differ by at most one step in each axis.
proof fn lemma_raw_adjacent(ax: int, ay: int, bx: int, by: int, i: int)
    requires
        0 <= i,
        i + 1 < raw_points(ax, ay, bx, by).len(),
    ensures
        abs_int(raw_points(ax, ay, bx, by)[i + 1].0 - raw_points(ax, ay, bx, by)[i].0) <= 1,
        abs_int(raw_points(ax, ay, bx, by)[i + 1].1 - raw_points(ax, ay, bx, by)[i].1) <= 1,
{
    let r = line_run(ax, ay, bx, by);
    lemma_run_wf(ax, ay, bx, by);
    lemma_steps_adjacent(run_dy(r), run_dx(r), i);
}

/// When every cell of `s` lies on the map, bounds filtering keeps `s` whole.
proof fn lemma_bounded_cells_identity(s: Seq<(int, int)>, size: MapSize)
    requires
        forall|j: int| 0 <= j < s.len() ==> size.spec_contains(#[trigger] s[j].0, s[j].1),
    ensures
        bounded_cells(s, size) == s,
    decreases s.len(),
{
    if s.len() == 0 {
        assert(bounded_cells(s, size) =~= s);
    } else {
        lemma_bounded_cells_identity(s.drop_last(), size);
        assert(bounded_cells(s, size) =~= s);
    }
}

/// Tracing a cell to itself yields exactly that cell.
pub proof fn lemma_tracer_single(ax: int, ay: int, size: MapSize)
    requires
        size.spec_contains(ax, ay),
    ensures
        line_cells(ax, ay, ax, ay, size) == seq![(ax, ay)],
{
    lemma_raw_endpoints(ax, ay, ax, ay);
    let raw = raw_points(ax, ay, ax, ay);
    assert(raw.len() == 1);
    assert(raw[0] == (ax, ay));
    assert(!line_reversed(ax, ay, ax, ay));
    assert(oriented_points(ax, ay, ax, ay) == raw);
    lemma_bounded_cells_identity(raw, size);
    assert(line_cells(ax, ay, ax, ay, size) =~= seq![(ax, ay)]);
}

/// For any two endpoints on the map the traced path is nonempty, runs
/// between exactly those two cells (in one order or the other), and moves
/// by at most one cell per axis between consecutive entries (8-connected).
pub proof fn lemma_tracer_adjacent(ax: int, ay: int, bx: int, by: int, size: MapSize)
    requires
        size.spec_contains(ax, ay),
        size.spec_contains(bx, by),
    ensures
        line_cells(ax, ay, bx, by, size).len() >= 1,
        (line_cells(ax, ay, bx, by, size).first() == (ax, ay) && line_cells(
            ax,
            ay,
            bx,
            by,
            size,
        ).last() == (bx, by)) || (line_cells(ax, ay, bx, by, size).first() == (bx, by)
            && line_cells(ax, ay, bx, by, size).last() == (ax, ay)),
        forall|k: int|
            0 <= k && k + 1 < line_cells(ax, ay, bx, by, size).len() ==> abs_int(
                #[trigger] line_cells(ax, ay, bx, by, size)[k + 1].0 - line_cells(
                    ax,
                    ay,
                    bx,
                    by,
                    size,
                )[k].0,
            ) <= 1 && abs_int(
                line_cells(ax, ay, bx, by, size)[k + 1].1 - line_cells(ax, ay, bx, by, size)[k].1,
            ) <= 1,
{
    lemma_tracer_unfiltered(ax, ay, bx, by, size);
    let o = oriented_points(ax, ay, bx, by);
    let raw = raw_points(ax, ay, bx, by);
    lemma_raw_endpoints(ax, ay, bx, by);
    if line_reversed(ax, ay, bx, by) {
        assert(o.first() == raw.last());
        assert(o.last() == raw.first());
    } else {
        assert(o == raw);
    }
    assert forall|k: int|
        0 <= k && k + 1 < line_cells(ax, ay, bx, by, size).len() implies abs_int(
        #[trigger] line_cells(ax, ay, bx, by, size)[k + 1].0 - line_cells(ax, ay, bx, by, size)[k].0,
    ) <= 1 && abs_int(
        line_cells(ax, ay, bx, by, size)[k + 1].1 - line_cells(ax, ay, bx, by, size)[k].1,
    ) <= 1 by {
        assert(line_cells(ax, ay, bx, by, size)[k] == o[k]);
        assert(line_cells(ax, ay, bx, by, size)[k + 1] == o[k + 1]);
        if line_reversed(ax, ay, bx, by) {
            let n = raw.len() as int;
            assert(o[k] == raw[n - 1 - k]);
            assert(o[k + 1] == raw[n - 1 - (k + 1)]);
            lemma_raw_adjacent(ax, ay, bx, by, n - 2 - k);
        } else {
            lemma_raw_adjacent(ax, ay, bx, by, k);
        }
    }
}

/// For endpoints on the map whose traversal either already begins at the
/// start or differs from it in both axes, the traced path begins at the
/// start cell, ends at the end cell, and moves by at most one cell per
/// axis between consecutive entries.
pub proof fn lemma_tracer_path(ax: int, ay: int, bx: int, by: int, size: MapSize)
    requires
        size.spec_contains(ax, ay),
        size.spec_contains(bx, by),
        !line_run(ax, ay, bx, by).flip || (ax != bx && ay != by),
    ensures
        line_cells(ax, ay, bx, by, size).len() >= 1,
        line_cells(ax, ay, bx, by, size).first() == (ax, ay),
        line_cells(ax, ay, bx, by, size).last() == (bx, by),
        forall|k: int|
            0 <= k && k + 1 < line_cells(ax, ay, bx, by, size).len() ==> abs_int(
                #[trigger] line_cells(ax, ay, bx, by, size)[k + 1].0 - line_cells(
                    ax,
                    ay,
                    bx,
                    by,
                    size,
                )[k].0,
            ) <= 1 && abs_int(
                line_cells(ax, ay, bx, by, size)[k + 1].1 - line_cells(ax, ay, bx, by, size)[k].1,
            ) <= 1,
{
    lemma_tracer_adjacent(ax, ay, bx, by, size);
    lemma_tracer_unfiltered(ax, ay, bx, by, size);
    let o = oriented_points(ax, ay, bx, by);
    let raw = raw_points(ax, ay, bx, by);
    let r = line_run(ax, ay, bx, by);
    lemma_raw_endpoints(ax, ay, bx, by);
    if line_reversed(ax, ay, bx, by) {
        assert(r.flip);
        assert(o.first() == raw.last());
        assert(o.last() == raw.first());
    } else {
        assert(o == raw);
        if r.flip {
            assert(raw.first() == (bx, by));
            assert(!(bx != ax && by != ay));
            assert(ax == bx || ay == by);
            assert(false);
        }
    }
}

/// With both endpoints on the map no generated cell is filtered out.
proof fn lemma_tracer_unfiltered(ax: int, ay: int, bx: int, by: int, size: MapSize)
    requires
        size.spec_contains(ax, ay),
        size.spec_contains(bx, by),
    ensures
        line_cells(ax, ay, bx, by, size) == oriented_points(ax, ay, bx, by),
{
    let raw = raw_points(ax, ay, bx, by);
    let o = oriented_points(ax, ay, bx, by);
    assert forall|j: int| 0 <= j < o.len() implies size.spec_contains(
        #[trigger] o[j].0,
        o[j].1,
    ) by {
        let i = if line_reversed(ax, ay, bx, by) {
            raw.len() - 1 - j
        } else {
            j
        };
        assert(o[j] == raw[i]);
        lemma_raw_in_box(ax, ay, bx, by, i);
    }
    lemma_bounded_cells_identity(o, size);
}

/// Elements of the filtered sequence come from the original and lie on
/// the map.
pub proof fn lemma_bounded_cells_sub(s: Seq<(int, int)>, size: MapSize, k: int)
    requires
        0 <= k < bounded_cells(s, size).len(),
    ensures
        s.contains(bounded_cells(s, size)[k]),
        size.spec_contains(bounded_cells(s, size)[k].0, bounded_cells(s, size)[k].1),
    decreases s.len(),
{
    if s.len() > 0 {
        let rest = bounded_cells(s.drop_last(), size);
        if k < rest.len() {
            lemma_bounded_cells_sub(s.drop_last(), size, k);
            let p = rest[k];
            let j = choose|j: int| 0 <= j < s.drop_last().len() && s.drop_last()[j] == p;
            assert(s[j] == p);
        } else {
            assert(bounded_cells(s, size)[k] == s.last());
            assert(s[s.len() - 1] == s.last());
        }
    }
}

/// An on-map element of the original survives the filtering.
pub proof fn lemma_bounded_cells_contains(s: Seq<(int, int)>, size: MapSize, p: (int, int))
    requires
        s.contains(p),
        size.spec_contains(p.0, p.1),
    ensures
        bounded_cells(s, size).contains(p),
    decreases s.len(),
{
    let j = choose|j: int| 0 <= j < s.len() && s[j] == p;
    if j == s.len() - 1 {
        let rest = bounded_cells(s.drop_last(), size);
        assert(bounded_cells(s, size)[rest.len() as int] == p);
    } else {
        assert(s.drop_last()[j] == p);
        lemma_bounded_cells_contains(s.drop_last(), size, p);
        let rest = bounded_cells(s.drop_last(), size);
        let k = choose|k: int| 0 <= k < rest.len() && rest[k] == p;
        assert(bounded_cells(s, size)[k] == p);
    }
}

/// Reversal keeps membership.
pub proof fn lemma_reverse_contains(s: Seq<(int, int)>, p: (int, int))
    ensures
        s.reverse().contains(p) == s.contains(p),
{
    if s.contains(p) {
        let j = choose|j: int| 0 <= j < s.len() && s[j] == p;
        assert(s.reverse()[s.len() - 1 - j] == p);
    }
    if s.reverse().contains(p) {
        let j = choose|j: int| 0 <= j < s.reverse().len() && s.reverse()[j] == p;
        assert(s[s.len() - 1 - j] == p);
    }
}

/// The `i`-th generated cell is a member of the generated sequence.
pub proof fn lemma_raw_contains(ax: int, ay: int, bx: int, by: int, i: int)
    requires
        0 <= i <= run_dx(line_run(ax, ay, bx, by)),
    ensures
        raw_points(ax, ay, bx, by).contains(run_point(line_run(ax, ay, bx, by), i)),
{
    assert(raw_points(ax, ay, bx, by)[i] == run_point(line_run(ax, ay, bx, by), i));
}

/// A multiple of `d` lands in any half-open window of width `d`.
proof fn lemma_div_witness(a: int, d: int) -> (w: int)
    requires
        0 < d,
    ensures
        a < d * w <= a + d,
{
    vstd::arithmetic::div_mod::lemma_fundamental_div_mod(a, d);
    vstd::arithmetic::div_mod::lemma_mod_bound(a, d);
    let q = a / d;
    assert(a == d * q + a % d);
    assert(d * (q + 1) == d * q + d) by (nonlinear_arith);
    q + 1
}

/// Every offset within the square of half-width `radius` lies on the
/// traced segment toward some cell of the square's perimeter.
pub proof fn lemma_ray_hits_offset(cx: int, cy: int, radius: int, dx: int, dy: int) -> (t: (
    int,
    int,
))
    requires
        1 <= radius,
        abs_int(dx) <= radius,
        abs_int(dy) <= radius,
    ensures
        abs_int(t.0) <= radius && abs_int(t.1) <= radius,
        t.0 == radius || t.0 == -radius || t.1 == radius || t.1 == -radius,
        raw_points(cx, cy, cx + t.0, cy + t.1).contains((cx + dx, cy + dy)),
{
    let rr = radius;
    let adx = abs_int(dx);
    let ady = abs_int(dy);
    if dx == 0 && dy == 0 {
        let r = line_run(cx, cy, cx + rr, cy);
        lemma_steps_bounds(run_dy(r), run_dx(r), 0);
        assert(run_point(r, 0) == (cx, cy));
        lemma_raw_contains(cx, cy, cx + rr, cy, 0);
        (rr, 0)
    } else if ady <= adx {
        let sy: int = if dy >= 0 { 1 } else { -1 };
        let w: int = if ady == adx {
            rr
        } else if ady == 0 {
            0
        } else if dx > 0 {
            lemma_div_witness(2 * rr * ady - rr, 2 * adx)
        } else {
            lemma_div_witness(2 * rr * ady - rr - 1, 2 * adx)
        };
        // range facts about w, shared by both direction cases
        if 0 < ady && ady < adx {
            assert(2 * rr * ady - rr - 1 < 2 * adx * w <= 2 * rr * ady - rr + 2 * adx);
            assert((2 * ady - 1) * (rr - adx) >= 0) by (nonlinear_arith)
                requires 1 <= ady && adx <= rr;
            assert(2 * rr * ady - rr >= 2 * adx * ady - adx) by (nonlinear_arith)
                requires (2 * ady - 1) * (rr - adx) >= 0;
            assert(2 * adx * w > 2 * adx * ady - adx - 1);
            assert(w >= ady) by (nonlinear_arith)
                requires 2 * adx * w > 2 * adx * ady - adx - 1 && 0 < adx;
            assert(2 * rr * ady <= 2 * rr * adx - 2 * rr) by (nonlinear_arith)
                requires ady <= adx - 1 && 0 < rr;
            assert(2 * adx * w <= 2 * rr * adx - 2 * rr - rr + 2 * adx);
            assert(w <= rr) by (nonlinear_arith)
                requires 2 * adx * w <= 2 * rr * adx - 3 * rr + 2 * adx && 0 < adx <= rr && 0 < rr;
        }
        assert(0 <= w <= rr);
        assert(ady <= w) by {
            if ady == adx {
            } else if ady == 0 {
            }
        }
        let v = w * sy;
        assert(abs_int(v) == w && (dy > 0 ==> sy == 1) && (dy < 0 ==> sy == -1)) by (nonlinear_arith)
            requires (sy == 1 || sy == -1) && 0 <= w && v == w * sy && (dy >= 0 ==> sy == 1) && (dy
                < 0 ==> sy == -1);
        assert(dy > 0 ==> w >= 1);
        assert(dy > 0 ==> v >= 1) by (nonlinear_arith)
            requires v == w * sy && (dy > 0 ==> sy == 1 && w >= 1);
        assert(dy < 0 ==> v <= -1) by (nonlinear_arith)
            requires v == w * sy && (dy < 0 ==> sy == -1 && w >= 1);
        assert(dy == 0 ==> v == 0) by (nonlinear_arith)
            requires v == w * sy && (dy == 0 ==> w == 0);
        if dx > 0 {
            let u = rr;
            let r = line_run(cx, cy, cx + u, cy + v);
            assert(!r.steep && !r.flip);
            assert(r.x0 == cx && r.y0 == cy && r.x1 == cx + rr && r.y1 == cy + v);
            assert(run_dx(r) == rr && run_dy(r) == w);
            assert(-rr < 2 * w * dx - 2 * rr * ady <= rr) by (nonlinear_arith)
                requires
                    1 <= rr && 0 <= ady <= adx <= rr && 1 <= adx && dx == adx && (ady == adx ==> w
                        == rr) && (ady == 0 ==> ady == adx || w == 0) && (0 < ady && ady < adx ==> 2
                        * rr * ady - rr < 2 * adx * w <= 2 * rr * ady - rr + 2 * adx);
            lemma_steps_unique(w, rr, dx, ady);
            let yst = run_ystep(r);
            assert(dy > 0 ==> yst == 1);
            assert(dy <= 0 ==> yst == -1 || dy == 0);
            assert(yst * ady == dy) by (nonlinear_arith)
                requires (dy > 0 ==> yst == 1 && ady == dy) && (dy < 0 ==> yst == -1 && ady == -dy)
                    && (dy == 0 ==> ady == 0) && (yst == 1 || yst == -1);
            assert(run_point(r, dx) == (cx + dx, cy + dy));
            lemma_raw_contains(cx, cy, cx + u, cy + v, dx);
            (u, v)
        } else {
            let u = -rr;
            let r = line_run(cx, cy, cx + u, cy + v);
            assert(!r.steep && r.flip);
            assert(r.x0 == cx - rr && r.y0 == cy + v && r.x1 == cx && r.y1 == cy);
            assert(run_dx(r) == rr && run_dy(r) == w);
            let i = rr + dx;
            let st = w - ady;
            assert(0 <= st <= w);
            assert(-rr < 2 * w * i - 2 * rr * st <= rr) by (nonlinear_arith)
                requires
                    1 <= rr && 0 <= ady <= adx <= rr && 1 <= adx && dx == -adx && i == rr + dx && st
                        == w - ady && (ady == adx ==> w == rr) && (ady == 0 ==> ady == adx || w
                        == 0) && (0 < ady && ady < adx ==> 2 * rr * ady - rr - 1 < 2 * adx * w <= 2
                        * rr * ady - rr - 1 + 2 * adx);
            lemma_steps_unique(w, rr, i, st);
            let yst = run_ystep(r);
            assert(dy > 0 ==> yst == -1);
            assert(dy < 0 ==> yst == 1);
            assert(r.y0 + yst * st == cy + dy) by (nonlinear_arith)
                requires
                    r.y0 == cy + v && v == w * sy && st == w - ady && (dy > 0 ==> yst == -1 && sy
                        == 1 && ady == dy) && (dy < 0 ==> yst == 1 && sy == -1 && ady == -dy) && (dy
                        == 0 ==> v == 0 && w == 0 && ady == 0);
            assert(run_point(r, i) == (cx + dx, cy + dy));
            lemma_raw_contains(cx, cy, cx + u, cy + v, i);
            (u, v)
        }
    } else {
        // steep: the major axis is vertical; the same construction in
        // swapped coordinates
        let sx: int = if dx >= 0 { 1 } else { -1 };
        let w: int = if adx == 0 {
            0
        } else if dy > 0 {
            lemma_div_witness(2 * rr * adx - rr, 2 * ady)
        } else {
            lemma_div_witness(2 * rr * adx - rr - 1, 2 * ady)
        };
        if 0 < adx {
            assert(2 * rr * adx - rr - 1 < 2 * ady * w <= 2 * rr * adx - rr + 2 * ady);
            assert((2 * adx - 1) * (rr - ady) >= 0) by (nonlinear_arith)
                requires 1 <= adx && ady <= rr;
            assert(2 * rr * adx - rr >= 2 * ady * adx - ady) by (nonlinear_arith)
                requires (2 * adx - 1) * (rr - ady) >= 0;
            assert(2 * ady * w > 2 * ady * adx - ady - 1);
            assert(w >= adx) by (nonlinear_arith)
                requires 2 * ady * w > 2 * ady * adx - ady - 1 && 0 < ady;
            assert(2 * rr * adx <= 2 * rr * ady - 2 * rr) by (nonlinear_arith)
                requires adx <= ady - 1 && 0 < rr;
            assert(2 * ady * w <= 2 * rr * ady - 2 * rr - rr + 2 * ady);
            assert(w < rr) by (nonlinear_arith)
                requires 2 * ady * w <= 2 * rr * ady - 3 * rr + 2 * ady && 0 < ady <= rr && 0 < rr;
        }
        assert(0 <= w < rr);
        assert(adx <= w);
        let u = w * sx;
        assert(abs_int(u) == w && (dx > 0 ==> sx == 1) && (dx < 0 ==> sx == -1)) by (nonlinear_arith)
            requires (sx == 1 || sx == -1) && 0 <= w && u == w * sx && (dx >= 0 ==> sx == 1) && (dx
                < 0 ==> sx == -1);
        assert(dx > 0 ==> w >= 1);
        assert(dx > 0 ==> u >= 1) by (nonlinear_arith)
            requires u == w * sx && (dx > 0 ==> sx == 1 && w >= 1);
        assert(dx < 0 ==> u <= -1) by (nonlinear_arith)
            requires u == w * sx && (dx < 0 ==> sx == -1 && w >= 1);
        assert(dx == 0 ==> u == 0) by (nonlinear_arith)
            requires u == w * sx && (dx == 0 ==> w == 0);
        if dy > 0 {
            let v = rr;
            let r = line_run(cx, cy, cx + u, cy + v);
            assert(r.steep && !r.flip);
            assert(r.x0 == cy && r.y0 == cx && r.x1 == cy + rr && r.y1 == cx + u);
            assert(run_dx(r) == rr && run_dy(r) == w);
            assert(-rr < 2 * w * dy - 2 * rr * adx <= rr) by (nonlinear_arith)
                requires
                    1 <= rr && 0 <= adx < ady <= rr && 1 <= ady && dy == ady && (adx == 0 ==> w
                        == 0) && (0 < adx ==> 2 * rr * adx - rr < 2 * ady * w <= 2 * rr * adx - rr
                        + 2 * ady);
            lemma_steps_unique(w, rr, dy, adx);
            let yst = run_ystep(r);
            assert(dx > 0 ==> yst == 1);
            assert(dx < 0 ==> yst == -1);
            assert(yst * adx == dx) by (nonlinear_arith)
                requires (dx > 0 ==> yst == 1 && adx == dx) && (dx < 0 ==> yst == -1 && adx == -dx)
                    && (dx == 0 ==> adx == 0) && (yst == 1 || yst == -1);
            assert(run_point(r, dy) == (cx + dx, cy + dy));
            lemma_raw_contains(cx, cy, cx + u, cy + v, dy);
            (u, v)
        } else {
            let v = -rr;
            let r = line_run(cx, cy, cx + u, cy + v);
            assert(r.steep && r.flip);
            assert(r.x0 == cy - rr && r.y0 == cx + u && r.x1 == cy && r.y1 == cx);
            assert(run_dx(r) == rr && run_dy(r) == w);
            let i = rr + dy;
            let st = w - adx;
            assert(0 <= st <= w);
            assert(-rr < 2 * w * i - 2 * rr * st <= rr) by (nonlinear_arith)
                requires
                    1 <= rr && 0 <= adx < ady <= rr && 1 <= ady && dy == -ady && i == rr + dy && st
                        == w - adx && (adx == 0 ==> w == 0) && (0 < adx ==> 2 * rr * adx - rr - 1
                        < 2 * ady * w <= 2 * rr * adx - rr - 1 + 2 * ady);
            lemma_steps_unique(w, rr, i, st);
            let yst = run_ystep(r);
            assert(dx > 0 ==> yst == -1);
            assert(dx < 0 ==> yst == 1);
            assert(r.y0 + yst * st == cx + dx) by (nonlinear_arith)
                requires
                    r.y0 == cx + u && u == w * sx && st == w - adx && (dx > 0 ==> yst == -1 && sx
                        == 1 && adx == dx) && (dx < 0 ==> yst == 1 && sx == -1 && adx == -dx) && (dx
                        == 0 ==> u == 0 && w == 0 && adx == 0),
            ;
            assert(run_point(r, i) == (cx + dx, cy + dy));
            lemma_raw_contains(cx, cy, cx + u, cy + v, i);
            (u, v)
        }
    }
}

fn reverse_cells(v: Vec<IPos>) -> (r: Vec<IPos>)
    ensures
        ipos_view(r@) == ipos_view(v@).reverse(),
{
    let n = v.len();
    let mut out: Vec<IPos> = Vec::new();
    let mut i: usize = 0;
    while i < n
        invariant
            n == v.len(),
            i <= n,
            out.len() == i,
            forall|j: int| 0 <= j < i ==> out@[j] == v@[n - 1 - j],
        decreases n - i,
    {
        out.push(v[n - 1 - i]);
        i = i + 1;
    }
    assert(ipos_view(out@) =~= ipos_view(v@).reverse());
    out
}

/// Trace the digital line from `start` to `end`: an ordered sequence of
/// grid cells approximating the straight segment, with any cell outside
/// `[0, size.x) x [0, size.y)` dropped from the output.
pub fn bresenham_line(start: IPos, end: IPos, size: &MapSize) -> (r: Vec<GridPos>)
    requires
        -TRACE_COORD_LIMIT <= start.x <= TRACE_COORD_LIMIT,
        -TRACE_COORD_LIMIT <= start.y <= TRACE_COORD_LIMIT,
        -TRACE_COORD_LIMIT <= end.x <= TRACE_COORD_LIMIT,
        -TRACE_COORD_LIMIT <= end.y <= TRACE_COORD_LIMIT,
        size.x <= TRACE_COORD_LIMIT as u32,
        size.y <= TRACE_COORD_LIMIT as u32,
    ensures
        cells_view(r@) == line_cells(start.x as int, start.y as int, end.x as int, end.y as int, *size),
        forall|j: int|
            0 <= j < r@.len() ==> (#[trigger] r@[j]).x < size.x && r@[j].y < size.y,
{
    let ghost run = line_run(start.x as int, start.y as int, end.x as int, end.y as int);

    let mut x0 = start.x;
    let mut y0 = start.y;
    let mut x1 = end.x;
    let mut y1 = end.y;

    let adx = if x0 >= x1 { x0 - x1 } else { x1 - x0 };
    let ady = if y0 >= y1 { y0 - y1 } else { y1 - y0 };
    let steep = adx < ady;

    if steep {
        let t0 = x0;
        x0 = y0;
        y0 = t0;
        let t1 = x1;
        x1 = y1;
        y1 = t1;
    }
    if x0 > x1 {
        let tx = x0;
        x0 = x1;
        x1 = tx;
        let ty = y0;
        y0 = y1;
        y1 = ty;
    }
    assert(run.steep == steep && run.x0 == x0 && run.y0 == y0 && run.x1 == x1 && run.y1 == y1);

    let dx = x1 - x0;
    let dy = y1 - y0;
    let ady2 = if dy >= 0 { dy } else { -dy };
    let derror2 = ady2 * 2;
    let ystep: i32 = if y1 > y0 { 1 } else { -1 };
    assert(dx == run_dx(run) && ady2 == run_dy(run) && ystep == run_ystep(run));
    assert(0 <= ady2 <= dx);

    let mut error2: i32 = 0;
    let mut y = y0;
    let mut x = x0;
    let ghost mut steps: int = 0;
    let mut cells: Vec<IPos> = Vec::new();
    proof {
        assert(2 * (ady2 as int) * ((x - x0) as int) == 0 && 2 * (dx as int) * steps == 0)
            by (nonlinear_arith)
            requires x == x0 && steps == 0;
    }

    while x <= x1
        invariant
            x0 <= x <= x1 + 1,
            dx == run_dx(run) && ady2 == run_dy(run) && ystep == run_ystep(run),
            run.x0 == x0 && run.y0 == y0 && run.x1 == x1 && run.y1 == y1,
            steep == run.steep,
            derror2 == 2 * ady2,
            0 <= ady2 <= dx,
            -TRACE_COORD_LIMIT <= x0 && x1 <= TRACE_COORD_LIMIT,
            -TRACE_COORD_LIMIT <= y0 <= TRACE_COORD_LIMIT,
            -TRACE_COORD_LIMIT <= y1 <= TRACE_COORD_LIMIT,
            cells.len() == x - x0,
            forall|j: int| 0 <= j < cells.len() ==> ipos_view(cells@)[j] == run_point(run, j),
            x <= x1 ==> y == y0 + ystep * steps,
            x <= x1 ==> error2 == 2 * ady2 * (x - x0) - 2 * dx * steps,
            x <= x1 ==> 0 <= steps <= ady2,
            x <= x1 && dx > 0 ==> -dx < error2 <= dx,
            x <= x1 && dx == 0 ==> error2 == 0 && steps == 0,
        decreases x1 + 1 - x,
    {
        let ghost i = (x - x0) as int;
        proof {
            if dx > 0 {
                lemma_steps_unique(ady2 as int, dx as int, i, steps);
            }
            assert(steps == bres_steps(ady2 as int, dx as int, i));
            assert(y == y0 + run_ystep(run) * bres_steps(run_dy(run), run_dx(run), i));
        }
        if steep {
            cells.push(IPos { x: y, y: x });
        } else {
            cells.push(IPos { x, y });
        }
        proof {
            assert(ipos_view(cells@)[i] == run_point(run, i));
            assert(forall|j: int|
                0 <= j < cells.len() ==> ipos_view(cells@)[j] == run_point(run, j));
        }

        error2 = error2 + derror2;
        proof {
            assert(2 * (ady2 as int) * (i + 1) == 2 * (ady2 as int) * i + 2 * (ady2 as int))
                by (nonlinear_arith);
            assert(error2 == 2 * ady2 * (i + 1) - 2 * dx * steps);
        }
        if error2 > dx {
            proof {
                assert(-(ady2 as int) <= (ystep as int) * steps <= ady2 as int)
                    by (nonlinear_arith)
                    requires
                        (ystep as int == 1 || ystep as int == -1) && 0 <= steps <= ady2 as int;
            }
            y = y + ystep;
            error2 = error2 - dx * 2;
            proof {
                if x < x1 {
                    assert(2 * ady2 * (i + 1) - 2 * dx * steps > dx - 2 * dx + 2 * dx);
                    assert(steps < ady2) by (nonlinear_arith)
                        requires
                            2 * (ady2 as int) * (i + 1) - 2 * (dx as int) * steps > dx as int,
                            0 <= ady2 as int <= dx as int,
                            0 <= i + 1 <= dx as int,
                            0 < dx as int;
                    assert(2 * (dx as int) * (steps + 1) == 2 * (dx as int) * steps + 2 * (dx as int))
                        by (nonlinear_arith);
                    steps = steps + 1;
                    assert((ystep as int) * steps == (ystep as int) * (steps - 1) + (ystep as int))
                        by (nonlinear_arith);
                }
            }
        }
        x = x + 1;
    }

    assert(cells.len() == dx + 1);
    assert(ipos_view(cells@) =~= raw_points(start.x as int, start.y as int, end.x as int, end.y as int));

    let c0 = cells[0];
    let oriented: Vec<IPos> = if c0.x != start.x && c0.y != start.y {
        reverse_cells(cells)
    } else {
        cells
    };
    assert(ipos_view(oriented@) == oriented_points(start.x as int, start.y as int, end.x as int, end.y as int));

    let wid = size.x as i32;
    let hei = size.y as i32;
    let mut out: Vec<GridPos> = Vec::new();
    let mut k: usize = 0;
    while k < oriented.len()
        invariant
            k <= oriented.len(),
            wid == size.x as i32 && hei == size.y as i32,
            size.x <= TRACE_COORD_LIMIT as u32 && size.y <= TRACE_COORD_LIMIT as u32,
            cells_view(out@) == bounded_cells(ipos_view(oriented@).take(k as int), *size),
            forall|j: int|
                0 <= j < out@.len() ==> (#[trigger] out@[j]).x < size.x && out@[j].y < size.y,
        decreases oriented.len() - k,
    {
        let c = oriented[k];
        proof {
            assert(ipos_view(oriented@).take(k as int + 1).drop_last()
                =~= ipos_view(oriented@).take(k as int));
            assert(ipos_view(oriented@).take(k as int + 1).last() == ipos_view(oriented@)[k as int]);
        }
        if c.x >= 0 && c.y >= 0 && c.x < wid && c.y < hei {
            out.push(GridPos { x: c.x as u32, y: c.y as u32 });
            assert(cells_view(out@) =~= bounded_cells(ipos_view(oriented@).take(k as int + 1), *size));
        } else {
            assert(cells_view(out@) =~= bounded_cells(ipos_view(oriented@).take(k as int + 1), *size));
        }
        k = k + 1;
    }
    proof {
        assert(ipos_view(oriented@).take(oriented.len() as int) =~= ipos_view(oriented@));
    }
    out
}

} // verus!
