//! Symmetric recursive shadowcasting.
//!
//! `compute_fov` sweeps eight octants around an origin. Within an octant,
//! octant-local cells `(col, row)` sit at world offsets given by one of eight
//! fixed reflections, and a wedge of still-visible directions is tracked as a
//! closed slope interval `[end, start]`. Slopes are exact rationals: the cell
//! at column `dx` of row `j` (local offsets `(dx, -j)`, `-j <= dx <= 0`)
//! spans slopes `r_slope(dx, j)` to `l_slope(dx, j)`. An opaque cell narrows
//! the wedge: the rows beyond it are scanned under the narrowed wedge by a
//! recursive cast, and the walk of the current row resumes past the blocking
//! run.
//!
//! The executable functions mirror the spec-level functions exactly, so the
//! visible sequence is pinned to a mathematical function of origin, radius
//! and occlusion set alone.

use vstd::prelude::*;

use crate::ecs::Point;
use crate::tileset::TileSet;
use crate::tileset::seq_push_new;

verus! {

broadcast use vstd::seq_lib::lemma_seq_contains_after_push;

/// Largest radius the engine accepts; keeps every slope product and squared
/// distance far inside `i64`.
pub const MAX_FOV_RADIUS: i32 = 10_000;

/// Largest origin magnitude the engine accepts; keeps every world coordinate
/// inside `i32`.
pub const MAX_FOV_ORIGIN: i32 = 1_000_000_000;

/// `a < b` for slopes written as fractions with positive denominators.
pub open spec fn slope_lt(a: (int, int), b: (int, int)) -> bool {
    a.0 * b.1 < b.0 * a.1
}

/// Slope of the near (axis-side) edge of the cell at `(dx, -j)`:
/// `(2*dx + 1) / (-2*j - 1)` with the sign moved into the numerator.
pub open spec fn r_slope(dx: int, j: int) -> (int, int) {
    (-2 * dx - 1, 2 * j + 1)
}

/// Slope of the far (diagonal-side) edge of the cell at `(dx, -j)`:
/// `(2*dx - 1) / (-2*j + 1)` with the sign moved into the numerator.
pub open spec fn l_slope(dx: int, j: int) -> (int, int) {
    (1 - 2 * dx, 2 * j - 1)
}

/// Maps octant-local `(col, row)` offsets into world offsets.
pub open spec fn spec_transform_octant(col: int, row: int, octant: int) -> (int, int) {
    if octant == 0 {
        (col, row)
    } else if octant == 1 {
        (row, col)
    } else if octant == 2 {
        (row, -col)
    } else if octant == 3 {
        (col, -row)
    } else if octant == 4 {
        (-col, -row)
    } else if octant == 5 {
        (-row, -col)
    } else if octant == 6 {
        (-row, col)
    } else {
        (-col, row)
    }
}

/// World coordinates of the octant-local cell at column `dx` of row `j`.
pub open spec fn cell_world(ox: int, oy: int, dx: int, j: int, octant: int) -> (int, int) {
    let m = spec_transform_octant(dx, -j, octant);
    (ox + m.0, oy + m.1)
}

/// Rounds `n / d` (`d > 0`) to the nearest integer, halves away from zero.
pub open spec fn round_frac(n: int, d: int) -> int {
    if n >= 0 {
        (2 * n + d) / (2 * d)
    } else {
        -((2 * (-n) + d) / (2 * d))
    }
}

/// First column of row `j` under start slope `s`: `round(-j*s + 1/2)`.
pub open spec fn spec_col_min(j: int, s: (int, int)) -> int {
    round_frac(s.1 - 2 * j * s.0, 2 * s.1)
}

/// Rows left to walk; clamped so it is a measure for every argument.
pub open spec fn rows_left(radius: int, row: int) -> int {
    if row <= radius + 1 {
        radius + 1 - row
    } else {
        0
    }
}

/// Columns left to walk in a row; clamped likewise.
pub open spec fn cols_left(dx: int) -> int {
    if dx <= 1 {
        2 - dx
    } else {
        0
    }
}

/// One cast over the wedge `[e, s]` starting at `row`: the entry check of the
/// recursive shadowcast.
pub open spec fn spec_cast(
    acc: Seq<(int, int)>,
    opq: Set<(int, int)>,
    ox: int,
    oy: int,
    radius: int,
    row: int,
    s: (int, int),
    e: (int, int),
    octant: int,
) -> Seq<(int, int)>
    decreases rows_left(radius, row), 2int, 0int,
{
    if slope_lt(s, e) || row > radius || row < 1 {
        acc
    } else {
        spec_scan_rows(acc, opq, ox, oy, radius, row, s, e, octant)
    }
}

/// Walks rows `j`, `j + 1`, ... up to the radius, stopping after a row that
/// ends inside a blocking run.
pub open spec fn spec_scan_rows(
    acc: Seq<(int, int)>,
    opq: Set<(int, int)>,
    ox: int,
    oy: int,
    radius: int,
    j: int,
    s: (int, int),
    e: (int, int),
    octant: int,
) -> Seq<(int, int)>
    decreases rows_left(radius, j), 1int, 0int,
{
    if j < 1 || j > radius {
        acc
    } else {
        let step = spec_scan_cols(
            acc,
            opq,
            ox,
            oy,
            radius,
            j,
            spec_col_min(j, s),
            s,
            e,
            false,
            s,
            octant,
        );
        if !step.1 && j < radius {
            spec_scan_rows(step.0, opq, ox, oy, radius, j + 1, step.2, e, octant)
        } else {
            step.0
        }
    }
}

/// Walks the cells of row `j` from column `dx` towards zero. Returns the
/// accumulated cells, whether the row ended inside a blocking run, and the
/// start slope after the walk. `blocked` and `ns` carry the state of the
/// current blocking run: while blocked, `ns` accumulates the near edge of the
/// run, and a clear cell restores scanning with `ns` as the new start slope.
pub open spec fn spec_scan_cols(
    acc: Seq<(int, int)>,
    opq: Set<(int, int)>,
    ox: int,
    oy: int,
    radius: int,
    j: int,
    dx: int,
    s: (int, int),
    e: (int, int),
    blocked: bool,
    ns: (int, int),
    octant: int,
) -> (Seq<(int, int)>, bool, (int, int))
    decreases rows_left(radius, j), 0int, cols_left(dx),
{
    if j < 1 || j > radius || dx > 0 {
        (acc, blocked, s)
    } else {
        let l = l_slope(dx, j);
        let r = r_slope(dx, j);
        if slope_lt(s, r) {
            // the cell lies wholly on the diagonal side of the wedge
            spec_scan_cols(acc, opq, ox, oy, radius, j, dx + 1, s, e, blocked, ns, octant)
        } else if slope_lt(l, e) {
            // the cell and everything after it lie on the axis side
            (acc, blocked, s)
        } else {
            let w = cell_world(ox, oy, dx, j, octant);
            let acc1 = if dx * dx + j * j <= radius * radius {
                seq_push_new(acc, w)
            } else {
                acc
            };
            if blocked {
                if opq.contains(w) {
                    spec_scan_cols(acc1, opq, ox, oy, radius, j, dx + 1, s, e, true, r, octant)
                } else {
                    spec_scan_cols(acc1, opq, ox, oy, radius, j, dx + 1, ns, e, false, ns, octant)
                }
            } else {
                if opq.contains(w) && j < radius {
                    let acc2 = spec_cast(acc1, opq, ox, oy, radius, j + 1, s, l, octant);
                    spec_scan_cols(acc2, opq, ox, oy, radius, j, dx + 1, s, e, true, r, octant)
                } else {
                    spec_scan_cols(acc1, opq, ox, oy, radius, j, dx + 1, s, e, false, ns, octant)
                }
            }
        }
    }
}

/// Octants left to sweep; clamped likewise.
pub open spec fn octants_left(octant: int) -> int {
    if octant <= 8 {
        8 - octant
    } else {
        0
    }
}

/// Sweeps octants `octant`, ..., `7`, each over the full wedge `[0, 1]`.
pub open spec fn spec_octant_sweep(
    acc: Seq<(int, int)>,
    opq: Set<(int, int)>,
    ox: int,
    oy: int,
    radius: int,
    octant: int,
) -> Seq<(int, int)>
    decreases octants_left(octant),
{
    if octant < 0 || octant >= 8 {
        acc
    } else {
        spec_octant_sweep(
            spec_cast(acc, opq, ox, oy, radius, 1, (1, 1), (0, 1), octant),
            opq,
            ox,
            oy,
            radius,
            octant + 1,
        )
    }
}

/// The visible sequence: the origin, then the eight octant sweeps.
pub open spec fn spec_compute_fov(origin: (int, int), radius: int, opq: Set<(int, int)>) -> Seq<
    (int, int),
> {
    spec_octant_sweep(seq![origin], opq, origin.0, origin.1, radius, 0)
}

/// Whether `p` lies in the closed disk of radius `radius` around `origin`.
pub open spec fn in_disk(origin: (int, int), radius: int, p: (int, int)) -> bool {
    (p.0 - origin.0) * (p.0 - origin.0) + (p.1 - origin.1) * (p.1 - origin.1) <= radius * radius
}

/// Map octant-local `(col, row)` offsets into world `(dx, dy)` offsets.
pub fn transform_octant(col: i32, row: i32, octant: u8) -> (r: (i32, i32))
    requires
        -1_000_000 <= col <= 1_000_000,
        -1_000_000 <= row <= 1_000_000,
    ensures
        (r.0 as int, r.1 as int) == spec_transform_octant(col as int, row as int, octant as int),
{
    match octant {
        0 => (col, row),
        1 => (row, col),
        2 => (row, -col),
        3 => (col, -row),
        4 => (-col, -row),
        5 => (-row, -col),
        6 => (-row, col),
        _ => (-col, row),
    }
}

/// `a / b` on non-negative numerator and positive denominator.
fn div_nonneg(a: i64, b: i64) -> (r: i64)
    requires
        0 <= a,
        1 <= b,
    ensures
        r == a as int / b as int,
{
    ((a as u64) / (b as u64)) as i64
}

/// `slope_lt` on in-range components.
fn slope_lt_exec(an: i64, ad: i64, bn: i64, bd: i64) -> (r: bool)
    requires
        -100_000 <= an <= 100_000,
        1 <= ad <= 100_000,
        -100_000 <= bn <= 100_000,
        1 <= bd <= 100_000,
    ensures
        r == slope_lt((an as int, ad as int), (bn as int, bd as int)),
{
    proof {
        assert(-10_000_000_000 <= an * bd <= 10_000_000_000) by (nonlinear_arith)
            requires -100_000 <= an <= 100_000 && 1 <= bd <= 100_000;
        assert(-10_000_000_000 <= bn * ad <= 10_000_000_000) by (nonlinear_arith)
            requires -100_000 <= bn <= 100_000 && 1 <= ad <= 100_000;
    }
    an * bd < bn * ad
}

/// `spec_col_min` on in-range components.
fn col_min_exec(j: i64, sn: i64, sd: i64) -> (r: i64)
    requires
        1 <= j <= 100_000,
        -100_000 <= sn <= 100_000,
        1 <= sd <= 100_000,
    ensures
        r == spec_col_min(j as int, (sn as int, sd as int)),
{
    proof {
        assert(-20_000_000_000 <= 2 * j * sn <= 20_000_000_000) by (nonlinear_arith)
            requires 1 <= j <= 100_000 && -100_000 <= sn <= 100_000;
    }
    let t: i64 = 2 * j * sn;
    let n: i64 = sd - t;
    let d: i64 = 2 * sd;
    if n >= 0 {
        div_nonneg(2 * n + d, 2 * d)
    } else {
        -div_nonneg(2 * (-n) + d, 2 * d)
    }
}

/// With a start slope at most one, the first column is never left of `-j`.
proof fn lemma_col_min_lower(j: int, s: (int, int))
    requires
        1 <= j,
        1 <= s.1,
        s.0 <= s.1,
    ensures
        spec_col_min(j, s) >= -j,
{
    let n = s.1 - 2 * j * s.0;
    let d = 2 * s.1;
    if n >= 0 {
        assert((2 * n + d) / (2 * d) >= 0) by (nonlinear_arith)
            requires n >= 0 && d >= 2;
    } else {
        // -n = 2*j*s.0 - s.1 <= 2*j*s.1 - s.1 <= s.1*(2*j - 1), so the
        // rounded quotient stays at most j.
        assert(2 * (-n) + d <= 2 * d * j + 2 * d - 1) by (nonlinear_arith)
            requires n < 0 && n == s.1 - 2 * j * s.0 && d == 2 * s.1 && 1 <= s.1 && s.0 <= s.1 && 1 <= j;
        assert((2 * (-n) + d) / (2 * d) <= j) by (nonlinear_arith)
            requires 2 * (-n) + d <= 2 * d * j + 2 * d - 1 && d >= 2 && n < 0 && j >= 1;
    }
}

/// Bounds under which the cast recursion is overflow-free.
pub open spec fn slopes_ok(radius: int, s: (int, int), e: (int, int)) -> bool {
    &&& -(2 * radius + 3) <= s.0 <= 2 * radius + 3
    &&& 1 <= s.1 <= 2 * radius + 3
    &&& s.0 <= s.1
    &&& -(2 * radius + 3) <= e.0 <= 2 * radius + 3
    &&& 1 <= e.1 <= 2 * radius + 3
}

/// One cast over the wedge `[e, s]` starting at `row`.
fn cast_light(
    visible: &mut TileSet,
    opaque: &TileSet,
    ox: i32,
    oy: i32,
    radius: i32,
    row: i32,
    sn: i64,
    sd: i64,
    en: i64,
    ed: i64,
    octant: u8,
)
    requires
        0 <= radius <= MAX_FOV_RADIUS,
        -MAX_FOV_ORIGIN <= ox <= MAX_FOV_ORIGIN,
        -MAX_FOV_ORIGIN <= oy <= MAX_FOV_ORIGIN,
        1 <= row <= radius + 1,
        slopes_ok(radius as int, (sn as int, sd as int), (en as int, ed as int)),
    ensures
        final(visible)@ == spec_cast(
            old(visible)@,
            opaque.set(),
            ox as int,
            oy as int,
            radius as int,
            row as int,
            (sn as int, sd as int),
            (en as int, ed as int),
            octant as int,
        ),
    decreases rows_left(radius as int, row as int), 2int, 0int,
{
    if slope_lt_exec(sn, sd, en, ed) || row > radius {
        return ;
    }
    scan_rows(visible, opaque, ox, oy, radius, row, sn, sd, en, ed, octant);
}

/// Walks rows `j..=radius`, stopping after a row that ends blocked.
fn scan_rows(
    visible: &mut TileSet,
    opaque: &TileSet,
    ox: i32,
    oy: i32,
    radius: i32,
    j: i32,
    sn: i64,
    sd: i64,
    en: i64,
    ed: i64,
    octant: u8,
)
    requires
        0 <= radius <= MAX_FOV_RADIUS,
        -MAX_FOV_ORIGIN <= ox <= MAX_FOV_ORIGIN,
        -MAX_FOV_ORIGIN <= oy <= MAX_FOV_ORIGIN,
        1 <= j <= radius,
        slopes_ok(radius as int, (sn as int, sd as int), (en as int, ed as int)),
    ensures
        final(visible)@ == spec_scan_rows(
            old(visible)@,
            opaque.set(),
            ox as int,
            oy as int,
            radius as int,
            j as int,
            (sn as int, sd as int),
            (en as int, ed as int),
            octant as int,
        ),
    decreases rows_left(radius as int, j as int), 1int, 0int,
{
    proof {
        lemma_col_min_lower(j as int, (sn as int, sd as int));
    }
    let col_min = col_min_exec(j as i64, sn, sd);
    let step = scan_cols(
        visible,
        opaque,
        ox,
        oy,
        radius,
        j,
        col_min,
        sn,
        sd,
        en,
        ed,
        false,
        sn,
        sd,
        octant,
    );
    if !step.0 && j < radius {
        scan_rows(visible, opaque, ox, oy, radius, j + 1, step.1, step.2, en, ed, octant);
    }
}

/// Walks the cells of row `j` from column `dx` towards zero; returns the
/// blocked flag and the start slope after the walk.
fn scan_cols(
    visible: &mut TileSet,
    opaque: &TileSet,
    ox: i32,
    oy: i32,
    radius: i32,
    j: i32,
    dx: i64,
    sn: i64,
    sd: i64,
    en: i64,
    ed: i64,
    blocked: bool,
    nsn: i64,
    nsd: i64,
    octant: u8,
) -> (res: (bool, i64, i64))
    requires
        0 <= radius <= MAX_FOV_RADIUS,
        -MAX_FOV_ORIGIN <= ox <= MAX_FOV_ORIGIN,
        -MAX_FOV_ORIGIN <= oy <= MAX_FOV_ORIGIN,
        1 <= j <= radius,
        -(j as int) <= dx,
        slopes_ok(radius as int, (sn as int, sd as int), (en as int, ed as int)),
        -(2 * radius + 3) <= nsn <= 2 * radius + 3,
        1 <= nsd <= 2 * radius + 3,
        nsn <= nsd,
    ensures
        ({
            let step = spec_scan_cols(
                old(visible)@,
                opaque.set(),
                ox as int,
                oy as int,
                radius as int,
                j as int,
                dx as int,
                (sn as int, sd as int),
                (en as int, ed as int),
                blocked,
                (nsn as int, nsd as int),
                octant as int,
            );
            &&& final(visible)@ == step.0
            &&& res.0 == step.1
            &&& (res.1 as int, res.2 as int) == step.2
            &&& -(2 * radius + 3) <= res.1 <= 2 * radius + 3
            &&& 1 <= res.2 <= 2 * radius + 3
            &&& res.1 <= res.2
        }),
    decreases rows_left(radius as int, j as int), 0int, cols_left(dx as int),
{
    if dx > 0 {
        return (blocked, sn, sd);
    }
    proof {
        assert(MAX_FOV_RADIUS == 10_000);
        assert(-10_000 <= dx <= 0);
        assert(0 <= dx * dx <= 100_000_000) by (nonlinear_arith)
            requires -10_000 <= dx <= 0;
        assert(0 <= (j as i64) * (j as i64) <= 100_000_000) by (nonlinear_arith)
            requires 1 <= j <= 10_000;
        assert(0 <= (radius as i64) * (radius as i64) <= 100_000_000) by (nonlinear_arith)
            requires 0 <= radius <= 10_000;
    }
    let ln: i64 = 1 - 2 * dx;
    let ld: i64 = 2 * (j as i64) - 1;
    let rn: i64 = -(2 * dx) - 1;
    let rd: i64 = 2 * (j as i64) + 1;
    if slope_lt_exec(sn, sd, rn, rd) {
        return scan_cols(
            visible,
            opaque,
            ox,
            oy,
            radius,
            j,
            dx + 1,
            sn,
            sd,
            en,
            ed,
            blocked,
            nsn,
            nsd,
            octant,
        );
    }
    if slope_lt_exec(ln, ld, en, ed) {
        return (blocked, sn, sd);
    }
    let dxi: i32 = dx as i32;
    let m = transform_octant(dxi, -j, octant);
    let wx: i32 = ox + m.0;
    let wy: i32 = oy + m.1;
    if dx * dx + (j as i64) * (j as i64) <= (radius as i64) * (radius as i64) {
        visible.insert((wx, wy));
    }
    let op = opaque.contains((wx, wy));
    if blocked {
        if op {
            scan_cols(
                visible,
                opaque,
                ox,
                oy,
                radius,
                j,
                dx + 1,
                sn,
                sd,
                en,
                ed,
                true,
                rn,
                rd,
                octant,
            )
        } else {
            scan_cols(
                visible,
                opaque,
                ox,
                oy,
                radius,
                j,
                dx + 1,
                nsn,
                nsd,
                en,
                ed,
                false,
                nsn,
                nsd,
                octant,
            )
        }
    } else {
        if op && j < radius {
            cast_light(visible, opaque, ox, oy, radius, j + 1, sn, sd, ln, ld, octant);
            scan_cols(
                visible,
                opaque,
                ox,
                oy,
                radius,
                j,
                dx + 1,
                sn,
                sd,
                en,
                ed,
                true,
                rn,
                rd,
                octant,
            )
        } else {
            scan_cols(
                visible,
                opaque,
                ox,
                oy,
                radius,
                j,
                dx + 1,
                sn,
                sd,
                en,
                ed,
                false,
                nsn,
                nsd,
                octant,
            )
        }
    }
}

/// Compute which tiles are visible from `origin` within `radius`, given the
/// set of tiles that block sight.
///
/// The origin itself is always visible. An opaque tile is itself visible but
/// blocks sight to the tiles behind it. The result is a function of origin,
/// radius and occlusion set alone, so identical inputs give the identical
/// sequence of tiles.
pub fn compute_fov(origin: Point, radius: i32, opaque: &TileSet) -> (r: TileSet)
    requires
        0 <= radius <= MAX_FOV_RADIUS,
        -MAX_FOV_ORIGIN <= origin.x <= MAX_FOV_ORIGIN,
        -MAX_FOV_ORIGIN <= origin.y <= MAX_FOV_ORIGIN,
    ensures
        r@ == spec_compute_fov((origin.x as int, origin.y as int), radius as int, opaque.set()),
        r@.contains((origin.x as int, origin.y as int)),
        forall|p: (int, int)|
            r@.contains(p) ==> in_disk((origin.x as int, origin.y as int), radius as int, p),
{
    let ghost orig = (origin.x as int, origin.y as int);
    let mut vis = TileSet::new();
    vis.insert((origin.x, origin.y));
    proof {
        assert(vis@ =~= seq![orig]);
    }
    let mut octant: u8 = 0;
    while octant < 8
        invariant
            0 <= radius <= MAX_FOV_RADIUS,
            -MAX_FOV_ORIGIN <= origin.x <= MAX_FOV_ORIGIN,
            -MAX_FOV_ORIGIN <= origin.y <= MAX_FOV_ORIGIN,
            octant <= 8,
            orig == (origin.x as int, origin.y as int),
            spec_octant_sweep(vis@, opaque.set(), orig.0, orig.1, radius as int, octant as int)
                == spec_compute_fov(orig, radius as int, opaque.set()),
        decreases 8 - octant,
    {
        let ghost pre = vis@;
        cast_light(&mut vis, opaque, origin.x, origin.y, radius, 1, 1, 1, 0, 1, octant);
        proof {
            reveal_with_fuel(spec_octant_sweep, 2);
            assert(vis@ == spec_cast(
                pre,
                opaque.set(),
                orig.0,
                orig.1,
                radius as int,
                1,
                (1, 1),
                (0, 1),
                octant as int,
            ));
            assert(spec_octant_sweep(pre, opaque.set(), orig.0, orig.1, radius as int, octant as int)
                == spec_octant_sweep(
                vis@,
                opaque.set(),
                orig.0,
                orig.1,
                radius as int,
                octant as int + 1,
            ));
        }
        octant = octant + 1;
    }
    proof {
        lemma_fov_origin_and_disk(orig, radius as int, opaque.set());
    }
    vis
}

/// What the accumulator holds stays, and what a cast adds lies in the disk
/// around the origin.
proof fn lemma_cast_frame(
    acc: Seq<(int, int)>,
    opq: Set<(int, int)>,
    ox: int,
    oy: int,
    radius: int,
    row: int,
    s: (int, int),
    e: (int, int),
    octant: int,
)
    ensures
        ({
            let out = spec_cast(acc, opq, ox, oy, radius, row, s, e, octant);
            &&& forall|p: (int, int)| acc.contains(p) ==> out.contains(p)
            &&& forall|p: (int, int)|
                out.contains(p) ==> acc.contains(p) || in_disk((ox, oy), radius, p)
        }),
    decreases rows_left(radius, row), 2int, 0int,
{
    if !(slope_lt(s, e) || row > radius || row < 1) {
        lemma_scan_rows_frame(acc, opq, ox, oy, radius, row, s, e, octant);
    }
}

proof fn lemma_scan_rows_frame(
    acc: Seq<(int, int)>,
    opq: Set<(int, int)>,
    ox: int,
    oy: int,
    radius: int,
    j: int,
    s: (int, int),
    e: (int, int),
    octant: int,
)
    ensures
        ({
            let out = spec_scan_rows(acc, opq, ox, oy, radius, j, s, e, octant);
            &&& forall|p: (int, int)| acc.contains(p) ==> out.contains(p)
            &&& forall|p: (int, int)|
                out.contains(p) ==> acc.contains(p) || in_disk((ox, oy), radius, p)
        }),
    decreases rows_left(radius, j), 1int, 0int,
{
    if !(j < 1 || j > radius) {
        let cm = spec_col_min(j, s);
        let step = spec_scan_cols(acc, opq, ox, oy, radius, j, cm, s, e, false, s, octant);
        lemma_scan_cols_frame(acc, opq, ox, oy, radius, j, cm, s, e, false, s, octant);
        if !step.1 && j < radius {
            lemma_scan_rows_frame(step.0, opq, ox, oy, radius, j + 1, step.2, e, octant);
        }
    }
}

proof fn lemma_scan_cols_frame(
    acc: Seq<(int, int)>,
    opq: Set<(int, int)>,
    ox: int,
    oy: int,
    radius: int,
    j: int,
    dx: int,
    s: (int, int),
    e: (int, int),
    blocked: bool,
    ns: (int, int),
    octant: int,
)
    ensures
        ({
            let out = spec_scan_cols(acc, opq, ox, oy, radius, j, dx, s, e, blocked, ns, octant).0;
            &&& forall|p: (int, int)| acc.contains(p) ==> out.contains(p)
            &&& forall|p: (int, int)|
                out.contains(p) ==> acc.contains(p) || in_disk((ox, oy), radius, p)
        }),
    decreases rows_left(radius, j), 0int, cols_left(dx),
{
    let out = spec_scan_cols(acc, opq, ox, oy, radius, j, dx, s, e, blocked, ns, octant).0;
    if !(j < 1 || j > radius || dx > 0) {
        let l = l_slope(dx, j);
        let r = r_slope(dx, j);
        if slope_lt(s, r) {
            lemma_scan_cols_frame(acc, opq, ox, oy, radius, j, dx + 1, s, e, blocked, ns, octant);
            assert(out == spec_scan_cols(
                acc, opq, ox, oy, radius, j, dx + 1, s, e, blocked, ns, octant,
            ).0);
        } else if slope_lt(l, e) {
            assert(out == acc);
        } else {
            let w = cell_world(ox, oy, dx, j, octant);
            let acc1 = if dx * dx + j * j <= radius * radius {
                seq_push_new(acc, w)
            } else {
                acc
            };
            assert(dx * dx + j * j <= radius * radius ==> in_disk((ox, oy), radius, w)) by {
                lemma_transform_preserves_norm(dx, j, octant);
            }
            assert(forall|p: (int, int)| acc.contains(p) ==> #[trigger] acc1.contains(p));
            assert(forall|p: (int, int)|
                #[trigger] acc1.contains(p) ==> acc.contains(p) || in_disk((ox, oy), radius, p));
            if blocked {
                if opq.contains(w) {
                    lemma_scan_cols_frame(acc1, opq, ox, oy, radius, j, dx + 1, s, e, true, r, octant);
                    assert(out == spec_scan_cols(
                        acc1, opq, ox, oy, radius, j, dx + 1, s, e, true, r, octant,
                    ).0);
                } else {
                    lemma_scan_cols_frame(
                        acc1, opq, ox, oy, radius, j, dx + 1, ns, e, false, ns, octant,
                    );
                    assert(out == spec_scan_cols(
                        acc1, opq, ox, oy, radius, j, dx + 1, ns, e, false, ns, octant,
                    ).0);
                }
            } else {
                if opq.contains(w) && j < radius {
                    let acc2 = spec_cast(acc1, opq, ox, oy, radius, j + 1, s, l, octant);
                    lemma_cast_frame(acc1, opq, ox, oy, radius, j + 1, s, l, octant);
                    lemma_scan_cols_frame(acc2, opq, ox, oy, radius, j, dx + 1, s, e, true, r, octant);
                    assert(out == spec_scan_cols(
                        acc2, opq, ox, oy, radius, j, dx + 1, s, e, true, r, octant,
                    ).0);
                    assert(forall|p: (int, int)| acc.contains(p) ==> #[trigger] acc2.contains(p));
                    assert(forall|p: (int, int)|
                        #[trigger] acc2.contains(p) ==> acc.contains(p) || in_disk(
                            (ox, oy),
                            radius,
                            p,
                        ));
                } else {
                    lemma_scan_cols_frame(acc1, opq, ox, oy, radius, j, dx + 1, s, e, false, ns, octant);
                    assert(out == spec_scan_cols(
                        acc1, opq, ox, oy, radius, j, dx + 1, s, e, false, ns, octant,
                    ).0);
                }
            }
        }
    }
}


/// The octant transforms preserve the squared distance to the origin.
proof fn lemma_transform_preserves_norm(dx: int, j: int, octant: int)
    ensures
        ({
            let m = spec_transform_octant(dx, -j, octant);
            m.0 * m.0 + m.1 * m.1 == dx * dx + j * j
        }),
{
    assert((-dx) * (-dx) == dx * dx) by (nonlinear_arith);
    assert((-j) * (-j) == j * j) by (nonlinear_arith);
}

/// The origin is in the visible sequence, and everything in it lies in the
/// disk around the origin.
pub proof fn lemma_fov_origin_and_disk(origin: (int, int), radius: int, opq: Set<(int, int)>)
    requires
        radius >= 0,
    ensures
        spec_compute_fov(origin, radius, opq).contains(origin),
        forall|p: (int, int)|
            spec_compute_fov(origin, radius, opq).contains(p) ==> in_disk(origin, radius, p),
{
    lemma_octant_sweep_frame(seq![origin], opq, origin.0, origin.1, radius, 0);
    assert(seq![origin][0] == origin);
    assert(in_disk(origin, radius, origin)) by (nonlinear_arith)
        requires radius >= 0;
}

proof fn lemma_octant_sweep_frame(
    acc: Seq<(int, int)>,
    opq: Set<(int, int)>,
    ox: int,
    oy: int,
    radius: int,
    octant: int,
)
    ensures
        ({
            let out = spec_octant_sweep(acc, opq, ox, oy, radius, octant);
            &&& forall|p: (int, int)| acc.contains(p) ==> out.contains(p)
            &&& forall|p: (int, int)|
                out.contains(p) ==> acc.contains(p) || in_disk((ox, oy), radius, p)
        }),
    decreases octants_left(octant),
{
    if !(octant < 0 || octant >= 8) {
        let acc1 = spec_cast(acc, opq, ox, oy, radius, 1, (1, 1), (0, 1), octant);
        lemma_cast_frame(acc, opq, ox, oy, radius, 1, (1, 1), (0, 1), octant);
        lemma_octant_sweep_frame(acc1, opq, ox, oy, radius, octant + 1);
    }
}


/// Identical origin, radius and occlusion give the identical visible
/// sequence: the computation is a function of its inputs alone.
pub proof fn lemma_compute_fov_deterministic(
    origin1: (int, int),
    radius1: int,
    opq1: Set<(int, int)>,
    origin2: (int, int),
    radius2: int,
    opq2: Set<(int, int)>,
)
    requires
        origin1 == origin2,
        radius1 == radius2,
        opq1 == opq2,
    ensures
        spec_compute_fov(origin1, radius1, opq1) == spec_compute_fov(origin2, radius2, opq2),
{
}

/// With a start slope of one, the first column of row `j` is exactly `-j`.
proof fn lemma_col_min_one(j: int)
    requires
        1 <= j,
    ensures
        spec_col_min(j, (1, 1)) == -j,
{
    let n = 1 - 2 * j;
    assert(n < 0);
    assert(spec_col_min(j, (1, 1)) == -((2 * (2 * j - 1) + 2) / 4));
    assert((4 * j) / 4 == j) by (nonlinear_arith);
    assert(2 * (2 * j - 1) + 2 == 4 * j);
}

/// Walking a row under the full wedge and no occluders reports exactly the
/// in-disk cells of the row from `dx` on, and never blocks.
proof fn lemma_cols_open(
    acc: Seq<(int, int)>,
    ox: int,
    oy: int,
    radius: int,
    j: int,
    dx: int,
    octant: int,
)
    requires
        1 <= j <= radius,
        -j <= dx,
    ensures
        spec_scan_cols(acc, Set::empty(), ox, oy, radius, j, dx, (1, 1), (0, 1), false, (1, 1), octant).1
            == false,
        spec_scan_cols(acc, Set::empty(), ox, oy, radius, j, dx, (1, 1), (0, 1), false, (1, 1), octant).2
            == (1int, 1int),
        forall|p: (int, int)|
            #[trigger] spec_scan_cols(
                acc,
                Set::empty(),
                ox,
                oy,
                radius,
                j,
                dx,
                (1, 1),
                (0, 1),
                false,
                (1, 1),
                octant,
            ).0.contains(p) ==> acc.contains(p) || (exists|d: int|
                dx <= d <= 0 && d * d + j * j <= radius * radius && p == #[trigger] cell_world(
                    ox,
                    oy,
                    d,
                    j,
                    octant,
                )),
        forall|p: (int, int)|
            #[trigger] acc.contains(p) ==> spec_scan_cols(
                acc,
                Set::empty(),
                ox,
                oy,
                radius,
                j,
                dx,
                (1, 1),
                (0, 1),
                false,
                (1, 1),
                octant,
            ).0.contains(p),
        forall|d: int|
            dx <= d <= 0 && d * d + j * j <= radius * radius ==> spec_scan_cols(
                acc,
                Set::empty(),
                ox,
                oy,
                radius,
                j,
                dx,
                (1, 1),
                (0, 1),
                false,
                (1, 1),
                octant,
            ).0.contains(#[trigger] cell_world(ox, oy, d, j, octant)),
    decreases cols_left(dx),
{
    let opq = Set::<(int, int)>::empty();
    let step = spec_scan_cols(acc, opq, ox, oy, radius, j, dx, (1, 1), (0, 1), false, (1, 1), octant);
    if dx > 0 {
        assert(step.0 == acc);
    } else {
        let l = l_slope(dx, j);
        let r = r_slope(dx, j);
        assert(!slope_lt((1, 1), r));
        assert(!slope_lt(l, (0, 1)));
        let w = cell_world(ox, oy, dx, j, octant);
        let acc1 = if dx * dx + j * j <= radius * radius {
            seq_push_new(acc, w)
        } else {
            acc
        };
        assert(!opq.contains(w));
        lemma_cols_open(acc1, ox, oy, radius, j, dx + 1, octant);
        let rec = spec_scan_cols(
            acc1,
            opq,
            ox,
            oy,
            radius,
            j,
            dx + 1,
            (1, 1),
            (0, 1),
            false,
            (1, 1),
            octant,
        );
        assert(step == rec);
        assert forall|p: (int, int)| #[trigger] step.0.contains(p) implies acc.contains(p) || (
        exists|d: int|
            dx <= d <= 0 && d * d + j * j <= radius * radius && p == #[trigger] cell_world(
                ox,
                oy,
                d,
                j,
                octant,
            )) by {
            if !acc.contains(p) {
                if acc1.contains(p) {
                    assert(p == w && dx * dx + j * j <= radius * radius);
                    assert(dx <= dx <= 0 && dx * dx + j * j <= radius * radius && p == cell_world(
                        ox,
                        oy,
                        dx,
                        j,
                        octant,
                    ));
                } else {
                    let d = choose|d: int|
                        dx + 1 <= d <= 0 && d * d + j * j <= radius * radius && p
                            == #[trigger] cell_world(ox, oy, d, j, octant);
                    assert(dx <= d <= 0 && d * d + j * j <= radius * radius && p == cell_world(
                        ox,
                        oy,
                        d,
                        j,
                        octant,
                    ));
                }
            }
        }
        assert forall|p: (int, int)| #[trigger] acc.contains(p) implies step.0.contains(p) by {
            assert(acc1.contains(p));
            assert(rec.0.contains(p));
        }
        assert forall|d: int| dx <= d <= 0 && d * d + j * j <= radius * radius implies step.0.contains(
            #[trigger] cell_world(ox, oy, d, j, octant),
        ) by {
            if d == dx {
                assert(acc1.contains(w));
                assert(rec.0.contains(w));
            } else {
                assert(dx + 1 <= d <= 0 && d * d + j * j <= radius * radius);
                assert(rec.0.contains(cell_world(ox, oy, d, j, octant)));
            }
        }
    }
}

/// Walking the rows from `j` under the full wedge and no occluders reports
/// exactly the in-disk cells of the remaining rows.
proof fn lemma_rows_open(acc: Seq<(int, int)>, ox: int, oy: int, radius: int, j: int, octant: int)
    requires
        1 <= j <= radius,
    ensures
        forall|p: (int, int)|
            #[trigger] spec_scan_rows(acc, Set::empty(), ox, oy, radius, j, (1, 1), (0, 1), octant).contains(
                p,
            ) ==> acc.contains(p) || (exists|jj: int, d: int|
                j <= jj <= radius && -jj <= d <= 0 && d * d + jj * jj <= radius * radius && p
                    == #[trigger] cell_world(ox, oy, d, jj, octant)),
        forall|p: (int, int)|
            #[trigger] acc.contains(p) ==> spec_scan_rows(
                acc,
                Set::empty(),
                ox,
                oy,
                radius,
                j,
                (1, 1),
                (0, 1),
                octant,
            ).contains(p),
        forall|jj: int, d: int|
            j <= jj <= radius && -jj <= d <= 0 && d * d + jj * jj <= radius * radius
                ==> spec_scan_rows(acc, Set::empty(), ox, oy, radius, j, (1, 1), (0, 1), octant).contains(
                #[trigger] cell_world(ox, oy, d, jj, octant),
            ),
    decreases rows_left(radius, j),
{
    let opq = Set::<(int, int)>::empty();
    let out = spec_scan_rows(acc, opq, ox, oy, radius, j, (1, 1), (0, 1), octant);
    lemma_col_min_one(j);
    let step = spec_scan_cols(acc, opq, ox, oy, radius, j, -j, (1, 1), (0, 1), false, (1, 1), octant);
    lemma_cols_open(acc, ox, oy, radius, j, -j, octant);
    if j < radius {
        lemma_rows_open(step.0, ox, oy, radius, j + 1, octant);
        let rec = spec_scan_rows(step.0, opq, ox, oy, radius, j + 1, (1, 1), (0, 1), octant);
        assert(out == rec);
        assert forall|p: (int, int)| #[trigger] out.contains(p) implies acc.contains(p) || (
        exists|jj: int, d: int|
            j <= jj <= radius && -jj <= d <= 0 && d * d + jj * jj <= radius * radius && p
                == #[trigger] cell_world(ox, oy, d, jj, octant)) by {
            if !acc.contains(p) {
                if step.0.contains(p) {
                    let d = choose|d: int|
                        -j <= d <= 0 && d * d + j * j <= radius * radius && p
                            == #[trigger] cell_world(ox, oy, d, j, octant);
                    assert(j <= j <= radius && -j <= d <= 0 && d * d + j * j <= radius * radius
                        && p == cell_world(ox, oy, d, j, octant));
                } else {
                    let (jj, d) = choose|jj: int, d: int|
                        j + 1 <= jj <= radius && -jj <= d <= 0 && d * d + jj * jj <= radius
                            * radius && p == #[trigger] cell_world(ox, oy, d, jj, octant);
                    assert(j <= jj <= radius && -jj <= d <= 0 && d * d + jj * jj <= radius
                        * radius && p == cell_world(ox, oy, d, jj, octant));
                }
            }
        }
        assert forall|p: (int, int)| #[trigger] acc.contains(p) implies out.contains(p) by {
            assert(step.0.contains(p));
            assert(rec.contains(p));
        }
        assert forall|jj: int, d: int|
            j <= jj <= radius && -jj <= d <= 0 && d * d + jj * jj <= radius * radius implies out.contains(
            #[trigger] cell_world(ox, oy, d, jj, octant),
        ) by {
            if jj == j {
                assert(step.0.contains(cell_world(ox, oy, d, j, octant)));
                assert(rec.contains(cell_world(ox, oy, d, j, octant)));
            } else {
                assert(j + 1 <= jj <= radius && -jj <= d <= 0 && d * d + jj * jj <= radius
                    * radius);
                assert(rec.contains(cell_world(ox, oy, d, jj, octant)));
            }
        }
    } else {
        assert(out == step.0);
    }
}

/// One whole octant cast over an empty occlusion set reports exactly the
/// in-disk cells of that octant.
proof fn lemma_cast_open(acc: Seq<(int, int)>, ox: int, oy: int, radius: int, octant: int)
    requires
        radius >= 0,
    ensures
        forall|p: (int, int)|
            #[trigger] spec_cast(acc, Set::empty(), ox, oy, radius, 1, (1, 1), (0, 1), octant).contains(
                p,
            ) ==> acc.contains(p) || (exists|jj: int, d: int|
                1 <= jj <= radius && -jj <= d <= 0 && d * d + jj * jj <= radius * radius && p
                    == #[trigger] cell_world(ox, oy, d, jj, octant)),
        forall|p: (int, int)|
            #[trigger] acc.contains(p) ==> spec_cast(
                acc,
                Set::empty(),
                ox,
                oy,
                radius,
                1,
                (1, 1),
                (0, 1),
                octant,
            ).contains(p),
        forall|jj: int, d: int|
            1 <= jj <= radius && -jj <= d <= 0 && d * d + jj * jj <= radius * radius ==> spec_cast(
                acc,
                Set::empty(),
                ox,
                oy,
                radius,
                1,
                (1, 1),
                (0, 1),
                octant,
            ).contains(#[trigger] cell_world(ox, oy, d, jj, octant)),
{
    assert(!slope_lt((1, 1), (0, 1)));
    if radius >= 1 {
        lemma_rows_open(acc, ox, oy, radius, 1, octant);
        let rows = spec_scan_rows(acc, Set::empty(), ox, oy, radius, 1, (1, 1), (0, 1), octant);
        assert(spec_cast(acc, Set::empty(), ox, oy, radius, 1, (1, 1), (0, 1), octant) == rows);
        assert forall|p: (int, int)|
            #[trigger] spec_cast(acc, Set::empty(), ox, oy, radius, 1, (1, 1), (0, 1), octant).contains(
                p,
            ) implies acc.contains(p) || (exists|jj: int, d: int|
            1 <= jj <= radius && -jj <= d <= 0 && d * d + jj * jj <= radius * radius && p
                == #[trigger] cell_world(ox, oy, d, jj, octant)) by {
            assert(rows.contains(p));
        }
    }
}

/// The octant sweep over an empty occlusion set reports exactly the in-disk
/// cells of the remaining octants.
proof fn lemma_sweep_open(acc: Seq<(int, int)>, ox: int, oy: int, radius: int, octant: int)
    requires
        radius >= 0,
        0 <= octant <= 8,
    ensures
        forall|p: (int, int)|
            #[trigger] spec_octant_sweep(acc, Set::empty(), ox, oy, radius, octant).contains(p)
                ==> acc.contains(p) || (exists|oo: int, jj: int, d: int|
                octant <= oo < 8 && 1 <= jj <= radius && -jj <= d <= 0 && d * d + jj * jj
                    <= radius * radius && p == #[trigger] cell_world(ox, oy, d, jj, oo)),
        forall|p: (int, int)|
            #[trigger] acc.contains(p) ==> spec_octant_sweep(
                acc,
                Set::empty(),
                ox,
                oy,
                radius,
                octant,
            ).contains(p),
        forall|oo: int, jj: int, d: int|
            octant <= oo < 8 && 1 <= jj <= radius && -jj <= d <= 0 && d * d + jj * jj <= radius
                * radius ==> spec_octant_sweep(acc, Set::empty(), ox, oy, radius, octant).contains(
                #[trigger] cell_world(ox, oy, d, jj, oo),
            ),
    decreases 8 - octant,
{
    let opq = Set::<(int, int)>::empty();
    let out = spec_octant_sweep(acc, opq, ox, oy, radius, octant);
    if octant < 8 {
        let acc1 = spec_cast(acc, opq, ox, oy, radius, 1, (1, 1), (0, 1), octant);
        lemma_cast_open(acc, ox, oy, radius, octant);
        lemma_sweep_open(acc1, ox, oy, radius, octant + 1);
        let rec = spec_octant_sweep(acc1, opq, ox, oy, radius, octant + 1);
        assert(out == rec);
        assert forall|p: (int, int)| #[trigger] out.contains(p) implies acc.contains(p) || (
        exists|oo: int, jj: int, d: int|
            octant <= oo < 8 && 1 <= jj <= radius && -jj <= d <= 0 && d * d + jj * jj <= radius
                * radius && p == #[trigger] cell_world(ox, oy, d, jj, oo)) by {
            if !acc.contains(p) {
                if acc1.contains(p) {
                    let (jj, d) = choose|jj: int, d: int|
                        1 <= jj <= radius && -jj <= d <= 0 && d * d + jj * jj <= radius * radius
                            && p == #[trigger] cell_world(ox, oy, d, jj, octant);
                    assert(octant <= octant < 8 && 1 <= jj <= radius && -jj <= d <= 0 && d * d
                        + jj * jj <= radius * radius && p == cell_world(ox, oy, d, jj, octant));
                } else {
                    let (oo, jj, d) = choose|oo: int, jj: int, d: int|
                        octant + 1 <= oo < 8 && 1 <= jj <= radius && -jj <= d <= 0 && d * d + jj
                            * jj <= radius * radius && p == #[trigger] cell_world(ox, oy, d, jj, oo);
                    assert(octant <= oo < 8 && 1 <= jj <= radius && -jj <= d <= 0 && d * d + jj
                        * jj <= radius * radius && p == cell_world(ox, oy, d, jj, oo));
                }
            }
        }
        assert forall|p: (int, int)| #[trigger] acc.contains(p) implies out.contains(p) by {
            assert(acc1.contains(p));
            assert(rec.contains(p));
        }
        assert forall|oo: int, jj: int, d: int|
            octant <= oo < 8 && 1 <= jj <= radius && -jj <= d <= 0 && d * d + jj * jj <= radius
                * radius implies out.contains(#[trigger] cell_world(ox, oy, d, jj, oo)) by {
            if oo == octant {
                assert(acc1.contains(cell_world(ox, oy, d, jj, octant)));
                assert(rec.contains(cell_world(ox, oy, d, jj, octant)));
            } else {
                assert(octant + 1 <= oo < 8 && 1 <= jj <= radius && -jj <= d <= 0 && d * d + jj
                    * jj <= radius * radius);
                assert(rec.contains(cell_world(ox, oy, d, jj, oo)));
            }
        }
    }
}

/// Every offset in the disk other than the origin is reached by some octant.
proof fn lemma_disk_covered(radius: int, a: int, b: int)
    requires
        radius >= 0,
        a * a + b * b <= radius * radius,
        !(a == 0 && b == 0),
    ensures
        exists|octant: int, jj: int, d: int|
            0 <= octant < 8 && 1 <= jj <= radius && -jj <= d <= 0 && d * d + jj * jj == a * a + b
                * b && (#[trigger] spec_transform_octant(d, -jj, octant)) == (a, b),
{
    let aa = if a < 0 {
        -a
    } else {
        a
    };
    let bb = if b < 0 {
        -b
    } else {
        b
    };
    assert(aa * aa == a * a) by (nonlinear_arith)
        requires aa == a || aa == -a;
    assert(bb * bb == b * b) by (nonlinear_arith)
        requires bb == b || bb == -b;
    let m = if aa >= bb {
        aa
    } else {
        bb
    };
    let n = if aa >= bb {
        bb
    } else {
        aa
    };
    assert(m * m <= m * m + n * n) by (nonlinear_arith)
        requires n * n >= 0;
    assert(m * m <= radius * radius);
    assert(m <= radius) by (nonlinear_arith)
        requires m >= 0 && radius >= 0 && m * m <= radius * radius;
    assert(m >= 1);
    let jj = m;
    let d = -n;
    assert(d * d + jj * jj == a * a + b * b) by (nonlinear_arith)
        requires ((jj == aa && d == -bb) || (jj == bb && d == -aa)) && aa * aa == a * a && bb * bb
            == b * b;
    if b < 0 && aa <= bb {
        if a <= 0 {
            assert(spec_transform_octant(-aa, -jj, 0) == (a, b));
        } else {
            assert(spec_transform_octant(-aa, -jj, 7) == (a, b));
        }
    } else if b > 0 && aa <= bb {
        if a <= 0 {
            assert(spec_transform_octant(-aa, -jj, 3) == (a, b));
        } else {
            assert(spec_transform_octant(-aa, -jj, 4) == (a, b));
        }
    } else if a < 0 {
        if b <= 0 {
            assert(spec_transform_octant(-bb, -jj, 1) == (a, b));
        } else {
            assert(spec_transform_octant(-bb, -jj, 2) == (a, b));
        }
    } else {
        if b <= 0 {
            assert(spec_transform_octant(-bb, -jj, 6) == (a, b));
        } else {
            assert(spec_transform_octant(-bb, -jj, 5) == (a, b));
        }
    }
}

/// With no occluders the visible set is exactly the closed disk around the
/// origin: a tile at offset `(dx, dy)` is visible if and only if
/// `dx*dx + dy*dy <= radius*radius`.
pub proof fn lemma_open_field_disk(origin: (int, int), radius: int)
    requires
        radius >= 0,
    ensures
        forall|p: (int, int)|
            #[trigger] spec_compute_fov(origin, radius, Set::empty()).contains(p) <==> in_disk(
                origin,
                radius,
                p,
            ),
{
    let opq = Set::<(int, int)>::empty();
    let out = spec_compute_fov(origin, radius, opq);
    lemma_fov_origin_and_disk(origin, radius, opq);
    lemma_sweep_open(seq![origin], origin.0, origin.1, radius, 0);
    assert(seq![origin][0] == origin);
    assert(seq![origin].contains(origin));
    assert forall|p: (int, int)| in_disk(origin, radius, p) implies #[trigger] out.contains(p) by {
        if p == origin {
            assert(out.contains(origin));
        } else {
            let a = p.0 - origin.0;
            let b = p.1 - origin.1;
            lemma_disk_covered(radius, a, b);
            let (octant, jj, d) = choose|octant: int, jj: int, d: int|
                0 <= octant < 8 && 1 <= jj <= radius && -jj <= d <= 0 && d * d + jj * jj == a * a
                    + b * b && (#[trigger] spec_transform_octant(d, -jj, octant)) == (a, b);
            assert(d * d + jj * jj <= radius * radius);
            assert(cell_world(origin.0, origin.1, d, jj, octant) == p);
            assert(out.contains(cell_world(origin.0, origin.1, d, jj, octant)));
        }
    }
}

} // verus!
