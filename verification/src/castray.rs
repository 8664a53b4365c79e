use vstd::prelude::*;
use crate::fixed::{Dir, ONE, dot};
use crate::maze::{MazeGrid, world_index};

verus! {

/// Longest trace a single ray may run, in world units.
pub const MAX_TRACE: i64 = 0x1000_0000;

/// Which kind of grid line the ray crossed when it entered the wall
/// cell: a vertical line (east/west face) or a horizontal one.
#[derive(Clone, Copy, PartialEq, Eq, Structural, Debug)]
pub enum Side {
    Vertical,
    Horizontal,
}

/// Per-screen-column result of ray casting.  `distance` is the
/// fisheye-corrected distance used for projection; `tex_num` is the
/// texture-offset fraction as a numerator over `ONE * cell_size`.
#[derive(Clone, Copy, PartialEq, Eq, Structural, Debug)]
pub struct HitRecord {
    pub distance: i64,
    pub variant: u8,
    pub tex_num: u64,
    pub side: Side,
}

/// X coordinate after `d` unit steps along `ray`, scaled by `ONE`.
pub open spec fn ray_x(x0: int, ray: Dir, d: int) -> int {
    x0 * ONE + d * ray.x
}

/// Y coordinate after `d` unit steps along `ray`, scaled by `ONE`.
pub open spec fn ray_y(y0: int, ray: Dir, d: int) -> int {
    y0 * ONE + d * ray.y
}

/// Grid column the ray samples at depth `d` (`-1` left of the grid).
pub open spec fn ray_col(x0: int, ray: Dir, cell: int, d: int) -> int {
    world_index(ray_x(x0, ray, d), ONE * cell)
}

/// Grid row the ray samples at depth `d` (`-1` above the grid).
pub open spec fn ray_row(y0: int, ray: Dir, cell: int, d: int) -> int {
    world_index(ray_y(y0, ray, d), ONE * cell)
}

/// The sample at depth `d` has left the grid: such a ray ends with no
/// hit (rendered as background).
pub open spec fn ray_off(g: MazeGrid, x0: int, y0: int, ray: Dir, cell: int, d: int) -> bool {
    ||| ray_col(x0, ray, cell, d) < 0
    ||| ray_row(y0, ray, cell, d) < 0
    ||| ray_col(x0, ray, cell, d) >= g.cols_len()
    ||| ray_row(y0, ray, cell, d) >= g.rows_len()
}

/// The sample at depth `d` lies inside the grid in a wall cell.
pub open spec fn ray_wall(g: MazeGrid, x0: int, y0: int, ray: Dir, cell: int, d: int) -> bool {
    &&& !ray_off(g, x0, y0, ray, cell, d)
    &&& g.cell(ray_row(y0, ray, cell, d), ray_col(x0, ray, cell, d)).is_wall()
}

/// Depth of the first wall sample at or after depth `d`, or `None` if
/// the ray leaves the grid or exceeds `max` first.
pub open spec fn ray_outcome_from(
    g: MazeGrid,
    x0: int,
    y0: int,
    ray: Dir,
    cell: int,
    d: int,
    max: int,
) -> Option<int>
    decreases max + 1 - d,
{
    if d > max || max + 1 - d < 0 {
        None
    } else if ray_off(g, x0, y0, ray, cell, d) {
        None
    } else if ray_wall(g, x0, y0, ray, cell, d) {
        Some(d)
    } else {
        ray_outcome_from(g, x0, y0, ray, cell, d + 1, max)
    }
}

/// Depth at which a ray from `(x0, y0)` along `ray` first enters a wall
/// cell, or `None` for a ray that leaves the grid or runs out.
pub open spec fn ray_outcome(
    g: MazeGrid,
    x0: int,
    y0: int,
    ray: Dir,
    cell: int,
    max: int,
) -> Option<int> {
    ray_outcome_from(g, x0, y0, ray, cell, 0, max)
}

/// Fisheye correction: the raw depth scaled by the cosine of the angle
/// between the ray and the heading, both given as `ONE`-scaled vectors,
/// so the factor is `dp / (ONE * ONE)`.
pub open spec fn corrected(d: int, dp: int) -> int {
    (d * dp) / (ONE * ONE)
}

pub open spec fn min2(a: int, b: int) -> int {
    if a < b { a } else { b }
}

/// Side flag from the in-cell offsets of the hit sample: the crossing
/// whose fractional coordinate is nearer a grid line wins.
pub open spec fn hit_side(fx: int, fy: int, den: int) -> Side {
    if min2(fx, den - fx) < min2(fy, den - fy) {
        Side::Vertical
    } else {
        Side::Horizontal
    }
}

/// Texture-offset numerator: the fractional coordinate along the wall
/// face that was struck (the axis not crossed).
pub open spec fn hit_tex(fx: int, fy: int, den: int) -> int {
    match hit_side(fx, fy, den) {
        Side::Vertical => fy,
        Side::Horizontal => fx,
    }
}

pub open spec fn wall_variant(c: crate::maze::Cell) -> u8 {
    match c {
        crate::maze::Cell::Wall(v) => v,
        _ => 0,
    }
}

/// The full record for a hit at depth `d`.
pub open spec fn hit_record_spec(
    g: MazeGrid,
    x0: int,
    y0: int,
    ray: Dir,
    heading: Dir,
    cell: int,
    d: int,
) -> HitRecord {
    let den = ONE * cell;
    let fx = ray_x(x0, ray, d) % den;
    let fy = ray_y(y0, ray, d) % den;
    HitRecord {
        distance: corrected(d, dot(ray, heading)) as i64,
        variant: wall_variant(g.cell(ray_row(y0, ray, cell, d), ray_col(x0, ray, cell, d))),
        tex_num: hit_tex(fx, fy, den) as u64,
        side: hit_side(fx, fy, den),
    }
}

/// The hit record a column's ray produces, if any.
pub open spec fn column_hit(
    g: MazeGrid,
    x0: int,
    y0: int,
    ray: Dir,
    heading: Dir,
    cell: int,
    max: int,
) -> Option<HitRecord> {
    match ray_outcome(g, x0, y0, ray, cell, max) {
        Some(d) => Some(hit_record_spec(g, x0, y0, ray, heading, cell, d)),
        None => None,
    }
}

/// Casts one ray by unit steps from `(x0, y0)` along `ray` until a wall
/// cell is entered, the grid is left, or `max_dist` is exceeded.  The
/// returned record carries the fisheye-corrected distance against
/// `heading` and the texture offset and side flag of the struck face.
pub fn cast_ray(
    grid: &MazeGrid,
    x0: i64,
    y0: i64,
    ray: Dir,
    heading: Dir,
    cell_size: u32,
    max_dist: i64,
) -> (r: Option<HitRecord>)
    requires
        grid.wf(),
        0 < cell_size <= 0x10000,
        ray.in_range(),
        heading.in_range(),
        0 <= x0 <= crate::player::POS_LIMIT,
        0 <= y0 <= crate::player::POS_LIMIT,
        0 <= max_dist <= MAX_TRACE,
        dot(ray, heading) >= 0,
    ensures
        match ray_outcome(*grid, x0 as int, y0 as int, ray, cell_size as int, max_dist as int) {
            Some(d) => r == Some(
                hit_record_spec(*grid, x0 as int, y0 as int, ray, heading, cell_size as int, d),
            ),
            None => r is None,
        },
        r matches Some(h) ==> h.distance >= 0
            && (h.tex_num as int) < (ONE as int) * (cell_size as int)
            && (h.variant as int) < grid.variant_limit(),
{
    proof {
        assert((ONE as int) * (cell_size as int) <= 0x400_0000) by (nonlinear_arith)
            requires 0 < cell_size as int <= 0x10000;
    }
    let den: u64 = (ONE as u64) * (cell_size as u64);
    let rows = grid.n_rows();
    let cols = grid.n_cols();
    let ghost gx0 = x0 as int;
    let ghost gy0 = y0 as int;
    let ghost gcell = cell_size as int;
    let ghost gmax = max_dist as int;
    let mut d: i64 = 0;
    loop
        invariant
            grid.wf(),
            0 < cell_size <= 0x10000,
            ray.in_range(),
            heading.in_range(),
            0 <= gx0 <= crate::player::POS_LIMIT,
            0 <= gy0 <= crate::player::POS_LIMIT,
            0 <= gmax <= MAX_TRACE,
            dot(ray, heading) >= 0,
            gx0 == x0 as int && gy0 == y0 as int && gcell == cell_size as int
                && gmax == max_dist as int,
            den == ONE * gcell,
            rows == grid.rows_len() && cols == grid.cols_len(),
            0 <= d <= gmax + 1,
            ray_outcome(*grid, gx0, gy0, ray, gcell, gmax)
                == ray_outcome_from(*grid, gx0, gy0, ray, gcell, d as int, gmax),
        decreases gmax + 1 - d,
    {
        if d > max_dist {
            return None;
        }
        proof {
            assert(-((MAX_TRACE as int) * (ONE as int)) <= d as int * (ray.x as int)
                <= (MAX_TRACE as int) * (ONE as int)) by (nonlinear_arith)
                requires
                    0 <= d as int <= MAX_TRACE as int,
                    -(ONE as int) <= ray.x as int <= ONE as int;
            assert(-((MAX_TRACE as int) * (ONE as int)) <= d as int * (ray.y as int)
                <= (MAX_TRACE as int) * (ONE as int)) by (nonlinear_arith)
                requires
                    0 <= d as int <= MAX_TRACE as int,
                    -(ONE as int) <= ray.y as int <= ONE as int;
        }
        let xs: i64 = x0 * (ONE as i64) + d * (ray.x as i64);
        let ys: i64 = y0 * (ONE as i64) + d * (ray.y as i64);
        proof {
            assert(xs == ray_x(gx0, ray, d as int));
            assert(ys == ray_y(gy0, ray, d as int));
        }
        if xs < 0 || ys < 0 {
            return None;
        }
        let col_w: u64 = (xs as u64) / den;
        let row_w: u64 = (ys as u64) / den;
        proof {
            assert(col_w == ray_col(gx0, ray, gcell, d as int));
            assert(row_w == ray_row(gy0, ray, gcell, d as int));
        }
        if row_w >= rows as u64 || col_w >= cols as u64 {
            return None;
        }
        let here = match grid.cell_at(row_w as usize, col_w as usize) {
            Ok(c) => c,
            Err(_) => {
                proof {
                    assert(false);
                }
                crate::maze::Cell::Open
            },
        };
        if here.is_wall_cell() {
            proof {
                assert(ray_wall(*grid, gx0, gy0, ray, gcell, d as int));
                assert(ray_outcome(*grid, gx0, gy0, ray, gcell, gmax) == Some(d as int));
            }
            let fx: u64 = (xs as u64) % den;
            let fy: u64 = (ys as u64) % den;
            let near_x: u64 = if fx < den - fx { fx } else { den - fx };
            let near_y: u64 = if fy < den - fy { fy } else { den - fy };
            let side = if near_x < near_y { Side::Vertical } else { Side::Horizontal };
            let tex_num: u64 = match side {
                Side::Vertical => fy,
                Side::Horizontal => fx,
            };
            proof {
                assert(-((ONE as int) * (ONE as int)) <= (ray.x as int) * (heading.x as int)
                    <= (ONE as int) * (ONE as int)) by (nonlinear_arith)
                    requires
                        -(ONE as int) <= ray.x as int <= ONE as int,
                        -(ONE as int) <= heading.x as int <= ONE as int;
                assert(-((ONE as int) * (ONE as int)) <= (ray.y as int) * (heading.y as int)
                    <= (ONE as int) * (ONE as int)) by (nonlinear_arith)
                    requires
                        -(ONE as int) <= ray.y as int <= ONE as int,
                        -(ONE as int) <= heading.y as int <= ONE as int;
            }
            let dp: i64 = (ray.x as i64) * (heading.x as i64)
                + (ray.y as i64) * (heading.y as i64);
            proof {
                assert(dp as int == dot(ray, heading));
                assert(0 <= d as int * (dp as int)
                    <= (MAX_TRACE as int) * (2 * (ONE as int) * (ONE as int)))
                    by (nonlinear_arith)
                    requires
                        0 <= d as int <= MAX_TRACE as int,
                        0 <= dp as int <= 2 * (ONE as int) * (ONE as int);
                vstd::arithmetic::div_mod::lemma_div_nonincreasing(
                    d as int * dp as int, (ONE as int) * (ONE as int));
                vstd::arithmetic::div_mod::lemma_div_pos_is_pos(
                    d as int * dp as int, (ONE as int) * (ONE as int));
            }
            let dist: i64 = (((d as u64) * (dp as u64)) / ((ONE as u64) * (ONE as u64))) as i64;
            let variant: u8 = match here {
                crate::maze::Cell::Wall(v) => v,
                _ => 0,
            };
            proof {
                assert(grid.cell(row_w as int, col_w as int) == here);
                assert(match grid.grid()[row_w as int][col_w as int] {
                    crate::maze::Cell::Wall(v) => v < grid.variant_limit(),
                    _ => true,
                });
                assert(fx < den && fy < den);
            }
            return Some(HitRecord { distance: dist, variant, tex_num, side });
        }
        proof {
            assert(!ray_off(*grid, gx0, gy0, ray, gcell, d as int));
            assert(!ray_wall(*grid, gx0, gy0, ray, gcell, d as int));
            assert(ray_outcome_from(*grid, gx0, gy0, ray, gcell, d as int, gmax)
                == ray_outcome_from(*grid, gx0, gy0, ray, gcell, d as int + 1, gmax));
        }
        d = d + 1;
    }
}

/// Ray angle for screen column `i` of `w`: a linear sweep across the
/// field of view, left to right, centered on the heading `a` (all in
/// integer angle units).
pub open spec fn sweep_angle(a: int, fov: int, i: int, w: int) -> int {
    a - fov / 2 + (fov * i) / w
}

/// Computes `sweep_angle` on machine integers.
pub fn ray_angle(a: i64, fov: i64, i: usize, w: usize) -> (r: i64)
    requires
        0 < w <= 0x10000,
        0 <= fov <= 0x1_0000_0000,
        i < w,
        -0x1000_0000_0000_0000 <= a <= 0x1000_0000_0000_0000,
    ensures
        r == sweep_angle(a as int, fov as int, i as int, w as int),
{
    proof {
        assert((fov as int) * (i as int) <= 0x1_0000_0000 * 0x10000) by (nonlinear_arith)
            requires
                0 <= fov as int <= 0x1_0000_0000,
                0 <= i as int <= 0x10000;
        assert((fov as int) * (i as int) >= 0) by (nonlinear_arith)
            requires 0 <= fov as int && 0 <= i as int;
        vstd::arithmetic::div_mod::lemma_div_nonincreasing((fov as int) * (i as int), w as int);
        vstd::arithmetic::div_mod::lemma_div_pos_is_pos((fov as int) * (i as int), w as int);
        vstd::arithmetic::div_mod::lemma_div_pos_is_pos(fov as int, 2);
        vstd::arithmetic::div_mod::lemma_div_nonincreasing(fov as int, 2);
    }
    let half: i64 = fov / 2;
    let swept: i64 = (((fov as u64) * (i as u64)) / (w as u64)) as i64;
    a - half + swept
}

/// The fisheye-correction factor for a ray pointing exactly along the
/// heading is exactly one: a unit ray's corrected depth is its raw depth.
pub proof fn lemma_no_fisheye_at_center(d: int, ray: Dir)
    requires
        dot(ray, ray) == ONE * ONE,
    ensures
        corrected(d, dot(ray, ray)) == d,
{
    vstd::arithmetic::div_mod::lemma_div_multiples_vanish(d, (ONE as int) * (ONE as int));
    assert(d * ((ONE as int) * (ONE as int)) == ((ONE as int) * (ONE as int)) * d)
        by (nonlinear_arith);
}

/// A ray that only crosses free samples between depths `d` and `target`
/// has the same outcome from either depth.
pub proof fn lemma_ray_skips_open(
    g: MazeGrid,
    x0: int,
    y0: int,
    ray: Dir,
    cell: int,
    d: int,
    target: int,
    max: int,
)
    requires
        0 <= d <= target <= max,
        forall|e: int| d <= e < target ==> !#[trigger] ray_off(g, x0, y0, ray, cell, e)
            && !ray_wall(g, x0, y0, ray, cell, e),
    ensures
        ray_outcome_from(g, x0, y0, ray, cell, d, max)
            == ray_outcome_from(g, x0, y0, ray, cell, target, max),
    decreases target - d,
{
    if d < target {
        lemma_ray_skips_open(g, x0, y0, ray, cell, d + 1, target, max);
    }
}

/// A ray fired from the corner of cell `(r0, c0)` straight along the
/// column axis, down `k` free cells of row `r0`, hits the wall at
/// column `c0 + k` at raw depth exactly `k * cell` — the grid-aligned
/// distance in world units.
pub proof fn lemma_axis_ray_hits_face(g: MazeGrid, r0: int, c0: int, k: int, cell: int, max: int)
    requires
        g.wf(),
        0 < cell,
        0 < k,
        0 <= r0 < g.rows_len(),
        0 <= c0,
        c0 + k < g.cols_len(),
        forall|j: int| c0 <= j < c0 + k ==> !(#[trigger] g.cell(r0, j)).is_wall(),
        g.cell(r0, c0 + k).is_wall(),
        k * cell <= max,
    ensures
        ray_outcome(g, c0 * cell, r0 * cell, Dir { x: ONE as i32, y: 0 }, cell, max)
            == Some(k * cell),
{
    let ray = Dir { x: ONE as i32, y: 0 };
    let x0 = c0 * cell;
    let y0 = r0 * cell;
    let hit = k * cell;
    assert(k * cell > 0) by (nonlinear_arith)
        requires k > 0 && cell > 0;
    assert forall|e: int| 0 <= e <= hit implies {
        &&& ray_x(x0, ray, e) == (c0 * cell + e) * ONE
        &&& ray_y(y0, ray, e) == r0 * (ONE * cell)
        &&& ray_col(x0, ray, cell, e) == c0 + e / cell
        &&& ray_row(y0, ray, cell, e) == r0
    } by {
        assert(ray_x(x0, ray, e) == x0 * ONE + e * ONE);
        assert((c0 * cell + e) * ONE == c0 * cell * ONE + e * ONE) by (nonlinear_arith);
        assert(ray_y(y0, ray, e) == r0 * cell * ONE + e * 0);
        assert(r0 * cell * ONE == r0 * (ONE * cell)) by (nonlinear_arith);
        lemma_scaled_cell_index(c0, cell, e);
        assert(r0 * (ONE * cell) >= 0) by (nonlinear_arith)
            requires r0 >= 0 && ONE * cell > 0;
        vstd::arithmetic::div_mod::lemma_div_multiples_vanish(r0, ONE * cell);
        assert(ray_row(y0, ray, cell, e) == (r0 * (ONE * cell)) / (ONE * cell));
        assert(((ONE * cell) * r0) / (ONE * cell) == r0);
        assert((r0 * (ONE * cell)) == ((ONE * cell) * r0)) by (nonlinear_arith);
    }
    assert forall|e: int| 0 <= e < hit implies !#[trigger] ray_off(g, x0, y0, ray, cell, e)
        && !ray_wall(g, x0, y0, ray, cell, e) by {
        vstd::arithmetic::div_mod::lemma_div_pos_is_pos(e, cell);
        vstd::arithmetic::div_mod::lemma_fundamental_div_mod(e, cell);
        assert(e / cell < k) by (nonlinear_arith)
            requires cell > 0 && cell * (e / cell) <= e && e < k * cell;
        assert(c0 <= c0 + e / cell < c0 + k);
        assert(!g.cell(r0, c0 + e / cell).is_wall());
    }
    lemma_ray_skips_open(g, x0, y0, ray, cell, 0, hit, max);
    assert(hit / cell == k) by {
        vstd::arithmetic::div_mod::lemma_div_multiples_vanish(k, cell);
        assert(k * cell == cell * k) by (nonlinear_arith);
    }
    assert(ray_col(x0, ray, cell, hit) == c0 + k);
    assert(ray_wall(g, x0, y0, ray, cell, hit));
    assert(ray_outcome_from(g, x0, y0, ray, cell, hit, max) == Some(hit));
}

/// For a ray fired straight along the column axis with the heading
/// equal to the ray, the recorded corrected distance is exactly the
/// grid-aligned distance `k * cell` to the wall face: the fisheye
/// factor is one and the trace is exact.
pub proof fn lemma_axis_ray_corrected_distance(
    g: MazeGrid,
    r0: int,
    c0: int,
    k: int,
    cell: int,
    max: int,
)
    requires
        g.wf(),
        0 < cell,
        0 < k,
        0 <= r0 < g.rows_len(),
        0 <= c0,
        c0 + k < g.cols_len(),
        forall|j: int| c0 <= j < c0 + k ==> !(#[trigger] g.cell(r0, j)).is_wall(),
        g.cell(r0, c0 + k).is_wall(),
        k * cell <= max,
        max <= MAX_TRACE,
    ensures
        ({
            let east = Dir { x: ONE as i32, y: 0 };
            let hit = column_hit(g, c0 * cell, r0 * cell, east, east, cell, max);
            hit matches Some(h) && h.distance == k * cell
        }),
{
    let east = Dir { x: ONE as i32, y: 0 };
    lemma_axis_ray_hits_face(g, r0, c0, k, cell, max);
    assert(dot(east, east) == ONE * ONE);
    lemma_no_fisheye_at_center(k * cell, east);
    assert(k * cell > 0) by (nonlinear_arith)
        requires k > 0 && cell > 0;
}

/// `((c0 * cell + e) * ONE) / (ONE * cell) == c0 + e / cell` for
/// non-negative `c0`, `e` and positive `cell`: scaling numerator and
/// denominator by `ONE` cancels, and whole cells hoist out.
proof fn lemma_scaled_cell_index(c0: int, cell: int, e: int)
    requires
        c0 >= 0,
        e >= 0,
        cell > 0,
    ensures
        ((c0 * cell + e) * ONE) / (ONE * cell) == c0 + e / cell,
        (c0 * cell + e) * ONE >= 0,
{
    let w = c0 * cell + e;
    assert(c0 * cell + e >= 0) by (nonlinear_arith)
        requires c0 >= 0 && cell > 0 && e >= 0;
    assert((c0 * cell + e) * ONE >= 0) by (nonlinear_arith)
        requires c0 * cell + e >= 0;
    assert(w * ONE == ONE * w) by (nonlinear_arith);
    vstd::arithmetic::div_mod::lemma_div_denominator(w * ONE, ONE as int, cell);
    assert((w * ONE) / (ONE as int) == w) by {
        vstd::arithmetic::div_mod::lemma_div_multiples_vanish(w, ONE as int);
        assert(w * ONE == ONE * w) by (nonlinear_arith);
    }
    assert((w * ONE) / (ONE * cell) == w / cell);
    assert(w / cell == c0 + e / cell) by {
        vstd::arithmetic::div_mod::lemma_hoist_over_denominator(e, c0, cell as nat);
        assert(e / cell + c0 == c0 + e / cell);
    }
}

} // verus!
