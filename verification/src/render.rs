use vstd::prelude::*;
use crate::castray::{HitRecord, column_hit, cast_ray, MAX_TRACE};
use crate::fixed::{Dir, ONE, dot};
use crate::framebuffer::{Framebuffer, BACKGROUND, pixel_index, lemma_pixel_index_in_range,
    lemma_pixel_index_injective};
use crate::maze::MazeGrid;
use crate::player::{Player, POS_LIMIT};
use crate::textures::{GameTextures, lemma_scaled_sample_in_range};

verus! {

/// Color of the sky half of a column with no wall hit.
pub const SKY_COLOR: u32 = 0xFF87_CEEB;

/// Color of the floor half of a column.
pub const FLOOR_COLOR: u32 = 0xFF33_2B22;

/// Brightest shade factor (denominator of the channel scale).
pub const SHADE_FULL: u64 = 256;

/// Darkest shade factor: far walls are dimmed, never fully black.
pub const SHADE_FLOOR: u64 = 64;

/// World units of corrected distance per unit of dimming.
pub const SHADE_STEP: u64 = 8;

/// Shade factor for a hit at `dist`: full brightness up close, then
/// one step darker per `SHADE_STEP` world units, clamped at
/// `SHADE_FLOOR` so distant walls stay visible.
pub open spec fn shade_factor_spec(dist: int) -> int {
    if dist < 0 {
        SHADE_FULL as int
    } else if dist / (SHADE_STEP as int) >= (SHADE_FULL - SHADE_FLOOR) as int {
        SHADE_FLOOR as int
    } else {
        SHADE_FULL as int - dist / (SHADE_STEP as int)
    }
}

pub fn shade_factor(dist: i64) -> (r: u64)
    requires
        dist >= 0,
    ensures
        r == shade_factor_spec(dist as int),
        SHADE_FLOOR <= r <= SHADE_FULL,
{
    let q: u64 = (dist as u64) / SHADE_STEP;
    if q >= SHADE_FULL - SHADE_FLOOR {
        SHADE_FLOOR
    } else {
        SHADE_FULL - q
    }
}

/// Shading is monotone: a farther hit never renders brighter.
pub proof fn lemma_shade_monotone(d1: int, d2: int)
    requires
        0 <= d1 <= d2,
    ensures
        shade_factor_spec(d2) <= shade_factor_spec(d1),
{
    vstd::arithmetic::div_mod::lemma_div_is_ordered(d1, d2, SHADE_STEP as int);
}

/// Shading is bounded: the factor never reaches zero and never
/// exceeds full brightness.
pub proof fn lemma_shade_bounded(d: int)
    ensures
        SHADE_FLOOR as int <= shade_factor_spec(d) <= SHADE_FULL as int,
{
    if d >= 0 {
        vstd::arithmetic::div_mod::lemma_div_pos_is_pos(d, SHADE_STEP as int);
    }
}

pub open spec fn chan_r(c: u32) -> u32 {
    (c >> 16) & 0xFF
}

pub open spec fn chan_g(c: u32) -> u32 {
    (c >> 8) & 0xFF
}

pub open spec fn chan_b(c: u32) -> u32 {
    c & 0xFF
}

pub open spec fn pack_channels(r: u32, g: u32, b: u32) -> u32 {
    0xFF00_0000u32 | (r << 16) | (g << 8) | b
}

/// One channel scaled by a shade factor `f` out of `SHADE_FULL`.
pub open spec fn scale_chan(ch: int, f: int) -> int {
    (ch * f) / (SHADE_FULL as int)
}

/// A texel darkened by the shade factor `f`, channel by channel; the
/// alpha byte stays opaque.
pub open spec fn shade_spec(c: u32, f: int) -> u32 {
    pack_channels(
        scale_chan(chan_r(c) as int, f) as u32,
        scale_chan(chan_g(c) as int, f) as u32,
        scale_chan(chan_b(c) as int, f) as u32,
    )
}

pub fn apply_shade(c: u32, f: u64) -> (r: u32)
    requires
        SHADE_FLOOR <= f <= SHADE_FULL,
    ensures
        r == shade_spec(c, f as int),
{
    let cr: u32 = (c >> 16) & 0xFF;
    let cg: u32 = (c >> 8) & 0xFF;
    let cb: u32 = c & 0xFF;
    proof {
        assert(cr < 256 && cg < 256 && cb < 256) by (bit_vector)
            requires
                cr == (c >> 16) & 0xFF,
                cg == (c >> 8) & 0xFF,
                cb == c & 0xFF;
        lemma_scale_chan_le(cr as int, f as int);
        lemma_scale_chan_le(cg as int, f as int);
        lemma_scale_chan_le(cb as int, f as int);
    }
    let sr: u32 = ((cr as u64) * f / SHADE_FULL) as u32;
    let sg: u32 = ((cg as u64) * f / SHADE_FULL) as u32;
    let sb: u32 = ((cb as u64) * f / SHADE_FULL) as u32;
    0xFF00_0000u32 | (sr << 16) | (sg << 8) | sb
}

/// A scaled channel never exceeds the source channel: shading never
/// brightens a texel.
pub proof fn lemma_scale_chan_le(ch: int, f: int)
    requires
        0 <= ch,
        0 <= f <= SHADE_FULL as int,
    ensures
        0 <= scale_chan(ch, f) <= ch,
{
    assert(0 <= ch * f) by (nonlinear_arith)
        requires 0 <= ch && 0 <= f;
    assert(ch * f <= ch * (SHADE_FULL as int)) by (nonlinear_arith)
        requires 0 <= ch && f <= SHADE_FULL as int;
    vstd::arithmetic::div_mod::lemma_div_pos_is_pos(ch * f, SHADE_FULL as int);
    vstd::arithmetic::div_mod::lemma_div_is_ordered(
        ch * f, ch * (SHADE_FULL as int), SHADE_FULL as int);
    vstd::arithmetic::div_mod::lemma_div_multiples_vanish(ch, SHADE_FULL as int);
    assert(ch * (SHADE_FULL as int) == (SHADE_FULL as int) * ch) by (nonlinear_arith);
}

/// Unclamped wall-slice height: inversely proportional to the
/// corrected hit distance, with `screen_h * cell` as the projection
/// numerator.
pub open spec fn raw_slice(sh: int, cell: int, dist: int) -> int {
    (sh * cell) / dist
}

/// Wall-slice height for one column, clamped to the screen height;
/// a hit at distance zero fills the whole column.
pub open spec fn slice_height_spec(sh: int, cell: int, dist: int) -> int {
    if dist <= 0 {
        sh
    } else if raw_slice(sh, cell, dist) >= sh {
        sh
    } else {
        raw_slice(sh, cell, dist)
    }
}

pub fn wall_slice_height(screen_h: usize, cell_size: u32, dist: i64) -> (r: usize)
    requires
        1 <= screen_h <= 4096,
        1 <= cell_size <= 0x10000,
        dist >= 0,
    ensures
        r == slice_height_spec(screen_h as int, cell_size as int, dist as int),
        r <= screen_h,
{
    if dist <= 0 {
        return screen_h;
    }
    proof {
        assert((screen_h as int) * (cell_size as int) <= 0x1000_0000) by (nonlinear_arith)
            requires 1 <= screen_h as int <= 4096 && 1 <= cell_size as int <= 0x10000;
        vstd::arithmetic::div_mod::lemma_div_pos_is_pos(
            (screen_h as int) * (cell_size as int), dist as int);
    }
    let num: u64 = (screen_h as u64) * (cell_size as u64);
    let q: u64 = num / (dist as u64);
    if q >= screen_h as u64 {
        screen_h
    } else {
        q as usize
    }
}

/// Scaling the hit distance by a factor `k` divides the unclamped
/// slice height by `k` exactly (up to the rounding of nested integer
/// division): the projected height is inversely proportional to
/// distance.
pub proof fn lemma_slice_inverse_ratio(sh: int, cell: int, dist: int, k: int)
    requires
        sh >= 0,
        cell >= 0,
        dist > 0,
        k > 0,
    ensures
        raw_slice(sh, cell, dist * k) == raw_slice(sh, cell, dist) / k,
{
    assert(sh * cell >= 0) by (nonlinear_arith)
        requires sh >= 0 && cell >= 0;
    vstd::arithmetic::div_mod::lemma_div_denominator(sh * cell, dist, k);
}

/// The color of pixel row `y` in a column of height `sh`: sky above,
/// floor below, and within the wall slice a perspective-sampled,
/// distance-shaded texel.
pub open spec fn column_pixel(
    tex: GameTextures,
    hit: Option<HitRecord>,
    y: int,
    sh: int,
    cell: int,
) -> u32 {
    match hit {
        Option::None => if y < sh / 2 {
            SKY_COLOR
        } else {
            FLOOR_COLOR
        },
        Option::Some(h) => {
            let slice = slice_height_spec(sh, cell, h.distance as int);
            let top = (sh - slice) / 2;
            if y < top {
                SKY_COLOR
            } else if y >= top + slice {
                FLOOR_COLOR
            } else {
                let img = tex.walls_seq()[h.variant as int];
                let tx = (h.tex_num as int) * img.w() / (ONE * cell);
                let ty = (y - top) * img.h() / slice;
                shade_spec(img.pixel(tx, ty), shade_factor_spec(h.distance as int))
            }
        },
    }
}

/// Paints one screen column from its hit record: sky and floor fill
/// around a textured, distance-shaded wall slice.
pub fn render_column(
    fb: &mut Framebuffer,
    x: usize,
    hit: &Option<HitRecord>,
    tex: &GameTextures,
    cell_size: u32,
)
    requires
        old(fb).wf(),
        x < old(fb).w(),
        tex.wf(),
        1 <= cell_size <= 0x10000,
        match *hit {
            Option::Some(h) => h.distance >= 0
                && (h.tex_num as int) < (ONE as int) * (cell_size as int)
                && (h.variant as int) < tex.n_walls(),
            Option::None => true,
        },
    ensures
        final(fb).wf(),
        final(fb).w() == old(fb).w(),
        final(fb).h() == old(fb).h(),
        forall|py: int| 0 <= py < final(fb).h() ==> #[trigger] final(fb).pixel(x as int, py)
            == column_pixel(*tex, *hit, py, final(fb).h(), cell_size as int),
        forall|px: int, py: int|
            0 <= px < final(fb).w() && 0 <= py < final(fb).h() && px != x
                ==> #[trigger] final(fb).pixel(px, py) == old(fb).pixel(px, py),
{
    let w = fb.width();
    let h = fb.height();
    let mut y: usize = 0;
    while y < h
        invariant
            fb.wf(),
            tex.wf(),
            fb.w() == old(fb).w(),
            fb.h() == old(fb).h(),
            w == fb.w() && h == fb.h(),
            (x as int) < fb.w(),
            1 <= cell_size <= 0x10000,
            match *hit {
                Option::Some(hh) => hh.distance >= 0
                    && (hh.tex_num as int) < (ONE as int) * (cell_size as int)
                    && (hh.variant as int) < tex.n_walls(),
                Option::None => true,
            },
            y <= h,
            forall|py: int| 0 <= py < y ==> #[trigger] fb.pixel(x as int, py)
                == column_pixel(*tex, *hit, py, h as int, cell_size as int),
            forall|px: int, py: int|
                0 <= px < w && 0 <= py < h && px != x
                    ==> #[trigger] fb.pixel(px, py) == old(fb).pixel(px, py),
        decreases h - y,
    {
        let color: u32 = match hit {
            Option::None => if y < h / 2 {
                SKY_COLOR
            } else {
                FLOOR_COLOR
            },
            Option::Some(hh) => {
                let slice = wall_slice_height(h, cell_size, hh.distance);
                let top = (h - slice) / 2;
                if y < top {
                    SKY_COLOR
                } else if y >= top + slice {
                    FLOOR_COLOR
                } else {
                    let img = tex.wall(hh.variant);
                    let iw = img.width();
                    let ih = img.height();
                    let den: u64 = (ONE as u64) * (cell_size as u64);
                    proof {
                        assert((ONE as int) * (cell_size as int) <= 0x400_0000)
                            by (nonlinear_arith)
                            requires 0 < cell_size as int <= 0x10000;
                        lemma_scaled_sample_in_range(
                            hh.tex_num as int, den as int, iw as int);
                        assert((hh.tex_num as int) * (iw as int)
                            <= 0x400_0000 * 0x1000) by (nonlinear_arith)
                            requires
                                0 <= hh.tex_num as int <= 0x400_0000,
                                0 <= iw as int <= 0x1000;
                        lemma_scaled_sample_in_range(
                            (y - top) as int, slice as int, ih as int);
                        assert(((y - top) as int) * (ih as int) <= 4096 * 4096)
                            by (nonlinear_arith)
                            requires
                                0 <= (y - top) as int <= 4096,
                                0 <= ih as int <= 4096;
                    }
                    let tx: usize = ((hh.tex_num * (iw as u64)) / den) as usize;
                    let ty: usize = (y - top) * ih / slice;
                    let f = shade_factor(hh.distance);
                    apply_shade(img.sample(tx, ty), f)
                }
            },
        };
        let ghost prev = *fb;
        fb.point(x, y, color);
        proof {
            assert forall|px: int, py: int|
                0 <= px < w && 0 <= py < h && !(px == x as int && py == y as int)
                    implies #[trigger] fb.pixel(px, py) == prev.pixel(px, py) by {
                lemma_pixel_index_in_range(w as int, h as int, px, py);
                lemma_pixel_index_in_range(w as int, h as int, x as int, y as int);
                if pixel_index(w as int, px, py) == pixel_index(w as int, x as int, y as int) {
                    lemma_pixel_index_injective(w as int, px, py, x as int, y as int);
                }
            }
            assert(fb.pixel(x as int, y as int) == color) by {
                lemma_pixel_index_in_range(w as int, h as int, x as int, y as int);
            }
            assert(color == column_pixel(*tex, *hit, y as int, h as int, cell_size as int));
        }
        y = y + 1;
    }
}

/// Paints the full pseudo-3D view: one ray per screen column, swept by
/// the caller across the field of view, each column filled from its
/// hit record.
pub fn render3d(
    fb: &mut Framebuffer,
    player: &Player,
    grid: &MazeGrid,
    tex: &GameTextures,
    rays: &Vec<Dir>,
    heading: Dir,
    cell_size: u32,
    max_dist: i64,
)
    requires
        old(fb).wf(),
        grid.wf(),
        tex.wf(),
        rays@.len() == old(fb).w(),
        forall|i: int| 0 <= i < rays@.len() ==> (#[trigger] rays@[i]).in_range()
            && dot(rays@[i], heading) >= 0,
        heading.in_range(),
        0 <= player.pos_x <= POS_LIMIT,
        0 <= player.pos_y <= POS_LIMIT,
        0 < cell_size <= 0x10000,
        0 <= max_dist <= MAX_TRACE,
        grid.variant_limit() <= tex.n_walls(),
    ensures
        final(fb).wf(),
        final(fb).w() == old(fb).w(),
        final(fb).h() == old(fb).h(),
        forall|px: int, py: int|
            0 <= px < final(fb).w() && 0 <= py < final(fb).h()
                ==> #[trigger] final(fb).pixel(px, py) == column_pixel(
                    *tex,
                    column_hit(
                        *grid,
                        player.pos_x as int,
                        player.pos_y as int,
                        rays@[px],
                        heading,
                        cell_size as int,
                        max_dist as int,
                    ),
                    py,
                    final(fb).h(),
                    cell_size as int,
                ),
{
    let w = fb.width();
    let mut x: usize = 0;
    while x < w
        invariant
            fb.wf(),
            grid.wf(),
            tex.wf(),
            fb.w() == old(fb).w(),
            fb.h() == old(fb).h(),
            w == fb.w(),
            rays@.len() == w,
            forall|i: int| 0 <= i < rays@.len() ==> (#[trigger] rays@[i]).in_range()
                && dot(rays@[i], heading) >= 0,
            heading.in_range(),
            0 <= player.pos_x <= POS_LIMIT,
            0 <= player.pos_y <= POS_LIMIT,
            0 < cell_size <= 0x10000,
            0 <= max_dist <= MAX_TRACE,
            grid.variant_limit() <= tex.n_walls(),
            x <= w,
            forall|px: int, py: int|
                0 <= px < x && 0 <= py < fb.h()
                    ==> #[trigger] fb.pixel(px, py) == column_pixel(
                        *tex,
                        column_hit(
                            *grid,
                            player.pos_x as int,
                            player.pos_y as int,
                            rays@[px],
                            heading,
                            cell_size as int,
                            max_dist as int,
                        ),
                        py,
                        fb.h(),
                        cell_size as int,
                    ),
        decreases w - x,
    {
        let ray = rays[x];
        let hit = cast_ray(
            grid, player.pos_x, player.pos_y, ray, heading, cell_size, max_dist);
        proof {
            assert(hit == column_hit(
                *grid,
                player.pos_x as int,
                player.pos_y as int,
                rays@[x as int],
                heading,
                cell_size as int,
                max_dist as int,
            ));
        }
        render_column(fb, x, &hit, tex, cell_size);
        x = x + 1;
    }
}

/// Title screen: clear the frame, then stretch one of the two
/// alternating banners over it; any other screen index leaves the
/// frame cleared.
pub fn startpage(fb: &mut Framebuffer, screen: usize, tex: &GameTextures)
    requires
        old(fb).wf(),
        tex.wf(),
    ensures
        final(fb).wf(),
        final(fb).w() == old(fb).w(),
        final(fb).h() == old(fb).h(),
        screen == 0 ==> forall|x: int, y: int|
            0 <= x < final(fb).w() && 0 <= y < final(fb).h()
                ==> #[trigger] final(fb).pixel(x, y) == tex.start1_img().pixel(
                    x * tex.start1_img().w() / final(fb).w(),
                    y * tex.start1_img().h() / final(fb).h(),
                ),
        screen == 1 ==> forall|x: int, y: int|
            0 <= x < final(fb).w() && 0 <= y < final(fb).h()
                ==> #[trigger] final(fb).pixel(x, y) == tex.start2_img().pixel(
                    x * tex.start2_img().w() / final(fb).w(),
                    y * tex.start2_img().h() / final(fb).h(),
                ),
        screen >= 2 ==> forall|x: int, y: int|
            0 <= x < final(fb).w() && 0 <= y < final(fb).h()
                ==> #[trigger] final(fb).pixel(x, y) == BACKGROUND,
{
    fb.clear();
    if screen == 0 {
        let img = tex.start_banner(0);
        fb.draw_image(img);
    } else if screen == 1 {
        let img = tex.start_banner(1);
        fb.draw_image(img);
    }
}

/// Minimap fill for a blocking cell.
pub const MM_WALL: u32 = 0xFF8B_0000;

/// Minimap fill for a passable cell.
pub const MM_OPEN: u32 = 0xFFD3_D3D3;

/// Minimap player marker.
pub const MM_PLAYER: u32 = 0xFFFF_FF00;

/// Minimap ray overlay color.
pub const MM_RAY: u32 = 0xFFFF_0000;

pub open spec fn mm_cell_color(c: crate::maze::Cell) -> u32 {
    if c.is_wall() {
        MM_WALL
    } else {
        MM_OPEN
    }
}

/// Left pixel edge of minimap cell column `c` at `scale` pixels per cell.
pub open spec fn cell_rect_x(ox: int, c: int, scale: int) -> int {
    ox + c * scale
}

/// Top pixel edge of minimap cell row `r` at `scale` pixels per cell.
pub open spec fn cell_rect_y(oy: int, r: int, scale: int) -> int {
    oy + r * scale
}

/// Minimap projection is a pure affine scale: doubling the scale
/// factor exactly doubles each cell's offset from the minimap origin,
/// and the block edge length (`scale` itself) doubles with it, so each
/// drawn cell's pixel footprint doubles in both directions.
pub proof fn lemma_minimap_scale_affine(ox: int, oy: int, r: int, c: int, scale: int)
    ensures
        cell_rect_x(ox, c, 2 * scale) - ox == 2 * (cell_rect_x(ox, c, scale) - ox),
        cell_rect_y(oy, r, 2 * scale) - oy == 2 * (cell_rect_y(oy, r, scale) - oy),
{
    assert(c * (2 * scale) == 2 * (c * scale)) by (nonlinear_arith);
    assert(r * (2 * scale) == 2 * (r * scale)) by (nonlinear_arith);
}

/// Every pixel offset inside cell `c`'s block maps back to `c`: the
/// painted footprint of a cell is exactly `[c * scale, (c+1) * scale)`.
pub proof fn lemma_minimap_block(c: int, scale: int, dx: int)
    requires
        scale > 0,
        0 <= c,
        c * scale <= dx < (c + 1) * scale,
    ensures
        dx / scale == c,
{
    assert((c + 1) * scale == c * scale + scale) by (nonlinear_arith);
    vstd::arithmetic::div_mod::lemma_fundamental_div_mod_converse(
        dx, scale, c, dx - c * scale);
}

/// X pixel of the minimap image of the ray sample at depth `d`.
pub open spec fn ray_px(ox: int, x0: int, ray: Dir, cell: int, scale: int, d: int) -> int {
    ox + crate::castray::ray_x(x0, ray, d) * scale / (ONE * cell)
}

/// Y pixel of the minimap image of the ray sample at depth `d`.
pub open spec fn ray_py(oy: int, y0: int, ray: Dir, cell: int, scale: int, d: int) -> int {
    oy + crate::castray::ray_y(y0, ray, d) * scale / (ONE * cell)
}

/// The minimap pixel for the ray sample at depth `d` lies on screen
/// and carries the ray overlay color.
pub open spec fn ray_pixel_marked(
    fb: Framebuffer,
    ox: int,
    oy: int,
    x0: int,
    y0: int,
    ray: Dir,
    cell: int,
    scale: int,
    d: int,
) -> bool {
    let qx = ray_px(ox, x0, ray, cell, scale, d);
    let qy = ray_py(oy, y0, ray, cell, scale, d);
    &&& 0 <= qx < fb.w()
    &&& 0 <= qy < fb.h()
    &&& fb.pixel(qx, qy) == MM_RAY
}

/// Draws the ray's path onto the minimap, one overlay pixel per unit
/// step, stopping at the wall the ray hits (or where it leaves the
/// grid or runs out).  Writes nothing but the overlay color.
pub fn cast_ray_minimap(
    fb: &mut Framebuffer,
    grid: &MazeGrid,
    x0: i64,
    y0: i64,
    ray: Dir,
    cell_size: u32,
    max_dist: i64,
    ox: usize,
    oy: usize,
    scale: usize,
)
    requires
        old(fb).wf(),
        grid.wf(),
        ray.in_range(),
        0 <= x0 <= POS_LIMIT,
        0 <= y0 <= POS_LIMIT,
        0 < cell_size <= 0x10000,
        0 <= max_dist <= MAX_TRACE,
        1 <= scale,
        ox + grid.cols_len() * scale <= old(fb).w(),
        oy + grid.rows_len() * scale <= old(fb).h(),
    ensures
        final(fb).wf(),
        final(fb).w() == old(fb).w(),
        final(fb).h() == old(fb).h(),
        forall|x: int, y: int|
            0 <= x < final(fb).w() && 0 <= y < final(fb).h()
                ==> #[trigger] final(fb).pixel(x, y) == old(fb).pixel(x, y)
                    || final(fb).pixel(x, y) == MM_RAY,
        forall|x: int, y: int|
            0 <= x < final(fb).w() && 0 <= y < final(fb).h()
                && !(ox <= x < ox + grid.cols_len() * scale
                    && oy <= y < oy + grid.rows_len() * scale)
                ==> #[trigger] final(fb).pixel(x, y) == old(fb).pixel(x, y),
        match crate::castray::ray_outcome(
            *grid, x0 as int, y0 as int, ray, cell_size as int, max_dist as int,
        ) {
            Some(dh) => forall|e: int| 0 <= e < dh ==> #[trigger] ray_pixel_marked(
                *final(fb), ox as int, oy as int, x0 as int, y0 as int, ray,
                cell_size as int, scale as int, e,
            ),
            None => true,
        },
{
    let w = fb.width();
    let h = fb.height();
    let rows = grid.n_rows();
    let cols = grid.n_cols();
    proof {
        assert((ONE as int) * (cell_size as int) <= 0x400_0000) by (nonlinear_arith)
            requires 0 < cell_size as int <= 0x10000;
    }
    let den: u64 = (ONE as u64) * (cell_size as u64);
    let ghost gx0 = x0 as int;
    let ghost gy0 = y0 as int;
    let ghost gcell = cell_size as int;
    let ghost gmax = max_dist as int;
    let mut d: i64 = 0;
    loop
        invariant
            fb.wf(),
            grid.wf(),
            fb.w() == old(fb).w(),
            fb.h() == old(fb).h(),
            w == fb.w() && h == fb.h(),
            ray.in_range(),
            0 <= gx0 <= POS_LIMIT,
            0 <= gy0 <= POS_LIMIT,
            0 <= gmax <= MAX_TRACE,
            gx0 == x0 as int && gy0 == y0 as int && gcell == cell_size as int
                && gmax == max_dist as int,
            0 < cell_size <= 0x10000,
            den == ONE * gcell,
            1 <= scale,
            rows == grid.rows_len() && cols == grid.cols_len(),
            ox + cols * scale <= w,
            oy + rows * scale <= h,
            0 <= d <= gmax + 1,
            crate::castray::ray_outcome(*grid, gx0, gy0, ray, gcell, gmax)
                == crate::castray::ray_outcome_from(*grid, gx0, gy0, ray, gcell, d as int, gmax),
            forall|x: int, y: int|
                0 <= x < w && 0 <= y < h ==> #[trigger] fb.pixel(x, y) == old(fb).pixel(x, y)
                    || fb.pixel(x, y) == MM_RAY,
            forall|x: int, y: int|
                0 <= x < w && 0 <= y < h
                    && !(ox <= x < ox + cols * scale && oy <= y < oy + rows * scale)
                    ==> #[trigger] fb.pixel(x, y) == old(fb).pixel(x, y),
            forall|e: int| 0 <= e < d ==> #[trigger] ray_pixel_marked(
                *fb, ox as int, oy as int, gx0, gy0, ray, gcell, scale as int, e,
            ),
        decreases gmax + 1 - d,
    {
        if d > max_dist {
            return ;
        }
        proof {
            assert(-((MAX_TRACE as int) * (ONE as int)) <= d as int * (ray.x as int)
                <= (MAX_TRACE as int) * (ONE as int)) by (nonlinear_arith)
                requires
                    0 <= d as int <= MAX_TRACE as int,
                    -(ONE as int) <= ray.x as int <= ONE as int;
            assert(-((MAX_TRACE as int) * (ONE as int)) <= d as int * (ray.y as int)
                <= (MAX_TRACE as int) * (ONE as int)) by (nonlinear_arith)
                requires
                    0 <= d as int <= MAX_TRACE as int,
                    -(ONE as int) <= ray.y as int <= ONE as int;
        }
        let xs: i64 = x0 * (ONE as i64) + d * (ray.x as i64);
        let ys: i64 = y0 * (ONE as i64) + d * (ray.y as i64);
        proof {
            assert(xs == crate::castray::ray_x(gx0, ray, d as int));
            assert(ys == crate::castray::ray_y(gy0, ray, d as int));
        }
        if xs < 0 || ys < 0 {
            return ;
        }
        let col_w: u64 = (xs as u64) / den;
        let row_w: u64 = (ys as u64) / den;
        proof {
            assert(col_w == crate::castray::ray_col(gx0, ray, gcell, d as int));
            assert(row_w == crate::castray::ray_row(gy0, ray, gcell, d as int));
        }
        if row_w >= rows as u64 || col_w >= cols as u64 {
            return ;
        }
        let here = match grid.cell_at(row_w as usize, col_w as usize) {
            Ok(c) => c,
            Err(_) => {
                proof {
                    assert(false);
                }
                crate::maze::Cell::Open
            },
        };
        if here.is_wall_cell() {
            proof {
                assert(crate::castray::ray_wall(*grid, gx0, gy0, ray, gcell, d as int));
            }
            return ;
        }
        proof {
            assert(!crate::castray::ray_off(*grid, gx0, gy0, ray, gcell, d as int));
            assert(!crate::castray::ray_wall(*grid, gx0, gy0, ray, gcell, d as int));
            assert(crate::castray::ray_outcome_from(*grid, gx0, gy0, ray, gcell, d as int, gmax)
                == crate::castray::ray_outcome_from(
                    *grid, gx0, gy0, ray, gcell, d as int + 1, gmax));
            vstd::arithmetic::div_mod::lemma_fundamental_div_mod(xs as int, den as int);
            assert((xs as int) < (den as int) * (cols as int)) by (nonlinear_arith)
                requires
                    (den as int) > 0,
                    (den as int) * (col_w as int) + (xs as int) % (den as int) == xs as int,
                    0 <= (xs as int) % (den as int) < den as int,
                    (col_w as int) < cols as int;
            vstd::arithmetic::div_mod::lemma_fundamental_div_mod(ys as int, den as int);
            assert((ys as int) < (den as int) * (rows as int)) by (nonlinear_arith)
                requires
                    (den as int) > 0,
                    (den as int) * (row_w as int) + (ys as int) % (den as int) == ys as int,
                    0 <= (ys as int) % (den as int) < den as int,
                    (row_w as int) < rows as int;
            assert((xs as int) * (scale as int) < (den as int) * (cols as int * scale as int))
                by (nonlinear_arith)
                requires
                    0 <= xs as int,
                    (xs as int) < (den as int) * (cols as int),
                    1 <= scale as int,
                    0 < den as int;
            assert((ys as int) * (scale as int) < (den as int) * (rows as int * scale as int))
                by (nonlinear_arith)
                requires
                    0 <= ys as int,
                    (ys as int) < (den as int) * (rows as int),
                    1 <= scale as int,
                    0 < den as int;
            crate::fixed::lemma_div_strict_bound(
                (xs as int) * (scale as int), den as int, cols as int * scale as int);
            crate::fixed::lemma_div_strict_bound(
                (ys as int) * (scale as int), den as int, rows as int * scale as int);
            assert(scale as int <= cols as int * scale as int) by (nonlinear_arith)
                requires 1 <= cols as int && 0 <= scale as int;
            assert((xs as int) * (scale as int) <= 0x8000_0000_0000 * 0x1000)
                by (nonlinear_arith)
                requires 0 <= xs as int <= 0x8000_0000_0000 && 0 <= scale as int <= 0x1000;
            assert((ys as int) * (scale as int) <= 0x8000_0000_0000 * 0x1000)
                by (nonlinear_arith)
                requires 0 <= ys as int <= 0x8000_0000_0000 && 0 <= scale as int <= 0x1000;
        }
        let pxo: usize = (((xs as u64) * (scale as u64)) / den) as usize;
        let pyo: usize = (((ys as u64) * (scale as u64)) / den) as usize;
        let ghost prev = *fb;
        fb.point(ox + pxo, oy + pyo, MM_RAY);
        proof {
            assert forall|x: int, y: int|
                0 <= x < w && 0 <= y < h
                    && !(x == ox + pxo && y == oy + pyo)
                    implies #[trigger] fb.pixel(x, y) == prev.pixel(x, y) by {
                lemma_pixel_index_in_range(w as int, h as int, x, y);
                lemma_pixel_index_in_range(w as int, h as int, ox + pxo as int, oy + pyo as int);
                if pixel_index(w as int, x, y)
                    == pixel_index(w as int, ox + pxo as int, oy + pyo as int) {
                    lemma_pixel_index_injective(
                        w as int, x, y, ox + pxo as int, oy + pyo as int);
                }
            }
            assert(fb.pixel(ox + pxo as int, oy + pyo as int) == MM_RAY) by {
                lemma_pixel_index_in_range(w as int, h as int, ox + pxo as int, oy + pyo as int);
            }
            assert(ray_pixel_marked(
                *fb, ox as int, oy as int, gx0, gy0, ray, gcell, scale as int, d as int));
            assert forall|e: int| 0 <= e < d as int + 1 implies #[trigger] ray_pixel_marked(
                *fb, ox as int, oy as int, gx0, gy0, ray, gcell, scale as int, e,
            ) by {
                if e < d as int {
                    assert(ray_pixel_marked(
                        prev, ox as int, oy as int, gx0, gy0, ray, gcell, scale as int, e));
                }
            }
        }
        d = d + 1;
    }
}

/// X pixel of the player marker.
pub open spec fn marker_x(ox: int, pos_x: int, scale: int, cell: int) -> int {
    ox + pos_x * scale / cell
}

/// Y pixel of the player marker.
pub open spec fn marker_y(oy: int, pos_y: int, scale: int, cell: int) -> int {
    oy + pos_y * scale / cell
}

/// Paints the top-down minimap: one `scale`-sized block per grid cell,
/// blocking cells in a distinct fill, and the player's scaled position
/// as a marker on top.  Pixels outside the minimap region are left
/// untouched.
pub fn render_minimap(
    fb: &mut Framebuffer,
    player: &Player,
    grid: &MazeGrid,
    ox: usize,
    oy: usize,
    scale: usize,
    cell_size: u32,
)
    requires
        old(fb).wf(),
        grid.wf(),
        1 <= scale,
        0 < cell_size <= 0x10000,
        ox + grid.cols_len() * scale <= old(fb).w(),
        oy + grid.rows_len() * scale <= old(fb).h(),
        0 <= player.pos_x < grid.cols_len() * cell_size,
        0 <= player.pos_y < grid.rows_len() * cell_size,
    ensures
        final(fb).wf(),
        final(fb).w() == old(fb).w(),
        final(fb).h() == old(fb).h(),
        forall|dx: int, dy: int|
            0 <= dx < grid.cols_len() * scale && 0 <= dy < grid.rows_len() * scale
                ==> #[trigger] final(fb).pixel(ox + dx, oy + dy) == if ox + dx == marker_x(
                    ox as int, player.pos_x as int, scale as int, cell_size as int,
                ) && oy + dy == marker_y(
                    oy as int, player.pos_y as int, scale as int, cell_size as int,
                ) {
                    MM_PLAYER
                } else {
                    mm_cell_color(grid.cell(dy / (scale as int), dx / (scale as int)))
                },
        forall|x: int, y: int|
            0 <= x < final(fb).w() && 0 <= y < final(fb).h()
                && !(ox <= x < ox + grid.cols_len() * scale
                    && oy <= y < oy + grid.rows_len() * scale)
                ==> #[trigger] final(fb).pixel(x, y) == old(fb).pixel(x, y),
{
    let w = fb.width();
    let h = fb.height();
    let rows = grid.n_rows();
    let cols = grid.n_cols();
    let rh: usize = rows * scale;
    let cw: usize = cols * scale;
    let mut dy: usize = 0;
    while dy < rh
        invariant
            fb.wf(),
            grid.wf(),
            fb.w() == old(fb).w(),
            fb.h() == old(fb).h(),
            w == fb.w() && h == fb.h(),
            1 <= scale,
            rows == grid.rows_len() && cols == grid.cols_len(),
            rh == rows * scale && cw == cols * scale,
            ox + cw <= w,
            oy + rh <= h,
            dy <= rh,
            forall|px: int, py: int|
                0 <= px < cw && 0 <= py < dy
                    ==> #[trigger] fb.pixel(ox + px, oy + py)
                        == mm_cell_color(grid.cell(py / (scale as int), px / (scale as int))),
            forall|x: int, y: int|
                0 <= x < w && 0 <= y < h && !(ox <= x < ox + cw && oy <= y < oy + rh)
                    ==> #[trigger] fb.pixel(x, y) == old(fb).pixel(x, y),
        decreases rh - dy,
    {
        let r: usize = dy / scale;
        proof {
            crate::fixed::lemma_div_strict_bound(dy as int, scale as int, rows as int);
            assert((dy as int) < (scale as int) * (rows as int)) by (nonlinear_arith)
                requires
                    (dy as int) < (rows as int) * (scale as int);
        }
        let mut dx: usize = 0;
        while dx < cw
            invariant
                fb.wf(),
                grid.wf(),
                fb.w() == old(fb).w(),
                fb.h() == old(fb).h(),
                w == fb.w() && h == fb.h(),
                1 <= scale,
                rows == grid.rows_len() && cols == grid.cols_len(),
                rh == rows * scale && cw == cols * scale,
                ox + cw <= w,
                oy + rh <= h,
                dy < rh,
                dx <= cw,
                r == dy as int / (scale as int),
                0 <= r < rows,
                forall|px: int, py: int|
                    0 <= px < cw && 0 <= py < dy
                        ==> #[trigger] fb.pixel(ox + px, oy + py)
                            == mm_cell_color(grid.cell(py / (scale as int), px / (scale as int))),
                forall|px: int| 0 <= px < dx ==> #[trigger] fb.pixel(ox + px, oy + dy)
                    == mm_cell_color(grid.cell(dy as int / (scale as int), px / (scale as int))),
                forall|x: int, y: int|
                    0 <= x < w && 0 <= y < h && !(ox <= x < ox + cw && oy <= y < oy + rh)
                        ==> #[trigger] fb.pixel(x, y) == old(fb).pixel(x, y),
            decreases cw - dx,
        {
            let c: usize = dx / scale;
            proof {
                crate::fixed::lemma_div_strict_bound(dx as int, scale as int, cols as int);
                assert((dx as int) < (scale as int) * (cols as int)) by (nonlinear_arith)
                    requires
                        (dx as int) < (cols as int) * (scale as int);
            }
            let cellv = match grid.cell_at(r, c) {
                Ok(cc) => cc,
                Err(_) => {
                    proof {
                        assert(false);
                    }
                    crate::maze::Cell::Open
                },
            };
            let color = if cellv.is_wall_cell() {
                MM_WALL
            } else {
                MM_OPEN
            };
            let ghost prev = *fb;
            fb.point(ox + dx, oy + dy, color);
            proof {
                assert forall|px2: int, py2: int|
                    0 <= px2 < w && 0 <= py2 < h
                        && !(px2 == ox + dx && py2 == oy + dy)
                        implies #[trigger] fb.pixel(px2, py2) == prev.pixel(px2, py2) by {
                    lemma_pixel_index_in_range(w as int, h as int, px2, py2);
                    lemma_pixel_index_in_range(
                        w as int, h as int, ox + dx as int, oy + dy as int);
                    if pixel_index(w as int, px2, py2)
                        == pixel_index(w as int, ox + dx as int, oy + dy as int) {
                        lemma_pixel_index_injective(
                            w as int, px2, py2, ox + dx as int, oy + dy as int);
                    }
                }
                assert(fb.pixel(ox + dx as int, oy + dy as int) == color) by {
                    lemma_pixel_index_in_range(
                        w as int, h as int, ox + dx as int, oy + dy as int);
                }
                assert(color == mm_cell_color(
                    grid.cell(dy as int / (scale as int), dx as int / (scale as int))));
            }
            dx = dx + 1;
        }
        dy = dy + 1;
    }
    proof {
        assert((player.pos_x as int) * (scale as int)
            < (cell_size as int) * (cols as int * scale as int)) by (nonlinear_arith)
            requires
                0 <= player.pos_x as int,
                (player.pos_x as int) < (cols as int) * (cell_size as int),
                1 <= scale as int,
                0 < cell_size as int;
        crate::fixed::lemma_div_strict_bound(
            (player.pos_x as int) * (scale as int),
            cell_size as int,
            cols as int * scale as int,
        );
        assert((player.pos_y as int) * (scale as int)
            < (cell_size as int) * (rows as int * scale as int)) by (nonlinear_arith)
            requires
                0 <= player.pos_y as int,
                (player.pos_y as int) < (rows as int) * (cell_size as int),
                1 <= scale as int,
                0 < cell_size as int;
        crate::fixed::lemma_div_strict_bound(
            (player.pos_y as int) * (scale as int),
            cell_size as int,
            rows as int * scale as int,
        );
    }
    proof {
        assert((player.pos_x as int) * (scale as int) < 0x1000_0000) by (nonlinear_arith)
            requires
                (player.pos_x as int) * (scale as int)
                    < (cell_size as int) * (cols as int * scale as int),
                0 < cell_size as int <= 0x10000,
                0 <= cols as int * scale as int <= 4096;
        assert((player.pos_y as int) * (scale as int) < 0x1000_0000) by (nonlinear_arith)
            requires
                (player.pos_y as int) * (scale as int)
                    < (cell_size as int) * (rows as int * scale as int),
                0 < cell_size as int <= 0x10000,
                0 <= rows as int * scale as int <= 4096;
    }
    let mxo: usize = (((player.pos_x as u64) * (scale as u64)) / (cell_size as u64)) as usize;
    let myo: usize = (((player.pos_y as u64) * (scale as u64)) / (cell_size as u64)) as usize;
    let ghost prev = *fb;
    fb.point(ox + mxo, oy + myo, MM_PLAYER);
    proof {
        assert forall|px2: int, py2: int|
            0 <= px2 < w && 0 <= py2 < h
                && !(px2 == ox + mxo && py2 == oy + myo)
                implies #[trigger] fb.pixel(px2, py2) == prev.pixel(px2, py2) by {
            lemma_pixel_index_in_range(w as int, h as int, px2, py2);
            lemma_pixel_index_in_range(w as int, h as int, ox + mxo as int, oy + myo as int);
            if pixel_index(w as int, px2, py2)
                == pixel_index(w as int, ox + mxo as int, oy + myo as int) {
                lemma_pixel_index_injective(
                    w as int, px2, py2, ox + mxo as int, oy + myo as int);
            }
        }
        assert(fb.pixel(ox + mxo as int, oy + myo as int) == MM_PLAYER) by {
            lemma_pixel_index_in_range(w as int, h as int, ox + mxo as int, oy + myo as int);
        }
    }
}

} // verus!
