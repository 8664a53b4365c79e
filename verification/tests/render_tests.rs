use mazecast::castray::cast_ray;
use mazecast::fixed::{Dir, ONE};
use mazecast::framebuffer::{BACKGROUND, Framebuffer, rgb_to_u32};
use mazecast::maze::{Cell, MazeGrid};
use mazecast::player::Player;
use mazecast::render::{MM_OPEN, MM_PLAYER, MM_RAY, MM_WALL, apply_shade, cast_ray_minimap,
    render3d, render_minimap, shade_factor, startpage, wall_slice_height};
use mazecast::textures::{GameTextures, Image};

fn pixel(fb: &Framebuffer, x: usize, y: usize) -> u32 {
    fb.data()[y * fb.width() + x]
}

fn solid_image(w: usize, h: usize, c: u32) -> Image {
    Image::new(w, h, vec![c; w * h])
}

fn open_interior_5x5() -> MazeGrid {
    let mut rows: Vec<Vec<Cell>> = Vec::new();
    for r in 0..5 {
        let mut row: Vec<Cell> = Vec::new();
        for c in 0..5 {
            if r == 0 || r == 4 || c == 0 || c == 4 {
                row.push(Cell::Wall(0));
            } else if r == 1 && c == 1 {
                row.push(Cell::Start);
            } else if r == 3 && c == 3 {
                row.push(Cell::Goal);
            } else {
                row.push(Cell::Open);
            }
        }
        rows.push(row);
    }
    MazeGrid::new(rows, 1).unwrap()
}

#[test]
fn rgb_packs_exactly() {
    assert_eq!(rgb_to_u32(255, 128, 64), 0xFFFF8040);
    assert_eq!(rgb_to_u32(0, 0, 0), 0xFF000000);
}

#[test]
fn shade_factor_steps_down_and_clamps() {
    assert_eq!(shade_factor(0), 256);
    assert_eq!(shade_factor(7), 256);
    assert_eq!(shade_factor(8), 255);
    assert_eq!(shade_factor(80), 246);
    assert_eq!(shade_factor(8 * 192), 64);
    assert_eq!(shade_factor(1_000_000), 64);
}

#[test]
fn apply_shade_halves_channels_at_half_factor() {
    assert_eq!(apply_shade(0xFF804020, 128), 0xFF402010);
    assert_eq!(apply_shade(0xFFFFFFFF, 256), 0xFFFFFFFF);
}

#[test]
fn slice_height_is_inverse_in_distance() {
    // screen 400 pixels, cell 100: heights at distances 200/400/800
    let h200 = wall_slice_height(400, 100, 200);
    let h400 = wall_slice_height(400, 100, 400);
    let h800 = wall_slice_height(400, 100, 800);
    assert_eq!(h200, 200);
    assert_eq!(h400, 100);
    assert_eq!(h800, 50);
    // k = 2 and k = 4 quarter, k = 0.5 doubles
    assert_eq!(h400 * 2, h200);
    assert_eq!(h800 * 4, h200);
    // clamped to the screen height up close
    assert_eq!(wall_slice_height(400, 100, 50), 400);
    assert_eq!(wall_slice_height(400, 100, 0), 400);
}

#[test]
fn render3d_paints_full_shaded_wall_up_close() {
    let mut rows: Vec<Vec<Cell>> = Vec::new();
    rows.push(vec![Cell::Wall(0), Cell::Wall(0), Cell::Wall(0)]);
    rows.push(vec![Cell::Wall(0), Cell::Start, Cell::Wall(0)]);
    rows.push(vec![Cell::Wall(0), Cell::Goal, Cell::Wall(0)]);
    let g = MazeGrid::new(rows, 1).unwrap();
    let tex = GameTextures::new(
        vec![solid_image(1, 1, 0xFFFFFFFF)],
        solid_image(1, 1, 0xFF000000),
        solid_image(1, 1, 0xFF000000),
    );
    let mut fb = Framebuffer::new(4, 4);
    let east = Dir { x: ONE, y: 0 };
    let p = Player { pos_x: 150, pos_y: 150, a: 0, fov: 10923 };
    let rays = vec![east; 4];
    render3d(&mut fb, &p, &g, &tex, &rays, east, 100, 1000);
    // hit at corrected distance 50: slice fills the screen, factor 250,
    // white texel shaded to 249 per channel
    for y in 0..4 {
        for x in 0..4 {
            assert_eq!(pixel(&fb, x, y), 0xFFF9F9F9);
        }
    }
    let hit = cast_ray(&g, 150, 150, east, east, 100, 1000).unwrap();
    assert_eq!(hit.distance, 50);
}

#[test]
fn startpage_stretches_selected_banner() {
    let banner1 = Image::new(2, 2, vec![0xFF000001, 0xFF000002, 0xFF000003, 0xFF000004]);
    let banner2 = solid_image(1, 1, 0xFF0000AA);
    let tex = GameTextures::new(vec![solid_image(1, 1, 0xFFFFFFFF)], banner1, banner2);
    let mut fb = Framebuffer::new(4, 4);
    startpage(&mut fb, 0, &tex);
    assert_eq!(pixel(&fb, 0, 0), 0xFF000001);
    assert_eq!(pixel(&fb, 3, 0), 0xFF000002);
    assert_eq!(pixel(&fb, 0, 3), 0xFF000003);
    assert_eq!(pixel(&fb, 3, 3), 0xFF000004);
    startpage(&mut fb, 1, &tex);
    assert_eq!(pixel(&fb, 2, 2), 0xFF0000AA);
    startpage(&mut fb, 2, &tex);
    for y in 0..4 {
        for x in 0..4 {
            assert_eq!(pixel(&fb, x, y), BACKGROUND);
        }
    }
}

#[test]
fn minimap_draws_cells_and_marker() {
    let mut rows: Vec<Vec<Cell>> = Vec::new();
    rows.push(vec![Cell::Start, Cell::Goal]);
    rows.push(vec![Cell::Wall(0), Cell::Open]);
    let g = MazeGrid::new(rows, 1).unwrap();
    let mut fb = Framebuffer::new(10, 10);
    let p = Player { pos_x: 50, pos_y: 50, a: 0, fov: 10923 };
    render_minimap(&mut fb, &p, &g, 0, 0, 2, 100);
    assert_eq!(pixel(&fb, 0, 0), MM_OPEN);
    assert_eq!(pixel(&fb, 1, 1), MM_PLAYER);
    assert_eq!(pixel(&fb, 2, 0), MM_OPEN);
    assert_eq!(pixel(&fb, 0, 2), MM_WALL);
    assert_eq!(pixel(&fb, 1, 3), MM_WALL);
    assert_eq!(pixel(&fb, 3, 3), MM_OPEN);
    assert_eq!(pixel(&fb, 9, 9), BACKGROUND);
}

#[test]
fn minimap_doubling_scale_doubles_footprint() {
    let mut rows: Vec<Vec<Cell>> = Vec::new();
    rows.push(vec![Cell::Start, Cell::Goal]);
    rows.push(vec![Cell::Wall(0), Cell::Open]);
    let g = MazeGrid::new(rows, 1).unwrap();
    let p = Player { pos_x: 150, pos_y: 50, a: 0, fov: 10923 };

    let mut small = Framebuffer::new(10, 10);
    render_minimap(&mut small, &p, &g, 0, 0, 2, 100);
    // at scale 2 the wall cell (1,0) covers x 0..2, y 2..4
    assert_eq!(pixel(&small, 0, 2), MM_WALL);
    assert_eq!(pixel(&small, 1, 3), MM_WALL);
    assert_eq!(pixel(&small, 2, 2), MM_OPEN);

    let mut big = Framebuffer::new(10, 10);
    render_minimap(&mut big, &p, &g, 0, 0, 4, 100);
    // at scale 4 the same cell covers x 0..4, y 4..8: both directions doubled
    assert_eq!(pixel(&big, 0, 4), MM_WALL);
    assert_eq!(pixel(&big, 3, 7), MM_WALL);
    assert_eq!(pixel(&big, 4, 4), MM_OPEN);
    assert_eq!(pixel(&big, 0, 3), MM_OPEN);
}

#[test]
fn minimap_ray_overlay_marks_path() {
    let g = open_interior_5x5();
    let mut fb = Framebuffer::new(12, 12);
    let east = Dir { x: ONE, y: 0 };
    cast_ray_minimap(&mut fb, &g, 100, 150, east, 100, 100_000, 0, 0, 2);
    assert_eq!(pixel(&fb, 2, 3), MM_RAY);
    assert_eq!(pixel(&fb, 7, 3), MM_RAY);
    assert_eq!(pixel(&fb, 0, 0), BACKGROUND);
    // nothing is written outside the minimap region
    assert_eq!(pixel(&fb, 11, 11), BACKGROUND);
    assert_eq!(pixel(&fb, 10, 3), BACKGROUND);
}
