use mazecast::castray::{Side, cast_ray, ray_angle};
use mazecast::fixed::{Dir, ONE};
use mazecast::maze::{Cell, MazeGrid};

fn open_interior_5x5() -> MazeGrid {
    let mut rows: Vec<Vec<Cell>> = Vec::new();
    for r in 0..5 {
        let mut row: Vec<Cell> = Vec::new();
        for c in 0..5 {
            if r == 0 || r == 4 || c == 0 || c == 4 {
                row.push(Cell::Wall(0));
            } else if r == 1 && c == 1 {
                row.push(Cell::Start);
            } else if r == 3 && c == 3 {
                row.push(Cell::Goal);
            } else {
                row.push(Cell::Open);
            }
        }
        rows.push(row);
    }
    MazeGrid::new(rows, 1).unwrap()
}

#[test]
fn axis_ray_hits_at_grid_aligned_distance() {
    let g = open_interior_5x5();
    // from the west edge of cell (1,1), three free cells to the wall at
    // column 4: corrected distance is exactly 3 * cell_size, and the
    // fisheye factor against an identical heading is exactly one
    let east = Dir { x: ONE, y: 0 };
    let hit = cast_ray(&g, 100, 150, east, east, 100, 100_000).unwrap();
    assert_eq!(hit.distance, 300);
    assert_eq!(hit.variant, 0);
    assert_eq!(hit.side, Side::Vertical);
    // struck halfway up the wall face: offset fraction 1/2
    assert_eq!(hit.tex_num, 51_200);
    assert_eq!(51_200 * 2, 1024 * 100);
}

#[test]
fn corridor_far_wall_and_side_wall_flags() {
    let g = open_interior_5x5();
    // straight down the row-1 corridor: far wall is a vertical face
    let east = Dir { x: ONE, y: 0 };
    let far = cast_ray(&g, 100, 150, east, east, 100, 100_000).unwrap();
    assert_eq!(far.distance, 300);
    assert_eq!(far.side, Side::Vertical);
    // straight down the column-1 corridor: far wall is a horizontal face
    let south = Dir { x: 0, y: ONE };
    let side = cast_ray(&g, 150, 100, south, south, 100, 100_000).unwrap();
    assert_eq!(side.distance, 300);
    assert_eq!(side.side, Side::Horizontal);
}

#[test]
fn ray_with_no_hit_within_budget_returns_none() {
    let g = open_interior_5x5();
    let east = Dir { x: ONE, y: 0 };
    assert!(cast_ray(&g, 100, 150, east, east, 100, 10).is_none());
}

#[test]
fn ray_leaving_grid_returns_none() {
    let mut rows: Vec<Vec<Cell>> = Vec::new();
    rows.push(vec![Cell::Start, Cell::Goal]);
    rows.push(vec![Cell::Open, Cell::Open]);
    let g = MazeGrid::new(rows, 0).unwrap();
    let west = Dir { x: -ONE, y: 0 };
    assert!(cast_ray(&g, 50, 50, west, west, 100, 100_000).is_none());
}

#[test]
fn fisheye_correction_scales_by_cosine() {
    let g = open_interior_5x5();
    let east = Dir { x: ONE, y: 0 };
    // heading 45 degrees off the ray: dot = 724 * 1024, so the
    // corrected distance is 300 * 741376 / 1048576 = 212
    let heading = Dir { x: 724, y: 724 };
    let hit = cast_ray(&g, 100, 150, east, heading, 100, 100_000).unwrap();
    assert_eq!(hit.distance, 212);
}

#[test]
fn ray_angle_sweeps_fov_linearly() {
    assert_eq!(ray_angle(0, 60, 0, 60), -30);
    assert_eq!(ray_angle(0, 60, 30, 60), 0);
    assert_eq!(ray_angle(0, 60, 59, 60), 29);
    assert_eq!(ray_angle(1000, 64, 16, 64), 1000 - 32 + 16);
}
