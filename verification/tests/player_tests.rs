use mazecast::fixed::{Dir, ONE};
use mazecast::maze::{Cell, MazeGrid};
use mazecast::player::Player;

fn open_interior_5x5() -> MazeGrid {
    let mut rows: Vec<Vec<Cell>> = Vec::new();
    for r in 0..5 {
        let mut row: Vec<Cell> = Vec::new();
        for c in 0..5 {
            if r == 0 || r == 4 || c == 0 || c == 4 {
                row.push(Cell::Wall(0));
            } else if r == 1 && c == 1 {
                row.push(Cell::Start);
            } else if r == 3 && c == 3 {
                row.push(Cell::Goal);
            } else {
                row.push(Cell::Open);
            }
        }
        rows.push(row);
    }
    MazeGrid::new(rows, 1).unwrap()
}

#[test]
fn move_forward_steps_along_heading() {
    let g = open_interior_5x5();
    let mut p = Player { pos_x: 150, pos_y: 150, a: 0, fov: 10923 };
    p.move_forward(5, Dir { x: ONE, y: 0 }, &g, 100);
    assert_eq!(p.pos_x, 155);
    assert_eq!(p.pos_y, 150);
}

#[test]
fn move_forward_truncates_diagonal_step() {
    let g = open_interior_5x5();
    let mut p = Player { pos_x: 150, pos_y: 150, a: 0, fov: 10923 };
    // 10 * 724 / 1024 = 7 (truncated toward zero)
    p.move_forward(10, Dir { x: 724, y: 724 }, &g, 100);
    assert_eq!(p.pos_x, 157);
    assert_eq!(p.pos_y, 157);
}

#[test]
fn move_into_wall_leaves_position_unchanged() {
    let g = open_interior_5x5();
    // one step from the east wall: candidate cell is Wall, move cancelled
    let mut p = Player { pos_x: 395, pos_y: 150, a: 0, fov: 10923 };
    p.move_forward(10, Dir { x: ONE, y: 0 }, &g, 100);
    assert_eq!(p.pos_x, 395);
    assert_eq!(p.pos_y, 150);
    // backward into the west wall is likewise cancelled
    let mut q = Player { pos_x: 105, pos_y: 150, a: 0, fov: 10923 };
    q.move_backward(10, Dir { x: ONE, y: 0 }, &g, 100);
    assert_eq!(q.pos_x, 105);
    assert_eq!(q.pos_y, 150);
}

#[test]
fn forward_then_backward_returns_exactly() {
    let g = open_interior_5x5();
    let dir = Dir { x: 724, y: -724 };
    let mut p = Player { pos_x: 250, pos_y: 250, a: 0, fov: 10923 };
    p.move_forward(9, dir, &g, 100);
    assert!((p.pos_x, p.pos_y) != (250, 250));
    p.move_backward(9, dir, &g, 100);
    assert_eq!(p.pos_x, 250);
    assert_eq!(p.pos_y, 250);
}

#[test]
fn rotate_adds_angle_unconditionally() {
    let mut p = Player { pos_x: 150, pos_y: 150, a: 1000, fov: 10923 };
    p.rotate(-1043);
    assert_eq!(p.a, -43);
    p.rotate(1043);
    assert_eq!(p.a, 1000);
    assert_eq!(p.pos_x, 150);
    assert_eq!(p.pos_y, 150);
}
