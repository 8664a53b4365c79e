use mazecast::maze::{Cell, GridError, LoadError, MazeGrid, world_to_index};

fn load_err(r: Result<MazeGrid, LoadError>) -> LoadError {
    match r {
        Ok(_) => panic!("expected a load error"),
        Err(e) => e,
    }
}

fn open_interior_5x5() -> Vec<Vec<Cell>> {
    let mut rows: Vec<Vec<Cell>> = Vec::new();
    for r in 0..5 {
        let mut row: Vec<Cell> = Vec::new();
        for c in 0..5 {
            if r == 0 || r == 4 || c == 0 || c == 4 {
                row.push(Cell::Wall(0));
            } else if r == 1 && c == 1 {
                row.push(Cell::Start);
            } else if r == 3 && c == 3 {
                row.push(Cell::Goal);
            } else {
                row.push(Cell::Open);
            }
        }
        rows.push(row);
    }
    rows
}

#[test]
fn grid_new_accepts_valid_grid() {
    let g = MazeGrid::new(open_interior_5x5(), 1).unwrap();
    assert_eq!(g.n_rows(), 5);
    assert_eq!(g.n_cols(), 5);
    assert_eq!(g.cell_at(0, 0), Ok(Cell::Wall(0)));
    assert_eq!(g.cell_at(1, 1), Ok(Cell::Start));
    assert_eq!(g.cell_at(3, 3), Ok(Cell::Goal));
    assert_eq!(g.cell_at(2, 2), Ok(Cell::Open));
}

#[test]
fn grid_new_rejects_empty() {
    assert_eq!(load_err(MazeGrid::new(Vec::new(), 1)), LoadError::Empty);
    let one_empty_row: Vec<Vec<Cell>> = vec![Vec::new()];
    assert_eq!(load_err(MazeGrid::new(one_empty_row, 1)), LoadError::Empty);
}

#[test]
fn grid_new_rejects_ragged_rows() {
    let mut rows = open_interior_5x5();
    rows[2].pop();
    assert_eq!(load_err(MazeGrid::new(rows, 1)), LoadError::Ragged);
}

#[test]
fn grid_new_rejects_missing_start() {
    let mut rows = open_interior_5x5();
    rows[1][1] = Cell::Open;
    assert_eq!(load_err(MazeGrid::new(rows, 1)), LoadError::NoStart);
}

#[test]
fn grid_new_rejects_missing_goal() {
    let mut rows = open_interior_5x5();
    rows[3][3] = Cell::Open;
    assert_eq!(load_err(MazeGrid::new(rows, 1)), LoadError::NoGoal);
}

#[test]
fn grid_new_rejects_bad_wall_variant() {
    let mut rows = open_interior_5x5();
    rows[0][0] = Cell::Wall(7);
    assert_eq!(load_err(MazeGrid::new(rows, 1)), LoadError::BadVariant);
}

#[test]
fn cell_at_fails_out_of_bounds() {
    let g = MazeGrid::new(open_interior_5x5(), 1).unwrap();
    assert_eq!(g.cell_at(5, 0), Err(GridError::OutOfBounds));
    assert_eq!(g.cell_at(0, 5), Err(GridError::OutOfBounds));
}

#[test]
fn is_blocking_walls_and_out_of_range() {
    let g = MazeGrid::new(open_interior_5x5(), 1).unwrap();
    assert!(g.is_blocking(0, 0));
    assert!(!g.is_blocking(2, 2));
    assert!(!g.is_blocking(1, 1));
    assert!(!g.is_blocking(3, 3));
    assert!(g.is_blocking(-1, 2));
    assert!(g.is_blocking(2, -3));
    assert!(g.is_blocking(5, 2));
    assert!(g.is_blocking(2, 7));
}

#[test]
fn world_to_index_floors_and_flags_negative() {
    assert_eq!(world_to_index(0, 100), 0);
    assert_eq!(world_to_index(99, 100), 0);
    assert_eq!(world_to_index(100, 100), 1);
    assert_eq!(world_to_index(250, 100), 2);
    assert_eq!(world_to_index(-1, 100), -1);
    assert_eq!(world_to_index(-500, 100), -1);
}
