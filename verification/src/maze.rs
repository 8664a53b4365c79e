use vstd::prelude::*;

verus! {

/// One grid square of the maze.
#[derive(Clone, Copy, PartialEq, Eq, Structural, Debug)]
pub enum Cell {
    Open,
    Wall(u8),
    Goal,
    Start,
}

impl Cell {
    /// Walls of any variant block movement and stop rays; every other
    /// cell kind is passable.
    pub open spec fn is_wall(self) -> bool {
        self matches Cell::Wall(_)
    }

    pub fn is_wall_cell(&self) -> (r: bool)
        ensures
            r == self.is_wall(),
    {
        match self {
            Cell::Wall(_) => true,
            _ => false,
        }
    }
}

/// Why a parsed grid was rejected at level load.
#[derive(Clone, Copy, PartialEq, Eq, Structural, Debug)]
pub enum LoadError {
    Empty,
    Ragged,
    BadVariant,
    NoStart,
    NoGoal,
}

/// Defensive error for `cell_at` on indices outside the extents.
#[derive(Clone, Copy, PartialEq, Eq, Structural, Debug)]
pub enum GridError {
    OutOfBounds,
}

/// The table of rows as mathematical sequences.
pub open spec fn rows_view(rows: Seq<Vec<Cell>>) -> Seq<Seq<Cell>> {
    rows.map_values(|r: Vec<Cell>| r@)
}

/// The table is non-empty and every row has the length of the first.
pub open spec fn grid_rect(g: Seq<Seq<Cell>>) -> bool {
    &&& g.len() > 0
    &&& g[0].len() > 0
    &&& forall|i: int| 0 <= i < g.len() ==> #[trigger] g[i].len() == g[0].len()
}

/// Some cell of the table equals `c`.
pub open spec fn has_cell(g: Seq<Seq<Cell>>, c: Cell) -> bool {
    exists|i: int, j: int|
        0 <= i < g.len() && 0 <= j < g[i].len() && #[trigger] g[i][j] == c
}

/// Every wall variant indexes into a texture set of `n` entries.
pub open spec fn variants_ok(g: Seq<Seq<Cell>>, n: int) -> bool {
    forall|i: int, j: int|
        0 <= i < g.len() && 0 <= j < g[i].len() ==> match #[trigger] g[i][j] {
            Cell::Wall(v) => v < n,
            _ => true,
        }
}

/// The first reason, if any, for which a parsed table of rows is not a
/// valid level grid for a texture set of `n` variants.
pub open spec fn grid_fault(g: Seq<Seq<Cell>>, n: int) -> Option<LoadError> {
    if g.len() == 0 || g[0].len() == 0 {
        Some(LoadError::Empty)
    } else if !grid_rect(g) {
        Some(LoadError::Ragged)
    } else if !variants_ok(g, n) {
        Some(LoadError::BadVariant)
    } else if !has_cell(g, Cell::Start) {
        Some(LoadError::NoStart)
    } else if !has_cell(g, Cell::Goal) {
        Some(LoadError::NoGoal)
    } else {
        None
    }
}

/// Immutable per-level occupancy grid.  Built once by `new`, which
/// validates the shape invariant; read-only thereafter.
pub struct MazeGrid {
    rows: Vec<Vec<Cell>>,
    n_variants: u8,
}

impl MazeGrid {
    /// The grid as a sequence of rows of cells.
    pub closed spec fn grid(self) -> Seq<Seq<Cell>> {
        rows_view(self.rows@)
    }

    /// How many wall texture variants the grid was validated against.
    pub closed spec fn variant_limit(self) -> int {
        self.n_variants as int
    }

    pub open spec fn rows_len(self) -> int {
        self.grid().len() as int
    }

    pub open spec fn cols_len(self) -> int {
        self.grid()[0].len() as int
    }

    pub open spec fn cell(self, row: int, col: int) -> Cell {
        self.grid()[row][col]
    }

    /// Well-formedness: rectangular, at least one `Start` and one `Goal`,
    /// every wall variant a valid texture key.
    pub open spec fn wf(self) -> bool {
        &&& grid_rect(self.grid())
        &&& variants_ok(self.grid(), self.variant_limit())
        &&& has_cell(self.grid(), Cell::Start)
        &&& has_cell(self.grid(), Cell::Goal)
    }

    /// A grid index pair is blocking when it lies outside the extents
    /// (defensive) or addresses a wall cell.
    pub open spec fn blocking(self, row: int, col: int) -> bool {
        ||| row < 0
        ||| col < 0
        ||| row >= self.rows_len()
        ||| col >= self.cols_len()
        ||| self.cell(row, col).is_wall()
    }

    /// Validates a parsed table of rows and wraps it as a grid.
    /// Returns `Ok` exactly when the table is non-empty, rectangular,
    /// has a `Start` and a `Goal`, and every wall variant is below
    /// `n_variants`; otherwise the first fault in that order.
    pub fn new(rows: Vec<Vec<Cell>>, n_variants: u8) -> (r: Result<MazeGrid, LoadError>)
        ensures
            match r {
                Ok(m) => {
                    &&& grid_fault(rows_view(rows@), n_variants as int) is None
                    &&& m.grid() == rows_view(rows@)
                    &&& m.variant_limit() == n_variants as int
                    &&& m.wf()
                },
                Err(e) => grid_fault(rows_view(rows@), n_variants as int) == Some(e),
            },
    {
        let ghost g = rows_view(rows@);
        if rows.len() == 0 || rows[0].len() == 0 {
            return Err(LoadError::Empty);
        }
        let cols = rows[0].len();
        let mut i: usize = 1;
        while i < rows.len()
            invariant
                1 <= i <= g.len(),
                g == rows_view(rows@),
                g.len() == rows@.len(),
                cols == g[0].len(),
                cols > 0,
                forall|k: int| 0 <= k < i ==> #[trigger] g[k].len() == cols,
            decreases rows@.len() - i,
        {
            if rows[i].len() != cols {
                proof {
                    assert(g[i as int] == rows@[i as int]@);
                    assert(g[i as int].len() != g[0].len());
                    assert(!grid_rect(g));
                }
                return Err(LoadError::Ragged);
            }
            i = i + 1;
        }
        assert(grid_rect(g));

        let mut found_start = false;
        let mut found_goal = false;
        let mut i: usize = 0;
        while i < rows.len()
            invariant
                0 <= i <= g.len(),
                g == rows_view(rows@),
                g.len() == rows@.len(),
                grid_rect(g),
                cols == g[0].len(),
                forall|a: int, b: int|
                    0 <= a < i && 0 <= b < g[a].len() ==> match #[trigger] g[a][b] {
                        Cell::Wall(v) => v < n_variants,
                        _ => true,
                    },
                found_start <==> exists|a: int, b: int|
                    0 <= a < i && 0 <= b < g[a].len() && #[trigger] g[a][b] == Cell::Start,
                found_goal <==> exists|a: int, b: int|
                    0 <= a < i && 0 <= b < g[a].len() && #[trigger] g[a][b] == Cell::Goal,
            decreases rows@.len() - i,
        {
            let row = &rows[i];
            let mut j: usize = 0;
            while j < row.len()
                invariant
                    0 <= j <= row@.len(),
                    0 <= i < g.len(),
                    g == rows_view(rows@),
                    grid_rect(g),
                    row@ == g[i as int],
                    forall|a: int, b: int|
                        0 <= a < i && 0 <= b < g[a].len() ==> match #[trigger] g[a][b] {
                            Cell::Wall(v) => v < n_variants,
                            _ => true,
                        },
                    forall|b: int| 0 <= b < j ==> match #[trigger] g[i as int][b] {
                        Cell::Wall(v) => v < n_variants,
                        _ => true,
                    },
                    found_start <==> (exists|a: int, b: int|
                        0 <= a < i && 0 <= b < g[a].len() && #[trigger] g[a][b] == Cell::Start)
                        || (exists|b: int| 0 <= b < j && #[trigger] g[i as int][b] == Cell::Start),
                    found_goal <==> (exists|a: int, b: int|
                        0 <= a < i && 0 <= b < g[a].len() && #[trigger] g[a][b] == Cell::Goal)
                        || (exists|b: int| 0 <= b < j && #[trigger] g[i as int][b] == Cell::Goal),
                decreases row@.len() - j,
            {
                match row[j] {
                    Cell::Wall(v) => {
                        if v >= n_variants {
                            assert(!variants_ok(g, n_variants as int));
                            return Err(LoadError::BadVariant);
                        }
                    },
                    Cell::Start => { found_start = true; },
                    Cell::Goal => { found_goal = true; },
                    Cell::Open => {},
                }
                j = j + 1;
            }
            i = i + 1;
        }
        assert(variants_ok(g, n_variants as int));
        if !found_start {
            assert(!has_cell(g, Cell::Start));
            return Err(LoadError::NoStart);
        }
        if !found_goal {
            assert(!has_cell(g, Cell::Goal));
            return Err(LoadError::NoGoal);
        }
        Ok(MazeGrid { rows, n_variants })
    }

    pub fn n_rows(&self) -> (r: usize)
        ensures
            r == self.rows_len(),
    {
        self.rows.len()
    }

    pub fn n_cols(&self) -> (r: usize)
        requires
            self.wf(),
        ensures
            r == self.cols_len(),
    {
        self.rows[0].len()
    }

    /// Read one cell; fails with `OutOfBounds` exactly when the indices
    /// exceed the extents.
    pub fn cell_at(&self, row: usize, col: usize) -> (r: Result<Cell, GridError>)
        requires
            self.wf(),
        ensures
            r == if row < self.rows_len() && col < self.cols_len() {
                Result::<Cell, GridError>::Ok(self.cell(row as int, col as int))
            } else {
                Result::<Cell, GridError>::Err(GridError::OutOfBounds)
            },
    {
        if row < self.rows.len() && col < self.rows[0].len() {
            Ok(self.rows[row][col])
        } else {
            Err(GridError::OutOfBounds)
        }
    }

    /// Collision query over possibly-negative indices: out-of-range is
    /// blocking, in-range is blocking exactly on wall cells.
    pub fn is_blocking(&self, row: i64, col: i64) -> (r: bool)
        requires
            self.wf(),
        ensures
            r == self.blocking(row as int, col as int),
    {
        if row < 0 || col < 0 {
            return true;
        }
        let ru = row as u64;
        let cu = col as u64;
        if ru >= self.rows.len() as u64 || cu >= self.rows[0].len() as u64 {
            return true;
        }
        proof {
            assert(self.grid()[ru as int].len() == self.grid()[0].len());
            assert(self.rows@[ru as int]@ == self.grid()[ru as int]);
        }
        self.rows[ru as usize][cu as usize].is_wall_cell()
    }
}

/// Grid index of a world coordinate: `floor(w / cell_size)` for
/// non-negative `w`; any negative coordinate maps to the blocking
/// sentinel index `-1`.
pub open spec fn world_index(w: int, cell_size: int) -> int {
    if w < 0 {
        -1
    } else {
        w / cell_size
    }
}

/// Computes `world_index` on machine integers.
pub fn world_to_index(w: i64, cell_size: u32) -> (r: i64)
    requires
        cell_size > 0,
    ensures
        r == world_index(w as int, cell_size as int),
{
    if w < 0 {
        -1
    } else {
        let q: u64 = (w as u64) / (cell_size as u64);
        proof {
            vstd::arithmetic::div_mod::lemma_div_nonincreasing(w as int, cell_size as int);
            vstd::arithmetic::div_mod::lemma_div_pos_is_pos(w as int, cell_size as int);
        }
        q as i64
    }
}

} // verus!
