use vstd::prelude::*;
use crate::fixed::{Dir, mul_div_one};
use crate::maze::{MazeGrid, world_index};

verus! {

/// Positions stay well inside this bound so that one movement step can
/// never overflow a machine integer.
pub const POS_LIMIT: i64 = 0x10_0000_0000;

/// Mutable pose: world-space position, heading angle and field of view,
/// both angles in integer angle units (interpreted by the caller; the
/// library never needs their trigonometric meaning, only the heading's
/// unit vector, which movement takes as an argument).
pub struct Player {
    pub pos_x: i64,
    pub pos_y: i64,
    pub a: i64,
    pub fov: i64,
}

/// Candidate position one forward step of `speed` along `dir` away.
pub open spec fn forward_pos(x: int, y: int, speed: int, dir: Dir) -> (int, int) {
    (x + mul_div_one(speed, dir.x as int), y + mul_div_one(speed, dir.y as int))
}

/// Candidate position one backward step of `speed` against `dir` away.
pub open spec fn backward_pos(x: int, y: int, speed: int, dir: Dir) -> (int, int) {
    (x - mul_div_one(speed, dir.x as int), y - mul_div_one(speed, dir.y as int))
}

/// Whether the world position `(x, y)` lies in a blocking grid cell.
pub open spec fn blocked_at(g: MazeGrid, x: int, y: int, cell_size: int) -> bool {
    g.blocking(world_index(y, cell_size), world_index(x, cell_size))
}

/// Collision response: the candidate if its cell is free, else the
/// current position unchanged (no sliding, the whole move is cancelled).
pub open spec fn resolve_move(
    g: MazeGrid,
    cell_size: int,
    cur: (int, int),
    cand: (int, int),
) -> (int, int) {
    if blocked_at(g, cand.0, cand.1, cell_size) {
        cur
    } else {
        cand
    }
}

impl Player {
    pub open spec fn pos_bounded(self) -> bool {
        &&& -POS_LIMIT <= self.pos_x <= POS_LIMIT
        &&& -POS_LIMIT <= self.pos_y <= POS_LIMIT
    }

    /// Step `speed` world units along the heading vector `dir`; the move
    /// is committed only if the candidate cell is not blocking.
    pub fn move_forward(&mut self, speed: u32, dir: Dir, grid: &MazeGrid, cell_size: u32)
        requires
            grid.wf(),
            cell_size > 0,
            dir.in_range(),
            old(self).pos_bounded(),
        ensures
            final(self).a == old(self).a,
            final(self).fov == old(self).fov,
            (final(self).pos_x as int, final(self).pos_y as int) == resolve_move(
                *grid,
                cell_size as int,
                (old(self).pos_x as int, old(self).pos_y as int),
                forward_pos(old(self).pos_x as int, old(self).pos_y as int, speed as int, dir),
            ),
    {
        let nx = self.pos_x + crate::fixed::step_component(speed, dir.x);
        let ny = self.pos_y + crate::fixed::step_component(speed, dir.y);
        let row = crate::maze::world_to_index(ny, cell_size);
        let col = crate::maze::world_to_index(nx, cell_size);
        if !grid.is_blocking(row, col) {
            self.pos_x = nx;
            self.pos_y = ny;
        }
    }

    /// Step `speed` world units against the heading vector `dir`, with
    /// the same collision response as `move_forward`.
    pub fn move_backward(&mut self, speed: u32, dir: Dir, grid: &MazeGrid, cell_size: u32)
        requires
            grid.wf(),
            cell_size > 0,
            dir.in_range(),
            old(self).pos_bounded(),
        ensures
            final(self).a == old(self).a,
            final(self).fov == old(self).fov,
            (final(self).pos_x as int, final(self).pos_y as int) == resolve_move(
                *grid,
                cell_size as int,
                (old(self).pos_x as int, old(self).pos_y as int),
                backward_pos(old(self).pos_x as int, old(self).pos_y as int, speed as int, dir),
            ),
    {
        let nx = self.pos_x - crate::fixed::step_component(speed, dir.x);
        let ny = self.pos_y - crate::fixed::step_component(speed, dir.y);
        let row = crate::maze::world_to_index(ny, cell_size);
        let col = crate::maze::world_to_index(nx, cell_size);
        if !grid.is_blocking(row, col) {
            self.pos_x = nx;
            self.pos_y = ny;
        }
    }

    /// Unconditional heading increment; no collision check applies.
    pub fn rotate(&mut self, delta: i64)
        requires
            i64::MIN <= old(self).a + delta <= i64::MAX,
        ensures
            final(self).a == old(self).a + delta,
            final(self).pos_x == old(self).pos_x,
            final(self).pos_y == old(self).pos_y,
            final(self).fov == old(self).fov,
    {
        self.a = self.a + delta;
    }
}

/// A move whose candidate cell is blocking leaves the position unchanged.
pub proof fn lemma_blocked_move_keeps_position(
    g: MazeGrid,
    cell_size: int,
    cur: (int, int),
    cand: (int, int),
)
    requires
        blocked_at(g, cand.0, cand.1, cell_size),
    ensures
        resolve_move(g, cell_size, cur, cand) == cur,
{
}

/// Movement keeps the player out of blocking cells: if the current
/// position's cell is free, the resolved position's cell is free too,
/// whatever the candidate was.  So a player spawned in a free cell
/// stays in free cells across any sequence of moves.
pub proof fn lemma_move_preserves_free_cell(
    g: MazeGrid,
    cell_size: int,
    cur: (int, int),
    cand: (int, int),
)
    requires
        !blocked_at(g, cur.0, cur.1, cell_size),
    ensures
        ({
            let next = resolve_move(g, cell_size, cur, cand);
            !blocked_at(g, next.0, next.1, cell_size)
        }),
{
}

/// Moving forward and then backward with the same speed and heading
/// returns the player to exactly the starting position, provided the
/// starting cell is free (so the return step is accepted) and no wall
/// intervenes at the forward candidate.
pub proof fn lemma_forward_backward_round_trip(
    g: MazeGrid,
    cell_size: int,
    x: int,
    y: int,
    speed: int,
    dir: Dir,
)
    requires
        !blocked_at(g, x, y, cell_size),
        !blocked_at(
            g,
            forward_pos(x, y, speed, dir).0,
            forward_pos(x, y, speed, dir).1,
            cell_size,
        ),
    ensures
        ({
            let fwd = resolve_move(g, cell_size, (x, y), forward_pos(x, y, speed, dir));
            resolve_move(
                g,
                cell_size,
                fwd,
                backward_pos(fwd.0, fwd.1, speed, dir),
            ) == (x, y)
        }),
{
    let fwd = resolve_move(g, cell_size, (x, y), forward_pos(x, y, speed, dir));
    assert(fwd == forward_pos(x, y, speed, dir));
    assert(backward_pos(fwd.0, fwd.1, speed, dir) == (x, y));
}

} // verus!
