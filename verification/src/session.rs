use vstd::prelude::*;

verus! {

/// Grid-distance threshold (in cells) at which the goal counts as
/// reached; compared against the squared distance `GOAL_DIST2`.
pub const GOAL_RADIUS_CELLS: u64 = 2;

/// Square of `GOAL_RADIUS_CELLS`.
pub const GOAL_DIST2: u64 = 4;

/// Coordinates handled by the session stay below this bound so that a
/// squared grid distance always fits a machine integer.
pub const COORD_LIMIT: usize = 0x10_0000;

/// Phase of one playable night.
#[derive(Clone, Copy, PartialEq, Eq, Structural, Debug)]
pub enum Phase {
    Start,
    Playing,
    Cleared,
    Lost,
}

/// Squared Euclidean distance in grid-index space.
pub open spec fn grid_dist2(pr: int, pc: int, gr: int, gc: int) -> int {
    (pr - gr) * (pr - gr) + (pc - gc) * (pc - gc)
}

/// The player's cell is within `GOAL_RADIUS_CELLS` (Euclidean, in
/// grid-index space) of some goal cell.
pub open spec fn near_goal(goals: Seq<(usize, usize)>, pr: int, pc: int) -> bool {
    exists|i: int|
        0 <= i < goals.len() && grid_dist2(
            pr, pc, (#[trigger] goals[i]).0 as int, goals[i].1 as int,
        ) <= GOAL_DIST2 as int
}

/// One night: a countdown, a goal-cell list, and the phase tag.  The
/// caller owns the clock and passes the current time into each step.
pub struct LevelSession {
    pub phase: Phase,
    pub duration: u64,
    pub banner_time: u64,
    pub phase_start: u64,
    pub goals: Vec<(usize, usize)>,
}

/// The phase after one frame at time `now` with the player in cell
/// `(pr, pc)`:
/// `Start` holds for `banner_time`, then yields to `Playing` (with the
/// countdown reset); `Playing` yields to `Cleared` the first frame the
/// goal distance is within threshold, else to `Lost` the first frame
/// the elapsed time reaches `duration`; `Cleared` and `Lost` hold
/// until the caller advances, restarts or quits.
pub open spec fn next_phase(s: LevelSession, now: int, pr: int, pc: int) -> Phase {
    match s.phase {
        Phase::Start => if now - s.phase_start >= s.banner_time {
            Phase::Playing
        } else {
            Phase::Start
        },
        Phase::Playing => if near_goal(s.goals@, pr, pc) {
            Phase::Cleared
        } else if now - s.phase_start >= s.duration {
            Phase::Lost
        } else {
            Phase::Playing
        },
        Phase::Cleared => Phase::Cleared,
        Phase::Lost => Phase::Lost,
    }
}

impl LevelSession {
    pub open spec fn wf(self) -> bool {
        forall|i: int| 0 <= i < self.goals@.len()
            ==> (#[trigger] self.goals@[i]).0 < COORD_LIMIT && self.goals@[i].1 < COORD_LIMIT
    }

    /// A new night starts in the `Start` banner phase at time `now`.
    pub fn new(duration: u64, banner_time: u64, goals: Vec<(usize, usize)>, now: u64) -> (r:
        LevelSession)
        requires
            forall|i: int| 0 <= i < goals@.len()
                ==> (#[trigger] goals@[i]).0 < COORD_LIMIT && goals@[i].1 < COORD_LIMIT,
        ensures
            r.wf(),
            r.phase == Phase::Start,
            r.duration == duration,
            r.banner_time == banner_time,
            r.phase_start == now,
            r.goals@ == goals@,
    {
        LevelSession { phase: Phase::Start, duration, banner_time, phase_start: now, goals }
    }

    /// Whether the player's cell is within the goal threshold.
    pub fn near_goal_cell(&self, pr: usize, pc: usize) -> (r: bool)
        requires
            self.wf(),
            pr < COORD_LIMIT,
            pc < COORD_LIMIT,
        ensures
            r == near_goal(self.goals@, pr as int, pc as int),
    {
        let mut i: usize = 0;
        let n = self.goals.len();
        while i < n
            invariant
                self.wf(),
                pr < COORD_LIMIT,
                pc < COORD_LIMIT,
                i <= n,
                n == self.goals@.len(),
                forall|j: int| 0 <= j < i ==> grid_dist2(
                    pr as int, pc as int,
                    (#[trigger] self.goals@[j]).0 as int, self.goals@[j].1 as int,
                ) > GOAL_DIST2 as int,
            decreases n - i,
        {
            let (gr, gc) = self.goals[i];
            let dr: i64 = (pr as i64) - (gr as i64);
            let dc: i64 = (pc as i64) - (gc as i64);
            proof {
                assert(dr as int * (dr as int) + dc as int * (dc as int) <= 0x4_0000_0000_0000)
                    by (nonlinear_arith)
                    requires
                        -0x10_0000 <= dr as int <= 0x10_0000,
                        -0x10_0000 <= dc as int <= 0x10_0000;
                assert(dr as int * (dr as int) >= 0) by (nonlinear_arith);
                assert(dc as int * (dc as int) >= 0) by (nonlinear_arith);
            }
            let d2: i64 = dr * dr + dc * dc;
            if d2 <= GOAL_DIST2 as i64 {
                return true;
            }
            i = i + 1;
        }
        false
    }

    /// One frame of the session clock: applies `next_phase` and, on a
    /// phase change, restarts the phase clock at `now` (in particular,
    /// entering `Playing` resets the countdown).
    pub fn step(&mut self, now: u64, pr: usize, pc: usize)
        requires
            old(self).wf(),
            pr < COORD_LIMIT,
            pc < COORD_LIMIT,
            now >= old(self).phase_start,
        ensures
            final(self).wf(),
            final(self).phase == next_phase(*old(self), now as int, pr as int, pc as int),
            final(self).duration == old(self).duration,
            final(self).banner_time == old(self).banner_time,
            final(self).goals@ == old(self).goals@,
            final(self).phase_start == if final(self).phase == old(self).phase {
                old(self).phase_start
            } else {
                now
            },
    {
        match self.phase {
            Phase::Start => {
                if now - self.phase_start >= self.banner_time {
                    self.phase = Phase::Playing;
                    self.phase_start = now;
                }
            },
            Phase::Playing => {
                if self.near_goal_cell(pr, pc) {
                    self.phase = Phase::Cleared;
                    self.phase_start = now;
                } else if now - self.phase_start >= self.duration {
                    self.phase = Phase::Lost;
                    self.phase_start = now;
                }
            },
            Phase::Cleared => {},
            Phase::Lost => {},
        }
    }

    /// Whether the `Cleared` banner has been shown long enough for the
    /// caller to advance to the next night.
    pub fn cleared_done(&self, now: u64) -> (r: bool)
        requires
            now >= self.phase_start,
        ensures
            r == (self.phase == Phase::Cleared
                && now - self.phase_start >= self.banner_time),
    {
        match self.phase {
            Phase::Cleared => now - self.phase_start >= self.banner_time,
            _ => false,
        }
    }

    /// Game-over input handling: `restart` loops back to the `Start`
    /// banner with the clock reset; otherwise `quit` is passed back to
    /// the caller (who returns to the menu).  Inputs are ignored in
    /// any other phase.
    pub fn game_over_input(&mut self, now: u64, restart: bool, quit: bool) -> (quit_out: bool)
        requires
            old(self).wf(),
        ensures
            final(self).wf(),
            final(self).duration == old(self).duration,
            final(self).banner_time == old(self).banner_time,
            final(self).goals@ == old(self).goals@,
            if old(self).phase == Phase::Lost && restart {
                final(self).phase == Phase::Start && final(self).phase_start == now
                    && !quit_out
            } else {
                *final(self) == *old(self)
                    && quit_out == (old(self).phase == Phase::Lost && quit)
            },
    {
        match self.phase {
            Phase::Lost => {
                if restart {
                    self.phase = Phase::Start;
                    self.phase_start = now;
                    false
                } else {
                    quit
                }
            },
            _ => false,
        }
    }
}

} // verus!
