//! Per-snake state: heading, head and tail coordinates, target length, the
//! movement cadence timer and the blocked-death countdown. Time is measured
//! in whole milliseconds supplied by the host loop.

use vstd::prelude::*;

use crate::grid::Cell;
use crate::grid::Coord;
use crate::grid::Grid;
use crate::grid::SnakeId;

verus! {

/// Upper bound, in milliseconds, on timer durations and on the elapsed time
/// of a single tick; keeps all timer arithmetic inside `u64`.
pub const MAX_TIME_MS: u64 = 1000000000;

/// How long a snake may stay blocked before it dies.
pub const DIE_THRESHOLD_MS: u64 = 150;

/// Target length of a freshly spawned snake.
pub const SPAWN_LENGTH: usize = 6;

/// Movement cadence while the speed modifier is held.
pub const FAST_INTERVAL_MS: u64 = 100;

/// Movement cadence without the speed modifier.
pub const NORMAL_INTERVAL_MS: u64 = 150;

/// One of the four cardinal headings; `East` is `+x`, `North` is `+y`.
#[derive(Clone, Copy, Debug, PartialEq, Eq, Structural)]
pub enum Dir {
    North,
    East,
    South,
    West,
}

/// Unit step of a heading along the `x` axis.
pub open spec fn dir_dx(d: Dir) -> int {
    match d {
        Dir::East => 1,
        Dir::West => -1,
        _ => 0,
    }
}

/// Unit step of a heading along the `y` axis.
pub open spec fn dir_dy(d: Dir) -> int {
    match d {
        Dir::North => 1,
        Dir::South => -1,
        _ => 0,
    }
}

/// The coordinate one step from `c` in direction `d`, or `None` where that
/// step leaves the range of `i32` (such a coordinate is out of every grid's
/// bounds anyway).
pub open spec fn step_spec(c: Coord, d: Dir) -> Option<Coord> {
    let nx = c.x + dir_dx(d);
    let ny = c.y + dir_dy(d);
    if i32::MIN <= nx <= i32::MAX && i32::MIN <= ny <= i32::MAX {
        Some(Coord { x: nx as i32, y: ny as i32 })
    } else {
        None
    }
}

/// Computes the coordinate one step ahead in direction `d`.
pub fn step(c: Coord, d: Dir) -> (r: Option<Coord>)
    ensures
        r == step_spec(c, d),
{
    match d {
        Dir::East => if c.x == i32::MAX {
            None
        } else {
            Some(Coord { x: c.x + 1, y: c.y })
        },
        Dir::West => if c.x == i32::MIN {
            None
        } else {
            Some(Coord { x: c.x - 1, y: c.y })
        },
        Dir::North => if c.y == i32::MAX {
            None
        } else {
            Some(Coord { x: c.x, y: c.y + 1 })
        },
        Dir::South => if c.y == i32::MIN {
            None
        } else {
            Some(Coord { x: c.x, y: c.y - 1 })
        },
    }
}

/// A countdown/cadence timer in milliseconds. A repeating timer wraps its
/// elapsed time around the duration each time it completes; a one-shot timer
/// latches `finished` and reports `just_finished` only on the completing
/// advance.
#[derive(Clone, Copy, Debug, PartialEq, Eq, Structural)]
pub struct Timer {
    pub duration_ms: u64,
    pub elapsed_ms: u64,
    pub repeating: bool,
    pub finished: bool,
    pub just_finished: bool,
}

impl Timer {
    /// A timer is well formed when its duration is positive and bounded and
    /// its elapsed time never exceeds the duration.
    pub open spec fn wf(self) -> bool {
        &&& 1 <= self.duration_ms <= MAX_TIME_MS
        &&& self.elapsed_ms <= self.duration_ms
    }

    /// The timer after advancing by `delta` milliseconds. A finished one-shot
    /// timer no longer advances and stops reporting `just_finished`.
    pub open spec fn spec_tick(self, delta: int) -> Timer {
        if !self.repeating && self.finished {
            Timer { just_finished: false, ..self }
        } else {
            let e = self.elapsed_ms + delta;
            if e >= self.duration_ms {
                if self.repeating {
                    Timer {
                        elapsed_ms: (e % (self.duration_ms as int)) as u64,
                        finished: true,
                        just_finished: true,
                        ..self
                    }
                } else {
                    Timer {
                        elapsed_ms: self.duration_ms,
                        finished: true,
                        just_finished: true,
                        ..self
                    }
                }
            } else {
                Timer { elapsed_ms: e as u64, finished: false, just_finished: false, ..self }
            }
        }
    }

    /// The timer after decaying its elapsed time by `delta` milliseconds,
    /// clamped at zero; the timer is also reset to "not finished".
    pub open spec fn spec_decay(self, delta: int) -> Timer {
        let e = if delta >= self.elapsed_ms { 0 } else { self.elapsed_ms - delta };
        Timer { elapsed_ms: e as u64, finished: false, just_finished: false, ..self }
    }

    /// The timer after being retargeted to a new duration, preserving elapsed
    /// progress clamped so it never exceeds the new duration.
    pub open spec fn spec_retarget(self, duration: u64) -> Timer {
        let e = if self.elapsed_ms > duration { duration } else { self.elapsed_ms };
        Timer { duration_ms: duration, elapsed_ms: e, ..self }
    }

    /// Creates a fresh timer with no elapsed time.
    pub fn new(duration_ms: u64, repeating: bool) -> (t: Timer)
        requires
            1 <= duration_ms <= MAX_TIME_MS,
        ensures
            t == (Timer {
                duration_ms,
                elapsed_ms: 0,
                repeating,
                finished: false,
                just_finished: false,
            }),
            t.wf(),
    {
        Timer { duration_ms, elapsed_ms: 0, repeating, finished: false, just_finished: false }
    }

    /// Advances the timer by `delta_ms` milliseconds.
    pub fn tick(&mut self, delta_ms: u64)
        requires
            old(self).wf(),
            delta_ms <= MAX_TIME_MS,
        ensures
            *final(self) == old(self).spec_tick(delta_ms as int),
            final(self).wf(),
    {
        if !self.repeating && self.finished {
            self.just_finished = false;
            return ;
        }
        let e = self.elapsed_ms + delta_ms;
        if e >= self.duration_ms {
            self.finished = true;
            self.just_finished = true;
            if self.repeating {
                self.elapsed_ms = e % self.duration_ms;
            } else {
                self.elapsed_ms = self.duration_ms;
            }
        } else {
            self.elapsed_ms = e;
            self.finished = false;
            self.just_finished = false;
        }
    }

    /// Decays the elapsed time by `delta_ms`, clamped at zero, and resets the
    /// timer to "not finished".
    pub fn decay(&mut self, delta_ms: u64)
        requires
            old(self).wf(),
        ensures
            *final(self) == old(self).spec_decay(delta_ms as int),
            final(self).wf(),
    {
        if delta_ms >= self.elapsed_ms {
            self.elapsed_ms = 0;
        } else {
            self.elapsed_ms = self.elapsed_ms - delta_ms;
        }
        self.finished = false;
        self.just_finished = false;
    }

    /// Changes the duration, clamping elapsed progress to the new duration.
    pub fn retarget(&mut self, duration_ms: u64)
        requires
            old(self).wf(),
            1 <= duration_ms <= MAX_TIME_MS,
        ensures
            *final(self) == old(self).spec_retarget(duration_ms),
            final(self).wf(),
    {
        if self.elapsed_ms > duration_ms {
            self.elapsed_ms = duration_ms;
        }
        self.duration_ms = duration_ms;
    }

    /// Restarts the timer from zero elapsed time.
    pub fn reset(&mut self)
        ensures
            *final(self) == (Timer {
                elapsed_ms: 0,
                finished: false,
                just_finished: false,
                ..*old(self)
            }),
    {
        self.elapsed_ms = 0;
        self.finished = false;
        self.just_finished = false;
    }
}

/// Base movement cadence, in milliseconds, of a snake spawned at the given
/// difficulty level.
pub open spec fn level_interval_ms(level: int) -> u64 {
    if level == 0 {
        150
    } else if level == 1 {
        200
    } else if level == 2 {
        170
    } else if level == 3 {
        120
    } else {
        200
    }
}

/// Looks up the base movement cadence of a difficulty level.
pub fn interval_for_level(level: usize) -> (r: u64)
    ensures
        r == level_interval_ms(level as int),
        1 <= r <= MAX_TIME_MS,
{
    if level == 0 {
        150
    } else if level == 1 {
        200
    } else if level == 2 {
        170
    } else if level == 3 {
        120
    } else {
        200
    }
}

/// All per-snake state. `body` lists the occupied coordinates from the tail
/// (oldest segment) to the head; the grid mirrors it cell by cell, so the
/// grid's successor pointers and this sequence are kept in lockstep.
pub struct Snake {
    pub id: SnakeId,
    /// Target number of segments; the body catches up by one cell per move.
    pub length: usize,
    pub direction: Dir,
    /// Head coordinate.
    pub position: Coord,
    /// Oldest segment coordinate.
    pub tail: Coord,
    /// Difficulty tier fixing the base movement cadence.
    pub level: usize,
    /// Whether this snake is the player-controlled one.
    pub player: bool,
    /// Movement cadence requested by input handling.
    pub interval_ms: u64,
    /// Recomputed every tick from the grid contents ahead of the head.
    pub blocked: bool,
    pub move_timer: Timer,
    pub die_timer: Timer,
    /// Occupied coordinates from tail to head, mirrored by the grid.
    pub body: Vec<Coord>,
}

impl Snake {
    /// The timers and cadence are well formed.
    pub open spec fn timers_wf(self) -> bool {
        &&& self.move_timer.wf()
        &&& self.die_timer.wf()
        &&& 1 <= self.interval_ms <= MAX_TIME_MS
    }

    /// The grid mirrors this snake's body chain: the cells from `tail` to
    /// `position` hold `Body` links pointing one segment toward the head, the
    /// head cell holds `Head`, all chain coordinates are in bounds and
    /// pairwise distinct, and the chain has at most `length` cells (fewer
    /// only while a freshly spawned or grown snake is still catching up).
    pub open spec fn chain_wf(self, g: Grid) -> bool {
        let b = self.body@;
        &&& 1 <= b.len() <= self.length
        &&& b[0] == self.tail
        &&& b[b.len() - 1] == self.position
        &&& b.no_duplicates()
        &&& forall|i: int| 0 <= i < b.len() ==> g.in_bounds(b[i].x as int, b[i].y as int)
        &&& forall|i: int|
            0 <= i < b.len() - 1 ==> g.cell_at(b[i].x as int, b[i].y as int) == Cell::Body(
                self.id,
                b[i + 1],
            )
        &&& g.cell_at(self.position.x as int, self.position.y as int) == Cell::Head(self.id)
    }

    /// Creates the logical state of a snake spawned at `position`: target
    /// length 6, heading East, head and tail both at the spawn coordinate,
    /// cadence fixed by `level`, not blocked, timers fresh.
    pub fn new(id: SnakeId, position: Coord, level: usize, player: bool) -> (s: Snake)
        ensures
            s.id == id,
            s.length == SPAWN_LENGTH,
            s.direction == Dir::East,
            s.position == position,
            s.tail == position,
            s.level == level,
            s.player == player,
            s.interval_ms == level_interval_ms(level as int),
            !s.blocked,
            s.move_timer == (Timer {
                duration_ms: level_interval_ms(level as int),
                elapsed_ms: 0,
                repeating: true,
                finished: false,
                just_finished: false,
            }),
            s.die_timer == (Timer {
                duration_ms: DIE_THRESHOLD_MS,
                elapsed_ms: 0,
                repeating: false,
                finished: false,
                just_finished: false,
            }),
            s.body@ == seq![position],
            s.timers_wf(),
    {
        let interval = interval_for_level(level);
        let mut body: Vec<Coord> = Vec::new();
        body.push(position);
        proof {
            assert(body@ =~= seq![position]);
        }
        Snake {
            id,
            length: SPAWN_LENGTH,
            direction: Dir::East,
            position,
            tail: position,
            level,
            player,
            interval_ms: interval,
            blocked: false,
            move_timer: Timer::new(interval, true),
            die_timer: Timer::new(DIE_THRESHOLD_MS, false),
            body,
        }
    }
}

/// Schedule for periodic food placement: a long interval while food exists,
/// a short one while the grid has none.
pub struct FoodPlaceTime {
    pub many_food_time_ms: u64,
    pub no_food_time_ms: u64,
    pub timer: Timer,
}

impl FoodPlaceTime {
    /// Both intervals are positive and bounded and the timer is well formed.
    pub open spec fn wf(self) -> bool {
        &&& 1 <= self.many_food_time_ms <= MAX_TIME_MS
        &&& 1 <= self.no_food_time_ms <= MAX_TIME_MS
        &&& self.timer.wf()
    }

    /// Switches to the long interval and restarts the timer.
    pub fn reset_long(&mut self)
        requires
            old(self).wf(),
        ensures
            final(self).timer == (Timer {
                duration_ms: old(self).many_food_time_ms,
                elapsed_ms: 0,
                finished: false,
                just_finished: false,
                ..old(self).timer
            }),
            final(self).many_food_time_ms == old(self).many_food_time_ms,
            final(self).no_food_time_ms == old(self).no_food_time_ms,
            final(self).wf(),
    {
        self.timer.retarget(self.many_food_time_ms);
        self.timer.reset();
    }

    /// Switches to the short interval and restarts the timer.
    pub fn reset_short(&mut self)
        requires
            old(self).wf(),
        ensures
            final(self).timer == (Timer {
                duration_ms: old(self).no_food_time_ms,
                elapsed_ms: 0,
                finished: false,
                just_finished: false,
                ..old(self).timer
            }),
            final(self).many_food_time_ms == old(self).many_food_time_ms,
            final(self).no_food_time_ms == old(self).no_food_time_ms,
            final(self).wf(),
    {
        self.timer.retarget(self.no_food_time_ms);
        self.timer.reset();
    }

}

impl Default for FoodPlaceTime {
    /// Five seconds between placements while food exists, three while none
    /// does; the schedule starts on the short interval.
    fn default() -> (d: FoodPlaceTime)
        ensures
            d.many_food_time_ms == 5000,
            d.no_food_time_ms == 3000,
            d.timer == (Timer {
                duration_ms: 3000,
                elapsed_ms: 0,
                repeating: true,
                finished: false,
                just_finished: false,
            }),
            d.wf(),
    {
        FoodPlaceTime {
            many_food_time_ms: 5000,
            no_food_time_ms: 3000,
            timer: Timer::new(3000, true),
        }
    }
}

} // verus!
