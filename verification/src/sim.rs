//! The per-tick simulation pipeline over one shared grid and the set of live
//! snakes: cadence timers, look-ahead classification, the blocked-death
//! countdown, growth, death resolution and the movement commit. The host
//! loop calls the phases in that order once per tick and supplies elapsed
//! time, the player's input and random draws.

use vstd::prelude::*;

use crate::grid::Cell;
use crate::grid::Coord;
use crate::grid::Grid;
use crate::grid::SnakeId;
use crate::snake::dir_dx;
use crate::snake::dir_dy;
use crate::snake::step;
use crate::snake::step_spec;
use crate::snake::Dir;
use crate::snake::Snake;
use crate::snake::Timer;
use crate::snake::FAST_INTERVAL_MS;
use crate::snake::MAX_TIME_MS;
use crate::snake::NORMAL_INTERVAL_MS;
use crate::snake::SPAWN_LENGTH;

verus! {

/// A snake ate food this tick and its target length grows by one.
#[derive(Clone, Copy, Debug, PartialEq, Eq, Structural)]
pub struct SnakeGrowthEvent {
    pub snake: SnakeId,
}

/// A snake stayed blocked for the whole death threshold and dies this tick.
#[derive(Clone, Copy, Debug, PartialEq, Eq, Structural)]
pub struct SnakeDiedEvent {
    pub snake: SnakeId,
}

/// Request to create a new snake; the first one spawned becomes
/// player-controlled, all later ones automatic.
#[derive(Clone, Copy, Debug, PartialEq, Eq, Structural)]
pub struct SpawnSnakeEvent {
    pub position: Coord,
    pub level: usize,
}

/// A cell blocks movement when it holds a head, a body segment or a wall;
/// empty and food cells are free to enter.
pub open spec fn blocks(c: Cell) -> bool {
    match c {
        Cell::Empty => false,
        Cell::Food => false,
        _ => true,
    }
}

/// What lies one step ahead of a snake's head; a failed or out-of-bounds
/// lookup reads as `Wall`.
pub open spec fn ahead_cell(g: Grid, s: Snake) -> Cell {
    match step_spec(s.position, s.direction) {
        Some(n) => if g.in_bounds(n.x as int, n.y as int) {
            g.cell_at(n.x as int, n.y as int)
        } else {
            Cell::Wall
        },
        None => Cell::Wall,
    }
}

/// The blocked flag a snake carries after look-ahead classification: snakes
/// whose move timer just completed observe the cell ahead, all others keep
/// their previous flag.
pub open spec fn eat_blocked(g: Grid, s: Snake) -> bool {
    if s.move_timer.just_finished {
        blocks(ahead_cell(g, s))
    } else {
        s.blocked
    }
}

/// A snake emits a growth signal when its move timer just completed and the
/// cell ahead holds food.
pub open spec fn grows(g: Grid, s: Snake) -> bool {
    s.move_timer.just_finished && ahead_cell(g, s) == Cell::Food
}

/// The growth signals emitted by look-ahead classification, in snake order.
pub open spec fn growth_events(g: Grid, snakes: Seq<Snake>) -> Seq<SnakeGrowthEvent>
    decreases snakes.len(),
{
    if snakes.len() == 0 {
        Seq::empty()
    } else {
        let rest = growth_events(g, snakes.drop_last());
        if grows(g, snakes.last()) {
            rest.push(SnakeGrowthEvent { snake: snakes.last().id })
        } else {
            rest
        }
    }
}

/// The death countdown a snake carries after the blocked-duration check:
/// it advances while the snake is blocked and decays toward zero (resetting
/// to "not finished") while it is not.
pub open spec fn countdown_after(s: Snake, delta: int) -> Timer {
    if s.blocked {
        s.die_timer.spec_tick(delta)
    } else {
        s.die_timer.spec_decay(delta)
    }
}

/// A snake emits a death signal when its countdown just completed.
pub open spec fn dies(s: Snake, delta: int) -> bool {
    countdown_after(s, delta).just_finished
}

/// The death signals emitted by the blocked-duration check, in snake order.
pub open spec fn death_events(snakes: Seq<Snake>, delta: int) -> Seq<SnakeDiedEvent>
    decreases snakes.len(),
{
    if snakes.len() == 0 {
        Seq::empty()
    } else {
        let rest = death_events(snakes.drop_last(), delta);
        if dies(snakes.last(), delta) {
            rest.push(SnakeDiedEvent { snake: snakes.last().id })
        } else {
            rest
        }
    }
}

/// The movement timer a snake carries after the cadence phase: retargeted to
/// the currently requested interval (progress clamped) and advanced by the
/// tick's elapsed time.
pub open spec fn cadence_after(s: Snake, delta: int) -> Timer {
    s.move_timer.spec_retarget(s.interval_ms).spec_tick(delta)
}

/// A candidate heading is rejected when the cell one step that way is the
/// snake's own immediate second segment (its neck).
pub open spec fn rejects_heading(g: Grid, s: Snake, d: Dir) -> bool {
    match step_spec(s.position, d) {
        Some(n) => g.in_bounds(n.x as int, n.y as int) && g.cell_at(n.x as int, n.y as int)
            == Cell::Body(s.id, s.position),
        None => false,
    }
}

/// The heading a snake keeps after input handling: the candidate unless it
/// is absent or rejected.
pub open spec fn new_heading(g: Grid, s: Snake, input: Option<Dir>) -> Dir {
    match input {
        Some(d) => if rejects_heading(g, s, d) {
            s.direction
        } else {
            d
        },
        None => s.direction,
    }
}

/// Index `i` holds the first player-controlled snake.
pub open spec fn is_first_player(snakes: Seq<Snake>, i: int) -> bool {
    &&& 0 <= i < snakes.len()
    &&& snakes[i].player
    &&& forall|j: int| 0 <= j < i ==> !snakes[j].player
}

/// The whole game state: the grid, the live snakes in spawn order, and the
/// id handed to the next spawn.
pub struct Simulation {
    pub grid: Grid,
    pub snakes: Vec<Snake>,
    pub next_id: u64,
}

impl Simulation {
    /// Always-preserved well-formedness: the grid is structurally sound,
    /// every snake's timers and cadence are well formed, its target length is
    /// positive, and snake ids are pairwise distinct and below `next_id`.
    pub open spec fn base_wf(self) -> bool {
        &&& self.grid.wf()
        &&& forall|i: int|
            0 <= i < self.snakes@.len() ==> (#[trigger] self.snakes@[i]).timers_wf()
        &&& forall|i: int| 0 <= i < self.snakes@.len() ==> (#[trigger] self.snakes@[i]).length >= 1
        &&& forall|i: int|
            0 <= i < self.snakes@.len() ==> (#[trigger] self.snakes@[i]).id.0 < self.next_id
        &&& forall|i: int, j: int|
            0 <= i < j < self.snakes@.len() ==> self.snakes@[i].id != self.snakes@[j].id
    }

    /// Every snake's body chain is mirrored by the grid.
    pub open spec fn chains_wf(self) -> bool {
        forall|i: int|
            0 <= i < self.snakes@.len() ==> (#[trigger] self.snakes@[i]).chain_wf(self.grid)
    }

    /// Full well-formedness. It can be broken transiently by conflicting
    /// commits in the same tick (a tolerated inconsistency); contracts state
    /// under which conditions it is preserved.
    pub open spec fn wf(self) -> bool {
        self.base_wf() && self.chains_wf()
    }

    /// Creates an empty simulation over a freshly walled grid: every
    /// perimeter cell is `Wall`, and a cell is `Wall` only on the perimeter.
    pub fn new(height: usize, width: usize) -> (sim: Simulation)
        requires
            height * width <= usize::MAX,
            width <= i32::MAX as usize,
            height <= i32::MAX as usize,
        ensures
            sim.wf(),
            sim.grid.spec_height() == height,
            sim.grid.spec_width() == width,
            sim.snakes@.len() == 0,
            sim.next_id == 0,
            forall|x: int, y: int|
                sim.grid.in_bounds(x, y) ==> sim.grid.cell_at(x, y) == (
                if sim.grid.on_perimeter(x, y) {
                    Cell::Wall
                } else {
                    Cell::Empty
                }),
            forall|x: int, y: int|
                sim.grid.in_bounds(x, y) ==> (sim.grid.cell_at(x, y) == Cell::Wall
                    <==> sim.grid.on_perimeter(x, y)),
    {
        let mut grid = Grid::new(height, width);
        grid.build_wall();
        Simulation { grid, snakes: Vec::new(), next_id: 0 }
    }

    /// Consumes one spawn request: creates a snake with target length 6,
    /// heading East, head and tail at the requested position, and writes its
    /// head into the grid. The new snake is player-controlled iff no live
    /// snake is. Full well-formedness is kept whenever the spawn position is
    /// an in-bounds empty cell.
    #[verifier::loop_isolation(false)]
    pub fn place_snake(&mut self, ev: &SpawnSnakeEvent) -> (id: SnakeId)
        requires
            old(self).base_wf(),
            old(self).next_id < u64::MAX,
        ensures
            final(self).base_wf(),
            id == (SnakeId(old(self).next_id)),
            final(self).next_id == old(self).next_id + 1,
            final(self).snakes@.len() == old(self).snakes@.len() + 1,
            forall|i: int|
                0 <= i < old(self).snakes@.len() ==> final(self).snakes@[i] == old(self).snakes@[i],
            ({
                let s = final(self).snakes@.last();
                &&& s.id == id
                &&& s.length == SPAWN_LENGTH
                &&& s.direction == Dir::East
                &&& s.position == ev.position
                &&& s.tail == ev.position
                &&& s.level == ev.level
                &&& s.player == !(exists|i: int|
                    0 <= i < old(self).snakes@.len() && (#[trigger] old(self).snakes@[i]).player)
                &&& !s.blocked
                &&& s.body@ == seq![ev.position]
            }),
            final(self).grid.spec_width() == old(self).grid.spec_width(),
            final(self).grid.spec_height() == old(self).grid.spec_height(),
            !old(self).grid.in_bounds(ev.position.x as int, ev.position.y as int) ==> final(self).grid == old(self).grid,
            old(self).grid.in_bounds(ev.position.x as int, ev.position.y as int) ==> final(self).grid.cell_at(ev.position.x as int, ev.position.y as int) == Cell::Head(id),
            forall|x: int, y: int|
                old(self).grid.in_bounds(x, y) && !(x == ev.position.x as int && y
                    == ev.position.y as int) ==> final(self).grid.cell_at(x, y) == old(self).grid.cell_at(x, y),
            old(self).wf() && old(self).grid.in_bounds(ev.position.x as int, ev.position.y as int)
                && old(self).grid.cell_at(ev.position.x as int, ev.position.y as int)
                == Cell::Empty ==> final(self).wf(),
    {
        let mut has_player = false;
        let n = self.snakes.len();
        let mut i: usize = 0;
        while i < n
            invariant
                i <= n,
                n == self.snakes@.len(),
                has_player == exists|j: int|
                    0 <= j < i && (#[trigger] self.snakes@[j]).player,
            decreases n - i,
        {
            if self.snakes[i].player {
                has_player = true;
            }
            i += 1;
        }
        let id = SnakeId(self.next_id);
        self.next_id = self.next_id + 1;
        let s = Snake::new(id, ev.position, ev.level, !has_player);
        self.snakes.push(s);
        self.grid.set(ev.position, Cell::Head(id));
        proof {
            if old(self).wf() && old(self).grid.in_bounds(ev.position.x as int, ev.position.y as int)
                && old(self).grid.cell_at(ev.position.x as int, ev.position.y as int)
                == Cell::Empty {
                assert forall|k: int| 0 <= k < self.snakes@.len() implies (
                #[trigger] self.snakes@[k]).chain_wf(self.grid) by {
                    if k < self.snakes@.len() - 1 {
                        let t = self.snakes@[k];
                        assert(t == old(self).snakes@[k]);
                        assert(t.chain_wf(old(self).grid));
                        assert forall|m: int| 0 <= m < t.body@.len() implies !(t.body@[m].x as int
                            == ev.position.x as int && t.body@[m].y as int
                            == ev.position.y as int) by {
                            if t.body@[m].x as int == ev.position.x as int && t.body@[m].y as int
                                == ev.position.y as int {
                                if m < t.body@.len() - 1 {
                                    assert(old(self).grid.cell_at(t.body@[m].x as int, t.body@[m].y as int)
                                        == Cell::Body(t.id, t.body@[m + 1]));
                                } else {
                                    assert(t.body@[m] == t.position);
                                }
                            }
                        }
                    } else {
                        assert(self.snakes@[k].body@ == seq![ev.position]);
                    }
                }
            }
        }
        id
    }

    /// Cadence phase: retargets each snake's movement timer to its requested
    /// interval (clamping elapsed progress) and advances it by the tick's
    /// elapsed time.
    #[verifier::loop_isolation(false)]
    pub fn snake_movement_timer_tick(&mut self, delta_ms: u64)
        requires
            old(self).base_wf(),
            delta_ms <= MAX_TIME_MS,
        ensures
            final(self).base_wf(),
            final(self).grid == old(self).grid,
            final(self).next_id == old(self).next_id,
            final(self).snakes@.len() == old(self).snakes@.len(),
            forall|i: int|
                0 <= i < old(self).snakes@.len() ==> final(self).snakes@[i] == (Snake {
                    move_timer: cadence_after(old(self).snakes@[i], delta_ms as int),
                    ..old(self).snakes@[i]
                }),
    {
        let n = self.snakes.len();
        let mut i: usize = 0;
        while i < n
            invariant
                i <= n,
                n == self.snakes@.len() == old(self).snakes@.len(),
                self.grid == old(self).grid,
                self.next_id == old(self).next_id,
                old(self).base_wf(),
                forall|j: int|
                    0 <= j < i ==> self.snakes@[j] == (Snake {
                        move_timer: cadence_after(old(self).snakes@[j], delta_ms as int),
                        ..old(self).snakes@[j]
                    }),
                forall|j: int| i <= j < n ==> self.snakes@[j] == old(self).snakes@[j],
            decreases n - i,
        {
            let interval = self.snakes[i].interval_ms;
            let s = &mut self.snakes[i];
            s.move_timer.retarget(interval);
            s.move_timer.tick(delta_ms);
            i += 1;
        }
    }

    /// Look-ahead classification: each snake whose move timer just completed
    /// observes the cell one step ahead of its head (out of bounds reads as
    /// `Wall`). Empty and food leave it free to move, food additionally
    /// emits a growth signal; a head, a body segment or a wall blocks it.
    /// All snakes observe the same pre-move grid.
    #[verifier::loop_isolation(false)]
    pub fn snake_eat(&mut self) -> (growth: Vec<SnakeGrowthEvent>)
        requires
            old(self).base_wf(),
        ensures
            final(self).base_wf(),
            final(self).grid == old(self).grid,
            final(self).next_id == old(self).next_id,
            final(self).snakes@.len() == old(self).snakes@.len(),
            forall|i: int|
                0 <= i < old(self).snakes@.len() ==> final(self).snakes@[i] == (Snake {
                    blocked: eat_blocked(old(self).grid, old(self).snakes@[i]),
                    ..old(self).snakes@[i]
                }),
            growth@ == growth_events(old(self).grid, old(self).snakes@),
    {
        let mut growth: Vec<SnakeGrowthEvent> = Vec::new();
        let n = self.snakes.len();
        let mut i: usize = 0;
        while i < n
            invariant
                i <= n,
                n == self.snakes@.len() == old(self).snakes@.len(),
                self.grid == old(self).grid,
                self.next_id == old(self).next_id,
                old(self).base_wf(),
                forall|j: int|
                    0 <= j < i ==> self.snakes@[j] == (Snake {
                        blocked: eat_blocked(old(self).grid, old(self).snakes@[j]),
                        ..old(self).snakes@[j]
                    }),
                forall|j: int| i <= j < n ==> self.snakes@[j] == old(self).snakes@[j],
                growth@ == growth_events(old(self).grid, old(self).snakes@.subrange(0, i as int)),
            decreases n - i,
        {
            proof {
                assert(old(self).snakes@.subrange(0, i + 1).drop_last() =~= old(self).snakes@.subrange(0, i as int));
                assert(old(self).snakes@.subrange(0, i + 1).last() == old(self).snakes@[i as int]);
            }
            let just = self.snakes[i].move_timer.just_finished;
            if just {
                let pos = self.snakes[i].position;
                let dir = self.snakes[i].direction;
                let id = self.snakes[i].id;
                let ahead = match step(pos, dir) {
                    Some(nc) => match self.grid.get(nc) {
                        Some(c) => c,
                        None => Cell::Wall,
                    },
                    None => Cell::Wall,
                };
                let is_food = match ahead {
                    Cell::Food => true,
                    _ => false,
                };
                let blocked = match ahead {
                    Cell::Empty => false,
                    Cell::Food => false,
                    _ => true,
                };
                if is_food {
                    growth.push(SnakeGrowthEvent { snake: id });
                }
                let s = &mut self.snakes[i];
                s.blocked = blocked;
            }
            i += 1;
        }
        proof {
            assert(old(self).snakes@.subrange(0, n as int) =~= old(self).snakes@);
        }
        growth
    }

    /// Blocked-duration check: each blocked snake's death countdown advances
    /// by the tick's elapsed time; an unblocked snake's countdown decays by
    /// the same amount, clamped at zero and reset to "not finished". A snake
    /// whose countdown just completed emits one death signal.
    #[verifier::loop_isolation(false)]
    pub fn snake_blocked(&mut self, delta_ms: u64) -> (deaths: Vec<SnakeDiedEvent>)
        requires
            old(self).base_wf(),
            delta_ms <= MAX_TIME_MS,
        ensures
            final(self).base_wf(),
            final(self).grid == old(self).grid,
            final(self).next_id == old(self).next_id,
            final(self).snakes@.len() == old(self).snakes@.len(),
            forall|i: int|
                0 <= i < old(self).snakes@.len() ==> final(self).snakes@[i] == (Snake {
                    die_timer: countdown_after(old(self).snakes@[i], delta_ms as int),
                    ..old(self).snakes@[i]
                }),
            deaths@ == death_events(old(self).snakes@, delta_ms as int),
    {
        let mut deaths: Vec<SnakeDiedEvent> = Vec::new();
        let n = self.snakes.len();
        let mut i: usize = 0;
        while i < n
            invariant
                i <= n,
                n == self.snakes@.len() == old(self).snakes@.len(),
                self.grid == old(self).grid,
                self.next_id == old(self).next_id,
                old(self).base_wf(),
                forall|j: int|
                    0 <= j < i ==> self.snakes@[j] == (Snake {
                        die_timer: countdown_after(old(self).snakes@[j], delta_ms as int),
                        ..old(self).snakes@[j]
                    }),
                forall|j: int| i <= j < n ==> self.snakes@[j] == old(self).snakes@[j],
                deaths@ == death_events(old(self).snakes@.subrange(0, i as int), delta_ms as int),
            decreases n - i,
        {
            proof {
                assert(old(self).snakes@.subrange(0, i + 1).drop_last() =~= old(self).snakes@.subrange(0, i as int));
                assert(old(self).snakes@.subrange(0, i + 1).last() == old(self).snakes@[i as int]);
            }
            let blocked = self.snakes[i].blocked;
            let id = self.snakes[i].id;
            let s = &mut self.snakes[i];
            if blocked {
                s.die_timer.tick(delta_ms);
            } else {
                s.die_timer.decay(delta_ms);
            }
            let fired = s.die_timer.just_finished;
            if fired {
                deaths.push(SnakeDiedEvent { snake: id });
            }
            i += 1;
        }
        proof {
            assert(old(self).snakes@.subrange(0, n as int) =~= old(self).snakes@);
        }
        deaths
    }

    /// Growth application: the snake named by one growth signal gains exactly
    /// one unit of target length; no snake's length ever decreases and no
    /// other state changes.
    #[verifier::loop_isolation(false)]
    pub fn snake_grow(&mut self, ev: &SnakeGrowthEvent)
        requires
            old(self).base_wf(),
            exists|i: int|
                0 <= i < old(self).snakes@.len() && (#[trigger] old(self).snakes@[i]).id
                    == ev.snake,
            forall|i: int|
                0 <= i < old(self).snakes@.len() && (#[trigger] old(self).snakes@[i]).id
                    == ev.snake ==> old(self).snakes@[i].length < usize::MAX,
        ensures
            final(self).base_wf(),
            final(self).grid == old(self).grid,
            final(self).next_id == old(self).next_id,
            final(self).snakes@.len() == old(self).snakes@.len(),
            forall|i: int|
                0 <= i < old(self).snakes@.len() ==> final(self).snakes@[i] == (
                if old(self).snakes@[i].id == ev.snake {
                    Snake { length: (old(self).snakes@[i].length + 1) as usize, ..old(self).snakes@[i] }
                } else {
                    old(self).snakes@[i]
                }),
            old(self).wf() ==> final(self).wf(),
    {
        let n = self.snakes.len();
        let mut i: usize = 0;
        while i < n
            invariant
                i <= n,
                n == self.snakes@.len() == old(self).snakes@.len(),
                *self == *old(self),
                forall|j: int|
                    0 <= j < i ==> (#[trigger] old(self).snakes@[j]).id != ev.snake,
            decreases n - i,
        {
            if self.snakes[i].id.0 == ev.snake.0 {
                proof {
                    assert(old(self).snakes@[i as int].id == ev.snake);
                }
                let s = &mut self.snakes[i];
                s.length = s.length + 1;
                return ;
            }
            i += 1;
        }
        proof {
            assert(false);
        }
    }

    /// Input handling for the player-controlled snake: the candidate heading
    /// (the last direction key newly pressed this tick, if any) replaces the
    /// current one unless the cell one step that way is the snake's own neck;
    /// the held speed modifier selects between the fast and the normal
    /// movement cadence.
    #[verifier::loop_isolation(false)]
    pub fn snake_input(&mut self, input_dir: Option<Dir>, fast: bool)
        requires
            old(self).base_wf(),
        ensures
            final(self).base_wf(),
            final(self).grid == old(self).grid,
            final(self).next_id == old(self).next_id,
            final(self).snakes@.len() == old(self).snakes@.len(),
            forall|i: int|
                0 <= i < old(self).snakes@.len() && !is_first_player(old(self).snakes@, i)
                    ==> final(self).snakes@[i] == old(self).snakes@[i],
            forall|i: int|
                is_first_player(old(self).snakes@, i) ==> final(self).snakes@[i] == (Snake {
                    direction: new_heading(old(self).grid, old(self).snakes@[i], input_dir),
                    interval_ms: (if fast {
                        FAST_INTERVAL_MS
                    } else {
                        NORMAL_INTERVAL_MS
                    }),
                    ..old(self).snakes@[i]
                }),
    {
        let n = self.snakes.len();
        let mut i: usize = 0;
        while i < n
            invariant
                i <= n,
                n == self.snakes@.len(),
                *self == *old(self),
                forall|j: int| 0 <= j < i ==> !(#[trigger] old(self).snakes@[j]).player,
            decreases n - i,
        {
            if self.snakes[i].player {
                let pos = self.snakes[i].position;
                let id = self.snakes[i].id;
                let dir = match input_dir {
                    Some(d) => {
                        let reject = match step(pos, d) {
                            Some(nc) => match self.grid.get(nc) {
                                Some(c) => c == Cell::Body(id, pos),
                                None => false,
                            },
                            None => false,
                        };
                        if reject {
                            self.snakes[i].direction
                        } else {
                            d
                        }
                    },
                    None => self.snakes[i].direction,
                };
                let interval = if fast {
                    FAST_INTERVAL_MS
                } else {
                    NORMAL_INTERVAL_MS
                };
                let s = &mut self.snakes[i];
                s.direction = dir;
                s.interval_ms = interval;
                return ;
            }
            i += 1;
        }
    }

    /// Commit phase for the snake at index `i`: if its move timer just
    /// completed and it is not blocked, the target cell becomes its new head,
    /// the old head becomes a body segment pointing at it, and — once the
    /// chain has reached its target length — the oldest segment is dropped
    /// and cleared. All writes land exactly as stated whenever the snake's
    /// chain is intact and the target cell really is free.
    #[verifier::loop_isolation(false)]
    #[verifier::rlimit(40)]
    fn commit_move(&mut self, i: usize)
        requires
            old(self).base_wf(),
            i < old(self).snakes@.len(),
        ensures
            final(self).base_wf(),
            final(self).next_id == old(self).next_id,
            final(self).snakes@.len() == old(self).snakes@.len(),
            final(self).grid.spec_width() == old(self).grid.spec_width(),
            final(self).grid.spec_height() == old(self).grid.spec_height(),
            forall|j: int|
                0 <= j < old(self).snakes@.len() && j != i ==> final(self).snakes@[j] == old(self).snakes@[j],
            !moves(old(self).snakes@[i as int]) ==> *final(self) == *old(self),
            ({
                let s = old(self).snakes@[i as int];
                moves(s) && s.chain_wf(old(self).grid) && commit_ok(old(self).grid, s) ==> {
                    &&& moved_fields(s, final(self).snakes@[i as int])
                    &&& final(self).snakes@[i as int].chain_wf(final(self).grid)
                    &&& commit_writes(old(self).grid, s, final(self).grid)
                }
            }),
    {
        let just = self.snakes[i].move_timer.just_finished;
        let blocked = self.snakes[i].blocked;
        if !just || blocked {
            return ;
        }
        let pos = self.snakes[i].position;
        let dir = self.snakes[i].direction;
        let id = self.snakes[i].id;
        let ghost s0 = old(self).snakes@[i as int];
        let ghost good = moves(s0) && s0.chain_wf(old(self).grid) && commit_ok(
            old(self).grid,
            s0,
        );
        match step(pos, dir) {
            None => {},
            Some(next) => {
                self.grid.set(next, Cell::Head(id));
                self.grid.set(pos, Cell::Body(id, next));
                let sr = &mut self.snakes[i];
                sr.body.push(next);
                sr.position = next;
                let blen = sr.body.len();
                let target = sr.length;
                if blen > target {
                    let dropped = sr.body.remove(0);
                    let new_tail = sr.body[0];
                    sr.tail = new_tail;
                    self.grid.set(dropped, Cell::Empty);
                    proof {
                        if good {
                            assert(s0.body@.push(next).remove(0) =~= moved_body(
                                s0.body@,
                                s0.length as int,
                                next,
                            ));
                        }
                    }
                } else {
                }
                proof {
                    if good {
                        let n = move_target(s0);
                        assert(n == next);
                        let nb = moved_body(s0.body@, s0.length as int, n);
                        let fs = self.snakes@[i as int];
                        assert(fs.body@ == nb);
                        assert(moved_fields(s0, fs));
                        lemma_moved_chain_cells(*old(self), *self, i as int);
                    }
                }
            },
        }
    }

    /// Commit phase over all snakes, in spawn order: every snake whose move
    /// timer just completed and that is unblocked advances one cell. When the
    /// whole simulation is well formed and the tick is free of write
    /// conflicts, well-formedness is preserved, every mover advances exactly
    /// as `moved_fields` states, and no cell outside the movers' write sets
    /// changes.
    #[verifier::loop_isolation(false)]
    #[verifier::rlimit(60)]
    pub fn snake_move(&mut self)
        requires
            old(self).base_wf(),
        ensures
            final(self).base_wf(),
            final(self).next_id == old(self).next_id,
            final(self).snakes@.len() == old(self).snakes@.len(),
            final(self).grid.spec_width() == old(self).grid.spec_width(),
            final(self).grid.spec_height() == old(self).grid.spec_height(),
            forall|j: int|
                0 <= j < old(self).snakes@.len() && !moves(old(self).snakes@[j]) ==> final(self).snakes@[j] == old(self).snakes@[j],
            old(self).wf() && move_compat(*old(self)) ==> {
                &&& final(self).wf()
                &&& (forall|j: int|
                    0 <= j < old(self).snakes@.len() && moves(old(self).snakes@[j])
                        ==> moved_fields(old(self).snakes@[j], final(self).snakes@[j]))
                &&& (forall|c: Coord|
                    old(self).grid.in_bounds(c.x as int, c.y as int) && (forall|j: int|
                        0 <= j < old(self).snakes@.len() ==> !move_touches(
                            old(self).snakes@[j],
                            c,
                        )) ==> final(self).grid.cell_at(c.x as int, c.y as int) == old(self).grid.cell_at(c.x as int, c.y as int))
            },
    {
        let ghost compat = old(self).wf() && move_compat(*old(self));
        let n = self.snakes.len();
        let mut i: usize = 0;
        while i < n
            invariant
                i <= n,
                n == self.snakes@.len() == old(self).snakes@.len(),
                self.next_id == old(self).next_id,
                self.base_wf(),
                self.grid.spec_width() == old(self).grid.spec_width(),
                self.grid.spec_height() == old(self).grid.spec_height(),
                forall|j: int| i <= j < n ==> self.snakes@[j] == old(self).snakes@[j],
                forall|j: int|
                    0 <= j < i && !moves(old(self).snakes@[j]) ==> self.snakes@[j] == old(self).snakes@[j],
                compat ==> {
                    &&& (forall|j: int|
                        0 <= j < i && moves(old(self).snakes@[j]) ==> moved_fields(
                            old(self).snakes@[j],
                            self.snakes@[j],
                        ))
                    &&& (forall|j: int|
                        0 <= j < n ==> (#[trigger] self.snakes@[j]).chain_wf(self.grid))
                    &&& (forall|j: int|
                        i <= j < n && moves(old(self).snakes@[j]) ==> commit_ok(
                            self.grid,
                            old(self).snakes@[j],
                        ))
                    &&& (forall|c: Coord|
                        old(self).grid.in_bounds(c.x as int, c.y as int) && (forall|j: int|
                            0 <= j < i ==> !move_touches(old(self).snakes@[j], c)) ==> self.grid.cell_at(
                            c.x as int,
                            c.y as int,
                        ) == old(self).grid.cell_at(c.x as int, c.y as int))
                },
            decreases n - i,
        {
            let ghost pre = *self;
            self.commit_move(i);
            proof {
                if compat {
                    let si = old(self).snakes@[i as int];
                    assert(pre.snakes@[i as int] == si);
                    if moves(si) {
                        assert(si.chain_wf(pre.grid));
                        assert(commit_ok(pre.grid, si));
                        assert(moved_fields(si, self.snakes@[i as int]));
                        let tgt = move_target(si);
                        assert forall|j: int|
                            0 <= j < n && j != i as int implies (
                        #[trigger] self.snakes@[j]).chain_wf(self.grid) by {
                            let t = pre.snakes@[j];
                            assert(self.snakes@[j] == t);
                            assert(t.chain_wf(pre.grid));
                            lemma_chains_disjoint(pre.grid, t, pre.snakes@[i as int]);
                            assert forall|m: int| 0 <= m < t.body@.len() implies self.grid.cell_at(
                                (#[trigger] t.body@[m]).x as int,
                                t.body@[m].y as int,
                            ) == pre.grid.cell_at(t.body@[m].x as int, t.body@[m].y as int) by {
                                assert(t.body@[m] != tgt) by {
                                    if m < t.body@.len() - 1 {
                                        assert(pre.grid.cell_at(t.body@[m].x as int, t.body@[m].y as int)
                                            == Cell::Body(t.id, t.body@[m + 1]));
                                    } else {
                                        assert(pre.grid.cell_at(t.body@[m].x as int, t.body@[m].y as int)
                                            == Cell::Head(t.id));
                                    }
                                }
                            }
                        }
                        assert forall|j: int|
                            i + 1 <= j < n && moves(old(self).snakes@[j]) implies commit_ok(
                            self.grid,
                            old(self).snakes@[j],
                        ) by {
                            let t = old(self).snakes@[j];
                            let tn = move_target(t);
                            assert(commit_ok(pre.grid, t));
                            assert(tn != tgt);
                            assert(tn != si.position) by {
                                assert(pre.grid.cell_at(si.position.x as int, si.position.y as int)
                                    == Cell::Head(si.id));
                                assert(!blocks(pre.grid.cell_at(tn.x as int, tn.y as int)));
                            }
                            if drops_tail(si) {
                                assert(tn != si.body@[0]) by {
                                    if si.body@.len() > 1 {
                                        assert(pre.grid.cell_at(si.body@[0].x as int, si.body@[0].y as int)
                                            == Cell::Body(si.id, si.body@[1]));
                                    } else {
                                        assert(si.body@[0] == si.position);
                                    }
                                    assert(!blocks(pre.grid.cell_at(tn.x as int, tn.y as int)));
                                }
                            }
                        }
                    } else {
                        assert(*self == pre);
                    }
                }
            }
            i += 1;
        }
    }

    /// Death resolution for the snake at `idx`: every coordinate of its body
    /// chain is cleared, then `length / 3` of the vacated cells (fewer only
    /// if the recorded chain is shorter) are chosen without replacement,
    /// spread by the random draw `seed`, and set to `Food`; the snake is
    /// removed from the simulation.
    #[verifier::loop_isolation(false)]
    #[verifier::rlimit(40)]
    pub fn snake_die_at(&mut self, idx: usize, seed: u64)
        requires
            old(self).base_wf(),
            idx < old(self).snakes@.len(),
        ensures
            final(self).base_wf(),
            final(self).next_id == old(self).next_id,
            final(self).snakes@ == old(self).snakes@.remove(idx as int),
            final(self).grid.spec_width() == old(self).grid.spec_width(),
            final(self).grid.spec_height() == old(self).grid.spec_height(),
            old(self).snakes@[idx as int].body@.no_duplicates() ==> scatter_post(
                *old(self),
                idx as int,
                *final(self),
            ),
            old(self).wf() ==> final(self).wf(),
    {
        let s = self.snakes.remove(idx);
        let ghost b = s.body@;
        let blen = s.body.len();
        let mut j: usize = 0;
        while j < blen
            invariant
                j <= blen,
                self.grid.wf(),
                self.grid.spec_width() == old(self).grid.spec_width(),
                self.grid.spec_height() == old(self).grid.spec_height(),
                self.snakes@ == old(self).snakes@.remove(idx as int),
                self.next_id == old(self).next_id,
                forall|c: Coord|
                    old(self).grid.in_bounds(c.x as int, c.y as int)
                        ==> self.grid.cell_at(c.x as int, c.y as int) == (
                    if (exists|m: int| 0 <= m < j && b[m] == c) {
                        Cell::Empty
                    } else {
                        old(self).grid.cell_at(c.x as int, c.y as int)
                    }),
            decreases blen - j,
        {
            self.grid.set(s.body[j], Cell::Empty);
            j += 1;
        }
        let k0 = s.length / 3;
        let k = if k0 < blen {
            k0
        } else {
            blen
        };
        let mut v = s.body;
        let mut state = seed;
        let mut t: usize = 0;
        while t < k
            invariant
                t <= k,
                k <= blen,
                v@.len() == blen == b.len(),
                self.grid.wf(),
                self.grid.spec_width() == old(self).grid.spec_width(),
                self.grid.spec_height() == old(self).grid.spec_height(),
                self.snakes@ == old(self).snakes@.remove(idx as int),
                self.next_id == old(self).next_id,
                forall|m: int| 0 <= m < v@.len() ==> b.contains(#[trigger] v@[m]),
                b.no_duplicates() ==> v@.no_duplicates(),
                b.no_duplicates() ==> forall|c: Coord|
                    old(self).grid.in_bounds(c.x as int, c.y as int)
                        ==> self.grid.cell_at(c.x as int, c.y as int) == (
                    if v@.subrange(0, t as int).contains(c) {
                        Cell::Food
                    } else if b.contains(c) {
                        Cell::Empty
                    } else {
                        old(self).grid.cell_at(c.x as int, c.y as int)
                    }),
            decreases k - t,
        {
            state = next_rand(state);
            let r = (state % ((blen - t) as u64)) as usize;
            let j2 = t + r;
            let ghost v0 = v@;
            let a = v[t];
            let bb = v[j2];
            v.set(t, bb);
            v.set(j2, a);
            proof {
                lemma_swap_keeps_elements(v0, t as int, j2 as int);
                assert(v@ == v0.update(t as int, v0[j2 as int]).update(j2 as int, v0[t as int]));
                assert(v@.subrange(0, t as int) =~= v0.subrange(0, t as int));
            }
            self.grid.set(v[t], Cell::Food);
            proof {
                if b.no_duplicates() {
                    assert(v@.subrange(0, t + 1) =~= v@.subrange(0, t as int).push(v@[t as int]));
                    assert forall|c: Coord|
                        old(self).grid.in_bounds(c.x as int, c.y as int) implies self.grid.cell_at(
                        c.x as int,
                        c.y as int,
                    ) == (if v@.subrange(0, t + 1).contains(c) {
                        Cell::Food
                    } else if b.contains(c) {
                        Cell::Empty
                    } else {
                        old(self).grid.cell_at(c.x as int, c.y as int)
                    }) by {
                        if c == v@[t as int] {
                            assert(v@.subrange(0, t + 1).last() == c);
                            assert(v@.subrange(0, t + 1).contains(c));
                        } else {
                            assert(v@.subrange(0, t + 1).contains(c) == v@.subrange(
                                0,
                                t as int,
                            ).contains(c)) by {
                                if v@.subrange(0, t + 1).contains(c) {
                                    let m = choose|m: int|
                                        0 <= m < t + 1 && #[trigger] v@.subrange(0, t + 1)[m]
                                            == c;
                                    assert(v@.subrange(0, t as int)[m] == c);
                                } else if v@.subrange(0, t as int).contains(c) {
                                    let m = choose|m: int|
                                        0 <= m < t && #[trigger] v@.subrange(0, t as int)[m]
                                            == c;
                                    assert(v@.subrange(0, t + 1)[m] == c);
                                }
                            }
                        }
                    }
                }
            }
            t += 1;
        }
        proof {
            if b.no_duplicates() {
                let picked = v@.subrange(0, k as int);
                assert(picked.no_duplicates()) by {
                    assert(v@.no_duplicates());
                }
                assert forall|m: int| 0 <= m < picked.len() implies b.contains(
                    #[trigger] picked[m],
                ) by {
                    assert(picked[m] == v@[m]);
                }
                assert(scatter_post(*old(self), idx as int, *self));
            }
            if old(self).wf() {
                let dead = old(self).snakes@[idx as int];
                assert forall|i: int| 0 <= i < self.snakes@.len() implies (
                #[trigger] self.snakes@[i]).chain_wf(self.grid) by {
                    let oi: int = if i < idx {
                        i
                    } else {
                        i + 1
                    };
                    let t2 = old(self).snakes@[oi];
                    assert(self.snakes@[i] == t2);
                    assert(t2.chain_wf(old(self).grid));
                    lemma_chains_disjoint(old(self).grid, t2, dead);
                    assert forall|m: int| 0 <= m < t2.body@.len() implies self.grid.cell_at(
                        (#[trigger] t2.body@[m]).x as int,
                        t2.body@[m].y as int,
                    ) == old(self).grid.cell_at(t2.body@[m].x as int, t2.body@[m].y as int) by {
                        assert(!b.contains(t2.body@[m]));
                        assert(!v@.subrange(0, k as int).contains(t2.body@[m]));
                    }
                }
            }
        }
    }

    /// Death resolution for one death signal; the signal must name a live
    /// snake (a stale id is a programming error, not a runtime condition).
    #[verifier::loop_isolation(false)]
    pub fn snake_die(&mut self, ev: &SnakeDiedEvent, seed: u64)
        requires
            old(self).base_wf(),
            exists|i: int|
                0 <= i < old(self).snakes@.len() && (#[trigger] old(self).snakes@[i]).id
                    == ev.snake,
        ensures
            final(self).base_wf(),
            final(self).next_id == old(self).next_id,
            ({
                let idx = index_of_id(old(self).snakes@, ev.snake);
                &&& final(self).snakes@ == old(self).snakes@.remove(idx)
                &&& final(self).grid.spec_width() == old(self).grid.spec_width()
                &&& final(self).grid.spec_height() == old(self).grid.spec_height()
                &&& (old(self).snakes@[idx].body@.no_duplicates() ==> scatter_post(
                    *old(self),
                    idx,
                    *final(self),
                ))
                &&& (old(self).wf() ==> final(self).wf())
            }),
    {
        let n = self.snakes.len();
        let mut i: usize = 0;
        while i < n
            invariant
                i <= n,
                n == self.snakes@.len(),
                *self == *old(self),
                forall|j: int| 0 <= j < i ==> (#[trigger] old(self).snakes@[j]).id != ev.snake,
            decreases n - i,
        {
            if self.snakes[i].id.0 == ev.snake.0 {
                proof {
                    let idx = index_of_id(old(self).snakes@, ev.snake);
                    assert(old(self).snakes@[i as int].id == ev.snake);
                    assert(0 <= idx < old(self).snakes@.len() && old(self).snakes@[idx].id
                        == ev.snake);
                    if idx < i as int {
                        assert(old(self).snakes@[idx].id != old(self).snakes@[i as int].id);
                    } else if idx > i as int {
                        assert(old(self).snakes@[i as int].id != old(self).snakes@[idx].id);
                    }
                    assert(idx == i as int);
                }
                self.snake_die_at(i, seed);
                return ;
            }
            i += 1;
        }
        proof {
            assert(false);
        }
    }
}

/// A snake attempts to move this tick: its move timer just completed and
/// look-ahead classification left it unblocked.
pub open spec fn moves(s: Snake) -> bool {
    s.move_timer.just_finished && !s.blocked
}

/// The cell a moving snake's head enters; meaningful whenever that
/// coordinate is representable (it always is for an in-bounds head).
pub open spec fn move_target(s: Snake) -> Coord {
    Coord {
        x: (s.position.x + dir_dx(s.direction)) as i32,
        y: (s.position.y + dir_dy(s.direction)) as i32,
    }
}

/// A commit is clean for this snake: the cell ahead is representable,
/// in bounds, and does not block (it was `Empty` or `Food`).
pub open spec fn commit_ok(g: Grid, s: Snake) -> bool {
    match step_spec(s.position, s.direction) {
        Some(n) => g.in_bounds(n.x as int, n.y as int) && !blocks(
            g.cell_at(n.x as int, n.y as int),
        ),
        None => false,
    }
}

/// The commit drops the oldest segment: the chain already has its target
/// number of cells, so gaining a head loses the tail.
pub open spec fn drops_tail(s: Snake) -> bool {
    s.body@.len() + 1 > s.length
}

/// The body sequence after a commit: the new head is appended and, once the
/// chain exceeds the target length, the oldest segment is dropped.
pub open spec fn moved_body(b: Seq<Coord>, len: int, n: Coord) -> Seq<Coord> {
    let b2 = b.push(n);
    if b2.len() > len {
        b2.subrange(1, b2.len() as int)
    } else {
        b2
    }
}

/// A commit writes to at most three cells: the entered cell, the old head
/// cell, and (when the tail shrinks) the vacated tail cell.
pub open spec fn move_touches(s: Snake, c: Coord) -> bool {
    moves(s) && (c == move_target(s) || c == s.position || (drops_tail(s) && c == s.body@[0]))
}

/// Pointwise description of the grid after one snake's commit: the entered
/// cell holds its head, the vacated tail (if any) is empty, the old head
/// cell links to the new one, and every other cell is untouched.
pub open spec fn commit_writes(pre: Grid, s: Snake, post: Grid) -> bool {
    forall|c: Coord|
        pre.in_bounds(c.x as int, c.y as int) ==> post.cell_at(c.x as int, c.y as int) == (
        if c == move_target(s) {
            Cell::Head(s.id)
        } else if drops_tail(s) && c == s.body@[0] {
            Cell::Empty
        } else if c == s.position {
            Cell::Body(s.id, move_target(s))
        } else {
            pre.cell_at(c.x as int, c.y as int)
        })
}

/// Field-level relation between a snake before and after its commit: the
/// head advances to the target, the body follows, the tail is the oldest
/// surviving segment, and everything else is untouched.
pub open spec fn moved_fields(s: Snake, t: Snake) -> bool {
    let n = move_target(s);
    let nb = moved_body(s.body@, s.length as int, n);
    &&& t.body@ == nb
    &&& t.position == n
    &&& t.tail == nb[0]
    &&& t.id == s.id
    &&& t.length == s.length
    &&& t.direction == s.direction
    &&& t.level == s.level
    &&& t.player == s.player
    &&& t.interval_ms == s.interval_ms
    &&& t.blocked == s.blocked
    &&& t.move_timer == s.move_timer
    &&& t.die_timer == s.die_timer
}

/// The commit phase is free of write conflicts: every moving snake's target
/// is in bounds and unblocked on the pre-move grid, and no two moving snakes
/// target the same cell. Under these conditions the pre-move classification
/// is still valid when each commit executes.
pub open spec fn move_compat(sim: Simulation) -> bool {
    &&& forall|i: int|
        0 <= i < sim.snakes@.len() && moves(#[trigger] sim.snakes@[i]) ==> commit_ok(
            sim.grid,
            sim.snakes@[i],
        )
    &&& forall|i: int, j: int|
        0 <= i < sim.snakes@.len() && 0 <= j < sim.snakes@.len() && i != j && moves(
            sim.snakes@[i],
        ) && moves(sim.snakes@[j]) ==> move_target(sim.snakes@[i]) != move_target(sim.snakes@[j])
}

/// The index of the live snake carrying `id` (unique while ids are distinct).
pub open spec fn index_of_id(snakes: Seq<Snake>, id: SnakeId) -> int {
    choose|i: int| 0 <= i < snakes.len() && snakes[i].id == id
}

/// How many of a dying snake's vacated cells become food: `length / 3`,
/// clamped to the number of cells its chain actually occupied.
pub open spec fn scatter_count(s: Snake) -> int {
    let k = s.length as int / 3;
    if k < s.body@.len() {
        k
    } else {
        s.body@.len() as int
    }
}

/// After death resolution of the snake at `idx` of `pre`: some set of
/// `scatter_count` distinct cells of its vacated chain holds `Food`, every
/// other chain cell is `Empty`, and all other cells are untouched.
pub open spec fn scatter_post(pre: Simulation, idx: int, post: Simulation) -> bool {
    let b = pre.snakes@[idx].body@;
    exists|picked: Seq<Coord>|
        {
            &&& picked.no_duplicates()
            &&& picked.len() == scatter_count(pre.snakes@[idx])
            &&& (forall|m: int| 0 <= m < picked.len() ==> b.contains(#[trigger] picked[m]))
            &&& (forall|c: Coord|
                pre.grid.in_bounds(c.x as int, c.y as int) ==> post.grid.cell_at(
                    c.x as int,
                    c.y as int,
                ) == (if picked.contains(c) {
                    Cell::Food
                } else if b.contains(c) {
                    Cell::Empty
                } else {
                    pre.grid.cell_at(c.x as int, c.y as int)
                }))
        }
}

/// One step of a 64-bit linear congruential generator, used to spread the
/// scattered food across a dying snake's vacated cells.
fn next_rand(state: u64) -> u64 {
    state.wrapping_mul(6364136223846793005).wrapping_add(1442695040888963407)
}

/// Cells of two well-formed chains of distinct snakes never coincide: every
/// chain cell records its owner's id in the grid.
pub proof fn lemma_chains_disjoint(g: Grid, a: Snake, b: Snake)
    requires
        a.chain_wf(g),
        b.chain_wf(g),
        a.id != b.id,
    ensures
        forall|m: int, k: int|
            0 <= m < a.body@.len() && 0 <= k < b.body@.len() ==> a.body@[m] != b.body@[k],
{
    assert forall|m: int, k: int|
        0 <= m < a.body@.len() && 0 <= k < b.body@.len() implies a.body@[m] != b.body@[k] by {
        if a.body@[m] == b.body@[k] {
            let c = a.body@[m];
            let ca = g.cell_at(c.x as int, c.y as int);
            if m < a.body@.len() - 1 {
                assert(ca == Cell::Body(a.id, a.body@[m + 1]));
            } else {
                assert(c == a.position);
                assert(ca == Cell::Head(a.id));
            }
            if k < b.body@.len() - 1 {
                assert(ca == Cell::Body(b.id, b.body@[k + 1]));
            } else {
                assert(c == b.position);
                assert(ca == Cell::Head(b.id));
            }
        }
    }
}

/// After a clean commit by the snake at `i`, its new chain is mirrored by
/// the grid: the proof walks the new body cell by cell against the three
/// writes of the commit.
#[verifier::rlimit(100)]
#[verifier::spinoff_prover]
proof fn lemma_moved_chain_cells(pre: Simulation, post: Simulation, i: int)
    requires
        0 <= i < pre.snakes@.len(),
        pre.snakes@.len() == post.snakes@.len(),
        pre.grid.wf(),
        post.grid.wf(),
        pre.grid.spec_width() == post.grid.spec_width(),
        pre.grid.spec_height() == post.grid.spec_height(),
        moves(pre.snakes@[i]),
        pre.snakes@[i].chain_wf(pre.grid),
        commit_ok(pre.grid, pre.snakes@[i]),
        moved_fields(pre.snakes@[i], post.snakes@[i]),
        commit_writes(pre.grid, pre.snakes@[i], post.grid),
    ensures
        post.snakes@[i].chain_wf(post.grid),
{
    let s = pre.snakes@[i];
    let b = s.body@;
    let n = move_target(s);
    let nb = moved_body(b, s.length as int, n);
    let fs = post.snakes@[i];
    lemma_target_fresh(pre.grid, s);
    lemma_moved_body_shape(b, s.length as int, n);
    assert forall|m: int| 0 <= m < nb.len() - 1 implies post.grid.cell_at(
        (#[trigger] nb[m]).x as int,
        nb[m].y as int,
    ) == Cell::Body(fs.id, nb[m + 1]) by {
        lemma_moved_cell(pre, post, i, m);
    }
    assert(nb[nb.len() - 1] == n);
    assert(post.grid.cell_at(n.x as int, n.y as int) == Cell::Head(s.id));
}

/// Shape of the body sequence after a commit: an index map onto the old body
/// plus the new head, with no duplicates when the old body is fresh of the
/// target and duplicate-free.
proof fn lemma_moved_body_shape(b: Seq<Coord>, len: int, n: Coord)
    requires
        b.len() >= 1,
    ensures
        ({
            let nb = moved_body(b, len, n);
            let off: int = if b.len() + 1 > len {
                1
            } else {
                0
            };
            &&& nb.len() == b.len() + 1 - off
            &&& nb[nb.len() - 1] == n
            &&& (forall|m: int| 0 <= m < nb.len() - 1 ==> nb[m] == b[m + off])
            &&& (b.no_duplicates() && (forall|m: int| 0 <= m < b.len() ==> b[m] != n)
                ==> nb.no_duplicates())
        }),
{
    let nb = moved_body(b, len, n);
    let off: int = if b.len() + 1 > len {
        1
    } else {
        0
    };
    if b.no_duplicates() && (forall|m: int| 0 <= m < b.len() ==> b[m] != n) {
        assert forall|p: int, q: int|
            0 <= p < nb.len() && 0 <= q < nb.len() && p != q implies nb[p] != nb[q] by {
            assert(nb[p] == (if p < nb.len() - 1 {
                b[p + off]
            } else {
                n
            }));
            assert(nb[q] == (if q < nb.len() - 1 {
                b[q + off]
            } else {
                n
            }));
        }
    }
}

/// One interior cell of the new chain after a clean commit holds the body
/// link to its successor.
proof fn lemma_moved_cell(pre: Simulation, post: Simulation, i: int, m: int)
    requires
        0 <= i < pre.snakes@.len(),
        pre.grid.wf(),
        post.grid.wf(),
        pre.grid.spec_width() == post.grid.spec_width(),
        pre.grid.spec_height() == post.grid.spec_height(),
        moves(pre.snakes@[i]),
        pre.snakes@[i].chain_wf(pre.grid),
        commit_ok(pre.grid, pre.snakes@[i]),
        commit_writes(pre.grid, pre.snakes@[i], post.grid),
        0 <= m < moved_body(
            pre.snakes@[i].body@,
            pre.snakes@[i].length as int,
            move_target(pre.snakes@[i]),
        ).len() - 1,
    ensures
        ({
            let s = pre.snakes@[i];
            let nb = moved_body(s.body@, s.length as int, move_target(s));
            post.grid.cell_at(nb[m].x as int, nb[m].y as int) == Cell::Body(s.id, nb[m + 1])
        }),
{
    let s = pre.snakes@[i];
    let b = s.body@;
    let n = move_target(s);
    let nb = moved_body(b, s.length as int, n);
    lemma_target_fresh(pre.grid, s);
    lemma_moved_body_shape(b, s.length as int, n);
    let off: int = if drops_tail(s) {
        1
    } else {
        0
    };
    assert(nb[m] == b[m + off]);
    if m + off < b.len() - 1 {
        assert(nb[m + 1] == b[m + off + 1]);
        assert(nb[m] != n);
        assert(nb[m] != s.position);
        if drops_tail(s) {
            assert(nb[m] != b[0]);
        }
        assert(post.grid.cell_at(nb[m].x as int, nb[m].y as int) == pre.grid.cell_at(
            nb[m].x as int,
            nb[m].y as int,
        ));
        assert(pre.grid.cell_at(nb[m].x as int, nb[m].y as int) == Cell::Body(
            s.id,
            b[m + off + 1],
        ));
    } else {
        assert(nb[m] == b[b.len() - 1]);
        assert(nb[m] == s.position);
        assert(nb[m + 1] == n);
        if drops_tail(s) && b.len() > 1 {
            assert(s.position != b[0]);
        }
    }
}

/// The cell a clean commit enters held `Empty` or `Food`, so it is none of
/// the snake's own chain cells.
proof fn lemma_target_fresh(g: Grid, s: Snake)
    requires
        g.wf(),
        s.chain_wf(g),
        commit_ok(g, s),
    ensures
        forall|m: int| 0 <= m < s.body@.len() ==> s.body@[m] != move_target(s),
{
    let b = s.body@;
    let n = move_target(s);
    assert(!blocks(g.cell_at(n.x as int, n.y as int)));
    assert forall|m: int| 0 <= m < b.len() implies b[m] != n by {
        if m < b.len() - 1 {
            assert(g.cell_at(b[m].x as int, b[m].y as int) == Cell::Body(s.id, b[m + 1]));
        } else {
            assert(g.cell_at(b[m].x as int, b[m].y as int) == Cell::Head(s.id));
        }
    }
}

/// Swapping two entries of a sequence keeps its elements and its freedom
/// from duplicates.
proof fn lemma_swap_keeps_elements(v: Seq<Coord>, t: int, j: int)
    requires
        0 <= t < v.len(),
        0 <= j < v.len(),
    ensures
        ({
            let w = v.update(t, v[j]).update(j, v[t]);
            &&& w.len() == v.len()
            &&& (forall|m: int| 0 <= m < w.len() ==> v.contains(#[trigger] w[m]))
            &&& (v.no_duplicates() ==> w.no_duplicates())
        }),
{
    let w = v.update(t, v[j]).update(j, v[t]);
    assert forall|m: int| 0 <= m < w.len() implies v.contains(#[trigger] w[m]) by {
        if m == j {
            assert(w[m] == v[t]);
        } else if m == t {
            assert(w[m] == v[j]);
        } else {
            assert(w[m] == v[m]);
        }
    }
    if v.no_duplicates() {
        assert forall|p: int, q: int|
            0 <= p < w.len() && 0 <= q < w.len() && p != q implies w[p] != w[q] by {
            let p2: int = if p == j {
                t
            } else if p == t {
                j
            } else {
                p
            };
            let q2: int = if q == j {
                t
            } else if q == t {
                j
            } else {
                q
            };
            assert(w[p] == v[p2]);
            assert(w[q] == v[q2]);
        }
    }
}

/// The coordinates reachable in the grid from `start` by following `Body`
/// successor pointers of snake `id` up to a `Head` cell, walking at most
/// `fuel` cells.
pub open spec fn chain_from(g: Grid, start: Coord, id: SnakeId, fuel: nat) -> Seq<Coord>
    decreases fuel,
{
    if fuel == 0 {
        Seq::empty()
    } else if !g.in_bounds(start.x as int, start.y as int) {
        Seq::empty()
    } else {
        match g.cell_at(start.x as int, start.y as int) {
            Cell::Head(h) => if h == id {
                seq![start]
            } else {
                Seq::empty()
            },
            Cell::Body(o, succ) => if o == id {
                seq![start] + chain_from(g, succ, id, (fuel - 1) as nat)
            } else {
                Seq::empty()
            },
            _ => Seq::empty(),
        }
    }
}

proof fn lemma_chain_suffix(g: Grid, s: Snake, i: int)
    requires
        s.chain_wf(g),
        0 <= i < s.body@.len(),
    ensures
        chain_from(g, s.body@[i], s.id, (s.body@.len() - i) as nat) == s.body@.subrange(
            i,
            s.body@.len() as int,
        ),
    decreases s.body@.len() - i,
{
    let b = s.body@;
    let len = b.len() as int;
    if i == len - 1 {
        assert(b[i] == s.position);
        assert(g.cell_at(b[i].x as int, b[i].y as int) == Cell::Head(s.id));
        assert(chain_from(g, b[i], s.id, 1nat) =~= b.subrange(i, len));
    } else {
        assert(g.cell_at(b[i].x as int, b[i].y as int) == Cell::Body(s.id, b[i + 1]));
        lemma_chain_suffix(g, s, i + 1);
        assert(chain_from(g, b[i], s.id, (len - i) as nat) == seq![b[i]] + chain_from(
            g,
            b[i + 1],
            s.id,
            (len - i - 1) as nat,
        ));
        assert(b.subrange(i, len) =~= seq![b[i]] + b.subrange(i + 1, len));
    }
}

/// Walking the successor pointers recorded in the grid from a snake's tail
/// reaches exactly its recorded body, tail to head.
pub proof fn lemma_chain_reachable(g: Grid, s: Snake)
    requires
        s.chain_wf(g),
    ensures
        chain_from(g, s.tail, s.id, s.body@.len() as nat) == s.body@,
{
    lemma_chain_suffix(g, s, 0);
    assert(s.body@.subrange(0, s.body@.len() as int) =~= s.body@);
}

/// The chain of `Body` and `Head` cells reachable from `tail` to `position`
/// counts exactly `length` cells for a fully caught-up snake — in
/// particular immediately after any commit of a snake whose body had already
/// reached its target length.
pub proof fn lemma_chain_length_matches(g: Grid, s: Snake)
    requires
        s.chain_wf(g),
        s.body@.len() == s.length,
    ensures
        chain_from(g, s.tail, s.id, s.length as nat).len() == s.length,
{
    lemma_chain_reachable(g, s);
}

/// The cell holds some snake's head.
pub open spec fn is_head(c: Cell) -> bool {
    match c {
        Cell::Head(_) => true,
        _ => false,
    }
}

/// Two snakes whose look-ahead targets the same head-occupied cell are both
/// classified blocked in the same tick: classification reads the shared
/// pre-move grid, so neither moves and neither merges into the other.
pub proof fn lemma_mutual_head_block(g: Grid, a: Snake, b: Snake)
    requires
        a.move_timer.just_finished,
        b.move_timer.just_finished,
        ahead_cell(g, a) == ahead_cell(g, b),
        is_head(ahead_cell(g, a)),
    ensures
        eat_blocked(g, a),
        eat_blocked(g, b),
{
}

/// A snake that stays blocked without interruption emits exactly one death
/// signal: the countdown reports completion on the check where its
/// accumulated blocked time first reaches the threshold, and a completed
/// one-shot countdown reports nothing on any later blocked check.
pub proof fn lemma_single_death_signal(s: Snake, d1: int, d2: int)
    requires
        s.blocked,
        s.die_timer.wf(),
        !s.die_timer.repeating,
        !s.die_timer.finished,
        0 <= d1,
        0 <= d2,
    ensures
        dies(s, d1) <==> s.die_timer.elapsed_ms + d1 >= s.die_timer.duration_ms,
        dies(s, d1) ==> !dies(Snake { die_timer: countdown_after(s, d1), ..s }, d2),
{
}

} // verus!
