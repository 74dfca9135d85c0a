use snake_core::Cell;
use snake_core::Coord;
use snake_core::Dir;
use snake_core::Simulation;
use snake_core::SnakeGrowthEvent;
use snake_core::SnakeDiedEvent;
use snake_core::SpawnSnakeEvent;

fn c(x: i32, y: i32) -> Coord {
    Coord { x, y }
}

/// Runs one full tick of the phase pipeline in its documented order, with no
/// player input, and returns the emitted signals.
fn tick(sim: &mut Simulation, delta_ms: u64) -> (Vec<SnakeGrowthEvent>, Vec<SnakeDiedEvent>) {
    sim.snake_movement_timer_tick(delta_ms);
    let growth = sim.snake_eat();
    let deaths = sim.snake_blocked(delta_ms);
    for ev in growth.iter() {
        sim.snake_grow(ev);
    }
    for ev in deaths.iter() {
        sim.snake_die(ev, 0xfeed_5eed);
    }
    sim.snake_move();
    (growth, deaths)
}

fn occupied_count(sim: &Simulation) -> usize {
    let mut n = 0;
    for x in 0..sim.grid.width() as i32 {
        for y in 0..sim.grid.height() as i32 {
            match sim.grid.get(c(x, y)).unwrap() {
                Cell::Head(_) | Cell::Body(_, _) => n += 1,
                _ => {}
            }
        }
    }
    n
}

/// Number of cells reachable from the tail to the head along the successor
/// pointers stored in the grid.
fn chain_cells(sim: &Simulation, idx: usize) -> usize {
    let snake = &sim.snakes[idx];
    let mut at = snake.tail;
    let mut n = 0;
    loop {
        n += 1;
        if at == snake.position {
            return n;
        }
        match sim.grid.get(at) {
            Some(Cell::Body(_, succ)) => at = succ,
            _ => return n,
        }
    }
}

#[test]
fn spawned_snake_has_the_documented_state() {
    let mut sim = Simulation::new(25, 25);
    let id = sim.place_snake(&SpawnSnakeEvent { position: c(10, 10), level: 0 });
    assert_eq!(sim.snakes.len(), 1);
    let s = &sim.snakes[0];
    assert_eq!(s.id, id);
    assert_eq!(s.length, 6);
    assert_eq!(s.direction, Dir::East);
    assert_eq!(s.position, c(10, 10));
    assert_eq!(s.tail, c(10, 10));
    assert!(s.player);
    assert!(!s.blocked);
    assert_eq!(s.interval_ms, 150);
    assert_eq!(sim.grid.get(c(10, 10)), Some(Cell::Head(id)));
    // the second spawn is automatically controlled
    sim.place_snake(&SpawnSnakeEvent { position: c(5, 5), level: 2 });
    assert!(!sim.snakes[1].player);
    assert_eq!(sim.snakes[1].interval_ms, 170);
}

#[test]
fn one_move_tick_advances_a_grown_snake_east() {
    let mut sim = Simulation::new(25, 25);
    let id = sim.place_snake(&SpawnSnakeEvent { position: c(5, 10), level: 0 });
    // Five ticks at the full 150 ms cadence let the body catch up with the
    // target length of 6; the head ends at (10,10).
    for _ in 0..5 {
        tick(&mut sim, 150);
    }
    assert_eq!(sim.snakes[0].position, c(10, 10));
    assert_eq!(occupied_count(&sim), 6);
    assert_eq!(chain_cells(&sim, 0), 6);

    // The scenario tick: head moves to (11,10), the old head cell becomes a
    // body segment, and the occupied cell count stays 6.
    tick(&mut sim, 150);
    assert_eq!(sim.snakes[0].position, c(11, 10));
    assert_eq!(sim.grid.get(c(11, 10)), Some(Cell::Head(id)));
    assert_eq!(sim.grid.get(c(10, 10)), Some(Cell::Body(id, c(11, 10))));
    assert_eq!(occupied_count(&sim), 6);
    assert_eq!(chain_cells(&sim, 0), 6);
    assert_eq!(sim.snakes[0].tail, c(6, 10));
}

#[test]
fn wall_blocks_then_one_death_signal_and_food_scatter() {
    let mut sim = Simulation::new(25, 25);
    let id = sim.place_snake(&SpawnSnakeEvent { position: c(18, 10), level: 0 });
    // March east until the head sits one cell from the east wall.
    for _ in 0..5 {
        let (_, deaths) = tick(&mut sim, 150);
        assert!(deaths.is_empty());
    }
    assert_eq!(sim.snakes[0].position, c(23, 10));
    assert_eq!(occupied_count(&sim), 6);

    // Look-ahead hits the wall at (24,10): the snake blocks, and after the
    // full 150 ms death threshold exactly one death signal fires.
    sim.snake_movement_timer_tick(150);
    let growth = sim.snake_eat();
    assert!(growth.is_empty());
    assert!(sim.snakes[0].blocked);
    let deaths = sim.snake_blocked(150);
    assert_eq!(deaths.len(), 1);
    assert_eq!(deaths[0].snake, id);

    // Staying blocked emits no second signal.
    sim.snake_eat();
    let again = sim.snake_blocked(150);
    assert!(again.is_empty());

    // Death resolution clears all 6 occupied cells; 6 / 3 == 2 become food.
    let occupied: Vec<Coord> = (18..24).map(|x| c(x, 10)).collect();
    sim.snake_die(&deaths[0], 0x1234_5678_9abc_def0);
    assert_eq!(sim.snakes.len(), 0);
    let mut food = 0;
    for p in occupied.iter() {
        match sim.grid.get(*p).unwrap() {
            Cell::Food => food += 1,
            Cell::Empty => {}
            other => panic!("cell {:?} still holds {:?}", p, other),
        }
    }
    assert_eq!(food, 2);
    assert_eq!(occupied_count(&sim), 0);
}

#[test]
fn growth_signal_raises_length_by_exactly_one() {
    let mut sim = Simulation::new(25, 25);
    let id = sim.place_snake(&SpawnSnakeEvent { position: c(10, 10), level: 0 });
    sim.grid.set(c(11, 10), Cell::Food);
    sim.snake_movement_timer_tick(150);
    let growth = sim.snake_eat();
    assert_eq!(growth.len(), 1);
    assert_eq!(growth[0].snake, id);
    assert!(!sim.snakes[0].blocked);
    assert_eq!(sim.snakes[0].length, 6);
    sim.snake_grow(&growth[0]);
    assert_eq!(sim.snakes[0].length, 7);
    // the eaten cell is entered on the same tick's commit
    sim.snake_move();
    assert_eq!(sim.snakes[0].position, c(11, 10));
    assert_eq!(sim.grid.get(c(11, 10)), Some(Cell::Head(id)));
}

#[test]
fn mutual_head_lookahead_blocks_both_movers() {
    let mut sim = Simulation::new(25, 25);
    sim.place_snake(&SpawnSnakeEvent { position: c(5, 5), level: 0 });
    sim.place_snake(&SpawnSnakeEvent { position: c(6, 5), level: 0 });
    sim.place_snake(&SpawnSnakeEvent { position: c(7, 5), level: 0 });
    sim.snakes[2].direction = Dir::West;
    sim.snake_movement_timer_tick(150);
    sim.snake_eat();
    // both outer snakes target the middle snake's head cell (6,5)
    assert!(sim.snakes[0].blocked);
    assert!(sim.snakes[2].blocked);
    let (head0, head2) = (sim.snakes[0].position, sim.snakes[2].position);
    sim.snake_move();
    assert_eq!(sim.snakes[0].position, head0);
    assert_eq!(sim.snakes[2].position, head2);
}

#[test]
fn reversal_into_the_neck_is_rejected() {
    let mut sim = Simulation::new(25, 25);
    let id = sim.place_snake(&SpawnSnakeEvent { position: c(10, 10), level: 0 });
    tick(&mut sim, 150);
    // heading East with head (11,10); the neck is Body(id, head) at (10,10)
    assert_eq!(sim.grid.get(c(10, 10)), Some(Cell::Body(id, c(11, 10))));
    sim.snake_input(Some(Dir::West), false);
    assert_eq!(sim.snakes[0].direction, Dir::East);
    // any non-reversing candidate is accepted
    sim.snake_input(Some(Dir::North), false);
    assert_eq!(sim.snakes[0].direction, Dir::North);
}

#[test]
fn speed_modifier_selects_the_fast_cadence() {
    let mut sim = Simulation::new(25, 25);
    sim.place_snake(&SpawnSnakeEvent { position: c(10, 10), level: 0 });
    sim.snake_input(None, true);
    assert_eq!(sim.snakes[0].interval_ms, 100);
    sim.snake_movement_timer_tick(40);
    assert_eq!(sim.snakes[0].move_timer.duration_ms, 100);
    assert_eq!(sim.snakes[0].move_timer.elapsed_ms, 40);
    sim.snake_input(None, false);
    assert_eq!(sim.snakes[0].interval_ms, 150);
}

#[test]
fn blocked_countdown_decays_while_unblocked() {
    let mut sim = Simulation::new(25, 25);
    sim.place_snake(&SpawnSnakeEvent { position: c(22, 10), level: 0 });
    // One move puts the head at (23,10); the next classification blocks it.
    tick(&mut sim, 150);
    sim.snake_movement_timer_tick(150);
    sim.snake_eat();
    assert!(sim.snakes[0].blocked);
    let deaths = sim.snake_blocked(100);
    assert!(deaths.is_empty());
    assert_eq!(sim.snakes[0].die_timer.elapsed_ms, 100);
    // interruption: turn away, reclassify, and the countdown decays
    sim.snake_input(Some(Dir::North), false);
    sim.snake_movement_timer_tick(150);
    sim.snake_eat();
    assert!(!sim.snakes[0].blocked);
    let deaths = sim.snake_blocked(60);
    assert!(deaths.is_empty());
    assert_eq!(sim.snakes[0].die_timer.elapsed_ms, 40);
}
