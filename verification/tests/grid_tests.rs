use snake_core::Cell;
use snake_core::Coord;
use snake_core::Dir;
use snake_core::FoodPlaceTime;
use snake_core::Grid;
use snake_core::Simulation;
use snake_core::SnakeId;
use snake_core::step;

fn c(x: i32, y: i32) -> Coord {
    Coord { x, y }
}

#[test]
fn get_is_absent_outside_bounds() {
    let g = Grid::new(5, 7);
    assert_eq!(g.get(c(-1, 0)), None);
    assert_eq!(g.get(c(0, -1)), None);
    assert_eq!(g.get(c(7, 0)), None);
    assert_eq!(g.get(c(0, 5)), None);
    assert_eq!(g.get(c(i32::MIN, i32::MIN)), None);
    assert_eq!(g.get(c(3, 2)), Some(Cell::Empty));
}

#[test]
fn set_is_a_no_op_outside_bounds() {
    let mut g = Grid::new(4, 4);
    g.set(c(-1, 2), Cell::Wall);
    g.set(c(4, 0), Cell::Wall);
    g.set(c(2, -3), Cell::Wall);
    for x in 0..4 {
        for y in 0..4 {
            assert_eq!(g.get(c(x, y)), Some(Cell::Empty));
        }
    }
    g.set(c(2, 1), Cell::Food);
    assert_eq!(g.get(c(2, 1)), Some(Cell::Food));
}

#[test]
fn build_wall_covers_exactly_the_perimeter() {
    let sim = Simulation::new(25, 25);
    for x in 0..25 {
        for y in 0..25 {
            let on_edge = x == 0 || y == 0 || x == 24 || y == 24;
            let cell = sim.grid.get(c(x, y)).unwrap();
            if on_edge {
                assert_eq!(cell, Cell::Wall);
            } else {
                assert_ne!(cell, Cell::Wall);
                assert_eq!(cell, Cell::Empty);
            }
        }
    }
}

#[test]
fn find_around_returns_first_match_in_scan_order() {
    let mut g = Grid::new(9, 9);
    g.set(c(1, 2), Cell::Food);
    g.set(c(3, 2), Cell::Food);
    // dx scans from -1 to 1, so the western neighbour wins.
    assert_eq!(g.find_around(c(2, 2), Cell::Food), Some(c(1, 2)));
    assert_eq!(g.find_around(c(6, 6), Cell::Food), None);
    let id = SnakeId(9);
    g.set(c(5, 5), Cell::Body(id, c(6, 6)));
    // structural equality: the successor coordinate must match exactly.
    assert_eq!(g.find_around(c(6, 6), Cell::Body(id, c(6, 6))), Some(c(5, 5)));
    assert_eq!(g.find_around(c(6, 6), Cell::Body(id, c(7, 7))), None);
    assert_eq!(g.find_around(c(6, 6), Cell::Body(SnakeId(8), c(6, 6))), None);
}

#[test]
fn place_food_picks_the_kth_empty_cell() {
    // A single row with no walls: five empty cells.
    let mut g = Grid::new(1, 5);
    g.place_food(7);
    // 7 % 5 == 2: the third empty cell in row-major order.
    assert_eq!(g.get(c(2, 0)), Some(Cell::Food));
    for x in [0, 1, 3, 4] {
        assert_eq!(g.get(c(x, 0)), Some(Cell::Empty));
    }
}

#[test]
fn place_food_without_empty_cells_mutates_nothing() {
    // On a 2 x 2 grid every cell is on the perimeter.
    let mut sim = Simulation::new(2, 2);
    sim.grid.place_food(12345);
    for x in 0..2 {
        for y in 0..2 {
            assert_eq!(sim.grid.get(c(x, y)), Some(Cell::Wall));
        }
    }
}

#[test]
fn render_draws_cells_and_rows() {
    let mut g = Grid::new(2, 3);
    g.set(c(1, 0), Cell::Wall);
    g.set(c(2, 1), Cell::Food);
    let out: String = g.render().into_iter().collect();
    assert_eq!(out, " W \n  F\n");
}

#[test]
fn step_follows_the_heading_and_respects_numeric_bounds() {
    assert_eq!(step(c(3, 4), Dir::East), Some(c(4, 4)));
    assert_eq!(step(c(3, 4), Dir::West), Some(c(2, 4)));
    assert_eq!(step(c(3, 4), Dir::North), Some(c(3, 5)));
    assert_eq!(step(c(3, 4), Dir::South), Some(c(3, 3)));
    assert_eq!(step(c(i32::MAX, 0), Dir::East), None);
    assert_eq!(step(c(0, i32::MIN), Dir::South), None);
}

#[test]
fn food_schedule_switches_between_intervals() {
    let mut t = FoodPlaceTime::default();
    assert_eq!(t.timer.duration_ms, 3000);
    t.timer.tick(1200);
    t.reset_long();
    assert_eq!(t.timer.duration_ms, 5000);
    assert_eq!(t.timer.elapsed_ms, 0);
    assert!(!t.timer.just_finished);
    t.reset_short();
    assert_eq!(t.timer.duration_ms, 3000);
    assert_eq!(t.timer.elapsed_ms, 0);
}
