//! Simulation core of a grid-based multi-snake arcade game.
//!
//! A single shared grid encodes occupancy (empty, food, wall, snake head,
//! snake body with a successor link), and per-tick phase functions advance
//! each snake, detect collisions, grow snakes that ate food, and unwind dead
//! snakes while scattering part of their body as food. The hosting game loop
//! owns presentation, input polling and timing; it calls these phases once
//! per tick and supplies elapsed time, player input and random draws.

mod grid;
mod sim;
mod snake;

pub use grid::Cell;
pub use grid::Coord;
pub use grid::Grid;
pub use grid::SnakeId;
pub use snake::Dir;
pub use snake::FoodPlaceTime;
pub use snake::Snake;
pub use snake::Timer;
pub use snake::DIE_THRESHOLD_MS;
pub use snake::FAST_INTERVAL_MS;
pub use snake::MAX_TIME_MS;
pub use snake::NORMAL_INTERVAL_MS;
pub use snake::SPAWN_LENGTH;
pub use snake::dir_dx;
pub use snake::dir_dy;
pub use snake::interval_for_level;
pub use snake::level_interval_ms;
pub use snake::step;
pub use snake::step_spec;
pub use sim::ahead_cell;
pub use sim::blocks;
pub use sim::cadence_after;
pub use sim::countdown_after;
pub use sim::death_events;
pub use sim::dies;
pub use sim::eat_blocked;
pub use sim::grows;
pub use sim::growth_events;
pub use sim::is_first_player;
pub use sim::new_heading;
pub use sim::rejects_heading;
pub use sim::chain_from;
pub use sim::commit_ok;
pub use sim::commit_writes;
pub use sim::drops_tail;
pub use sim::index_of_id;
pub use sim::is_head;
pub use sim::lemma_chain_length_matches;
pub use sim::lemma_chain_reachable;
pub use sim::lemma_chains_disjoint;
pub use sim::lemma_mutual_head_block;
pub use sim::lemma_single_death_signal;
pub use sim::move_compat;
pub use sim::move_target;
pub use sim::move_touches;
pub use sim::moved_body;
pub use sim::moved_fields;
pub use sim::moves;
pub use sim::scatter_count;
pub use sim::scatter_post;
pub use sim::Simulation;
pub use sim::SnakeDiedEvent;
pub use sim::SnakeGrowthEvent;
pub use sim::SpawnSnakeEvent;
pub use grid::cell_char;
pub use grid::count_empty;
pub use grid::neighbor_at;
pub use grid::spec_cell_char;
