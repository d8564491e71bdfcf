//! Conway's Game of Life on a toroidal grid.
//!
//! `board` holds the mathematical model of a grid and the transition rule,
//! `grid` the executable grid whose operations are proved against that model,
//! and `laws` the properties that the transition is proved to have.

mod board;
mod chance;
mod grid;
mod laws;

pub use board::{live, survives, Board};
pub use grid::{Grid, SEED_ALIVE_DENOMINATOR, SEED_ALIVE_NUMERATOR};
pub use laws::{
    cycle_offset, is_block, is_horizontal_blinker, is_vertical_blinker, lemma_blinker_period_two,
    lemma_block_still_life, lemma_horizontal_blinker_turns, lemma_isolated_cell_dies,
    lemma_live_neighbors_bounds, lemma_next_deterministic, lemma_next_get, lemma_next_wf,
    lemma_one_by_one_neighbors, lemma_two_by_two_neighbors, lemma_vertical_blinker_turns,
    lemma_wraparound, within_one,
};
