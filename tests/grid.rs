use game_of_life::{Grid, SEED_ALIVE_DENOMINATOR, SEED_ALIVE_NUMERATOR};

fn grid_with(width: usize, height: usize, alive: &[(isize, isize)]) -> Grid {
    let mut g = Grid::new(width, height);
    for &(x, y) in alive {
        g.set(x, y, true);
    }
    g
}

fn live_cells(g: &Grid) -> Vec<(isize, isize)> {
    let mut out = Vec::new();
    for y in 0..g.height() as isize {
        for x in 0..g.width() as isize {
            if g.get(x, y) {
                out.push((x, y));
            }
        }
    }
    out
}

#[test]
fn new_grid_is_all_dead() {
    let g = Grid::new(7, 3);
    assert_eq!(g.width(), 7);
    assert_eq!(g.height(), 3);
    assert!(live_cells(&g).is_empty());
}

#[test]
fn set_then_get_in_bounds() {
    let mut g = Grid::new(4, 3);
    g.set(2, 1, true);
    assert!(g.get(2, 1));
    assert_eq!(live_cells(&g), vec![(2, 1)]);
    g.set(2, 1, false);
    assert!(!g.get(2, 1));
}

#[test]
fn negative_coordinates_wrap_to_the_far_edge() {
    let mut g = Grid::new(5, 4);
    g.set(-1, -1, true);
    assert_eq!(live_cells(&g), vec![(4, 3)]);
    assert!(g.get(-1, -1));
    assert!(g.get(-6, -5));
    assert!(g.get(9, 7));
}

#[test]
fn get_is_periodic_in_width_and_height() {
    let g = grid_with(3, 4, &[(1, 2), (0, 0), (2, 3)]);
    for y in 0..4isize {
        for x in 0..3isize {
            for k in -3..=3isize {
                assert_eq!(g.get(x + k * 3, y), g.get(x, y));
                assert_eq!(g.get(x, y + k * 4), g.get(x, y));
            }
        }
    }
}

#[test]
fn extreme_coordinates_wrap() {
    // isize::MIN is congruent to 1 modulo 3 and isize::MAX to 1 as well.
    let g = grid_with(3, 3, &[(1, 0)]);
    assert!(g.get(isize::MIN, 0));
    assert!(g.get(isize::MAX, 0));
    assert!(!g.get(isize::MIN + 1, 0));
}

#[test]
fn set_out_of_range_wraps() {
    let mut g = Grid::new(3, 2);
    g.set(7, -3, true);
    assert_eq!(live_cells(&g), vec![(1, 1)]);
}

#[test]
fn neighbor_count_excludes_the_cell() {
    let g = grid_with(5, 5, &[(2, 2)]);
    assert_eq!(g.count_live_neighbors(2, 2), 0);
    assert_eq!(g.count_live_neighbors(1, 1), 1);
    assert_eq!(g.count_live_neighbors(3, 2), 1);
    assert_eq!(g.count_live_neighbors(0, 0), 0);
}

#[test]
fn neighbor_count_wraps_across_edges() {
    let g = grid_with(5, 5, &[(4, 4), (0, 4), (4, 0)]);
    assert_eq!(g.count_live_neighbors(0, 0), 3);
    assert_eq!(g.count_live_neighbors(-5, 5), 3);
}

#[test]
fn neighbor_count_of_full_grid_is_eight() {
    let mut g = Grid::new(4, 4);
    for y in 0..4 {
        for x in 0..4 {
            g.set(x, y, true);
        }
    }
    for y in 0..4 {
        for x in 0..4 {
            assert_eq!(g.count_live_neighbors(x, y), 8);
        }
    }
}

#[test]
fn one_by_one_cell_is_its_own_eight_neighbors() {
    let g = grid_with(1, 1, &[(0, 0)]);
    assert_eq!(g.count_live_neighbors(0, 0), 8);
    let dead = Grid::new(1, 1);
    assert_eq!(dead.count_live_neighbors(0, 0), 0);
}

#[test]
fn two_by_two_counts_wrapped_neighbors_repeatedly() {
    let diagonal = grid_with(2, 2, &[(1, 1)]);
    assert_eq!(diagonal.count_live_neighbors(0, 0), 4);
    let beside = grid_with(2, 2, &[(1, 0)]);
    assert_eq!(beside.count_live_neighbors(0, 0), 2);
    let below = grid_with(2, 2, &[(0, 1)]);
    assert_eq!(below.count_live_neighbors(0, 0), 2);
    let full = grid_with(2, 2, &[(0, 0), (1, 0), (0, 1), (1, 1)]);
    assert_eq!(full.count_live_neighbors(0, 0), 8);
}

#[test]
fn block_is_a_still_life() {
    let g = grid_with(4, 4, &[(1, 1), (2, 1), (1, 2), (2, 2)]);
    let next = g.next_generation();
    assert_eq!(live_cells(&next), live_cells(&g));
    let big = grid_with(8, 6, &[(3, 2), (4, 2), (3, 3), (4, 3)]);
    assert_eq!(live_cells(&big.next_generation()), live_cells(&big));
}

#[test]
fn block_across_the_corner_is_a_still_life() {
    let g = grid_with(5, 4, &[(4, 3), (0, 3), (4, 0), (0, 0)]);
    assert_eq!(live_cells(&g.next_generation()), live_cells(&g));
}

#[test]
fn blinker_oscillates_with_period_two() {
    let horizontal = grid_with(5, 5, &[(1, 2), (2, 2), (3, 2)]);
    let vertical = horizontal.next_generation();
    assert_eq!(live_cells(&vertical), vec![(2, 1), (2, 2), (2, 3)]);
    let back = vertical.next_generation();
    assert_eq!(live_cells(&back), vec![(1, 2), (2, 2), (3, 2)]);
}

#[test]
fn blinker_across_an_edge_oscillates() {
    let horizontal = grid_with(6, 5, &[(5, 0), (0, 0), (1, 0)]);
    let vertical = horizontal.next_generation();
    assert_eq!(live_cells(&vertical), vec![(0, 0), (0, 1), (0, 4)]);
    assert_eq!(live_cells(&vertical.next_generation()), live_cells(&horizontal));
}

#[test]
fn isolated_cell_dies() {
    let g = grid_with(5, 5, &[(2, 2)]);
    assert!(live_cells(&g.next_generation()).is_empty());
}

#[test]
fn dead_cell_with_three_neighbors_is_born() {
    let g = grid_with(5, 5, &[(1, 1), (3, 1), (2, 3)]);
    let next = g.next_generation();
    assert!(next.get(2, 2));
}

#[test]
fn crowded_cell_dies_and_pairs_die() {
    // the centre has four live neighbours
    let g = grid_with(5, 5, &[(2, 2), (1, 1), (3, 1), (1, 3), (3, 3)]);
    let next = g.next_generation();
    assert!(!next.get(2, 2));
    let pair = grid_with(5, 5, &[(1, 1), (2, 1)]);
    assert!(live_cells(&pair.next_generation()).is_empty());
}

#[test]
fn next_generation_keeps_dimensions_and_source() {
    let g = grid_with(7, 3, &[(0, 0), (1, 0), (2, 0)]);
    let before = live_cells(&g);
    let next = g.next_generation();
    assert_eq!(next.width(), 7);
    assert_eq!(next.height(), 3);
    assert_eq!(live_cells(&g), before);
}

#[test]
fn next_generation_is_deterministic() {
    let pattern = [(1, 0), (2, 1), (0, 2), (1, 2), (2, 2), (5, 5)];
    let a = grid_with(8, 8, &pattern);
    let b = grid_with(8, 8, &pattern);
    let a2 = a.next_generation().next_generation();
    let b1 = b.next_generation();
    let b2 = b1.next_generation();
    assert_eq!(live_cells(&a2), live_cells(&b2));
    assert_eq!(live_cells(&a.next_generation()), live_cells(&b1));
}

#[test]
fn random_grid_has_the_requested_size_and_density() {
    let g = Grid::random(100, 100);
    assert_eq!(g.width(), 100);
    assert_eq!(g.height(), 100);
    let alive = live_cells(&g).len() as f64 / 10000.0;
    let expected = SEED_ALIVE_NUMERATOR as f64 / SEED_ALIVE_DENOMINATOR as f64;
    assert!((expected - 0.3).abs() < 1e-9);
    assert!(alive > 0.25 && alive < 0.35, "density {}", alive);
}

#[test]
fn clone_copies_every_cell() {
    let g = grid_with(3, 3, &[(0, 1), (2, 2)]);
    let c = g.clone();
    assert_eq!(live_cells(&c), live_cells(&g));
}

#[test]
fn from_draws_lays_rows_out_in_order() {
    let draws = vec![
        vec![true, false, false],
        vec![false, false, true],
    ];
    let g = Grid::from_draws(3, 2, draws);
    assert_eq!(g.width(), 3);
    assert_eq!(g.height(), 2);
    assert_eq!(live_cells(&g), vec![(0, 0), (2, 1)]);
}

#[test]
fn from_draws_all_alive_and_all_dead() {
    let alive = Grid::from_draws(2, 2, vec![vec![true; 2]; 2]);
    assert_eq!(live_cells(&alive).len(), 4);
    let dead = Grid::from_draws(4, 1, vec![vec![false; 4]]);
    assert!(live_cells(&dead).is_empty());
}

#[test]
fn from_draws_blinker_matches_set() {
    let mut rows = vec![vec![false; 5]; 5];
    rows[2][1] = true;
    rows[2][2] = true;
    rows[2][3] = true;
    let g = Grid::from_draws(5, 5, rows);
    assert_eq!(live_cells(&g.next_generation()), vec![(2, 1), (2, 2), (2, 3)]);
}
