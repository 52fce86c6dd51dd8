use game_of_life::cell::{Cell, Coordinates};
use game_of_life::config::GameConfig;
use game_of_life::engine::{calculate_neighbors, calculate_next_gen, play, step};
use game_of_life::grid::Grid;
use game_of_life::patterns::{Spaceship, StillLife};

fn place(map: &mut Vec<Vec<Cell>>, cells: &[(usize, usize)]) {
    let mut points = Vec::new();
    for &(r, c) in cells {
        points.push(Coordinates::new(r, c));
    }
    Grid::generate_pattern(map, points);
}

#[test]
fn lone_alive_cell_on_unit_grid_counts_eight_neighbors_and_dies() {
    let (mut map, _) = Grid::new(1, 1);
    Grid::set_clear_cell(&mut map, 0, 0);
    assert_eq!(map[0][0], Cell::Alive);
    // All 8 offsets wrap back onto the single cell.
    assert_eq!(calculate_neighbors(&map, &0, &0), 8);
    let next = step(&map);
    assert_eq!(next[0][0], Cell::Dead);
}

#[test]
fn lone_dead_cell_on_unit_grid_counts_zero_and_stays_dead() {
    let (map, _) = Grid::new(1, 1);
    assert_eq!(calculate_neighbors(&map, &0, &0), 0);
    let next = step(&map);
    assert_eq!(next[0][0], Cell::Dead);
}

#[test]
fn neighbor_counts_on_diagonal_three_by_three() {
    // Live cells on the main diagonal; by wraparound, the counts are
    // 2 on the diagonal and 3 everywhere else.
    let (mut map, _) = Grid::new(3, 3);
    place(&mut map, &[(0, 0), (1, 1), (2, 2)]);
    let expected = [[2u32, 3, 3], [3, 2, 3], [3, 3, 2]];
    for i in 0..3 {
        for j in 0..3 {
            assert_eq!(calculate_neighbors(&map, &i, &j), expected[i][j], "at ({i}, {j})");
        }
    }
}

#[test]
fn next_gen_applies_each_rule_branch() {
    // Row 0 alive with 1 neighbor: underpopulation.
    let (mut map, _) = Grid::new(5, 5);
    place(&mut map, &[(0, 0), (0, 1)]);
    let (mut next, _) = Grid::new(5, 5);
    let n = calculate_neighbors(&map, &0, &0);
    assert_eq!(n, 1);
    calculate_next_gen(&map, &mut next, n, &0, &0);
    assert_eq!(next[0][0], Cell::Dead);

    // Alive with 2 neighbors lives on.
    let (mut map, _) = Grid::new(5, 5);
    place(&mut map, &[(0, 0), (0, 1), (0, 2)]);
    let (mut next, _) = Grid::new(5, 5);
    let n = calculate_neighbors(&map, &0, &1);
    assert_eq!(n, 2);
    calculate_next_gen(&map, &mut next, n, &0, &1);
    assert_eq!(next[0][1], Cell::Alive);

    // Dead with 3 neighbors is born.
    let (mut next, _) = Grid::new(5, 5);
    let n = calculate_neighbors(&map, &1, &1);
    assert_eq!(n, 3);
    calculate_next_gen(&map, &mut next, n, &1, &1);
    assert_eq!(next[1][1], Cell::Alive);

    // Dead with 2 neighbors keeps the target cell untouched.
    let (mut next, _) = Grid::new(5, 5);
    let n = calculate_neighbors(&map, &1, &0);
    assert_eq!(n, 2);
    calculate_next_gen(&map, &mut next, n, &1, &0);
    assert_eq!(next[1][0], Cell::Dead);

    // Alive with more than 3 neighbors dies of overpopulation.
    let (mut map, _) = Grid::new(5, 5);
    place(&mut map, &[(1, 1), (0, 0), (0, 1), (0, 2), (1, 0)]);
    let (mut next, _) = Grid::new(5, 5);
    let n = calculate_neighbors(&map, &1, &1);
    assert_eq!(n, 4);
    calculate_next_gen(&map, &mut next, n, &1, &1);
    assert_eq!(next[1][1], Cell::Dead);
}

#[test]
fn blinker_oscillates_with_period_two_on_five_by_five() {
    let (mut map, _) = Grid::new(5, 5);
    place(&mut map, &[(2, 1), (2, 2), (2, 3)]);
    let original = map.clone();

    let after_one = step(&map);
    let (mut vertical, _) = Grid::new(5, 5);
    place(&mut vertical, &[(1, 2), (2, 2), (3, 2)]);
    assert_eq!(after_one, vertical);

    let after_two = step(&after_one);
    assert_eq!(after_two, original);
}

#[test]
fn blinker_row_floods_the_three_by_three_torus_then_dies() {
    // On a 3 x 3 torus the full row {(1,0),(1,1),(1,2)} gives every dead
    // cell exactly 3 wrapped neighbors and every live cell exactly 2, so
    // one step turns the whole grid alive; a second step kills every cell
    // (8 neighbors each). The wrapped counting is applied with no special
    // case for the minimal grid.
    let (mut map, _) = Grid::new(3, 3);
    place(&mut map, &[(1, 0), (1, 1), (1, 2)]);
    for j in 0..3 {
        assert_eq!(calculate_neighbors(&map, &0, &j), 3);
        assert_eq!(calculate_neighbors(&map, &1, &j), 2);
        assert_eq!(calculate_neighbors(&map, &2, &j), 3);
    }

    let after_one = step(&map);
    for i in 0..3 {
        for j in 0..3 {
            assert_eq!(after_one[i][j], Cell::Alive);
        }
    }

    let after_two = step(&after_one);
    for i in 0..3 {
        for j in 0..3 {
            assert_eq!(after_two[i][j], Cell::Dead);
        }
    }
}

#[test]
fn glider_translates_one_diagonal_step_every_four_generations() {
    let (mut map, _) = Grid::new(8, 8);
    let glider = Spaceship::glider(Coordinates::new(1, 1));
    Grid::generate_spaceship(&mut map, glider);

    let mut current = map;
    for _ in 0..4 {
        current = step(&current);
    }

    // This glider orientation travels down-left: after 4 generations it is
    // the same shape anchored one row down and one column to the left.
    let (mut expected, _) = Grid::new(8, 8);
    let moved = Spaceship::glider(Coordinates::new(2, 0));
    Grid::generate_spaceship(&mut expected, moved);
    assert_eq!(current, expected);
}

#[test]
fn still_life_is_fixed_under_step() {
    let (mut map, _) = Grid::new(7, 9);
    let paperclip = StillLife::fifteen_bent_paperclip(Coordinates::new(1, 1));
    Grid::generate_still_life(&mut map, paperclip);

    let next = step(&map);
    assert_eq!(next, map);
    let next_next = step(&next);
    assert_eq!(next_next, map);
}

#[test]
fn step_reads_only_the_prior_generation() {
    // The R-pentomino's first step is wrong if updates leak into neighbor
    // reads; check one exact generation.
    let (mut map, _) = Grid::new(6, 6);
    place(&mut map, &[(1, 2), (1, 3), (2, 1), (2, 2), (3, 2)]);
    let next = step(&map);
    let (mut expected, _) = Grid::new(6, 6);
    place(&mut expected, &[(1, 1), (1, 2), (1, 3), (2, 1), (3, 1), (3, 2)]);
    assert_eq!(next, expected);
}

#[test]
fn play_finishes_a_bounded_run_at_the_ceiling() {
    let (mut map, _) = Grid::new(3, 3);
    Grid::set_clear_cell(&mut map, 1, 1);
    let before = map.clone();
    let mut config = GameConfig::get_config();
    config.infinite_game = false;
    config.max_generations = 50;
    let r = play(&mut map, 50, &config, false);
    assert_eq!(r, Some(String::from("Game finished.")));
    assert_eq!(map, before);
}

#[test]
fn play_aborts_when_requested_and_leaves_the_grid_alone() {
    let (mut map, _) = Grid::new(3, 3);
    Grid::set_clear_cell(&mut map, 0, 0);
    let before = map.clone();
    let config = GameConfig::get_config();
    let r = play(&mut map, 7, &config, true);
    assert_eq!(r, Some(String::from("Game aborted.")));
    assert_eq!(map, before);
}

#[test]
fn play_advances_one_generation_otherwise() {
    let (mut map, _) = Grid::new(5, 5);
    place(&mut map, &[(2, 1), (2, 2), (2, 3)]);
    let expected = step(&map);
    let config = GameConfig::get_config();
    let r = play(&mut map, 0, &config, false);
    assert_eq!(r, None);
    assert_eq!(map, expected);
}

#[test]
fn play_in_infinite_mode_ignores_the_ceiling() {
    let (mut map, _) = Grid::new(4, 4);
    let expected = step(&map);
    let config = GameConfig::get_config();
    assert!(config.infinite_game);
    let r = play(&mut map, config.max_generations, &config, false);
    assert_eq!(r, None);
    assert_eq!(map, expected);
}
