use game_of_life::api::{GameStateResponse, SaveData};
use game_of_life::cell::Cell;
use game_of_life::game::{position_key, GameState};
use std::collections::HashMap;

fn recount(game: &mut GameState) {
    let (pop, rc, bc) = GameState::count_population(&game.cells);
    game.population = pop;
    game.red_count = rc;
    game.blue_count = bc;
}

#[test]
fn test_new_grid_is_empty() {
    let game = GameState::new(10, 10);
    assert_eq!(game.population, 0);
    assert_eq!(game.generation, 0);
    assert_eq!(game.cells[0][0], 0);
    assert!(game.has_border_walls);
}

#[test]
fn test_toggle_cell() {
    let mut game = GameState::new(10, 10);
    assert_eq!(game.cells[0][0], 0);

    game.toggle_cell(0, 0);
    assert_eq!(game.cells[0][0], 1); // dead -> red
    assert_eq!(game.population, 1);
    assert_eq!(game.red_count, 1);

    game.toggle_cell(0, 0);
    assert_eq!(game.cells[0][0], 2); // red -> blue
    assert_eq!(game.population, 1);
    assert_eq!(game.red_count, 0);
    assert_eq!(game.blue_count, 1);

    game.toggle_cell(0, 0);
    assert_eq!(game.cells[0][0], 0); // blue -> dead
    assert_eq!(game.population, 0);
}

#[test]
fn test_cell_dies_from_underpopulation() {
    let mut game = GameState::new(5, 5);
    game.cells[2][2] = 1; // Single red cell in center
    game.population = 1;
    game.red_count = 1;

    game.step();
    assert_eq!(game.cells[2][2], 0); // Should die
}

#[test]
fn test_survival_with_neighbors() {
    let mut game = GameState::new(5, 5);
    // Blinker pattern (horizontal) in center
    game.cells[2][1] = 1;
    game.cells[2][2] = 1;
    game.cells[2][3] = 1;
    game.population = 3;
    game.red_count = 3;

    game.step();
    // Should become vertical
    assert_eq!(game.cells[1][2], 1);
    assert_eq!(game.cells[2][2], 1);
    assert_eq!(game.cells[3][2], 1);
}

#[test]
fn test_high_value_destroyed_by_red() {
    let mut game = GameState::new(10, 10);
    game.cells[5][5] = 5; // High-value unit
    game.cells[5][4] = 1; // Red cell next to it
    game.cells[4][4] = 1; // More red cells to keep alive
    game.cells[6][4] = 1;
    let (pop, rc, bc) = GameState::count_population(&game.cells);
    game.population = pop;
    game.red_count = rc;
    game.blue_count = bc;

    game.step();
    // High-value should be destroyed (red touched it)
    assert_ne!(game.cells[5][5], 5);
}

#[test]
fn test_high_value_survives_with_blue() {
    let mut game = GameState::new(10, 10);
    game.cells[5][5] = 5; // High-value unit
    game.cells[5][4] = 2; // Blue cell next to it
    game.cells[4][4] = 2;
    game.cells[6][4] = 2;
    let (pop, rc, bc) = GameState::count_population(&game.cells);
    game.population = pop;
    game.red_count = rc;
    game.blue_count = bc;

    game.step();
    // High-value should survive (only blue neighbors, blue treats as wall)
    assert_eq!(game.cells[5][5], 5);
}

#[test]
fn test_border_walls_no_wrapping() {
    let mut game = GameState::new(5, 5);
    game.has_border_walls = true;
    // Place cells at corner - should not wrap
    game.cells[0][0] = 1;
    game.cells[0][1] = 1;
    game.cells[1][0] = 1;
    game.population = 3;
    game.red_count = 3;

    game.step();
    // With border walls, corner cells don't wrap
    assert_eq!(game.cells[0][0], 1); // Should survive (2 neighbors)
}

#[test]
fn cell_bytes_round_trip() {
    let kinds = [Cell::Dead, Cell::Red, Cell::Blue, Cell::Wall, Cell::Bomb, Cell::HighValue];
    for (i, k) in kinds.iter().enumerate() {
        assert_eq!(k.to_u8(), i as u8);
        assert_eq!(Cell::from_u8(i as u8), *k);
    }
    assert_eq!(Cell::from_u8(6), Cell::Dead);
    assert_eq!(Cell::from_u8(255), Cell::Dead);
    assert!(!Cell::Dead.is_alive());
    assert!(Cell::Wall.is_alive());
    assert!(Cell::Red.is_alive());
}

#[test]
fn toggle_wraps_coordinates() {
    let mut game = GameState::new(4, 3);
    game.toggle_cell(5, 7); // wraps to (1, 1)
    assert_eq!(game.cells[1][1], 1);
    assert_eq!(game.population, 1);
}

#[test]
fn toggle_three_times_restores_a_cell() {
    let mut game = GameState::new(3, 3);
    for _ in 0..3 {
        game.toggle_cell(1, 2);
    }
    assert_eq!(game.cells[2][1], 0);
    assert_eq!(game.population, 0);
    assert_eq!(game.red_count, 0);
    assert_eq!(game.blue_count, 0);
}

#[test]
fn toggling_a_wall_makes_it_dead_and_keeps_population() {
    let mut game = GameState::new(3, 3);
    game.set_cell_red(0, 0);
    game.set_cell_wall(1, 1);
    assert_eq!(game.population, 1);
    game.toggle_cell(1, 1);
    assert_eq!(game.cells[1][1], 0);
    // walls never counted as population
    assert_eq!(game.population, 1);
    assert_eq!(game.red_count, 1);
    assert_eq!(game.blue_count, 0);
}

#[test]
fn toggling_a_bomb_on_an_empty_board_keeps_population_at_zero() {
    let mut game = GameState::new(4, 4);
    game.place_bomb(2, 2, 3);
    game.set_cell_high_value(1, 1);
    game.toggle_cell(2, 2);
    game.toggle_cell(1, 1);
    assert_eq!(game.cells[2][2], 0);
    assert_eq!(game.cells[1][1], 0);
    assert_eq!(game.population, 0);
    assert_eq!(game.red_count, 0);
    assert_eq!(game.blue_count, 0);
}

#[test]
fn set_cell_normalizes_and_counts() {
    let mut game = GameState::new(4, 4);
    game.set_cell(0, 0, 1);
    game.set_cell(1, 0, 2);
    game.set_cell(2, 0, 3);
    game.set_cell(3, 0, 5);
    game.set_cell(0, 1, 4); // a bomb cannot be set this way: dead
    game.set_cell(1, 1, 9); // unknown: dead
    assert_eq!(game.cells[0], vec![1, 2, 3, 5]);
    assert_eq!(game.cells[1], vec![0, 0, 0, 0]);
    assert_eq!(game.population, 2);
    assert_eq!(game.red_count, 1);
    assert_eq!(game.blue_count, 1);

    game.set_cell_blue(0, 0);
    assert_eq!(game.red_count, 0);
    assert_eq!(game.blue_count, 2);
    game.set_cell_dead(1, 0);
    assert_eq!(game.population, 1);
    game.set_cell_high_value(2, 0);
    assert_eq!(game.cells[0][2], 5);
    game.set_cell_dead(2, 0);
    assert_eq!(game.cells[0][2], 0);
    assert_eq!(game.population, 1);
}

#[test]
fn set_cell_twice_changes_nothing_more() {
    let mut game = GameState::new(3, 3);
    game.set_cell_red(2, 2);
    let before = game.clone();
    game.set_cell_red(2, 2);
    assert_eq!(game.cells, before.cells);
    assert_eq!(game.population, before.population);
    assert_eq!(game.red_count, before.red_count);
}

#[test]
fn place_bomb_records_radius_and_counts() {
    let mut game = GameState::new(5, 5);
    game.set_cell_red(2, 2);
    game.place_bomb(2, 2, 3);
    assert_eq!(game.cells[2][2], 4);
    assert_eq!(game.population, 0);
    assert_eq!(game.red_count, 0);
    assert_eq!(game.bomb_radii.get(&position_key(2, 2)), Some(&3));
    game.place_bomb(7, 7, 1); // wraps to the same cell
    assert_eq!(game.bomb_radii.get(&position_key(2, 2)), Some(&1));
    assert_eq!(game.bomb_radii.len(), 1);
    game.set_cell_wall(2, 2);
    assert_eq!(game.bomb_radii.len(), 0);
}

#[test]
fn position_keys_differ_by_position() {
    assert_ne!(position_key(1, 2), position_key(2, 1));
    assert_ne!(position_key(0, 1), position_key(1, 0));
    assert_eq!(position_key(3, 4), (3u128 << 64) + 4);
}

#[test]
fn bomb_touched_by_a_cell_explodes() {
    let mut game = GameState::new(9, 9);
    game.place_bomb(4, 4, 2);
    game.set_cell_wall(8, 8);
    game.set_cell_wall(6, 4); // within the blast
    game.set_cell_red(3, 4); // touches the bomb
    game.step();
    assert_eq!(game.last_explosions, vec![(4, 4, 2)]);
    assert_eq!(game.cells[4][4], 0);
    assert_eq!(game.cells[4][6], 0); // the wall is gone
    assert_eq!(game.cells[8][8], 3); // out of reach
    assert!(game.bomb_radii.is_empty());
    assert_eq!(game.generation, 1);
    assert_eq!(game.population, 0);
}

#[test]
fn blast_is_a_disk() {
    let mut game = GameState::new(9, 9);
    for y in 0..9 {
        for x in 0..9 {
            game.set_cell_wall(x, y);
        }
    }
    game.place_bomb(4, 4, 2);
    game.set_cell_red(4, 5);
    game.step();
    // dx^2 + dy^2 <= 4
    for y in 0..9i64 {
        for x in 0..9i64 {
            let d = (x - 4) * (x - 4) + (y - 4) * (y - 4);
            let expected = if d <= 4 { 0 } else { 3 };
            assert_eq!(game.cells[y as usize][x as usize], expected, "at {},{}", x, y);
        }
    }
}

#[test]
fn bomb_without_radius_uses_five() {
    let mut game = GameState::new(13, 13);
    game.cells[6][6] = 4; // a bomb with no recorded radius
    game.cells[6][0] = 3;
    game.cells[6][12] = 3;
    game.cells[0][6] = 3;
    game.set_cell_blue(6, 7);
    game.step();
    assert_eq!(game.last_explosions, vec![(6, 6, 5)]);
    assert_eq!(game.cells[6][1], 0);
    assert_eq!(game.cells[6][0], 3); // 6 away
    assert_eq!(game.cells[6][12], 3);
}

#[test]
fn blast_wraps_without_border_walls() {
    let mut game = GameState::new(6, 6);
    game.toggle_border_walls();
    assert!(!game.has_border_walls);
    game.set_cell_wall(5, 0);
    game.place_bomb(0, 0, 1);
    game.set_cell_red(1, 1);
    game.step();
    assert_eq!(game.cells[0][5], 0); // reached round the left edge
}

#[test]
fn newborn_takes_the_majority_faction() {
    let mut game = GameState::new(6, 6);
    game.set_cell_red(1, 1);
    game.set_cell_red(2, 1);
    game.set_cell_blue(3, 1);
    game.step();
    assert_eq!(game.cells[0][2], 1);
    assert_eq!(game.cells[2][2], 1);

    let mut game = GameState::new(6, 6);
    game.set_cell_blue(1, 1);
    game.set_cell_blue(2, 1);
    game.set_cell_red(3, 1);
    game.step();
    assert_eq!(game.cells[0][2], 2);
}

#[test]
fn block_is_still_life_and_counts_match() {
    let mut game = GameState::new(6, 6);
    for (x, y) in [(2, 2), (3, 2), (2, 3), (3, 3)] {
        game.set_cell_red(x, y);
    }
    game.step();
    game.step();
    for (x, y) in [(2, 2), (3, 2), (2, 3), (3, 3)] {
        assert_eq!(game.cells[y][x], 1);
    }
    assert_eq!(game.population, 4);
    assert_eq!(game.red_count, 4);
    assert_eq!(game.generation, 2);
}

#[test]
fn glider_wraps_around_the_torus() {
    let mut game = GameState::new(5, 5);
    game.toggle_border_walls();
    for (x, y) in [(1, 0), (2, 1), (0, 2), (1, 2), (2, 2)] {
        game.set_cell_blue(x, y);
    }
    for _ in 0..20 {
        game.step();
    }
    // a glider moves one cell diagonally every four generations: 5 cells in 20
    assert_eq!(game.population, 5);
    for (x, y) in [(1, 0), (2, 1), (0, 2), (1, 2), (2, 2)] {
        assert_eq!(game.cells[y][x], 2);
    }
}

#[test]
fn empty_board_stays_empty() {
    let mut game = GameState::new(7, 4);
    game.step();
    assert!(game.cells.iter().all(|r| r.iter().all(|c| *c == 0)));
    assert!(game.last_explosions.is_empty());
    assert!(game.last_hv_destroyed.is_empty());
}

#[test]
fn walls_stay_through_generations() {
    let mut game = GameState::new(5, 5);
    game.set_cell_wall(2, 2);
    game.set_cell_red(1, 1);
    game.set_cell_red(3, 3);
    game.set_cell_red(1, 3);
    game.step();
    assert_eq!(game.cells[2][2], 3);
}

#[test]
fn high_value_destroyed_is_recorded() {
    let mut game = GameState::new(6, 6);
    game.set_cell_high_value(3, 3);
    game.set_cell_red(2, 3);
    game.step();
    assert_eq!(game.cells[3][3], 0);
    assert_eq!(game.last_hv_destroyed, vec![(3, 3)]);
}

#[test]
fn clear_resets_everything() {
    let mut game = GameState::new(4, 4);
    game.set_cell_red(0, 0);
    game.set_cell_wall(1, 1);
    game.place_bomb(2, 2, 2);
    game.step();
    game.clear();
    assert!(game.cells.iter().all(|r| r.iter().all(|c| *c == 0)));
    assert_eq!(game.population, 0);
    assert_eq!(game.generation, 0);
    assert!(game.bomb_radii.is_empty());
    assert!(game.last_explosions.is_empty());
    assert_eq!(game.width, 4);
}

#[test]
fn resize_keeps_overlap_and_recounts() {
    let mut game = GameState::new(4, 4);
    game.set_cell_red(0, 0);
    game.set_cell_blue(3, 3);
    game.set_cell_wall(1, 0);
    game.step();
    game.resize(2, 3);
    assert_eq!(game.width, 2);
    assert_eq!(game.height, 3);
    assert_eq!(game.cells.len(), 3);
    assert_eq!(game.cells[0], vec![0, 3]);
    assert_eq!(game.generation, 0);

    let mut game = GameState::new(2, 2);
    game.set_cell_red(1, 1);
    game.resize(3, 3);
    assert_eq!(game.cells, vec![vec![0, 0, 0], vec![0, 1, 0], vec![0, 0, 0]]);
    assert_eq!(game.population, 1);
    assert_eq!(game.red_count, 1);
}

#[test]
fn randomize_keeps_fixtures_and_counts() {
    let mut game = GameState::new(3, 2);
    game.set_cell_wall(0, 0);
    game.place_bomb(1, 0, 2);
    game.set_cell_high_value(2, 0);
    game.set_cell_red(0, 1);
    game.generation = 7;
    let alive = vec![vec![true, true, true], vec![true, false, true]];
    game.randomize(&alive);
    assert_eq!(game.cells[0], vec![3, 4, 5]);
    assert!(game.cells[1][0] == 1 || game.cells[1][0] == 2);
    assert_eq!(game.cells[1][1], 0);
    assert!(game.cells[1][2] == 1 || game.cells[1][2] == 2);
    assert_eq!(game.population, 2);
    assert_eq!(game.red_count + game.blue_count, 2);
    assert_eq!(game.generation, 0);
}

#[test]
fn apply_draws_sets_exact_values() {
    let mut game = GameState::new(3, 1);
    game.set_cell_wall(2, 0);
    game.apply_draws(&vec![vec![2, 7, 1]]);
    assert_eq!(game.cells[0], vec![2, 0, 3]);
    assert_eq!(game.blue_count, 1);
    assert_eq!(game.red_count, 0);
    assert_eq!(game.population, 1);
}

#[test]
fn with_random_follows_draws() {
    let alive = vec![vec![true, false], vec![false, false], vec![true, true]];
    let game = GameState::with_random(2, 3, &alive);
    assert_eq!(game.width, 2);
    assert_eq!(game.height, 3);
    assert_eq!(game.population, 3);
    assert_eq!(game.cells[1], vec![0, 0]);
    assert_eq!(game.cells[0][1], 0);
    assert!(game.cells[2][0] == 1 || game.cells[2][0] == 2);
    assert_eq!(game.generation, 0);
    assert!(game.has_border_walls);
}

#[test]
fn save_then_load_gives_the_game_back() {
    let mut game = GameState::new(4, 3);
    game.set_cell_red(0, 0);
    game.set_cell_blue(1, 0);
    game.place_bomb(3, 2, 4);
    game.toggle_border_walls();
    game.generation = 12;
    let data = game.save_state();
    let mut other = GameState::new(1, 1);
    other.load_state(data);
    assert_eq!(other.cells, game.cells);
    assert_eq!(other.width, 4);
    assert_eq!(other.height, 3);
    assert_eq!(other.bomb_radii, game.bomb_radii);
    assert!(!other.has_border_walls);
    assert_eq!(other.generation, 12);
    assert_eq!(other.population, 2);
    assert_eq!(other.red_count, 1);
    assert_eq!(other.blue_count, 1);
}

#[test]
fn load_recounts_from_cells() {
    let mut game = GameState::new(2, 2);
    game.step();
    let mut radii = HashMap::new();
    radii.insert(position_key(0, 0), 3usize);
    let data = SaveData {
        width: 2,
        height: 1,
        cells: vec![vec![1, 2, 2]],
        bomb_radii: radii,
        has_border_walls: true,
        generation: 5,
    };
    game.load_state(data);
    assert_eq!(game.population, 3);
    assert_eq!(game.blue_count, 2);
    assert_eq!(game.generation, 5);
    assert_eq!(game.width, 2);
}

#[test]
fn response_copies_the_state() {
    let mut game = GameState::new(3, 3);
    game.set_cell_red(1, 1);
    game.place_bomb(0, 0, 1);
    game.set_cell_blue(0, 1);
    game.step();
    let r = GameStateResponse::from(&game);
    assert_eq!(r.width, 3);
    assert_eq!(r.height, 3);
    assert_eq!(r.cells, game.cells);
    assert_eq!(r.generation, 1);
    assert_eq!(r.population, game.population);
    assert_eq!(r.last_explosions, game.last_explosions);
    assert_eq!(r.last_explosions, vec![(0, 0, 1)]);
    assert!(r.has_border_walls);
}

#[test]
fn count_population_counts_only_red_and_blue() {
    let cells = vec![vec![0, 1, 2, 3], vec![4, 5, 1, 9]];
    assert_eq!(GameState::count_population(&cells), (3, 2, 1));
}

#[test]
fn default_true_is_true() {
    assert!(game_of_life::api::default_true());
}

#[test]
fn recount_helper_matches_counters() {
    let mut game = GameState::new(3, 3);
    game.set_cell_red(0, 0);
    game.set_cell_blue(1, 1);
    let (p, r, b) = (game.population, game.red_count, game.blue_count);
    recount(&mut game);
    assert_eq!((p, r, b), (game.population, game.red_count, game.blue_count));
}
