use game_of_life::game::{position_key, GameState};
use game_of_life::keytext::{decimal, parse_position, position_text};

fn text(s: &str) -> Vec<u8> {
    s.as_bytes().to_vec()
}

#[test]
fn decimal_writes_numbers() {
    assert_eq!(decimal(0), text("0"));
    assert_eq!(decimal(7), text("7"));
    assert_eq!(decimal(10), text("10"));
    assert_eq!(decimal(4096), text("4096"));
    assert_eq!(decimal(u64::MAX), text("18446744073709551615"));
}

#[test]
fn position_text_is_x_comma_y() {
    assert_eq!(position_text(position_key(3, 12)), text("3,12"));
    assert_eq!(position_text(position_key(0, 0)), text("0,0"));
    assert_eq!(position_text(position_key(105, 9)), text("105,9"));
}

#[test]
fn parse_position_reads_canonical_text() {
    assert_eq!(parse_position(&text("3,12")), Some(position_key(3, 12)));
    assert_eq!(parse_position(&text("0,0")), Some(position_key(0, 0)));
    assert_eq!(parse_position(&text("59,39")), Some(position_key(59, 39)));
}

#[test]
fn parse_position_refuses_other_text() {
    assert_eq!(parse_position(&text("01,2")), None);
    assert_eq!(parse_position(&text("1,02")), None);
    assert_eq!(parse_position(&text("1 ,2")), None);
    assert_eq!(parse_position(&text("1,2,3")), None);
    assert_eq!(parse_position(&text(",2")), None);
    assert_eq!(parse_position(&text("1,")), None);
    assert_eq!(parse_position(&text("12")), None);
    assert_eq!(parse_position(&text("")), None);
    assert_eq!(parse_position(&text("-1,2")), None);
    assert_eq!(parse_position(&text("99999999999999999999,1")), None);
}

#[test]
fn position_text_round_trip() {
    for &(x, y) in &[(0usize, 0usize), (1, 2), (10, 100), (12345, 678)] {
        let k = position_key(x, y);
        assert_eq!(parse_position(&position_text(k)), Some(k));
    }
}

#[test]
fn step_is_determined_by_the_game() {
    let mut a = GameState::new(6, 6);
    a.set_cell_red(1, 1);
    a.set_cell_red(2, 1);
    a.set_cell_blue(1, 2);
    a.set_cell_blue(3, 3);
    a.place_bomb(4, 4, 1);
    let mut b = a.clone();
    for _ in 0..4 {
        a.step();
        b.step();
        assert_eq!(a.cells, b.cells);
        assert_eq!(a.population, b.population);
        assert_eq!(a.red_count, b.red_count);
        assert_eq!(a.blue_count, b.blue_count);
        assert_eq!(a.bomb_radii, b.bomb_radii);
        assert_eq!(a.last_explosions, b.last_explosions);
        assert_eq!(a.population, a.red_count + a.blue_count);
    }
}

#[test]
fn grow_then_shrink_gives_back_the_board() {
    let mut game = GameState::new(3, 2);
    game.set_cell_red(0, 0);
    game.set_cell_blue(2, 1);
    game.set_cell_wall(1, 1);
    let cells = game.cells.clone();
    game.resize(7, 5);
    game.resize(3, 2);
    assert_eq!(game.cells, cells);
    assert_eq!(game.width, 3);
    assert_eq!(game.height, 2);
    assert_eq!(game.population, 2);
    assert_eq!(game.red_count, 1);
    assert_eq!(game.blue_count, 1);
}

#[test]
fn resize_to_same_size_keeps_board() {
    let mut game = GameState::new(4, 4);
    game.set_cell_red(1, 1);
    game.step();
    let cells = game.cells.clone();
    game.resize(4, 4);
    assert_eq!(game.cells, cells);
    assert_eq!(game.generation, 0);
}

#[test]
fn set_cell_red_is_set_cell_with_team_one() {
    let mut a = GameState::new(4, 4);
    a.place_bomb(2, 2, 2);
    let mut b = a.clone();
    a.set_cell_red(2, 2);
    b.set_cell(2, 2, 1);
    assert_eq!(a.cells, b.cells);
    assert_eq!(a.population, b.population);
    assert_eq!(a.red_count, b.red_count);
    assert_eq!(a.bomb_radii, b.bomb_radii);
    assert!(a.bomb_radii.is_empty());
}

#[test]
fn toggle_three_times_restores_counters() {
    let mut game = GameState::new(3, 3);
    game.set_cell_blue(0, 0);
    game.set_cell_red(2, 2);
    let before = game.clone();
    for _ in 0..3 {
        game.toggle_cell(2, 2);
    }
    assert_eq!(game.cells, before.cells);
    assert_eq!(game.population, before.population);
    assert_eq!(game.red_count, before.red_count);
    assert_eq!(game.blue_count, before.blue_count);
}
