//! What holds of the game across its moves.
use vstd::prelude::*;

use crate::board::{grid_count, has_shape, population_of};
use crate::game::{set_code, toggle_code, GameState};
use crate::rules::{
    blast_hit, bombs_in_row, bombs_upto, count_around, evolve, explode_all, hv_triggered, hvs_in_row, hvs_upto,
    land, lemma_explode_all_shape, lemma_strike_lengths, lemma_wipe_nothing, life_grid, next_cell, strike, wipe, wrap_index,
};

verus! {

/// The two-faction rules for one cell: underpopulation, survival, overpopulation and
/// reproduction as the majority faction; walls, bombs and high-value units never change
/// by the rules.
pub proof fn lemma_life_rules(cur: u8, red: int, blue: int)
    requires
        red >= 0,
        blue >= 0,
    ensures
        (cur == 1 || cur == 2) && red + blue < 2 ==> next_cell(cur, red, blue) == 0,
        (cur == 1 || cur == 2) && 2 <= red + blue <= 3 ==> next_cell(cur, red, blue) == cur,
        (cur == 1 || cur == 2) && red + blue > 3 ==> next_cell(cur, red, blue) == 0,
        cur == 0 && red + blue == 3 && red > blue ==> next_cell(cur, red, blue) == 1,
        cur == 0 && red + blue == 3 && blue > red ==> next_cell(cur, red, blue) == 2,
        cur == 0 && red + blue != 3 ==> next_cell(cur, red, blue) == 0,
        cur == 3 || cur == 4 || cur == 5 ==> next_cell(cur, red, blue) == cur,
{
}

/// A dead cell with three living neighbours always has a strict majority faction: the two
/// factions cannot tie, so no chance is needed to pick the newborn's faction.
pub proof fn lemma_majority_is_strict(red: int, blue: int)
    requires
        red >= 0,
        blue >= 0,
        red + blue == 3,
    ensures
        red != blue,
        next_cell(0, red, blue) == if red > blue {
            1u8
        } else {
            2u8
        },
{
}

/// Without border walls the board is a torus: a neighbour one step off an edge is the
/// cell on the opposite edge.
pub proof fn lemma_wrapping_is_toroidal(x: int, d: int, size: int)
    requires
        0 <= x < size,
        -1 <= d <= 1,
        2 * size <= usize::MAX,
    ensures
        land(x + d, size, false) == Some((x + d + size) % size),
        x == 0 && d == -1 ==> land(x + d, size, false) == Some(size - 1),
        x == size - 1 && d == 1 ==> land(x + d, size, false) == Some(0int),
{
    assert(0 <= x + d + size <= usize::MAX);
    assert(((x + d + size) as usize) as int == x + d + size);
    if x == size - 1 && d == 1 {
        assert((x + d + size) % size == 0) by {
            vstd::arithmetic::div_mod::lemma_mod_self_0(size);
            vstd::arithmetic::div_mod::lemma_mod_multiples_basic(2, size);
            assert(x + d + size == 2 * size);
        }
    }
    if x == 0 && d == -1 {
        vstd::arithmetic::div_mod::lemma_mod_add_multiples_vanish(size - 1, size);
        vstd::arithmetic::div_mod::lemma_small_mod((size - 1) as nat, size as nat);
    }
}

/// With border walls nothing lands off the board: a cell on an edge has no neighbour
/// beyond it.
pub proof fn lemma_walls_clip(x: int, d: int, size: int)
    requires
        0 <= x < size,
    ensures
        land(x + d, size, true) is Some <==> 0 <= x + d < size,
        x == 0 && d == -1 ==> land(x + d, size, true) is None,
        x == size - 1 && d == 1 ==> land(x + d, size, true) is None,
{
}

/// Toggling a cell three times gives back its value when it is dead, red or blue; any
/// other value toggles to dead.
pub proof fn lemma_toggle_cycle(b: u8)
    ensures
        b <= 2 ==> toggle_code(toggle_code(toggle_code(b))) == b,
        b > 2 ==> toggle_code(b) == 0,
        toggle_code(0) == 1 && toggle_code(1) == 2 && toggle_code(2) == 0,
{
}

/// Toggling the same cell of a game three times gives back the game, when the cell is
/// dead, red or blue: the same board and the same counters.
pub proof fn lemma_toggle_three_times(
    s0: GameState,
    s1: GameState,
    s2: GameState,
    s3: GameState,
    x: usize,
    y: usize,
)
    requires
        s0.cell_in_board(x, y),
        s0.wrapped_cell(x, y) <= 2,
        GameState::toggle_done(s0, s1, x, y),
        GameState::toggle_done(s1, s2, x, y),
        GameState::toggle_done(s2, s3, x, y),
    ensures
        s3.grid() == s0.grid(),
        s3.population == s0.population,
        s3.red_count == s0.red_count,
        s3.blue_count == s0.blue_count,
        GameState::same_but_board(s0, s3),
{
    let g = s0.grid();
    let yy = (y % s0.height) as int;
    let xx = (x % s0.width) as int;
    assert(s1.grid()[yy][xx] == toggle_code(g[yy][xx]));
    assert(s2.grid()[yy][xx] == toggle_code(toggle_code(g[yy][xx])));
    assert(s3.grid()[yy] =~= g[yy]);
    assert(s3.grid() =~= g);
}

/// Setting a cell is idempotent: setting it to the same team again changes nothing.
pub proof fn lemma_set_cell_idempotent(
    s0: GameState,
    s1: GameState,
    s2: GameState,
    x: usize,
    y: usize,
    team: u8,
)
    requires
        s0.set_ready(x, y, team),
        GameState::set_done(s0, s1, x, y, team),
        GameState::set_done(s1, s2, x, y, team),
    ensures
        s2 == s1,
        s1.wrapped_cell(x, y) == set_code(team),
{
    let yy = (y % s0.height) as int;
    let xx = (x % s0.width) as int;
    if s0.wrapped_cell(x, y) != set_code(team) {
        assert(s1.grid()[yy][xx] == set_code(team));
    }
}

/// A game whose counters agree with its board has room for every move on a cell: the
/// cell exists, and toggling it, setting it to any team or placing a bomb on it keeps the
/// counters within their bounds (on a board of at most `usize::MAX` cells).
pub proof fn lemma_consistent_game_has_room(s: GameState, x: usize, y: usize, team: u8)
    requires
        s.wf(),
        s.width > 0,
        s.height > 0,
        s.counts_match(),
        s.width * s.height <= usize::MAX,
    ensures
        s.cell_in_board(x, y),
        s.toggle_fits(x, y),
        s.set_ready(x, y, team),
        s.bomb_fits(x, y),
{
    let g = s.grid();
    let yy = (y % s.height) as int;
    let xx = (x % s.width) as int;
    assert(g[yy].len() == s.width);
    let b = g[yy][xx];
    crate::board::lemma_total_cells_of_shape(g, s.width as int, s.height as int);
    crate::board::lemma_population_bounded(g);
    let v: u8 = if b == 1 || b == 2 { 0 } else { 1 };
    let g2 = g.update(yy, g[yy].update(xx, v));
    crate::game::lemma_count_after_write(g, xx, yy, v, 1);
    crate::game::lemma_count_after_write(g, xx, yy, v, 2);
    crate::board::lemma_total_cells_update(g, yy, g[yy].update(xx, v));
    crate::board::lemma_population_bounded(g2);
}

/// One generation depends on nothing but the board, the bomb radii, the size, the border
/// setting and the generation: two games equal in these step to games equal in every
/// field that a step sets. No chance enters a step.
pub proof fn lemma_step_is_determined(s1: GameState, t1: GameState, s2: GameState, t2: GameState)
    requires
        GameState::stepped(s1, t1),
        GameState::stepped(s2, t2),
        s1.grid() == s2.grid(),
        s1.bomb_radii@ == s2.bomb_radii@,
        s1.width == s2.width,
        s1.height == s2.height,
        s1.has_border_walls == s2.has_border_walls,
        s1.generation == s2.generation,
    ensures
        t1.grid() == t2.grid(),
        t1.bomb_radii@ == t2.bomb_radii@,
        t1.last_explosions@ == t2.last_explosions@,
        t1.last_hv_destroyed@ == t2.last_hv_destroyed@,
        t1.population == t2.population,
        t1.red_count == t2.red_count,
        t1.blue_count == t2.blue_count,
        t1.generation == t2.generation,
        t1.width == t2.width,
        t1.height == t2.height,
        t1.has_border_walls == t2.has_border_walls,
{
}

/// After a generation the board is `width` by `height`, and the population is the red and
/// blue cells together, never more than the board's cells.
pub proof fn lemma_step_keeps_counts(s: GameState, t: GameState)
    requires
        GameState::stepped(s, t),
    ensures
        t.width == s.width,
        t.height == s.height,
        has_shape(t.grid(), t.width as int, t.height as int),
        t.red_count == grid_count(t.grid(), 1),
        t.blue_count == grid_count(t.grid(), 2),
        t.population == t.red_count + t.blue_count,
        t.population <= t.width * t.height,
        t.generation == s.generation + 1,
{
    crate::board::lemma_population_bounded(t.grid());
    crate::board::lemma_total_cells_of_shape(t.grid(), t.width as int, t.height as int);
}

/// Setting a cell determines the game: two games that come from setting the same cell of
/// the same game to the same team agree in every field. So `set_cell_red` is
/// `set_cell` with team 1, and likewise for the other teams.
pub proof fn lemma_set_cell_is_determined(
    s: GameState,
    t1: GameState,
    t2: GameState,
    x: usize,
    y: usize,
    team: u8,
)
    requires
        GameState::set_done(s, t1, x, y, team),
        GameState::set_done(s, t2, x, y, team),
    ensures
        t1.grid() == t2.grid(),
        t1.population == t2.population,
        t1.red_count == t2.red_count,
        t1.blue_count == t2.blue_count,
        t1.bomb_radii@ == t2.bomb_radii@,
        t1.last_explosions@ == t2.last_explosions@,
        t1.last_hv_destroyed@ == t2.last_hv_destroyed@,
        t1.generation == t2.generation,
        t1.width == t2.width,
        t1.height == t2.height,
        t1.has_border_walls == t2.has_border_walls,
{
}

/// Resizing a game to its own size gives back its board and, when they agree with the
/// board, its counters; only the generation goes back to zero.
pub proof fn lemma_resize_to_same_size(s: GameState, t: GameState)
    requires
        s.wf(),
        GameState::resized(s, t, s.width, s.height),
    ensures
        t.grid() == s.grid(),
        t.width == s.width,
        t.height == s.height,
        s.counts_match() ==> t.population == s.population && t.red_count == s.red_count
            && t.blue_count == s.blue_count,
        t.generation == 0,
{
    assert forall|y: int| 0 <= y < s.height implies #[trigger] t.grid()[y] =~= s.grid()[y] by {
        assert(t.grid()[y].len() == s.width);
        assert(s.grid()[y].len() == s.width);
        assert forall|x: int| 0 <= x < s.width implies t.grid()[y][x] == s.grid()[y][x] by {
            assert(t.grid()[y][x] == s.grid()[y][x]);
        }
    }
    assert(t.grid() =~= s.grid());
}

/// Growing a game and shrinking it back to its size gives back its board.
pub proof fn lemma_grow_then_shrink(s: GameState, t: GameState, u: GameState, w: usize, h: usize)
    requires
        s.wf(),
        w >= s.width,
        h >= s.height,
        GameState::resized(s, t, w, h),
        GameState::resized(t, u, s.width, s.height),
    ensures
        u.grid() == s.grid(),
        u.width == s.width,
        u.height == s.height,
        u.generation == 0,
        u.bomb_radii@ == s.bomb_radii@,
        u.has_border_walls == s.has_border_walls,
        s.counts_match() ==> u.population == s.population && u.red_count == s.red_count
            && u.blue_count == s.blue_count,
{
    assert forall|y: int| 0 <= y < s.height implies #[trigger] u.grid()[y] =~= s.grid()[y] by {
        assert(u.grid()[y].len() == s.width);
        assert(s.grid()[y].len() == s.width);
        assert forall|x: int| 0 <= x < s.width implies u.grid()[y][x] == s.grid()[y][x] by {
            assert(u.grid()[y][x] == t.grid()[y][x]);
            assert(t.grid()[y][x] == s.grid()[y][x]);
        }
    }
    assert(u.grid() =~= s.grid());
}

/// When the counters agree with the board, the population is the red and blue counts
/// together, and never more than the board's cells.
pub proof fn lemma_population_is_red_plus_blue(s: GameState)
    requires
        s.counts_match(),
    ensures
        s.population == s.red_count + s.blue_count,
        s.population <= crate::board::total_cells(s.grid()),
{
    crate::board::lemma_population_bounded(s.grid());
}

/// The bombs that go off are bombs: a board without bombs has none going off.
proof fn lemma_no_bombs_go_off(g: Seq<Seq<u8>>, m: Map<u128, usize>, n: int, w: int, h: int, walls: bool)
    requires
        has_shape(g, w, h),
        w >= 0,
        0 <= n <= h,
        forall|x: int, y: int| 0 <= y < h && 0 <= x < w ==> #[trigger] g[y][x] != 4,
    ensures
        bombs_upto(g, m, n, w, h, walls) == Seq::<(usize, usize, usize)>::empty(),
    decreases n,
{
    if n > 0 {
        lemma_no_bombs_go_off(g, m, n - 1, w, h, walls);
        lemma_no_bombs_in_row(g, m, n - 1, w, w, h, walls);
        assert(bombs_upto(g, m, n, w, h, walls) =~= Seq::<(usize, usize, usize)>::empty());
    }
}

proof fn lemma_no_bombs_in_row(
    g: Seq<Seq<u8>>,
    m: Map<u128, usize>,
    y: int,
    n: int,
    w: int,
    h: int,
    walls: bool,
)
    requires
        has_shape(g, w, h),
        0 <= y < h,
        0 <= n <= w,
        forall|x: int, y: int| 0 <= y < h && 0 <= x < w ==> #[trigger] g[y][x] != 4,
    ensures
        bombs_in_row(g, m, y, n, w, h, walls) == Seq::<(usize, usize, usize)>::empty(),
    decreases n,
{
    if n > 0 {
        lemma_no_bombs_in_row(g, m, y, n - 1, w, h, walls);
        assert(g[y][n - 1] != 4);
    }
}

proof fn lemma_no_hvs_in_row(g: Seq<Seq<u8>>, y: int, n: int, w: int, h: int, walls: bool)
    requires
        has_shape(g, w, h),
        0 <= y < h,
        0 <= n <= w,
        forall|x: int, y: int| 0 <= y < h && 0 <= x < w ==> #[trigger] g[y][x] != 5,
    ensures
        hvs_in_row(g, y, n, w, h, walls) == Seq::<(usize, usize)>::empty(),
    decreases n,
{
    if n > 0 {
        lemma_no_hvs_in_row(g, y, n - 1, w, h, walls);
        assert(g[y][n - 1] != 5);
    }
}

proof fn lemma_no_hvs_touched(g: Seq<Seq<u8>>, n: int, w: int, h: int, walls: bool)
    requires
        has_shape(g, w, h),
        w >= 0,
        0 <= n <= h,
        forall|x: int, y: int| 0 <= y < h && 0 <= x < w ==> #[trigger] g[y][x] != 5,
    ensures
        hvs_upto(g, n, w, h, walls) == Seq::<(usize, usize)>::empty(),
    decreases n,
{
    if n > 0 {
        lemma_no_hvs_touched(g, n - 1, w, h, walls);
        lemma_no_hvs_in_row(g, n - 1, w, w, h, walls);
        assert(hvs_upto(g, n, w, h, walls) =~= Seq::<(usize, usize)>::empty());
    }
}

/// On a board without bombs and high-value units nothing explodes and nothing is
/// destroyed: the bombs and high-value units react to nothing.
proof fn lemma_quiet_strike(g: Seq<Seq<u8>>, m: Map<u128, usize>, w: int, h: int, walls: bool)
    requires
        has_shape(g, w, h),
        w >= 0,
        h >= 0,
        forall|x: int, y: int| 0 <= y < h && 0 <= x < w ==> #[trigger] g[y][x] != 4 && g[y][x] != 5,
    ensures
        strike(g, m, w, h, walls).cells == g,
        strike(g, m, w, h, walls).radii == m,
        strike(g, m, w, h, walls).explosions.len() == 0,
        strike(g, m, w, h, walls).destroyed.len() == 0,
{
    lemma_no_bombs_go_off(g, m, h, w, h, walls);
    lemma_no_hvs_touched(g, h, w, h, walls);
    let bombs = bombs_upto(g, m, h, w, h, walls);
    assert(explode_all(g, m, bombs, w, h, walls) == (g, m));
    lemma_wipe_nothing(
        g,
        m,
        |x: int, y: int| 0 <= x < w && 0 <= y < h && hv_triggered(g, x, y, w, h, walls),
    );
    reveal_with_fuel(Seq::<_>::filter, 1);
}

/// On a board without bombs and high-value units one generation is exactly the
/// two-faction rules: nothing explodes, nothing is destroyed, the radii stay.
pub proof fn lemma_step_without_bombs_or_high_values(
    g: Seq<Seq<u8>>,
    m: Map<u128, usize>,
    w: int,
    h: int,
    walls: bool,
)
    requires
        w >= 0,
        h >= 0,
        has_shape(g, w, h),
        forall|x: int, y: int| 0 <= y < h && 0 <= x < w ==> #[trigger] g[y][x] != 4 && g[y][x] != 5,
    ensures
        evolve(g, m, w, h, walls).cells == life_grid(g, w, h, walls),
        evolve(g, m, w, h, walls).radii == m,
        evolve(g, m, w, h, walls).explosions.len() == 0,
        evolve(g, m, w, h, walls).destroyed.len() == 0,
{
    lemma_quiet_strike(g, m, w, h, walls);
    let first = strike(g, m, w, h, walls);
    let n = life_grid(g, w, h, walls);
    lemma_life_adds_no_fixtures(g, w, h, walls);
    lemma_quiet_strike(n, m, w, h, walls);
    let second = strike(n, m, w, h, walls);
    assert(first.cells == g);
    assert(evolve(g, m, w, h, walls).cells == second.cells);
}

/// No blast of the list reaches (x, y).
pub open spec fn spared(list: Seq<(usize, usize, usize)>, x: int, y: int, w: int, h: int, walls: bool) -> bool {
    forall|i: int|
        0 <= i < list.len() ==> !blast_hit(
            (#[trigger] list[i]).0 as int,
            list[i].1 as int,
            list[i].2 as int,
            x,
            y,
            w,
            h,
            walls,
        )
}

/// A cell that no listed blast reaches keeps its value through the explosions.
pub proof fn lemma_explode_all_spares(
    g: Seq<Seq<u8>>,
    m: Map<u128, usize>,
    list: Seq<(usize, usize, usize)>,
    x: int,
    y: int,
    w: int,
    h: int,
    walls: bool,
)
    requires
        0 <= y < g.len(),
        0 <= x < g[y].len(),
        spared(list, x, y, w, h, walls),
    ensures
        explode_all(g, m, list, w, h, walls).0[y][x] == g[y][x],
    decreases list.len(),
{
    if list.len() > 0 {
        let prev = list.drop_last();
        assert(spared(prev, x, y, w, h, walls)) by {
            assert forall|i: int| 0 <= i < prev.len() implies !blast_hit(
                (#[trigger] prev[i]).0 as int,
                prev[i].1 as int,
                prev[i].2 as int,
                x,
                y,
                w,
                h,
                walls,
            ) by {
                assert(prev[i] == list[i]);
            }
        }
        lemma_explode_all_spares(g, m, prev, x, y, w, h, walls);
        lemma_explode_all_shape(g, m, prev, w, h, walls);
        let b = list.last();
        assert(list[list.len() - 1] == b);
    }
}

/// A wall stays a wall through a generation unless a blast of that generation reaches it.
pub proof fn lemma_wall_stands_unless_blasted(
    g: Seq<Seq<u8>>,
    m: Map<u128, usize>,
    x: int,
    y: int,
    w: int,
    h: int,
    walls: bool,
)
    requires
        w >= 0,
        h >= 0,
        has_shape(g, w, h),
        0 <= x < w,
        0 <= y < h,
        g[y][x] == 3,
        spared(evolve(g, m, w, h, walls).explosions, x, y, w, h, walls),
    ensures
        evolve(g, m, w, h, walls).cells[y][x] == 3,
{
    let first = strike(g, m, w, h, walls);
    let n = life_grid(first.cells, w, h, walls);
    let second = strike(n, first.radii, w, h, walls);
    let all = evolve(g, m, w, h, walls).explosions;
    assert(all == first.explosions + second.explosions);
    assert(spared(first.explosions, x, y, w, h, walls)) by {
        assert forall|i: int| 0 <= i < first.explosions.len() implies !blast_hit(
            (#[trigger] first.explosions[i]).0 as int,
            first.explosions[i].1 as int,
            first.explosions[i].2 as int,
            x,
            y,
            w,
            h,
            walls,
        ) by {
            assert(all[i] == first.explosions[i]);
        }
    }
    assert(spared(second.explosions, x, y, w, h, walls)) by {
        assert forall|i: int| 0 <= i < second.explosions.len() implies !blast_hit(
            (#[trigger] second.explosions[i]).0 as int,
            second.explosions[i].1 as int,
            second.explosions[i].2 as int,
            x,
            y,
            w,
            h,
            walls,
        ) by {
            assert(all[first.explosions.len() + i] == second.explosions[i]);
        }
    }
    lemma_explode_all_spares(g, m, first.explosions, x, y, w, h, walls);
    lemma_explode_all_shape(g, m, first.explosions, w, h, walls);
    assert(first.cells[y][x] == 3);
    lemma_strike_lengths(g, m, w, h, walls);
    assert(n[y][x] == 3);
    lemma_explode_all_spares(n, first.radii, second.explosions, x, y, w, h, walls);
    lemma_explode_all_shape(n, first.radii, second.explosions, w, h, walls);
}

/// A high-value unit that no red cell touches, before or after the rules, and that no
/// blast reaches, stands through a generation: blue cells do not destroy it.
pub proof fn lemma_high_value_stands_without_red(
    g: Seq<Seq<u8>>,
    m: Map<u128, usize>,
    x: int,
    y: int,
    w: int,
    h: int,
    walls: bool,
)
    requires
        w >= 0,
        h >= 0,
        has_shape(g, w, h),
        0 <= x < w,
        0 <= y < h,
        g[y][x] == 5,
        count_around(g, x, y, w, h, walls, 1) == 0,
        count_around(life_grid(strike(g, m, w, h, walls).cells, w, h, walls), x, y, w, h, walls, 1)
            == 0,
        spared(evolve(g, m, w, h, walls).explosions, x, y, w, h, walls),
    ensures
        evolve(g, m, w, h, walls).cells[y][x] == 5,
{
    let first = strike(g, m, w, h, walls);
    let n = life_grid(first.cells, w, h, walls);
    let second = strike(n, first.radii, w, h, walls);
    let all = evolve(g, m, w, h, walls).explosions;
    assert(all == first.explosions + second.explosions);
    assert(spared(first.explosions, x, y, w, h, walls)) by {
        assert forall|i: int| 0 <= i < first.explosions.len() implies !blast_hit(
            (#[trigger] first.explosions[i]).0 as int,
            first.explosions[i].1 as int,
            first.explosions[i].2 as int,
            x,
            y,
            w,
            h,
            walls,
        ) by {
            assert(all[i] == first.explosions[i]);
        }
    }
    assert(spared(second.explosions, x, y, w, h, walls)) by {
        assert forall|i: int| 0 <= i < second.explosions.len() implies !blast_hit(
            (#[trigger] second.explosions[i]).0 as int,
            second.explosions[i].1 as int,
            second.explosions[i].2 as int,
            x,
            y,
            w,
            h,
            walls,
        ) by {
            assert(all[first.explosions.len() + i] == second.explosions[i]);
        }
    }
    lemma_explode_all_spares(g, m, first.explosions, x, y, w, h, walls);
    lemma_explode_all_shape(g, m, first.explosions, w, h, walls);
    assert(!hv_triggered(g, x, y, w, h, walls));
    assert(first.cells[y][x] == 5);
    lemma_strike_lengths(g, m, w, h, walls);
    assert(n[y][x] == 5);
    lemma_explode_all_spares(n, first.radii, second.explosions, x, y, w, h, walls);
    lemma_explode_all_shape(n, first.radii, second.explosions, w, h, walls);
    assert(!hv_triggered(n, x, y, w, h, walls));
}

/// The rules turn no cell into a bomb or a high-value unit.
proof fn lemma_life_adds_no_fixtures(g: Seq<Seq<u8>>, w: int, h: int, walls: bool)
    requires
        w >= 0,
        h >= 0,
        has_shape(g, w, h),
        forall|x: int, y: int| 0 <= y < h && 0 <= x < w ==> #[trigger] g[y][x] != 4 && g[y][x] != 5,
    ensures
        has_shape(life_grid(g, w, h, walls), w, h),
        forall|x: int, y: int|
            0 <= y < h && 0 <= x < w ==> #[trigger] life_grid(g, w, h, walls)[y][x] != 4 && life_grid(
                g,
                w,
                h,
                walls,
            )[y][x] != 5,
{
    let n = life_grid(g, w, h, walls);
    assert forall|x: int, y: int| 0 <= y < h && 0 <= x < w implies #[trigger] n[y][x] != 4 && n[y][x]
        != 5 by {
        let cur = g[y][x];
        assert(cur != 4 && cur != 5);
        lemma_next_cell_no_fixture(
            cur,
            count_around(g, x, y, w, h, walls, 1),
            count_around(g, x, y, w, h, walls, 2),
        );
    }
}

/// A cell that is neither a bomb nor a high-value unit does not become one.
proof fn lemma_next_cell_no_fixture(cur: u8, red: int, blue: int)
    requires
        cur != 4 && cur != 5,
    ensures
        next_cell(cur, red, blue) != 4 && next_cell(cur, red, blue) != 5,
{
}

/// An empty board stays empty: with every cell dead, a generation leaves every cell dead.
pub proof fn lemma_empty_board_stays_empty(
    g: Seq<Seq<u8>>,
    m: Map<u128, usize>,
    w: int,
    h: int,
    walls: bool,
)
    requires
        w >= 1,
        h >= 1,
        w <= usize::MAX,
        h <= usize::MAX,
        has_shape(g, w, h),
        forall|x: int, y: int| 0 <= y < h && 0 <= x < w ==> #[trigger] g[y][x] == 0,
    ensures
        forall|x: int, y: int|
            0 <= y < h && 0 <= x < w ==> #[trigger] evolve(g, m, w, h, walls).cells[y][x] == 0,
        evolve(g, m, w, h, walls).explosions.len() == 0,
        evolve(g, m, w, h, walls).destroyed.len() == 0,
{
    lemma_step_without_bombs_or_high_values(g, m, w, h, walls);
    assert forall|x: int, y: int| 0 <= y < h && 0 <= x < w implies #[trigger] life_grid(
        g,
        w,
        h,
        walls,
    )[y][x] == 0 by {
        lemma_nothing_around_on_empty(g, x, y, w, h, walls, 1);
        lemma_nothing_around_on_empty(g, x, y, w, h, walls, 2);
    }
}

/// On an empty board no neighbour holds a living value.
proof fn lemma_nothing_around_on_empty(
    g: Seq<Seq<u8>>,
    x: int,
    y: int,
    w: int,
    h: int,
    walls: bool,
    v: u8,
)
    requires
        w >= 1,
        h >= 1,
        w <= usize::MAX,
        h <= usize::MAX,
        v != 0,
        has_shape(g, w, h),
        forall|x: int, y: int| 0 <= y < h && 0 <= x < w ==> #[trigger] g[y][x] == 0,
    ensures
        count_around(g, x, y, w, h, walls, v) == 0,
{
    assert forall|d: int, size: int| size >= 1 && #[trigger] land(d, size, walls) is Some implies 0
        <= land(d, size, walls)->0 < size by {
        if !walls {
            assert(wrap_index(d, size) == ((d + size) as usize) as int % size);
        }
    }
}

} // verus!
