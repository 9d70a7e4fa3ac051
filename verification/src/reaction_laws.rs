//! What bombs and high-value units do in a generation, stated in plain arithmetic over the
//! game before and after a step.
use vstd::prelude::*;

use crate::board::has_shape;
use crate::game::GameState;
use crate::laws::{lemma_wall_stands_unless_blasted, spared};
use crate::rules::{
    blast_area, blast_hit, bomb_key, bomb_triggered, radius_at, bombs_in_row, bombs_upto, hvs_in_row, lemma_wipe_nothing, count_around, evolve, explode_all, hv_triggered, hvs_upto,
    in_disk, land, lemma_explode_all_shape, lemma_hvs_upto, lemma_strike_lengths, life_grid,
    next_cell, probe, strike, wipe,
};

verus! {

/// With border walls, the blast of radius `r` of a bomb at (bx, by) reaches exactly the
/// cells of the board within Euclidean distance `r` of it.
pub proof fn lemma_blast_is_a_disk(bx: int, by: int, r: int, px: int, py: int, w: int, h: int)
    requires
        r >= 0,
        0 <= px < w,
        0 <= py < h,
    ensures
        blast_hit(bx, by, r, px, py, w, h, true) == ((px - bx) * (px - bx) + (py - by) * (py - by)
            <= r * r),
{
    if blast_hit(bx, by, r, px, py, w, h, true) {
        let (dx, dy) = choose|dx: int, dy: int|
            #[trigger] in_disk(dx, dy, r) && (land(bx + dx, w, true) == Some(px) || land(
                bx - dx,
                w,
                true,
            ) == Some(px)) && (land(by + dy, h, true) == Some(py) || land(by - dy, h, true) == Some(
                py,
            ));
        let ax = px - bx;
        let ay = py - by;
        assert(ax == dx || ax == -dx);
        assert(ay == dy || ay == -dy);
        assert(ax * ax == dx * dx) by (nonlinear_arith)
            requires
                ax == dx || ax == -dx,
        ;
        assert(ay * ay == dy * dy) by (nonlinear_arith)
            requires
                ay == dy || ay == -dy,
        ;
    }
    if (px - bx) * (px - bx) + (py - by) * (py - by) <= r * r {
        let ax = if px >= bx {
            px - bx
        } else {
            bx - px
        };
        let ay = if py >= by {
            py - by
        } else {
            by - py
        };
        assert(ax * ax == (px - bx) * (px - bx)) by (nonlinear_arith)
            requires
                ax == px - bx || ax == bx - px,
        ;
        assert(ay * ay == (py - by) * (py - by)) by (nonlinear_arith)
            requires
                ay == py - by || ay == by - py,
        ;
        assert(ax * ax + ay * ay <= r * r);
        assert(ax <= r) by (nonlinear_arith)
            requires
                ax >= 0,
                ay >= 0,
                r >= 0,
                ax * ax + ay * ay <= r * r,
        ;
        assert(ay <= r) by (nonlinear_arith)
            requires
                ax >= 0,
                ay >= 0,
                r >= 0,
                ax * ax + ay * ay <= r * r,
        ;
        assert(in_disk(ax, ay, r));
        if px >= bx {
            assert(land(bx + ax, w, true) == Some(px));
        } else {
            assert(land(bx - ax, w, true) == Some(px));
        }
        if py >= by {
            assert(land(by + ay, h, true) == Some(py));
        } else {
            assert(land(by - ay, h, true) == Some(py));
        }
    }
}

/// A cell that a listed blast reaches is dead once the listed bombs have gone off.
proof fn lemma_explode_all_hits(
    g: Seq<Seq<u8>>,
    m: Map<u128, usize>,
    list: Seq<(usize, usize, usize)>,
    i: int,
    x: int,
    y: int,
    w: int,
    h: int,
    walls: bool,
)
    requires
        0 <= y < g.len(),
        0 <= x < g[y].len(),
        0 <= i < list.len(),
        blast_hit(list[i].0 as int, list[i].1 as int, list[i].2 as int, x, y, w, h, walls),
    ensures
        explode_all(g, m, list, w, h, walls).0[y][x] == 0,
    decreases list.len(),
{
    let prev = list.drop_last();
    lemma_explode_all_shape(g, m, prev, w, h, walls);
    let before = explode_all(g, m, prev, w, h, walls);
    let b = list.last();
    let area = blast_area(b.0 as int, b.1 as int, b.2 as int, w, h, walls);
    assert(explode_all(g, m, list, w, h, walls).0 == wipe(before.0, area));
    if i < list.len() - 1 {
        assert(prev[i] == list[i]);
        lemma_explode_all_hits(g, m, prev, i, x, y, w, h, walls);
    } else {
        assert(area(x, y));
    }
}

/// The distance test of a blast, in plain arithmetic: (px, py) lies within the radius of
/// the explosion `e`.
pub open spec fn within_blast(e: (usize, usize, usize), px: int, py: int) -> bool {
    (px - e.0) * (px - e.0) + (py - e.1) * (py - e.1) <= e.2 * e.2
}

/// With border walls, a wall survives a generation exactly when no explosion of that
/// generation has it within its radius: every explosion (cx, cy, r) recorded by the step
/// clears every wall with (px - cx)² + (py - cy)² <= r², and no other wall goes.
pub proof fn lemma_walls_fall_exactly_within_blasts(s: GameState, t: GameState, px: int, py: int)
    requires
        GameState::stepped(s, t),
        s.wf(),
        s.has_border_walls,
        0 <= px < s.width,
        0 <= py < s.height,
        s.grid()[py][px] == 3,
    ensures
        t.grid()[py][px] == 3 <==> forall|i: int|
            0 <= i < t.last_explosions@.len() ==> !within_blast(
                #[trigger] t.last_explosions@[i],
                px,
                py,
            ),
{
    let g = s.grid();
    let m = s.bomb_radii@;
    let w = s.width as int;
    let h = s.height as int;
    let first = strike(g, m, w, h, true);
    let n = life_grid(first.cells, w, h, true);
    let second = strike(n, first.radii, w, h, true);
    let all = evolve(g, m, w, h, true).explosions;
    assert(all == first.explosions + second.explosions);
    assert(t.last_explosions@ == all);
    assert forall|i: int| 0 <= i < all.len() implies blast_hit(
        (#[trigger] all[i]).0 as int,
        all[i].1 as int,
        all[i].2 as int,
        px,
        py,
        w,
        h,
        true,
    ) == within_blast(all[i], px, py) by {
        lemma_blast_is_a_disk(all[i].0 as int, all[i].1 as int, all[i].2 as int, px, py, w, h);
    }
    if forall|i: int| 0 <= i < all.len() ==> !within_blast(#[trigger] all[i], px, py) {
        assert(spared(all, px, py, w, h, true)) by {
            assert forall|i: int| 0 <= i < all.len() implies !blast_hit(
                (#[trigger] all[i]).0 as int,
                all[i].1 as int,
                all[i].2 as int,
                px,
                py,
                w,
                h,
                true,
            ) by {
                assert(!within_blast(all[i], px, py));
            }
        }
        lemma_wall_stands_unless_blasted(g, m, px, py, w, h, true);
    } else {
        let i = choose|i: int| 0 <= i < all.len() && within_blast(#[trigger] all[i], px, py);
        assert(blast_hit(all[i].0 as int, all[i].1 as int, all[i].2 as int, px, py, w, h, true));
        let bombs1 = bombs_upto(g, m, h, w, h, true);
        let blasted1 = explode_all(g, m, bombs1, w, h, true);
        lemma_explode_all_shape(g, m, bombs1, w, h, true);
        lemma_strike_lengths(g, m, w, h, true);
        let bombs2 = bombs_upto(n, first.radii, h, w, h, true);
        let blasted2 = explode_all(n, first.radii, bombs2, w, h, true);
        lemma_explode_all_shape(n, first.radii, bombs2, w, h, true);
        assert(n[py].len() == w);
        if i < first.explosions.len() {
            assert(all[i] == first.explosions[i]);
            lemma_explode_all_hits(g, m, bombs1, i, px, py, w, h, true);
            assert(first.cells[py][px] == 0);
            assert(n[py][px] == next_cell(
                0,
                count_around(first.cells, px, py, w, h, true, 1),
                count_around(first.cells, px, py, w, h, true, 2),
            ));
            assert(n[py][px] != 3);
            assert(blasted2.0[py][px] == n[py][px] || blasted2.0[py][px] == 0);
        } else {
            let j = i - first.explosions.len();
            assert(all[i] == second.explosions[j]);
            lemma_explode_all_hits(n, first.radii, bombs2, j, px, py, w, h, true);
        }
        assert(second.cells[py][px] != 3);
    }
}


/// The neighbour of (x, y) at offset (dx, dy) holds `v` and lies on a board with border
/// walls: then `v` is counted among the eight neighbours of (x, y).
proof fn lemma_neighbour_counts(
    g: Seq<Seq<u8>>,
    x: int,
    y: int,
    dx: int,
    dy: int,
    w: int,
    h: int,
    v: u8,
)
    requires
        -1 <= dx <= 1,
        -1 <= dy <= 1,
        !(dx == 0 && dy == 0),
        0 <= x + dx < w,
        0 <= y + dy < h,
        g[y + dy][x + dx] == v,
    ensures
        count_around(g, x, y, w, h, true, v) > 0,
{
    assert(probe(g, x, y, dx, dy, w, h, true, v) == 1);
    assert(probe(g, x, y, -1, -1, w, h, true, v) >= 0);
    assert(probe(g, x, y, 0, -1, w, h, true, v) >= 0);
    assert(probe(g, x, y, 1, -1, w, h, true, v) >= 0);
    assert(probe(g, x, y, -1, 0, w, h, true, v) >= 0);
    assert(probe(g, x, y, 1, 0, w, h, true, v) >= 0);
    assert(probe(g, x, y, -1, 1, w, h, true, v) >= 0);
    assert(probe(g, x, y, 0, 1, w, h, true, v) >= 0);
    assert(probe(g, x, y, 1, 1, w, h, true, v) >= 0);
    if dy == -1 {
        if dx == -1 {
        } else if dx == 0 {
        } else {
        }
    } else if dy == 0 {
        if dx == -1 {
        } else {
        }
    } else {
        if dx == -1 {
        } else if dx == 0 {
        } else {
        }
    }
}

/// With border walls, a high-value unit with a red cell at any of its eight neighbours
/// (the diagonal ones too) when a step begins is gone after the step: it is recorded as
/// destroyed, unless an explosion of the step had it within its radius first.
pub proof fn lemma_red_neighbour_destroys_high_value(
    s: GameState,
    t: GameState,
    x: int,
    y: int,
    dx: int,
    dy: int,
)
    requires
        GameState::stepped(s, t),
        s.wf(),
        s.has_border_walls,
        0 <= x < s.width,
        0 <= y < s.height,
        s.grid()[y][x] == 5,
        -1 <= dx <= 1,
        -1 <= dy <= 1,
        !(dx == 0 && dy == 0),
        0 <= x + dx < s.width,
        0 <= y + dy < s.height,
        s.grid()[y + dy][x + dx] == 1,
    ensures
        t.grid()[y][x] != 5,
        t.last_hv_destroyed@.contains((x as usize, y as usize)) || exists|i: int|
            0 <= i < t.last_explosions@.len() && within_blast(#[trigger] t.last_explosions@[i], x, y),
{
    let g = s.grid();
    let m = s.bomb_radii@;
    let w = s.width as int;
    let h = s.height as int;
    let first = strike(g, m, w, h, true);
    let n = life_grid(first.cells, w, h, true);
    let second = strike(n, first.radii, w, h, true);
    assert(t.last_explosions@ == first.explosions + second.explosions);
    assert(t.last_hv_destroyed@ == first.destroyed + second.destroyed);
    lemma_neighbour_counts(g, x, y, dx, dy, w, h, 1);
    assert(hv_triggered(g, x, y, w, h, true));
    let bombs1 = bombs_upto(g, m, h, w, h, true);
    let blasted1 = explode_all(g, m, bombs1, w, h, true);
    lemma_explode_all_shape(g, m, bombs1, w, h, true);
    lemma_strike_lengths(g, m, w, h, true);
    assert(first.cells[y][x] == 0);
    assert(n[y].len() == w);
    assert(n[y][x] == next_cell(
        0,
        count_around(first.cells, x, y, w, h, true, 1),
        count_around(first.cells, x, y, w, h, true, 2),
    ));
    let bombs2 = bombs_upto(n, first.radii, h, w, h, true);
    lemma_explode_all_shape(n, first.radii, bombs2, w, h, true);
    lemma_strike_lengths(n, first.radii, w, h, true);
    assert(second.cells[y][x] != 5);
    if blasted1.0[y][x] == 5 {
        lemma_hvs_upto(g, h, w, h, true);
        let hvs = hvs_upto(g, h, w, h, true);
        assert(hvs.contains((x as usize, y as usize)));
        let k = choose|k: int| 0 <= k < hvs.len() && hvs[k] == (x as usize, y as usize);
        let pred = |p: (usize, usize)| blasted1.0[p.1 as int][p.0 as int] == 5;
        hvs.lemma_filter_contains(pred, k);
        assert(first.destroyed == hvs.filter(pred));
        let kk = choose|kk: int| 0 <= kk < first.destroyed.len() && first.destroyed[kk] == (
            x as usize,
            y as usize,
        );
        assert(t.last_hv_destroyed@[kk] == (x as usize, y as usize));
    } else {
        if spared(bombs1, x, y, w, h, true) {
            crate::laws::lemma_explode_all_spares(g, m, bombs1, x, y, w, h, true);
        }
        let i = choose|i: int|
            0 <= i < bombs1.len() && blast_hit(
                (#[trigger] bombs1[i]).0 as int,
                bombs1[i].1 as int,
                bombs1[i].2 as int,
                x,
                y,
                w,
                h,
                true,
            );
        lemma_blast_is_a_disk(bombs1[i].0 as int, bombs1[i].1 as int, bombs1[i].2 as int, x, y, w, h);
        assert(t.last_explosions@[i] == bombs1[i]);
        assert(within_blast(t.last_explosions@[i], x, y));
    }
}


/// Where a neighbour lands, it lands on the board.
proof fn lemma_land_on_board(raw: int, size: int, walls: bool)
    requires
        size > 0,
    ensures
        land(raw, size, walls) matches Some(p) ==> 0 <= p < size,
{
}

/// On a board with no red and no blue cell, no cell has a red or blue neighbour.
proof fn lemma_no_living_neighbours(g: Seq<Seq<u8>>, x: int, y: int, w: int, h: int, walls: bool, v: u8)
    requires
        has_shape(g, w, h),
        0 <= x < w,
        0 <= y < h,
        v == 1 || v == 2,
        forall|i: int, j: int| 0 <= j < h && 0 <= i < w ==> #[trigger] g[j][i] != 1 && g[j][i] != 2,
    ensures
        count_around(g, x, y, w, h, walls, v) == 0,
{
    assert forall|dx: int, dy: int| #[trigger] probe(g, x, y, dx, dy, w, h, walls, v) == 0 by {
        lemma_land_on_board(x + dx, w, walls);
        lemma_land_on_board(y + dy, h, walls);
    }
}

proof fn lemma_no_bombs_in_row_go_off(
    g: Seq<Seq<u8>>,
    m: Map<u128, usize>,
    y: int,
    n: int,
    w: int,
    h: int,
    walls: bool,
)
    requires
        0 <= n <= w,
        forall|x: int| 0 <= x < w ==> !#[trigger] bomb_triggered(g, x, y, w, h, walls),
    ensures
        bombs_in_row(g, m, y, n, w, h, walls).len() == 0,
    decreases n,
{
    if n > 0 {
        lemma_no_bombs_in_row_go_off(g, m, y, n - 1, w, h, walls);
        assert(!bomb_triggered(g, n - 1, y, w, h, walls));
    }
}

proof fn lemma_no_bombs_upto_go_off(g: Seq<Seq<u8>>, m: Map<u128, usize>, n: int, w: int, h: int, walls: bool)
    requires
        0 <= n <= h,
        w >= 0,
        forall|x: int, y: int| 0 <= y < h && 0 <= x < w ==> !#[trigger] bomb_triggered(g, x, y, w, h, walls),
    ensures
        bombs_upto(g, m, n, w, h, walls).len() == 0,
    decreases n,
{
    if n > 0 {
        lemma_no_bombs_upto_go_off(g, m, n - 1, w, h, walls);
        assert forall|x: int| 0 <= x < w implies !#[trigger] bomb_triggered(g, x, n - 1, w, h, walls) by {}
        lemma_no_bombs_in_row_go_off(g, m, n - 1, w, w, h, walls);
    }
}

proof fn lemma_no_hvs_in_row_go(g: Seq<Seq<u8>>, y: int, n: int, w: int, h: int, walls: bool)
    requires
        0 <= n <= w,
        forall|x: int| 0 <= x < w ==> !#[trigger] hv_triggered(g, x, y, w, h, walls),
    ensures
        hvs_in_row(g, y, n, w, h, walls).len() == 0,
    decreases n,
{
    if n > 0 {
        lemma_no_hvs_in_row_go(g, y, n - 1, w, h, walls);
        assert(!hv_triggered(g, n - 1, y, w, h, walls));
    }
}

proof fn lemma_no_hvs_upto_go(g: Seq<Seq<u8>>, n: int, w: int, h: int, walls: bool)
    requires
        0 <= n <= h,
        w >= 0,
        forall|x: int, y: int| 0 <= y < h && 0 <= x < w ==> !#[trigger] hv_triggered(g, x, y, w, h, walls),
    ensures
        hvs_upto(g, n, w, h, walls).len() == 0,
    decreases n,
{
    if n > 0 {
        lemma_no_hvs_upto_go(g, n - 1, w, h, walls);
        assert forall|x: int| 0 <= x < w implies !#[trigger] hv_triggered(g, x, n - 1, w, h, walls) by {}
        lemma_no_hvs_in_row_go(g, n - 1, w, w, h, walls);
    }
}

/// On a board whose cells are all dead cells, walls, bombs and high-value units, one round
/// of reactions does nothing.
proof fn lemma_lifeless_strike(g: Seq<Seq<u8>>, m: Map<u128, usize>, w: int, h: int, walls: bool)
    requires
        has_shape(g, w, h),
        w >= 0,
        h >= 0,
        forall|i: int, j: int| 0 <= j < h && 0 <= i < w ==> #[trigger] g[j][i] != 1 && g[j][i] != 2,
    ensures
        strike(g, m, w, h, walls).cells == g,
        strike(g, m, w, h, walls).radii == m,
        strike(g, m, w, h, walls).explosions.len() == 0,
        strike(g, m, w, h, walls).destroyed.len() == 0,
{
    assert forall|x: int, y: int| 0 <= y < h && 0 <= x < w implies !#[trigger] bomb_triggered(
        g,
        x,
        y,
        w,
        h,
        walls,
    ) && !hv_triggered(g, x, y, w, h, walls) by {
        lemma_no_living_neighbours(g, x, y, w, h, walls, 1);
        lemma_no_living_neighbours(g, x, y, w, h, walls, 2);
    }
    lemma_no_bombs_upto_go_off(g, m, h, w, h, walls);
    lemma_no_hvs_upto_go(g, h, w, h, walls);
    let bombs = bombs_upto(g, m, h, w, h, walls);
    assert(bombs =~= Seq::<(usize, usize, usize)>::empty());
    assert(explode_all(g, m, bombs, w, h, walls) == (g, m));
    lemma_wipe_nothing(
        g,
        m,
        |x: int, y: int| 0 <= x < w && 0 <= y < h && hv_triggered(g, x, y, w, h, walls),
    );
    reveal_with_fuel(Seq::<_>::filter, 1);
    assert(hvs_upto(g, h, w, h, walls) =~= Seq::<(usize, usize)>::empty());
}

/// Bombs go off only when a red or blue cell touches them, and high-value units fall only
/// to red cells: on a board with no red and no blue cell (only dead cells, walls, bombs
/// and high-value units) a step changes nothing, whatever stands next to the bombs. No
/// explosion, no destroyed unit, the same board and the same radii.
pub proof fn lemma_nothing_happens_without_living_cells(s: GameState, t: GameState)
    requires
        GameState::stepped(s, t),
        s.wf(),
        forall|x: int, y: int|
            0 <= y < s.height && 0 <= x < s.width ==> {
                let c = #[trigger] s.grid()[y][x];
                c == 0 || c == 3 || c == 4 || c == 5
            },
    ensures
        t.last_explosions@.len() == 0,
        t.last_hv_destroyed@.len() == 0,
        t.grid() == s.grid(),
        t.bomb_radii@ == s.bomb_radii@,
{
    let g = s.grid();
    let m = s.bomb_radii@;
    let w = s.width as int;
    let h = s.height as int;
    assert forall|i: int, j: int| 0 <= j < h && 0 <= i < w implies #[trigger] g[j][i] != 1 && g[j][i] != 2 by {
        let c = g[j][i];
        assert(c == 0 || c == 3 || c == 4 || c == 5);
    }
    lemma_lifeless_strike(g, m, w, h, s.has_border_walls);
    let n = life_grid(g, w, h, s.has_border_walls);
    assert forall|y: int| 0 <= y < h implies #[trigger] n[y] =~= g[y] by {
        assert forall|x: int| 0 <= x < w implies n[y][x] == g[y][x] by {
            lemma_no_living_neighbours(g, x, y, w, h, s.has_border_walls, 1);
            lemma_no_living_neighbours(g, x, y, w, h, s.has_border_walls, 2);
            let c = g[y][x];
            assert(c == 0 || c == 3 || c == 4 || c == 5);
        }
    }
    assert(n =~= g);
    lemma_lifeless_strike(n, m, w, h, s.has_border_walls);
}


/// Every bomb of the first `n` cells of row `y` that goes off is listed, with its radius.
proof fn lemma_bombs_in_row_listed(
    g: Seq<Seq<u8>>,
    m: Map<u128, usize>,
    y: int,
    n: int,
    w: int,
    h: int,
    walls: bool,
)
    requires
        0 <= y <= usize::MAX,
        0 <= n <= usize::MAX,
    ensures
        forall|x: int|
            0 <= x < n && #[trigger] bomb_triggered(g, x, y, w, h, walls) ==> bombs_in_row(
                g,
                m,
                y,
                n,
                w,
                h,
                walls,
            ).contains((x as usize, y as usize, radius_at(m, x, y))),
    decreases n,
{
    if n > 0 {
        lemma_bombs_in_row_listed(g, m, y, n - 1, w, h, walls);
        let prev = bombs_in_row(g, m, y, n - 1, w, h, walls);
        let s = bombs_in_row(g, m, y, n, w, h, walls);
        assert forall|x: int|
            0 <= x < n && #[trigger] bomb_triggered(g, x, y, w, h, walls) implies s.contains(
            (x as usize, y as usize, radius_at(m, x, y)),
        ) by {
            let e = (x as usize, y as usize, radius_at(m, x, y));
            if x < n - 1 {
                let k = choose|k: int| 0 <= k < prev.len() && prev[k] == e;
                if bomb_triggered(g, n - 1, y, w, h, walls) {
                    assert(s[k] == prev[k]);
                } else {
                    assert(s[k] == prev[k]);
                }
            } else {
                assert(s[s.len() - 1] == e);
            }
        }
    }
}

/// Every bomb of the first `n` rows that goes off is listed, with its radius.
proof fn lemma_bombs_upto_listed(g: Seq<Seq<u8>>, m: Map<u128, usize>, n: int, w: int, h: int, walls: bool)
    requires
        0 <= n <= usize::MAX,
        0 <= w <= usize::MAX,
    ensures
        forall|x: int, y: int|
            0 <= y < n && 0 <= x < w && #[trigger] bomb_triggered(g, x, y, w, h, walls)
                ==> bombs_upto(g, m, n, w, h, walls).contains(
                (x as usize, y as usize, radius_at(m, x, y)),
            ),
    decreases n,
{
    if n > 0 {
        lemma_bombs_upto_listed(g, m, n - 1, w, h, walls);
        lemma_bombs_in_row_listed(g, m, n - 1, w, w, h, walls);
        let a = bombs_upto(g, m, n - 1, w, h, walls);
        let b = bombs_in_row(g, m, n - 1, w, w, h, walls);
        let s = bombs_upto(g, m, n, w, h, walls);
        assert(s == a + b);
        assert forall|x: int, y: int|
            0 <= y < n && 0 <= x < w && #[trigger] bomb_triggered(g, x, y, w, h, walls) implies s.contains(
            (x as usize, y as usize, radius_at(m, x, y)),
        ) by {
            let e = (x as usize, y as usize, radius_at(m, x, y));
            if y < n - 1 {
                let k = choose|k: int| 0 <= k < a.len() && a[k] == e;
                assert(s[k] == a[k]);
            } else {
                assert(b.contains(e));
                let k = choose|k: int| 0 <= k < b.len() && b[k] == e;
                assert(s[a.len() + k] == b[k]);
            }
        }
    }
}

/// With border walls, a bomb with a red or blue cell at any of its eight neighbours when
/// a step begins goes off in that step: the step records the explosion at its position
/// with its radius (the one placed with it, or 5 when none is recorded), and the bomb is
/// gone after the step.
pub proof fn lemma_living_neighbour_sets_off_bomb(
    s: GameState,
    t: GameState,
    x: int,
    y: int,
    dx: int,
    dy: int,
)
    requires
        GameState::stepped(s, t),
        s.wf(),
        s.has_border_walls,
        0 <= x < s.width,
        0 <= y < s.height,
        s.grid()[y][x] == 4,
        -1 <= dx <= 1,
        -1 <= dy <= 1,
        !(dx == 0 && dy == 0),
        0 <= x + dx < s.width,
        0 <= y + dy < s.height,
        s.grid()[y + dy][x + dx] == 1 || s.grid()[y + dy][x + dx] == 2,
    ensures
        t.last_explosions@.contains(
            (
                x as usize,
                y as usize,
                if s.bomb_radii@.contains_key(bomb_key(x, y)) {
                    s.bomb_radii@[bomb_key(x, y)]
                } else {
                    5usize
                },
            ),
        ),
        t.grid()[y][x] != 4,
{
    let g = s.grid();
    let m = s.bomb_radii@;
    let w = s.width as int;
    let h = s.height as int;
    let first = strike(g, m, w, h, true);
    let n = life_grid(first.cells, w, h, true);
    let second = strike(n, first.radii, w, h, true);
    assert(t.last_explosions@ == first.explosions + second.explosions);
    if g[y + dy][x + dx] == 1 {
        lemma_neighbour_counts(g, x, y, dx, dy, w, h, 1);
        assert(count_around(g, x, y, w, h, true, 2) >= 0) by {
            assert forall|ex: int, ey: int| #[trigger] probe(g, x, y, ex, ey, w, h, true, 2) >= 0 by {}
        }
    } else {
        lemma_neighbour_counts(g, x, y, dx, dy, w, h, 2);
        assert(count_around(g, x, y, w, h, true, 1) >= 0) by {
            assert forall|ex: int, ey: int| #[trigger] probe(g, x, y, ex, ey, w, h, true, 1) >= 0 by {}
        }
    }
    assert(bomb_triggered(g, x, y, w, h, true));
    lemma_bombs_upto_listed(g, m, h, w, h, true);
    let bombs1 = bombs_upto(g, m, h, w, h, true);
    let e = (x as usize, y as usize, radius_at(m, x, y));
    assert(bombs1.contains(e));
    let k = choose|k: int| 0 <= k < bombs1.len() && bombs1[k] == e;
    assert(t.last_explosions@[k] == e);
    lemma_blast_is_a_disk(x, y, e.2 as int, x, y, w, h);
    assert(blast_hit(bombs1[k].0 as int, bombs1[k].1 as int, bombs1[k].2 as int, x, y, w, h, true));
    lemma_explode_all_hits(g, m, bombs1, k, x, y, w, h, true);
    lemma_explode_all_shape(g, m, bombs1, w, h, true);
    lemma_strike_lengths(g, m, w, h, true);
    assert(first.cells[y][x] == 0);
    assert(n[y].len() == w);
    assert(n[y][x] == next_cell(
        0,
        count_around(first.cells, x, y, w, h, true, 1),
        count_around(first.cells, x, y, w, h, true, 2),
    ));
    let bombs2 = bombs_upto(n, first.radii, h, w, h, true);
    lemma_explode_all_shape(n, first.radii, bombs2, w, h, true);
    lemma_strike_lengths(n, first.radii, w, h, true);
}

} // verus!
