//! What one generation does to a board, stated over plain values.
use vstd::prelude::*;

use crate::board::has_shape;

verus! {

/// The key under which the radius of the bomb at column `x`, row `y` is kept.
pub open spec fn bomb_key(x: int, y: int) -> u128 {
    (x * 0x1_0000_0000_0000_0000 + y) as u128
}

/// The column a key stands for.
pub open spec fn key_x(k: u128) -> int {
    k as int / 0x1_0000_0000_0000_0000
}

/// The row a key stands for.
pub open spec fn key_y(k: u128) -> int {
    k as int % 0x1_0000_0000_0000_0000
}

/// A coordinate `raw` taken round an axis of `size` cells the way the game does it: the sum
/// `raw + size` as a machine word, modulo `size`.
pub open spec fn wrap_index(raw: int, size: int) -> int {
    ((raw + size) as usize) as int % size
}

/// Where a coordinate `raw`, possibly off the board, lands on an axis of `size` cells: with
/// border walls only on-board coordinates land, otherwise they wrap around.
pub open spec fn land(raw: int, size: int, walls: bool) -> Option<int> {
    if walls {
        if 0 <= raw < size {
            Some(raw)
        } else {
            None
        }
    } else {
        Some(wrap_index(raw, size))
    }
}

/// 1 when the neighbour of (x, y) at offset (dx, dy) lands on the board and holds `v`.
pub open spec fn probe(
    g: Seq<Seq<u8>>,
    x: int,
    y: int,
    dx: int,
    dy: int,
    w: int,
    h: int,
    walls: bool,
    v: u8,
) -> int {
    match (land(x + dx, w, walls), land(y + dy, h, walls)) {
        (Some(nx), Some(ny)) => if g[ny][nx] == v {
            1
        } else {
            0
        },
        _ => 0,
    }
}

/// How many of the eight neighbours of (x, y) hold `v` (a neighbour that lands on the same
/// cell twice, on a small wrapped board, counts twice).
pub open spec fn count_around(
    g: Seq<Seq<u8>>,
    x: int,
    y: int,
    w: int,
    h: int,
    walls: bool,
    v: u8,
) -> int {
    probe(g, x, y, -1, -1, w, h, walls, v) + probe(g, x, y, 0, -1, w, h, walls, v) + probe(
        g,
        x,
        y,
        1,
        -1,
        w,
        h,
        walls,
        v,
    ) + probe(g, x, y, -1, 0, w, h, walls, v) + probe(g, x, y, 1, 0, w, h, walls, v) + probe(
        g,
        x,
        y,
        -1,
        1,
        w,
        h,
        walls,
        v,
    ) + probe(g, x, y, 0, 1, w, h, walls, v) + probe(g, x, y, 1, 1, w, h, walls, v)
}

/// The two-faction rules for one cell with `red` red and `blue` blue neighbours: walls,
/// bombs and high-value units stay; a living cell survives with two or three living
/// neighbours and dies otherwise; a dead cell with exactly three living neighbours comes
/// to life as the faction that holds the majority among them; anything else is dead.
pub open spec fn next_cell(cur: u8, red: int, blue: int) -> u8 {
    if cur == 3 || cur == 4 || cur == 5 {
        cur
    } else if cur == 1 || cur == 2 {
        if red + blue < 2 || red + blue > 3 {
            0
        } else {
            cur
        }
    } else if cur == 0 && red + blue == 3 {
        if red > blue {
            1
        } else {
            2
        }
    } else {
        0
    }
}

/// The board after the rules apply to every cell at once.
pub open spec fn life_grid(g: Seq<Seq<u8>>, w: int, h: int, walls: bool) -> Seq<Seq<u8>> {
    Seq::new(
        h as nat,
        |y: int|
            Seq::new(
                w as nat,
                |x: int|
                    next_cell(
                        g[y][x],
                        count_around(g, x, y, w, h, walls, 1),
                        count_around(g, x, y, w, h, walls, 2),
                    ),
            ),
    )
}

/// A bomb with a living neighbour goes off.
pub open spec fn bomb_triggered(g: Seq<Seq<u8>>, x: int, y: int, w: int, h: int, walls: bool) -> bool {
    &&& g[y][x] == 4
    &&& count_around(g, x, y, w, h, walls, 1) + count_around(g, x, y, w, h, walls, 2) > 0
}

/// A high-value unit with a red neighbour is destroyed.
pub open spec fn hv_triggered(g: Seq<Seq<u8>>, x: int, y: int, w: int, h: int, walls: bool) -> bool {
    &&& g[y][x] == 5
    &&& count_around(g, x, y, w, h, walls, 1) > 0
}

/// The radius of the bomb at (x, y): the recorded one, or 5 when none is recorded.
pub open spec fn radius_at(m: Map<u128, usize>, x: int, y: int) -> usize {
    if m.contains_key(bomb_key(x, y)) {
        m[bomb_key(x, y)]
    } else {
        5
    }
}

/// The bombs of row `y` among its first `n` cells that go off, left to right, with radii.
pub open spec fn bombs_in_row(
    g: Seq<Seq<u8>>,
    m: Map<u128, usize>,
    y: int,
    n: int,
    w: int,
    h: int,
    walls: bool,
) -> Seq<(usize, usize, usize)>
    decreases n,
{
    if n <= 0 {
        Seq::empty()
    } else {
        let prev = bombs_in_row(g, m, y, n - 1, w, h, walls);
        if bomb_triggered(g, n - 1, y, w, h, walls) {
            prev.push(((n - 1) as usize, y as usize, radius_at(m, n - 1, y)))
        } else {
            prev
        }
    }
}

/// The bombs of the first `n` rows that go off, row by row.
pub open spec fn bombs_upto(
    g: Seq<Seq<u8>>,
    m: Map<u128, usize>,
    n: int,
    w: int,
    h: int,
    walls: bool,
) -> Seq<(usize, usize, usize)>
    decreases n,
{
    if n <= 0 {
        Seq::empty()
    } else {
        bombs_upto(g, m, n - 1, w, h, walls) + bombs_in_row(g, m, n - 1, w, w, h, walls)
    }
}

/// The high-value units of row `y` among its first `n` cells that a red cell touches.
pub open spec fn hvs_in_row(g: Seq<Seq<u8>>, y: int, n: int, w: int, h: int, walls: bool) -> Seq<
    (usize, usize),
>
    decreases n,
{
    if n <= 0 {
        Seq::empty()
    } else {
        let prev = hvs_in_row(g, y, n - 1, w, h, walls);
        if hv_triggered(g, n - 1, y, w, h, walls) {
            prev.push(((n - 1) as usize, y as usize))
        } else {
            prev
        }
    }
}

/// The high-value units of the first `n` rows that a red cell touches, row by row.
pub open spec fn hvs_upto(g: Seq<Seq<u8>>, n: int, w: int, h: int, walls: bool) -> Seq<(usize, usize)>
    decreases n,
{
    if n <= 0 {
        Seq::empty()
    } else {
        hvs_upto(g, n - 1, w, h, walls) + hvs_in_row(g, n - 1, w, w, h, walls)
    }
}

/// The board with every cell where `hit` holds made dead.
pub open spec fn wipe(g: Seq<Seq<u8>>, hit: spec_fn(int, int) -> bool) -> Seq<Seq<u8>> {
    Seq::new(
        g.len(),
        |y: int|
            Seq::new(
                g[y].len(),
                |x: int|
                    if hit(x, y) {
                        0u8
                    } else {
                        g[y][x]
                    },
            ),
    )
}

/// (x, y) is a bomb of `g` that `hit` covers.
pub open spec fn bomb_hit_at(g: Seq<Seq<u8>>, hit: spec_fn(int, int) -> bool, x: int, y: int) -> bool {
    &&& 0 <= y < g.len()
    &&& 0 <= x < g[y].len()
    &&& g[y][x] == 4
    &&& hit(x, y)
}

/// The radii left once the bombs of `g` that `hit` covers are destroyed.
pub open spec fn wipe_radii(g: Seq<Seq<u8>>, m: Map<u128, usize>, hit: spec_fn(int, int) -> bool) -> Map<
    u128,
    usize,
> {
    Map::new(|k: u128| m.contains_key(k) && !bomb_hit_at(g, hit, key_x(k), key_y(k)), |k: u128| m[k])
}

/// The offset (dx, dy), both at least zero, lies in the disk of radius `r`.
pub open spec fn in_disk(dx: int, dy: int, r: int) -> bool {
    &&& 0 <= dx <= r
    &&& 0 <= dy <= r
    &&& dx * dx + dy * dy <= r * r
}

/// Moving `d` either way from `c` lands on `p`.
pub open spec fn reaches(c: int, d: int, p: int, size: int, walls: bool) -> bool {
    land(c + d, size, walls) == Some(p) || land(c - d, size, walls) == Some(p)
}

/// The blast of radius `r` of the bomb at (bx, by) reaches (px, py).
pub open spec fn blast_hit(
    bx: int,
    by: int,
    r: int,
    px: int,
    py: int,
    w: int,
    h: int,
    walls: bool,
) -> bool {
    exists|dx: int, dy: int|
        #[trigger] in_disk(dx, dy, r) && reaches(bx, dx, px, w, walls) && reaches(by, dy, py, h, walls)
}

/// The cells the blast of radius `r` of the bomb at (bx, by) reaches.
pub open spec fn blast_area(bx: int, by: int, r: int, w: int, h: int, walls: bool) -> spec_fn(
    int,
    int,
) -> bool {
    |x: int, y: int| blast_hit(bx, by, r, x, y, w, h, walls)
}

/// The board and radii after the listed bombs go off, in order.
pub open spec fn explode_all(
    g: Seq<Seq<u8>>,
    m: Map<u128, usize>,
    list: Seq<(usize, usize, usize)>,
    w: int,
    h: int,
    walls: bool,
) -> (Seq<Seq<u8>>, Map<u128, usize>)
    decreases list.len(),
{
    if list.len() == 0 {
        (g, m)
    } else {
        let before = explode_all(g, m, list.drop_last(), w, h, walls);
        let b = list.last();
        let area = blast_area(b.0 as int, b.1 as int, b.2 as int, w, h, walls);
        (wipe(before.0, area), wipe_radii(before.0, before.1, area))
    }
}

/// What the bombs and high-value units of a board do: the board and radii after, the
/// explosions (x, y, radius) in the order they happen, and the high-value units destroyed.
pub struct Strike {
    pub cells: Seq<Seq<u8>>,
    pub radii: Map<u128, usize>,
    pub explosions: Seq<(usize, usize, usize)>,
    pub destroyed: Seq<(usize, usize)>,
}

/// One round of bombs and high-value units: every bomb with a living neighbour goes off (in
/// row order); then every high-value unit with a red neighbour that is still standing is
/// destroyed.
pub open spec fn strike(g: Seq<Seq<u8>>, m: Map<u128, usize>, w: int, h: int, walls: bool) -> Strike {
    let bombs = bombs_upto(g, m, h, w, h, walls);
    let blasted = explode_all(g, m, bombs, w, h, walls);
    Strike {
        cells: wipe(
            blasted.0,
            |x: int, y: int| 0 <= x < w && 0 <= y < h && hv_triggered(g, x, y, w, h, walls),
        ),
        radii: blasted.1,
        explosions: bombs,
        destroyed: hvs_upto(g, h, w, h, walls).filter(
            |p: (usize, usize)| blasted.0[p.1 as int][p.0 as int] == 5,
        ),
    }
}

/// One generation: bombs and high-value units react, the rules apply to every cell, and
/// bombs and high-value units react once more to the new cells.
pub open spec fn evolve(g: Seq<Seq<u8>>, m: Map<u128, usize>, w: int, h: int, walls: bool) -> Strike {
    let first = strike(g, m, w, h, walls);
    let second = strike(life_grid(first.cells, w, h, walls), first.radii, w, h, walls);
    Strike {
        cells: second.cells,
        radii: second.radii,
        explosions: first.explosions + second.explosions,
        destroyed: first.destroyed + second.destroyed,
    }
}

/// A key names the position it was made from.
pub proof fn lemma_key_decode(x: int, y: int)
    requires
        0 <= x <= usize::MAX,
        0 <= y <= usize::MAX,
    ensures
        key_x(bomb_key(x, y)) == x,
        key_y(bomb_key(x, y)) == y,
{
    assert(usize::MAX < 0x1_0000_0000_0000_0000);
    assert(0 <= x * 0x1_0000_0000_0000_0000 + y <= u128::MAX);
    vstd::arithmetic::div_mod::lemma_fundamental_div_mod_converse(
        x * 0x1_0000_0000_0000_0000 + y,
        0x1_0000_0000_0000_0000,
        x,
        y,
    );
}

/// Every key is the key of the position it names.
pub proof fn lemma_key_encode(k: u128)
    ensures
        bomb_key(key_x(k), key_y(k)) == k,
{
    vstd::arithmetic::div_mod::lemma_fundamental_div_mod(k as int, 0x1_0000_0000_0000_0000);
}

/// Wiping depends only on where the two conditions hold on the board.
pub proof fn lemma_wipe_ext(
    g: Seq<Seq<u8>>,
    m: Map<u128, usize>,
    h1: spec_fn(int, int) -> bool,
    h2: spec_fn(int, int) -> bool,
)
    requires
        forall|x: int, y: int|
            0 <= y < g.len() && 0 <= x < g[y].len() ==> #[trigger] h1(x, y) == #[trigger] h2(x, y),
    ensures
        wipe(g, h1) == wipe(g, h2),
        wipe_radii(g, m, h1) == wipe_radii(g, m, h2),
{
    assert forall|y: int| 0 <= y < g.len() implies #[trigger] wipe(g, h1)[y] =~= wipe(g, h2)[y] by {}
    assert(wipe(g, h1) =~= wipe(g, h2));
    assert(wipe_radii(g, m, h1) =~= wipe_radii(g, m, h2));
}

/// Wiping twice is wiping once where either condition holds.
pub proof fn lemma_wipe_compose(
    g: Seq<Seq<u8>>,
    m: Map<u128, usize>,
    h1: spec_fn(int, int) -> bool,
    h2: spec_fn(int, int) -> bool,
)
    ensures
        wipe(wipe(g, h1), h2) == wipe(g, |x: int, y: int| h1(x, y) || h2(x, y)),
        wipe_radii(wipe(g, h1), wipe_radii(g, m, h1), h2) == wipe_radii(
            g,
            m,
            |x: int, y: int| h1(x, y) || h2(x, y),
        ),
{
    let both = |x: int, y: int| h1(x, y) || h2(x, y);
    assert forall|y: int| 0 <= y < g.len() implies #[trigger] wipe(wipe(g, h1), h2)[y] =~= wipe(
        g,
        both,
    )[y] by {}
    assert(wipe(wipe(g, h1), h2) =~= wipe(g, both));
    assert(wipe_radii(wipe(g, h1), wipe_radii(g, m, h1), h2) =~= wipe_radii(g, m, both));
}

/// Wiping nowhere changes nothing.
pub proof fn lemma_wipe_nothing(g: Seq<Seq<u8>>, m: Map<u128, usize>, hit: spec_fn(int, int) -> bool)
    requires
        forall|x: int, y: int| 0 <= y < g.len() && 0 <= x < g[y].len() ==> !#[trigger] hit(x, y),
    ensures
        wipe(g, hit) == g,
        wipe_radii(g, m, hit) == m,
{
    assert forall|y: int| 0 <= y < g.len() implies #[trigger] wipe(g, hit)[y] =~= g[y] by {}
    assert(wipe(g, hit) =~= g);
    assert(wipe_radii(g, m, hit) =~= m);
}

/// Wiping a single cell: the cell becomes dead, and if it held a bomb its radius goes.
pub proof fn lemma_wipe_point(g: Seq<Seq<u8>>, m: Map<u128, usize>, nx: int, ny: int)
    requires
        0 <= ny < g.len(),
        0 <= nx < g[ny].len(),
        nx <= usize::MAX,
        ny <= usize::MAX,
    ensures
        wipe(g, |x: int, y: int| x == nx && y == ny) == g.update(ny, g[ny].update(nx, 0)),
        wipe_radii(g, m, |x: int, y: int| x == nx && y == ny) == if g[ny][nx] == 4 {
            m.remove(bomb_key(nx, ny))
        } else {
            m
        },
{
    let hit = |x: int, y: int| x == nx && y == ny;
    assert forall|y: int| 0 <= y < g.len() implies #[trigger] wipe(g, hit)[y] =~= g.update(
        ny,
        g[ny].update(nx, 0),
    )[y] by {}
    assert(wipe(g, hit) =~= g.update(ny, g[ny].update(nx, 0)));
    lemma_key_decode(nx, ny);
    let target = if g[ny][nx] == 4 {
        m.remove(bomb_key(nx, ny))
    } else {
        m
    };
    assert forall|k: u128| #[trigger] wipe_radii(g, m, hit).contains_key(k) == target.contains_key(k) by {
        lemma_key_encode(k);
    }
    assert(wipe_radii(g, m, hit) =~= target);
}

/// The part of a blast that the offsets before (lx, ly) in row order (dy, then dx) cover.
pub open spec fn swept(
    bx: int,
    by: int,
    r: int,
    ly: int,
    lx: int,
    px: int,
    py: int,
    w: int,
    h: int,
    walls: bool,
) -> bool {
    exists|dx: int, dy: int|
        #[trigger] in_disk(dx, dy, r) && (dy < ly || (dy == ly && dx < lx)) && reaches(bx, dx, px, w, walls)
            && reaches(by, dy, py, h, walls)
}

/// Taking in one more offset of a blast.
pub proof fn lemma_sweep_step(bx: int, by: int, r: int, ly: int, lx: int, w: int, h: int, walls: bool)
    ensures
        forall|px: int, py: int|
            #[trigger] swept(bx, by, r, ly, lx + 1, px, py, w, h, walls) == (swept(
                bx,
                by,
                r,
                ly,
                lx,
                px,
                py,
                w,
                h,
                walls,
            ) || (in_disk(lx, ly, r) && reaches(bx, lx, px, w, walls) && reaches(by, ly, py, h, walls))),
{
    assert forall|px: int, py: int|
        #[trigger] swept(bx, by, r, ly, lx + 1, px, py, w, h, walls) == (swept(
            bx,
            by,
            r,
            ly,
            lx,
            px,
            py,
            w,
            h,
            walls,
        ) || (in_disk(lx, ly, r) && reaches(bx, lx, px, w, walls) && reaches(by, ly, py, h, walls))) by {
        if swept(bx, by, r, ly, lx + 1, px, py, w, h, walls) {
            let (dx, dy) = choose|dx: int, dy: int|
                #[trigger] in_disk(dx, dy, r) && (dy < ly || (dy == ly && dx < lx + 1)) && reaches(
                    bx,
                    dx,
                    px,
                    w,
                    walls,
                ) && reaches(by, dy, py, h, walls);
            if !(dx == lx && dy == ly) {
                assert(in_disk(dx, dy, r));
            }
        }
        if swept(bx, by, r, ly, lx, px, py, w, h, walls) {
            let (dx, dy) = choose|dx: int, dy: int|
                #[trigger] in_disk(dx, dy, r) && (dy < ly || (dy == ly && dx < lx)) && reaches(
                    bx,
                    dx,
                    px,
                    w,
                    walls,
                ) && reaches(by, dy, py, h, walls);
            assert(in_disk(dx, dy, r));
        }
        if in_disk(lx, ly, r) && reaches(bx, lx, px, w, walls) && reaches(by, ly, py, h, walls) {
            assert(in_disk(lx, ly, r));
        }
    }
}

/// A row of a blast, taken in whole, is the start of the next row; all rows taken in whole
/// are the whole blast.
pub proof fn lemma_sweep_rows(bx: int, by: int, r: int, ly: int, w: int, h: int, walls: bool)
    requires
        r >= 0,
    ensures
        forall|px: int, py: int|
            #[trigger] swept(bx, by, r, ly, r + 1, px, py, w, h, walls) == swept(
                bx,
                by,
                r,
                ly + 1,
                0,
                px,
                py,
                w,
                h,
                walls,
            ),
        forall|px: int, py: int|
            #[trigger] swept(bx, by, r, r + 1, 0, px, py, w, h, walls) == blast_hit(
                bx,
                by,
                r,
                px,
                py,
                w,
                h,
                walls,
            ),
        forall|px: int, py: int| !#[trigger] swept(bx, by, r, 0, 0, px, py, w, h, walls),
{
    assert forall|px: int, py: int|
        #[trigger] swept(bx, by, r, ly, r + 1, px, py, w, h, walls) == swept(
            bx,
            by,
            r,
            ly + 1,
            0,
            px,
            py,
            w,
            h,
            walls,
        ) by {
        if swept(bx, by, r, ly + 1, 0, px, py, w, h, walls) {
            let (dx, dy) = choose|dx: int, dy: int|
                #[trigger] in_disk(dx, dy, r) && (dy < ly + 1 || (dy == ly + 1 && dx < 0)) && reaches(
                    bx,
                    dx,
                    px,
                    w,
                    walls,
                ) && reaches(by, dy, py, h, walls);
            assert(in_disk(dx, dy, r));
        }
        if swept(bx, by, r, ly, r + 1, px, py, w, h, walls) {
            let (dx, dy) = choose|dx: int, dy: int|
                #[trigger] in_disk(dx, dy, r) && (dy < ly || (dy == ly && dx < r + 1)) && reaches(
                    bx,
                    dx,
                    px,
                    w,
                    walls,
                ) && reaches(by, dy, py, h, walls);
            assert(in_disk(dx, dy, r));
        }
    }
    assert forall|px: int, py: int|
        #[trigger] swept(bx, by, r, r + 1, 0, px, py, w, h, walls) == blast_hit(
            bx,
            by,
            r,
            px,
            py,
            w,
            h,
            walls,
        ) by {
        if blast_hit(bx, by, r, px, py, w, h, walls) {
            let (dx, dy) = choose|dx: int, dy: int|
                #[trigger] in_disk(dx, dy, r) && reaches(bx, dx, px, w, walls) && reaches(
                    by,
                    dy,
                    py,
                    h,
                    walls,
                );
            assert(in_disk(dx, dy, r));
        }
        if swept(bx, by, r, r + 1, 0, px, py, w, h, walls) {
            let (dx, dy) = choose|dx: int, dy: int|
                #[trigger] in_disk(dx, dy, r) && (dy < r + 1 || (dy == r + 1 && dx < 0)) && reaches(
                    bx,
                    dx,
                    px,
                    w,
                    walls,
                ) && reaches(by, dy, py, h, walls);
            assert(in_disk(dx, dy, r));
        }
    }
}

/// The bombs of one row that go off lie in that row, left of `n`.
pub proof fn lemma_bombs_in_row(g: Seq<Seq<u8>>, m: Map<u128, usize>, y: int, n: int, w: int, h: int, walls: bool)
    requires
        0 <= y <= usize::MAX,
        0 <= n <= usize::MAX,
    ensures
        forall|i: int|
            0 <= i < bombs_in_row(g, m, y, n, w, h, walls).len() ==> {
                let b = #[trigger] bombs_in_row(g, m, y, n, w, h, walls)[i];
                &&& b.1 == y
                &&& b.0 < n
            },
    decreases n,
{
    if n > 0 {
        lemma_bombs_in_row(g, m, y, n - 1, w, h, walls);
        let prev = bombs_in_row(g, m, y, n - 1, w, h, walls);
        let s = bombs_in_row(g, m, y, n, w, h, walls);
        if bomb_triggered(g, n - 1, y, w, h, walls) {
            let e = ((n - 1) as usize, y as usize, radius_at(m, n - 1, y));
            assert(s == prev.push(e));
            assert forall|i: int| 0 <= i < s.len() implies {
                let b = #[trigger] s[i];
                &&& b.1 == y
                &&& b.0 < n
            } by {
                if i < prev.len() {
                    assert(s[i] == prev[i]);
                }
            }
        }
    }
}

/// The bombs of the first `n` rows that go off lie on the board.
pub proof fn lemma_bombs_upto(g: Seq<Seq<u8>>, m: Map<u128, usize>, n: int, w: int, h: int, walls: bool)
    requires
        0 <= n <= usize::MAX,
        0 <= w <= usize::MAX,
    ensures
        forall|i: int|
            0 <= i < bombs_upto(g, m, n, w, h, walls).len() ==> {
                let b = #[trigger] bombs_upto(g, m, n, w, h, walls)[i];
                &&& b.1 < n
                &&& b.0 < w
            },
    decreases n,
{
    if n > 0 {
        lemma_bombs_upto(g, m, n - 1, w, h, walls);
        lemma_bombs_in_row(g, m, n - 1, w, w, h, walls);
        let a = bombs_upto(g, m, n - 1, w, h, walls);
        let b = bombs_in_row(g, m, n - 1, w, w, h, walls);
        let s = bombs_upto(g, m, n, w, h, walls);
        assert(s == a + b);
        assert forall|i: int| 0 <= i < s.len() implies {
            let e = #[trigger] s[i];
            &&& e.1 < n
            &&& e.0 < w
        } by {
            if i >= a.len() {
                assert(s[i] == b[i - a.len()]);
            } else {
                assert(s[i] == a[i]);
            }
        }
    }
}

/// Wiping keeps the lengths of all rows and only ever makes cells dead.
pub proof fn lemma_wipe_shape(g: Seq<Seq<u8>>, hit: spec_fn(int, int) -> bool)
    ensures
        same_lengths(wipe(g, hit), g),
        forall|x: int, y: int|
            0 <= y < g.len() && 0 <= x < g[y].len() ==> #[trigger] wipe(g, hit)[y][x] == g[y][x]
                || wipe(g, hit)[y][x] == 0,
{
}

/// Two boards have the same number of rows, and rows of the same lengths.
pub open spec fn same_lengths(a: Seq<Seq<u8>>, b: Seq<Seq<u8>>) -> bool {
    &&& a.len() == b.len()
    &&& forall|y: int| 0 <= y < b.len() ==> #[trigger] a[y].len() == b[y].len()
}

/// Explosions keep the lengths of all rows and only ever make cells dead.
pub proof fn lemma_explode_all_shape(
    g: Seq<Seq<u8>>,
    m: Map<u128, usize>,
    list: Seq<(usize, usize, usize)>,
    w: int,
    h: int,
    walls: bool,
)
    ensures
        same_lengths(explode_all(g, m, list, w, h, walls).0, g),
        forall|x: int, y: int|
            0 <= y < g.len() && 0 <= x < g[y].len() ==> #[trigger] explode_all(g, m, list, w, h, walls).0[y][x]
                == g[y][x] || explode_all(g, m, list, w, h, walls).0[y][x] == 0,
    decreases list.len(),
{
    if list.len() > 0 {
        lemma_explode_all_shape(g, m, list.drop_last(), w, h, walls);
        let before = explode_all(g, m, list.drop_last(), w, h, walls);
        let b = list.last();
        lemma_wipe_shape(before.0, blast_area(b.0 as int, b.1 as int, b.2 as int, w, h, walls));
        assert forall|x: int, y: int| 0 <= y < g.len() && 0 <= x < g[y].len() implies #[trigger] explode_all(
            g,
            m,
            list,
            w,
            h,
            walls,
        ).0[y][x] == g[y][x] || explode_all(g, m, list, w, h, walls).0[y][x] == 0 by {
            assert(before.0[y][x] == g[y][x] || before.0[y][x] == 0);
        }
    }
}

/// The board after bombs and high-value units react keeps the lengths of all rows.
pub proof fn lemma_strike_lengths(g: Seq<Seq<u8>>, m: Map<u128, usize>, w: int, h: int, walls: bool)
    ensures
        same_lengths(strike(g, m, w, h, walls).cells, g),
{
    let bombs = bombs_upto(g, m, h, w, h, walls);
    lemma_explode_all_shape(g, m, bombs, w, h, walls);
    let blasted = explode_all(g, m, bombs, w, h, walls);
    lemma_wipe_shape(
        blasted.0,
        |x: int, y: int| 0 <= x < w && 0 <= y < h && hv_triggered(g, x, y, w, h, walls),
    );
}

/// `a` comes before `b` in row-major order.
pub open spec fn row_major_before(a: (usize, usize), b: (usize, usize)) -> bool {
    a.1 < b.1 || (a.1 == b.1 && a.0 < b.0)
}

/// The touched high-value units of one row: which they are, and that they come left to right.
pub proof fn lemma_hvs_in_row(g: Seq<Seq<u8>>, y: int, n: int, w: int, h: int, walls: bool)
    requires
        0 <= y <= usize::MAX,
        0 <= n <= usize::MAX,
    ensures
        forall|i: int|
            0 <= i < hvs_in_row(g, y, n, w, h, walls).len() ==> {
                let p = #[trigger] hvs_in_row(g, y, n, w, h, walls)[i];
                &&& p.1 == y
                &&& p.0 < n
                &&& hv_triggered(g, p.0 as int, y, w, h, walls)
            },
        forall|x: int|
            0 <= x < n && #[trigger] hv_triggered(g, x, y, w, h, walls) ==> hvs_in_row(
                g,
                y,
                n,
                w,
                h,
                walls,
            ).contains((x as usize, y as usize)),
        forall|i: int, j: int|
            0 <= i < j < hvs_in_row(g, y, n, w, h, walls).len() ==> (#[trigger] hvs_in_row(
                g,
                y,
                n,
                w,
                h,
                walls,
            )[i]).0 < (#[trigger] hvs_in_row(g, y, n, w, h, walls)[j]).0,
    decreases n,
{
    if n > 0 {
        lemma_hvs_in_row(g, y, n - 1, w, h, walls);
        let prev = hvs_in_row(g, y, n - 1, w, h, walls);
        let s = hvs_in_row(g, y, n, w, h, walls);
        if hv_triggered(g, n - 1, y, w, h, walls) {
            assert(s == prev.push(((n - 1) as usize, y as usize)));
            assert forall|x: int|
                0 <= x < n && #[trigger] hv_triggered(g, x, y, w, h, walls) implies s.contains(
                (x as usize, y as usize),
            ) by {
                if x < n - 1 {
                    let k = choose|k: int| 0 <= k < prev.len() && prev[k] == (x as usize, y as usize);
                    assert(s[k] == prev[k]);
                } else {
                    assert(s[s.len() - 1] == (x as usize, y as usize));
                }
            }
        }
    }
}

/// The touched high-value units of the first `n` rows: exactly those cells, in row-major
/// order.
pub proof fn lemma_hvs_upto(g: Seq<Seq<u8>>, n: int, w: int, h: int, walls: bool)
    requires
        0 <= n <= usize::MAX,
        0 <= w <= usize::MAX,
    ensures
        forall|i: int|
            0 <= i < hvs_upto(g, n, w, h, walls).len() ==> {
                let p = #[trigger] hvs_upto(g, n, w, h, walls)[i];
                &&& p.1 < n
                &&& p.0 < w
                &&& hv_triggered(g, p.0 as int, p.1 as int, w, h, walls)
            },
        forall|x: int, y: int|
            0 <= y < n && 0 <= x < w && #[trigger] hv_triggered(g, x, y, w, h, walls) ==> hvs_upto(
                g,
                n,
                w,
                h,
                walls,
            ).contains((x as usize, y as usize)),
        forall|i: int, j: int|
            0 <= i < j < hvs_upto(g, n, w, h, walls).len() ==> row_major_before(
                #[trigger] hvs_upto(g, n, w, h, walls)[i],
                #[trigger] hvs_upto(g, n, w, h, walls)[j],
            ),
    decreases n,
{
    if n > 0 {
        lemma_hvs_upto(g, n - 1, w, h, walls);
        lemma_hvs_in_row(g, n - 1, w, w, h, walls);
        let a = hvs_upto(g, n - 1, w, h, walls);
        let b = hvs_in_row(g, n - 1, w, w, h, walls);
        let s = hvs_upto(g, n, w, h, walls);
        assert(s == a + b);
        assert forall|i: int| 0 <= i < s.len() implies {
            let p = #[trigger] s[i];
            &&& p.1 < n
            &&& p.0 < w
            &&& hv_triggered(g, p.0 as int, p.1 as int, w, h, walls)
        } by {
            if i >= a.len() {
                assert(s[i] == b[i - a.len()]);
            }
        }
        assert forall|x: int, y: int|
            0 <= y < n && 0 <= x < w && #[trigger] hv_triggered(g, x, y, w, h, walls) implies s.contains(
            (x as usize, y as usize),
        ) by {
            if y < n - 1 {
                let k = choose|k: int| 0 <= k < a.len() && a[k] == (x as usize, y as usize);
                assert(s[k] == a[k]);
            } else {
                assert(b.contains((x as usize, y as usize)));
                let k = choose|k: int| 0 <= k < b.len() && b[k] == (x as usize, y as usize);
                assert(s[a.len() + k] == b[k]);
            }
        }
        assert forall|i: int, j: int| 0 <= i < j < s.len() implies row_major_before(
            #[trigger] s[i],
            #[trigger] s[j],
        ) by {
            if j < a.len() {
                assert(s[i] == a[i] && s[j] == a[j]);
            } else if i >= a.len() {
                assert(s[i] == b[i - a.len()] && s[j] == b[j - a.len()]);
            } else {
                assert(s[i] == a[i] && s[j] == b[j - a.len()]);
            }
        }
    }
}

} // verus!
