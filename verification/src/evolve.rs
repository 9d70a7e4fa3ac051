//! One generation of the game: neighbours, bombs, high-value units and the rules.
use vstd::prelude::*;

use crate::board::{covers, grid_view, has_shape, lemma_total_cells_of_shape};
use crate::game::GameState;
use crate::game::position_key;
use crate::rules::{
    blast_area, bombs_in_row, evolve, explode_all, hv_triggered, lemma_bombs_upto, lemma_explode_all_shape,
    lemma_hvs_upto, lemma_strike_lengths, row_major_before, same_lengths, strike, bombs_upto, count_around, hvs_in_row, hvs_upto, radius_at, in_disk, land, lemma_sweep_rows, lemma_sweep_step,
    lemma_wipe_compose, lemma_wipe_ext, lemma_wipe_nothing, lemma_wipe_point,
    life_grid, probe, reaches, swept, wipe, wipe_radii,
};

verus! {

/// Neighbour counts for a cell.
struct NeighborCounts {
    total: usize,
    red: usize,
    blue: usize,
}

/// Where moving `o` from `c` lands on an axis of `size` cells (see `land`).
fn land_coord(c: usize, o: i128, size: usize, walls: bool) -> (r: Option<usize>)
    requires
        !walls ==> size > 0,
        -0x1_0000_0000_0000_0000 <= o <= 0x1_0000_0000_0000_0000,
    ensures
        match r {
            Some(v) => land(c + o, size as int, walls) == Some(v as int),
            None => land(c + o, size as int, walls) is None,
        },
{
    let raw: i128 = c as i128 + o;
    if walls {
        if raw < 0 || raw >= size as i128 {
            None
        } else {
            Some(raw as usize)
        }
    } else {
        Some(((raw + size as i128) as usize) % size)
    }
}

/// The neighbour of (x, y) at offset (dx, dy), respecting border walls (None when it
/// falls off a walled board).
fn get_neighbor_coord(
    x: usize,
    y: usize,
    dx: i128,
    dy: i128,
    width: usize,
    height: usize,
    has_border_walls: bool,
) -> (r: Option<(usize, usize)>)
    requires
        !has_border_walls ==> width > 0 && height > 0,
        -1 <= dx <= 1,
        -1 <= dy <= 1,
    ensures
        match r {
            Some((a, b)) => {
                &&& land(x + dx, width as int, has_border_walls) == Some(a as int)
                &&& land(y + dy, height as int, has_border_walls) == Some(b as int)
                &&& a < width
                &&& b < height
            },
            None => land(x + dx, width as int, has_border_walls) is None || land(
                y + dy,
                height as int,
                has_border_walls,
            ) is None,
        },
{
    let nx = land_coord(x, dx, width, has_border_walls);
    let ny = land_coord(y, dy, height, has_border_walls);
    match (nx, ny) {
        (Some(a), Some(b)) => {
            proof {
                assert(b < height) by {
                    if !has_border_walls {
                        assert(land(y + dy, height as int, false) == Some(b as int));
                    }
                }
                assert(a < width) by {
                    if !has_border_walls {
                        assert(land(x + dx, width as int, false) == Some(a as int));
                    }
                }
            }
            Some((a, b))
        },
        _ => None,
    }
}

/// The value of the neighbour of (x, y) at offset (dx, dy), when it lands on the board.
fn neighbor_value(
    cells: &Vec<Vec<u8>>,
    x: usize,
    y: usize,
    dx: i128,
    dy: i128,
    width: usize,
    height: usize,
    has_border_walls: bool,
) -> (r: Option<u8>)
    requires
        covers(grid_view(*cells), width as int, height as int),
        x < width,
        y < height,
        -1 <= dx <= 1,
        -1 <= dy <= 1,
    ensures
        forall|v: u8|
            #[trigger] probe(
                grid_view(*cells),
                x as int,
                y as int,
                dx as int,
                dy as int,
                width as int,
                height as int,
                has_border_walls,
                v,
            ) == if r == Some(v) {
                1int
            } else {
                0int
            },
{
    match get_neighbor_coord(x, y, dx, dy, width, height, has_border_walls) {
        Some((a, b)) => {
            assert(grid_view(*cells)[b as int].len() >= width);
            Some(cells[b][a])
        },
        None => None,
    }
}

/// 1 when a neighbour is there and holds `v`.
fn is_value(n: Option<u8>, v: u8) -> (r: usize)
    ensures
        r == if n == Some(v) {
            1usize
        } else {
            0usize
        },
{
    match n {
        Some(c) => if c == v {
            1
        } else {
            0
        },
        None => 0,
    }
}

/// Counts the red and blue neighbours of (x, y) on a board.
#[verifier::spinoff_prover]
#[verifier::rlimit(30)]
fn count_neighbors_in(
    cells: &Vec<Vec<u8>>,
    x: usize,
    y: usize,
    width: usize,
    height: usize,
    has_border_walls: bool,
) -> (n: NeighborCounts)
    requires
        covers(grid_view(*cells), width as int, height as int),
        x < width,
        y < height,
    ensures
        n.red == count_around(
            grid_view(*cells),
            x as int,
            y as int,
            width as int,
            height as int,
            has_border_walls,
            1,
        ),
        n.blue == count_around(
            grid_view(*cells),
            x as int,
            y as int,
            width as int,
            height as int,
            has_border_walls,
            2,
        ),
        n.total == n.red + n.blue,
{
    // The eight neighbours, row by row; the cell itself is skipped.
    let n0 = neighbor_value(cells, x, y, -1, -1, width, height, has_border_walls);
    let n1 = neighbor_value(cells, x, y, 0, -1, width, height, has_border_walls);
    let n2 = neighbor_value(cells, x, y, 1, -1, width, height, has_border_walls);
    let n3 = neighbor_value(cells, x, y, -1, 0, width, height, has_border_walls);
    let n4 = neighbor_value(cells, x, y, 1, 0, width, height, has_border_walls);
    let n5 = neighbor_value(cells, x, y, -1, 1, width, height, has_border_walls);
    let n6 = neighbor_value(cells, x, y, 0, 1, width, height, has_border_walls);
    let n7 = neighbor_value(cells, x, y, 1, 1, width, height, has_border_walls);
    let red: usize = is_value(n0, 1) + is_value(n1, 1) + is_value(n2, 1) + is_value(n3, 1)
        + is_value(n4, 1) + is_value(n5, 1) + is_value(n6, 1) + is_value(n7, 1);
    let blue: usize = is_value(n0, 2) + is_value(n1, 2) + is_value(n2, 2) + is_value(n3, 2)
        + is_value(n4, 2) + is_value(n5, 2) + is_value(n6, 2) + is_value(n7, 2);
    let total: usize = red + blue;
    NeighborCounts { total, red, blue }
}

/// A red cell touches the high-value unit at (x, y) on the given board.
pub fn hv_has_red_neighbor_in(
    cells: &Vec<Vec<u8>>,
    x: usize,
    y: usize,
    width: usize,
    height: usize,
    has_border_walls: bool,
) -> (r: bool)
    requires
        covers(grid_view(*cells), width as int, height as int),
        x < width,
        y < height,
    ensures
        r == (count_around(
            grid_view(*cells),
            x as int,
            y as int,
            width as int,
            height as int,
            has_border_walls,
            1,
        ) > 0),
{
    count_neighbors_in(cells, x, y, width, height, has_border_walls).red > 0
}

impl GameState {
    /// Everything but the board and the bomb radii is as in `old`.
    pub open spec fn same_but_board_and_radii(old: GameState, new: GameState) -> bool {
        &&& new.width == old.width
        &&& new.height == old.height
        &&& new.generation == old.generation
        &&& new.population == old.population
        &&& new.red_count == old.red_count
        &&& new.blue_count == old.blue_count
        &&& new.last_explosions@ == old.last_explosions@
        &&& new.last_hv_destroyed@ == old.last_hv_destroyed@
        &&& new.has_border_walls == old.has_border_walls
    }

    /// What one generation did, from `old` to `new`: the board, the bomb radii and the
    /// records of the step are those of the rules (`evolve`), the board is `width` by
    /// `height`, the counters agree with it and the generation went up by one.
    pub open spec fn stepped(old: GameState, new: GameState) -> bool {
        let e = evolve(
            old.grid(),
            old.bomb_radii@,
            old.width as int,
            old.height as int,
            old.has_border_walls,
        );
        &&& new.wf()
        &&& new.width == old.width
        &&& new.height == old.height
        &&& new.has_border_walls == old.has_border_walls
        &&& new.grid() == e.cells
        &&& new.bomb_radii@ == e.radii
        &&& new.last_explosions@ == e.explosions
        &&& new.last_hv_destroyed@ == e.destroyed
        &&& new.counts_match()
        &&& new.generation == old.generation + 1
    }

    /// Destroys the cell that offset (ox, oy) from (cx, cy) lands on, if it lands.
    fn strike_point(&mut self, cx: usize, cy: usize, ox: i128, oy: i128)
        requires
            old(self).covers_board(),
            cx < old(self).width,
            cy < old(self).height,
            -0x1_0000_0000_0000_0000 <= ox <= 0x1_0000_0000_0000_0000,
            -0x1_0000_0000_0000_0000 <= oy <= 0x1_0000_0000_0000_0000,
        ensures
            final(self).covers_board(),
            Self::same_but_board_and_radii(*old(self), *final(self)),
            final(self).grid() == wipe(
                old(self).grid(),
                |x: int, y: int|
                    land(cx + ox, old(self).width as int, old(self).has_border_walls) == Some(x)
                        && land(cy + oy, old(self).height as int, old(self).has_border_walls)
                        == Some(y),
            ),
            final(self).bomb_radii@ == wipe_radii(
                old(self).grid(),
                old(self).bomb_radii@,
                |x: int, y: int|
                    land(cx + ox, old(self).width as int, old(self).has_border_walls) == Some(x)
                        && land(cy + oy, old(self).height as int, old(self).has_border_walls)
                        == Some(y),
            ),
    {
        let ghost g = self.grid();
        let ghost m = self.bomb_radii@;
        let ghost hit = |x: int, y: int|
            land(cx + ox, self.width as int, self.has_border_walls) == Some(x) && land(
                cy + oy,
                self.height as int,
                self.has_border_walls,
            ) == Some(y);
        let lx = land_coord(cx, ox, self.width, self.has_border_walls);
        let ly = land_coord(cy, oy, self.height, self.has_border_walls);
        match (lx, ly) {
            (Some(nx), Some(ny)) => {
                proof {
                    assert(ny < self.height) by {
                        if !self.has_border_walls {
                            assert(land(cy + oy, self.height as int, false) == Some(ny as int));
                        }
                    }
                    assert(nx < self.width) by {
                        if !self.has_border_walls {
                            assert(land(cx + ox, self.width as int, false) == Some(nx as int));
                        }
                    }
                    assert(g[ny as int].len() >= self.width);
                }
                if self.cells[ny][nx] == 4 {
                    self.bomb_radii.remove(&position_key(nx, ny));
                }
                self.write_cell(nx, ny, 0);
                proof {
                    let point = |x: int, y: int| x == nx && y == ny;
                    lemma_wipe_point(g, m, nx as int, ny as int);
                    lemma_wipe_ext(g, m, point, hit);
                }
            },
            _ => {
                proof {
                    lemma_wipe_nothing(g, m, hit);
                }
            },
        }
    }

    /// Destroys the cells that offsets (±dx, ±dy) from (cx, cy) land on.
    fn strike_offsets(&mut self, cx: usize, cy: usize, dx: u128, dy: u128)
        requires
            old(self).covers_board(),
            cx < old(self).width,
            cy < old(self).height,
            dx <= usize::MAX,
            dy <= usize::MAX,
        ensures
            final(self).covers_board(),
            Self::same_but_board_and_radii(*old(self), *final(self)),
            final(self).grid() == wipe(
                old(self).grid(),
                |x: int, y: int|
                    reaches(cx as int, dx as int, x, old(self).width as int, old(self).has_border_walls)
                        && reaches(
                        cy as int,
                        dy as int,
                        y,
                        old(self).height as int,
                        old(self).has_border_walls,
                    ),
            ),
            final(self).bomb_radii@ == wipe_radii(
                old(self).grid(),
                old(self).bomb_radii@,
                |x: int, y: int|
                    reaches(cx as int, dx as int, x, old(self).width as int, old(self).has_border_walls)
                        && reaches(
                        cy as int,
                        dy as int,
                        y,
                        old(self).height as int,
                        old(self).has_border_walls,
                    ),
            ),
    {
        let ghost g0 = self.grid();
        let ghost m0 = self.bomb_radii@;
        let ghost (w, h, walls) = (self.width as int, self.height as int, self.has_border_walls);
        let sx: i128 = dx as i128;
        let sy: i128 = dy as i128;
        let ghost p1 = |x: int, y: int| land(cx - sx, w, walls) == Some(x) && land(cy - sy, h, walls) == Some(y);
        let ghost p2 = |x: int, y: int| land(cx - sx, w, walls) == Some(x) && land(cy + sy, h, walls) == Some(y);
        let ghost p3 = |x: int, y: int| land(cx + sx, w, walls) == Some(x) && land(cy - sy, h, walls) == Some(y);
        let ghost p4 = |x: int, y: int| land(cx + sx, w, walls) == Some(x) && land(cy + sy, h, walls) == Some(y);
        self.strike_point(cx, cy, -sx, -sy);
        let ghost g1 = self.grid();
        let ghost m1 = self.bomb_radii@;
        self.strike_point(cx, cy, -sx, sy);
        let ghost g2 = self.grid();
        let ghost m2 = self.bomb_radii@;
        self.strike_point(cx, cy, sx, -sy);
        let ghost g3 = self.grid();
        let ghost m3 = self.bomb_radii@;
        self.strike_point(cx, cy, sx, sy);
        proof {
            let q12 = |x: int, y: int| p1(x, y) || p2(x, y);
            let q123 = |x: int, y: int| q12(x, y) || p3(x, y);
            let q1234 = |x: int, y: int| q123(x, y) || p4(x, y);
            assert(g1 == wipe(g0, p1));
            assert(m1 == wipe_radii(g0, m0, p1));
            lemma_wipe_compose(g0, m0, p1, p2);
            assert(g2 == wipe(g0, q12));
            assert(m2 == wipe_radii(g0, m0, q12));
            lemma_wipe_compose(g0, m0, q12, p3);
            assert(g3 == wipe(g0, q123));
            assert(m3 == wipe_radii(g0, m0, q123));
            lemma_wipe_compose(g0, m0, q123, p4);
            let target = |x: int, y: int| reaches(cx as int, dx as int, x, w, walls) && reaches(cy as int, dy as int, y, h, walls);
            lemma_wipe_ext(g0, m0, q1234, target);
        }
    }

    /// Explodes the bomb at (cx, cy) with the given radius: every cell within the radius
    /// (clipped or wrapped at the border) dies, and the radii of bombs caught in it go.
    fn explode_bomb(&mut self, cx: usize, cy: usize, radius: usize)
        requires
            old(self).covers_board(),
            cx < old(self).width,
            cy < old(self).height,
        ensures
            final(self).covers_board(),
            Self::same_but_board_and_radii(*old(self), *final(self)),
            final(self).grid() == wipe(
                old(self).grid(),
                blast_area(
                    cx as int,
                    cy as int,
                    radius as int,
                    old(self).width as int,
                    old(self).height as int,
                    old(self).has_border_walls,
                ),
            ),
            final(self).bomb_radii@ == wipe_radii(
                old(self).grid(),
                old(self).bomb_radii@,
                blast_area(
                    cx as int,
                    cy as int,
                    radius as int,
                    old(self).width as int,
                    old(self).height as int,
                    old(self).has_border_walls,
                ),
            ),
    {
        let ghost g0 = self.grid();
        let ghost m0 = self.bomb_radii@;
        let ghost (w, h, walls) = (self.width as int, self.height as int, self.has_border_walls);
        let ghost (bx, by, ri) = (cx as int, cy as int, radius as int);
        let r: u128 = radius as u128;
        proof {
            assert(r * r <= 0xffff_ffff_ffff_ffff * 0xffff_ffff_ffff_ffffu128) by (nonlinear_arith)
                requires
                    r <= 0xffff_ffff_ffff_ffff,
            ;
            lemma_sweep_rows(bx, by, ri, 0, w, h, walls);
            lemma_wipe_nothing(g0, m0, |x: int, y: int| swept(bx, by, ri, 0, 0, x, y, w, h, walls));
        }
        let r2: u128 = r * r;
        let mut dy: u128 = 0;
        while dy <= r
            invariant
                w == self.width,
                h == self.height,
                walls == self.has_border_walls,
                bx == cx,
                by == cy,
                ri == radius,
                r == radius,
                r2 == r * r,
                r <= usize::MAX,
                dy <= r + 1,
                cx < self.width,
                cy < self.height,
                self.covers_board(),
                Self::same_but_board_and_radii(*old(self), *self),
                g0 == old(self).grid(),
                m0 == old(self).bomb_radii@,
                self.grid() == wipe(
                    g0,
                    |x: int, y: int| swept(bx, by, ri, dy as int, 0, x, y, w, h, walls),
                ),
                self.bomb_radii@ == wipe_radii(
                    g0,
                    m0,
                    |x: int, y: int| swept(bx, by, ri, dy as int, 0, x, y, w, h, walls),
                ),
            decreases r + 1 - dy,
        {
            let mut dx: u128 = 0;
            while dx <= r
                invariant
                    w == self.width,
                    h == self.height,
                    walls == self.has_border_walls,
                    bx == cx,
                    by == cy,
                    ri == radius,
                    r == radius,
                    r2 == r * r,
                    r <= usize::MAX,
                    dy <= r,
                    dx <= r + 1,
                    cx < self.width,
                    cy < self.height,
                    self.covers_board(),
                    Self::same_but_board_and_radii(*old(self), *self),
                    g0 == old(self).grid(),
                    m0 == old(self).bomb_radii@,
                    self.grid() == wipe(
                        g0,
                        |x: int, y: int| swept(bx, by, ri, dy as int, dx as int, x, y, w, h, walls),
                    ),
                    self.bomb_radii@ == wipe_radii(
                        g0,
                        m0,
                        |x: int, y: int| swept(bx, by, ri, dy as int, dx as int, x, y, w, h, walls),
                    ),
                decreases r + 1 - dx,
            {
                let ghost before = |x: int, y: int|
                    swept(bx, by, ri, dy as int, dx as int, x, y, w, h, walls);
                let ghost after = |x: int, y: int|
                    swept(bx, by, ri, dy as int, dx as int + 1, x, y, w, h, walls);
                let ghost four = |x: int, y: int|
                    reaches(bx, dx as int, x, w, walls) && reaches(by, dy as int, y, h, walls);
                proof {
                    lemma_sweep_step(bx, by, ri, dy as int, dx as int, w, h, walls);
                    assert(dx * dx <= r * r) by (nonlinear_arith)
                        requires
                            dx <= r,
                    ;
                    assert(dy * dy <= r * r) by (nonlinear_arith)
                        requires
                            dy <= r,
                    ;
                }
                let dx2: u128 = dx * dx;
                if dx2 <= r2 && dy * dy <= r2 - dx2 {
                    let ghost gb = self.grid();
                    let ghost mb = self.bomb_radii@;
                    self.strike_offsets(cx, cy, dx, dy);
                    proof {
                        assert(in_disk(dx as int, dy as int, ri));
                        lemma_wipe_compose(g0, m0, before, four);
                        lemma_wipe_ext(g0, m0, |x: int, y: int| before(x, y) || four(x, y), after);
                    }
                } else {
                    proof {
                        assert(!in_disk(dx as int, dy as int, ri));
                        lemma_wipe_ext(g0, m0, before, after);
                    }
                }
                dx += 1;
            }
            proof {
                lemma_sweep_rows(bx, by, ri, dy as int, w, h, walls);
                lemma_wipe_ext(
                    g0,
                    m0,
                    |x: int, y: int| swept(bx, by, ri, dy as int, ri + 1, x, y, w, h, walls),
                    |x: int, y: int| swept(bx, by, ri, dy as int + 1, 0, x, y, w, h, walls),
                );
            }
            dy += 1;
        }
        proof {
            lemma_sweep_rows(bx, by, ri, ri, w, h, walls);
            lemma_wipe_ext(
                g0,
                m0,
                |x: int, y: int| swept(bx, by, ri, ri + 1, 0, x, y, w, h, walls),
                blast_area(bx, by, ri, w, h, walls),
            );
        }
    }

    /// The radius recorded for the bomb at (x, y), or 5 when none is.
    fn bomb_radius(&self, x: usize, y: usize) -> (r: usize)
        ensures
            r == radius_at(self.bomb_radii@, x as int, y as int),
    {
        match self.bomb_radii.get(&position_key(x, y)) {
            Some(r) => *r,
            None => 5,
        }
    }

    /// The bombs that a living cell touches, row by row, with their radii.
    fn triggered_bombs(&self) -> (list: Vec<(usize, usize, usize)>)
        requires
            self.covers_board(),
        ensures
            list@ == bombs_upto(
                self.grid(),
                self.bomb_radii@,
                self.height as int,
                self.width as int,
                self.height as int,
                self.has_border_walls,
            ),
    {
        let ghost (g, m, w, h, walls) = (
            self.grid(),
            self.bomb_radii@,
            self.width as int,
            self.height as int,
            self.has_border_walls,
        );
        let mut list: Vec<(usize, usize, usize)> = Vec::new();
        let mut y: usize = 0;
        while y < self.height
            invariant
                self.covers_board(),
                g == self.grid(),
                m == self.bomb_radii@,
                w == self.width,
                h == self.height,
                walls == self.has_border_walls,
                y <= self.height,
                list@ == bombs_upto(g, m, y as int, w, h, walls),
            decreases self.height - y,
        {
            let mut x: usize = 0;
            while x < self.width
                invariant
                    self.covers_board(),
                    g == self.grid(),
                    m == self.bomb_radii@,
                    w == self.width,
                    h == self.height,
                    walls == self.has_border_walls,
                    y < self.height,
                    x <= self.width,
                    list@ == bombs_upto(g, m, y as int, w, h, walls) + bombs_in_row(
                        g,
                        m,
                        y as int,
                        x as int,
                        w,
                        h,
                        walls,
                    ),
                decreases self.width - x,
            {
                assert(g[y as int].len() >= self.width);
                let ghost before = list@;
                if self.cells[y][x] == 4 {
                    if self.bomb_has_living_neighbor(x, y) {
                        let radius = self.bomb_radius(x, y);
                        list.push((x, y, radius));
                    }
                }
                assert(list@ =~= bombs_upto(g, m, y as int, w, h, walls) + bombs_in_row(
                    g,
                    m,
                    y as int,
                    x + 1,
                    w,
                    h,
                    walls,
                ));
                x += 1;
            }
            y += 1;
        }
        list
    }

    /// The high-value units that a red cell touches, row by row.
    fn triggered_high_values(&self) -> (list: Vec<(usize, usize)>)
        requires
            self.covers_board(),
        ensures
            list@ == hvs_upto(
                self.grid(),
                self.height as int,
                self.width as int,
                self.height as int,
                self.has_border_walls,
            ),
    {
        let ghost (g, w, h, walls) = (
            self.grid(),
            self.width as int,
            self.height as int,
            self.has_border_walls,
        );
        let mut list: Vec<(usize, usize)> = Vec::new();
        let mut y: usize = 0;
        while y < self.height
            invariant
                self.covers_board(),
                g == self.grid(),
                w == self.width,
                h == self.height,
                walls == self.has_border_walls,
                y <= self.height,
                list@ == hvs_upto(g, y as int, w, h, walls),
            decreases self.height - y,
        {
            let mut x: usize = 0;
            while x < self.width
                invariant
                    self.covers_board(),
                    g == self.grid(),
                    w == self.width,
                    h == self.height,
                    walls == self.has_border_walls,
                    y < self.height,
                    x <= self.width,
                    list@ == hvs_upto(g, y as int, w, h, walls) + hvs_in_row(
                        g,
                        y as int,
                        x as int,
                        w,
                        h,
                        walls,
                    ),
                decreases self.width - x,
            {
                assert(g[y as int].len() >= self.width);
                if self.cells[y][x] == 5 {
                    if self.hv_has_red_neighbor(x, y) {
                        list.push((x, y));
                    }
                }
                assert(list@ =~= hvs_upto(g, y as int, w, h, walls) + hvs_in_row(
                    g,
                    y as int,
                    x + 1,
                    w,
                    h,
                    walls,
                ));
                x += 1;
            }
            y += 1;
        }
        list
    }

    /// Bombs and high-value units react to the board: every bomb with a living neighbour
    /// goes off (row by row), then every high-value unit with a red neighbour that still
    /// stands is destroyed. Both are recorded after what is already recorded.
    fn react(&mut self)
        requires
            old(self).covers_board(),
        ensures
            final(self).covers_board(),
            same_lengths(final(self).grid(), old(self).grid()),
            final(self).width == old(self).width,
            final(self).height == old(self).height,
            final(self).generation == old(self).generation,
            final(self).population == old(self).population,
            final(self).red_count == old(self).red_count,
            final(self).blue_count == old(self).blue_count,
            final(self).has_border_walls == old(self).has_border_walls,
            final(self).grid() == strike(
                old(self).grid(),
                old(self).bomb_radii@,
                old(self).width as int,
                old(self).height as int,
                old(self).has_border_walls,
            ).cells,
            final(self).bomb_radii@ == strike(
                old(self).grid(),
                old(self).bomb_radii@,
                old(self).width as int,
                old(self).height as int,
                old(self).has_border_walls,
            ).radii,
            final(self).last_explosions@ == old(self).last_explosions@ + strike(
                old(self).grid(),
                old(self).bomb_radii@,
                old(self).width as int,
                old(self).height as int,
                old(self).has_border_walls,
            ).explosions,
            final(self).last_hv_destroyed@ == old(self).last_hv_destroyed@ + strike(
                old(self).grid(),
                old(self).bomb_radii@,
                old(self).width as int,
                old(self).height as int,
                old(self).has_border_walls,
            ).destroyed,
    {
        let ghost (g0, m0, w, h, walls) = (
            self.grid(),
            self.bomb_radii@,
            self.width as int,
            self.height as int,
            self.has_border_walls,
        );
        let ghost le0 = self.last_explosions@;
        let ghost lh0 = self.last_hv_destroyed@;
        let bombs = self.triggered_bombs();
        let hvs = self.triggered_high_values();
        proof {
            lemma_bombs_upto(g0, m0, h, w, h, walls);
            lemma_hvs_upto(g0, h, w, h, walls);
        }
        let mut i: usize = 0;
        while i < bombs.len()
            invariant
                self.covers_board(),
                w == self.width,
                h == self.height,
                walls == self.has_border_walls,
                self.generation == old(self).generation,
                self.population == old(self).population,
                self.red_count == old(self).red_count,
                self.blue_count == old(self).blue_count,
                self.last_hv_destroyed@ == lh0,
                bombs@ == bombs_upto(g0, m0, h, w, h, walls),
                forall|k: int|
                    0 <= k < bombs@.len() ==> {
                        let b = #[trigger] bombs@[k];
                        &&& b.1 < h
                        &&& b.0 < w
                    },
                i <= bombs@.len(),
                self.grid() == explode_all(g0, m0, bombs@.take(i as int), w, h, walls).0,
                self.bomb_radii@ == explode_all(g0, m0, bombs@.take(i as int), w, h, walls).1,
                self.last_explosions@ == le0 + bombs@.take(i as int),
            decreases bombs@.len() - i,
        {
            let (bx, by, radius) = bombs[i];
            assert(bombs@[i as int].1 < h && bombs@[i as int].0 < w);
            self.explode_bomb(bx, by, radius);
            self.last_explosions.push((bx, by, radius));
            proof {
                assert(bombs@.take(i + 1).drop_last() =~= bombs@.take(i as int));
                assert(self.last_explosions@ =~= le0 + bombs@.take(i + 1));
            }
            i += 1;
        }
        proof {
            assert(bombs@.take(bombs@.len() as int) =~= bombs@);
            lemma_explode_all_shape(g0, m0, bombs@, w, h, walls);
        }
        let ghost g1 = self.grid();
        let ghost m1 = self.bomb_radii@;
        let ghost standing = |p: (usize, usize)| g1[p.1 as int][p.0 as int] == 5;
        let mut j: usize = 0;
        proof {
            lemma_wipe_nothing(
                g1,
                m1,
                |x: int, y: int| 0 <= x < w && 0 <= y < h && hvs@.take(0).contains((x as usize, y as usize)),
            );
            reveal_with_fuel(Seq::<_>::filter, 1);
            assert(self.last_hv_destroyed@ =~= lh0 + hvs@.take(0).filter(standing));
        }
        while j < hvs.len()
            invariant
                self.covers_board(),
                w == self.width,
                h == self.height,
                walls == self.has_border_walls,
                self.generation == old(self).generation,
                self.population == old(self).population,
                self.red_count == old(self).red_count,
                self.blue_count == old(self).blue_count,
                self.last_explosions@ == le0 + bombs@,
                self.bomb_radii@ == m1,
                standing == |p: (usize, usize)| g1[p.1 as int][p.0 as int] == 5,
                covers(g1, w, h),
                forall|x: int, y: int|
                    0 <= y < h && 0 <= x < w ==> #[trigger] g1[y][x] == g0[y][x] || g1[y][x] == 0,
                hvs@ == hvs_upto(g0, h, w, h, walls),
                forall|k: int|
                    0 <= k < hvs@.len() ==> {
                        let p = #[trigger] hvs@[k];
                        &&& p.1 < h
                        &&& p.0 < w
                        &&& hv_triggered(g0, p.0 as int, p.1 as int, w, h, walls)
                    },
                forall|a: int, b: int|
                    0 <= a < b < hvs@.len() ==> row_major_before(
                        #[trigger] hvs@[a],
                        #[trigger] hvs@[b],
                    ),
                j <= hvs@.len(),
                self.grid() == wipe(
                    g1,
                    |x: int, y: int|
                        0 <= x < w && 0 <= y < h && hvs@.take(j as int).contains((x as usize, y as usize)),
                ),
                self.last_hv_destroyed@ == lh0 + hvs@.take(j as int).filter(standing),
            decreases hvs@.len() - j,
        {
            let (hx, hy) = hvs[j];
            let ghost p = hvs@[j as int];
            let ghost before = |x: int, y: int|
                0 <= x < w && 0 <= y < h && hvs@.take(j as int).contains((x as usize, y as usize));
            let ghost after = |x: int, y: int|
                0 <= x < w && 0 <= y < h && hvs@.take(j + 1).contains((x as usize, y as usize));
            let ghost point = |x: int, y: int| x == hx && y == hy;
            let ghost gb = self.grid();
            proof {
                assert(p.1 < h && p.0 < w);
                assert(!hvs@.take(j as int).contains(p)) by {
                    if hvs@.take(j as int).contains(p) {
                        let k = choose|k: int| 0 <= k < j && hvs@.take(j as int)[k] == p;
                        assert(row_major_before(hvs@[k], hvs@[j as int]));
                    }
                }
                assert(!before(hx as int, hy as int));
                assert(gb[hy as int][hx as int] == g1[hy as int][hx as int]);
                assert(g0[hy as int][hx as int] == 5);
                assert(gb[hy as int].len() >= w);
                lemma_wipe_compose(g1, m1, before, point);
                assert forall|x: int, y: int|
                    0 <= y < g1.len() && 0 <= x < g1[y].len() implies #[trigger] after(x, y) == (
                    before(x, y) || point(x, y)) by {
                    let t = hvs@.take(j as int);
                    let t1 = hvs@.take(j + 1);
                    assert(t1 =~= t.push(p));
                    let q = (x as usize, y as usize);
                    if after(x, y) {
                        let k = choose|k: int| 0 <= k < t1.len() && t1[k] == q;
                        if k < j {
                            assert(t[k] == q);
                        }
                    }
                    if before(x, y) {
                        let k = choose|k: int| 0 <= k < j && t[k] == q;
                        assert(t1[k] == q);
                    }
                    if point(x, y) {
                        assert(t1[j as int] == q);
                    }
                }
                lemma_wipe_ext(g1, m1, |x: int, y: int| before(x, y) || point(x, y), after);
                lemma_wipe_point(gb, m1, hx as int, hy as int);
                assert(hvs@.take(j + 1).drop_last() =~= hvs@.take(j as int));
                reveal_with_fuel(Seq::<_>::filter, 1);
            }
            assert(gb[hy as int] == self.cells@[hy as int]@);
            if self.cells[hy][hx] == 5 {
                self.write_cell(hx, hy, 0);
                self.last_hv_destroyed.push((hx, hy));
                proof {
                    reveal_with_fuel(Seq::<_>::filter, 1);
                    assert(p == (hx, hy));
                    assert(gb[hy as int][hx as int] == 5);
                    assert(standing(p));
                    assert(hvs@.take(j + 1).filter(standing) == hvs@.take(j as int).filter(
                        standing,
                    ).push(p));
                    assert(self.last_hv_destroyed@ =~= lh0 + hvs@.take(j + 1).filter(standing));
                }
            } else {
                proof {
                    reveal_with_fuel(Seq::<_>::filter, 1);
                    assert(p == (hx, hy));
                    assert(gb[hy as int][hx as int] != 5);
                    assert(!standing(p));
                    assert(hvs@.take(j + 1).filter(standing) == hvs@.take(j as int).filter(
                        standing,
                    ));
                    assert(g1[hy as int][hx as int] == g0[hy as int][hx as int]
                        || g1[hy as int][hx as int] == 0);
                    assert(gb[hy as int][hx as int] == 0);
                    assert(gb[hy as int].update(hx as int, 0) =~= gb[hy as int]);
                    assert(gb.update(hy as int, gb[hy as int].update(hx as int, 0)) =~= gb);
                }
            }
            j += 1;
        }
        proof {
            assert(hvs@.take(hvs@.len() as int) =~= hvs@);
            assert forall|x: int, y: int|
                0 <= y < g1.len() && 0 <= x < g1[y].len() implies (0 <= x < w && 0 <= y < h
                && #[trigger] hvs@.contains((x as usize, y as usize))) == (0 <= x < w && 0 <= y < h
                && hv_triggered(g0, x, y, w, h, walls)) by {
                if 0 <= x < w && 0 <= y < h && hvs@.contains((x as usize, y as usize)) {
                    let k = choose|k: int| 0 <= k < hvs@.len() && hvs@[k] == (x as usize, y as usize);
                    assert(hvs@[k].0 == x && hvs@[k].1 == y);
                }
            }
            lemma_wipe_ext(
                g1,
                m1,
                |x: int, y: int| 0 <= x < w && 0 <= y < h && hvs@.contains((x as usize, y as usize)),
                |x: int, y: int| 0 <= x < w && 0 <= y < h && hv_triggered(g0, x, y, w, h, walls),
            );
            lemma_strike_lengths(g0, m0, w, h, walls);
        }
    }

    /// Advances the game by one generation: bombs and high-value units react, the
    /// two-faction rules apply to every cell at once, bombs and high-value units react to
    /// the new cells, the counters are recomputed and the generation goes up by one.
    pub fn step(&mut self)
        requires
            old(self).covers_board(),
            old(self).width * old(self).height <= usize::MAX,
            old(self).generation < u64::MAX,
        ensures
            Self::stepped(*old(self), *final(self)),
    {
        self.last_explosions.clear();
        self.last_hv_destroyed.clear();
        self.react();
        let new_cells = self.next_cells();
        self.cells = new_cells;
        self.react();
        proof {
            lemma_total_cells_of_shape(self.grid(), self.width as int, self.height as int);
            assert(self.last_explosions@ =~= evolve(
                old(self).grid(),
                old(self).bomb_radii@,
                old(self).width as int,
                old(self).height as int,
                old(self).has_border_walls,
            ).explosions);
            assert(self.last_hv_destroyed@ =~= evolve(
                old(self).grid(),
                old(self).bomb_radii@,
                old(self).width as int,
                old(self).height as int,
                old(self).has_border_walls,
            ).destroyed);
        }
        let (pop, rc, bc) = Self::count_population(&self.cells);
        self.population = pop;
        self.red_count = rc;
        self.blue_count = bc;
        self.generation += 1;
    }

    /// Counts the red and blue neighbours of (x, y).
    fn count_neighbors(&self, x: usize, y: usize) -> (n: NeighborCounts)
        requires
            self.covers_board(),
            x < self.width,
            y < self.height,
        ensures
            n.red == count_around(
                self.grid(),
                x as int,
                y as int,
                self.width as int,
                self.height as int,
                self.has_border_walls,
                1,
            ),
            n.blue == count_around(
                self.grid(),
                x as int,
                y as int,
                self.width as int,
                self.height as int,
                self.has_border_walls,
                2,
            ),
            n.total == n.red + n.blue,
    {
        count_neighbors_in(&self.cells, x, y, self.width, self.height, self.has_border_walls)
    }

    /// A bomb at (x, y) has a living (red or blue) neighbour.
    fn bomb_has_living_neighbor(&self, x: usize, y: usize) -> (r: bool)
        requires
            self.covers_board(),
            x < self.width,
            y < self.height,
        ensures
            r == (count_around(
                self.grid(),
                x as int,
                y as int,
                self.width as int,
                self.height as int,
                self.has_border_walls,
                1,
            ) + count_around(
                self.grid(),
                x as int,
                y as int,
                self.width as int,
                self.height as int,
                self.has_border_walls,
                2,
            ) > 0),
    {
        self.count_neighbors(x, y).total > 0
    }

    /// A high-value unit at (x, y) has a red neighbour.
    fn hv_has_red_neighbor(&self, x: usize, y: usize) -> (r: bool)
        requires
            self.covers_board(),
            x < self.width,
            y < self.height,
        ensures
            r == (count_around(
                self.grid(),
                x as int,
                y as int,
                self.width as int,
                self.height as int,
                self.has_border_walls,
                1,
            ) > 0),
    {
        hv_has_red_neighbor_in(&self.cells, x, y, self.width, self.height, self.has_border_walls)
    }

    /// The board after the two-faction rules apply to every cell at once.
    fn next_cells(&self) -> (cells: Vec<Vec<u8>>)
        requires
            self.covers_board(),
        ensures
            grid_view(cells) == life_grid(
                self.grid(),
                self.width as int,
                self.height as int,
                self.has_border_walls,
            ),
            has_shape(grid_view(cells), self.width as int, self.height as int),
    {
        let ghost target = life_grid(
            self.grid(),
            self.width as int,
            self.height as int,
            self.has_border_walls,
        );
        let mut new_cells: Vec<Vec<u8>> = Vec::new();
        let mut y: usize = 0;
        while y < self.height
            invariant
                self.covers_board(),
                target == life_grid(
                    self.grid(),
                    self.width as int,
                    self.height as int,
                    self.has_border_walls,
                ),
                y <= self.height,
                new_cells@.len() == y,
                forall|j: int| 0 <= j < y ==> #[trigger] new_cells@[j]@ == target[j],
            decreases self.height - y,
        {
            let mut row: Vec<u8> = Vec::new();
            let mut x: usize = 0;
            while x < self.width
                invariant
                    self.covers_board(),
                    target == life_grid(
                        self.grid(),
                        self.width as int,
                        self.height as int,
                        self.has_border_walls,
                    ),
                    y < self.height,
                    x <= self.width,
                    row@.len() == x,
                    forall|i: int| 0 <= i < x ==> #[trigger] row@[i] == target[y as int][i],
                decreases self.width - x,
            {
                assert(self.grid()[y as int].len() >= self.width);
                let current = self.cells[y][x];
                let new_state: u8 = if current == 3 {
                    // walls never change
                    3
                } else if current == 4 {
                    // bombs that did not go off stay
                    4
                } else if current == 5 {
                    // high-value units that were not destroyed stay
                    5
                } else {
                    let neighbors = self.count_neighbors(x, y);
                    if current == 1 || current == 2 {
                        if neighbors.total < 2 || neighbors.total > 3 {
                            0
                        } else {
                            current
                        }
                    } else if current == 0 && neighbors.total == 3 {
                        // With three living neighbours the factions never tie: the
                        // majority is strict.
                        if neighbors.red > neighbors.blue {
                            1
                        } else {
                            2
                        }
                    } else {
                        0
                    }
                };
                row.push(new_state);
                x += 1;
            }
            assert(row@ =~= target[y as int]);
            new_cells.push(row);
            y += 1;
        }
        proof {
            let gv = grid_view(new_cells);
            assert forall|j: int| 0 <= j < gv.len() implies #[trigger] gv[j] == target[j] by {
                assert(new_cells@[j]@ == target[j]);
            }
            assert(gv =~= target);
        }
        new_cells
    }
}

} // verus!
