//! The state of a game and the moves that change it.
use std::collections::HashMap;
use vstd::prelude::*;
use vstd::math::min;

use crate::rules::bomb_key;
use crate::board::{
    covers,
    grid_count, grid_view, has_shape, lemma_grid_count_zeros, lemma_population_bounded,
    lemma_grid_count_update, lemma_row_count_prefix, lemma_row_count_update,
    lemma_row_counts_bounded, lemma_total_cells_of_shape, lemma_total_cells_prefix,
    lemma_total_cells_same_shape, lemma_total_cells_update, population_of,
    row_count, total_cells,
};

verus! {

/// The byte a cell takes when it is toggled: dead, red, blue, then dead again.
pub open spec fn toggle_code(b: u8) -> u8 {
    if b == 0 {
        1
    } else if b == 1 {
        2
    } else {
        0
    }
}

/// The byte a cell takes when it is set to `team`: red, blue, wall and high-value units
/// are kept; every other value means dead.
pub open spec fn set_code(team: u8) -> u8 {
    if team == 1 || team == 2 || team == 3 || team == 5 {
        team
    } else {
        0
    }
}

/// Red and blue cells are the living ones that population counts.
pub open spec fn is_living(b: u8) -> bool {
    b == 1 || b == 2
}

/// 1 where the condition holds, 0 elsewhere.
pub open spec fn ind(b: bool) -> int {
    if b {
        1
    } else {
        0
    }
}

/// Represents the state of the entire game.
#[derive(Debug, Clone)]
pub struct GameState {
    /// Grid width (number of columns)
    pub width: usize,
    /// Grid height (number of rows)
    pub height: usize,
    /// Rows of cells (0 = dead, 1 = red, 2 = blue, 3 = wall, 4 = bomb, 5 = high-value)
    pub cells: Vec<Vec<u8>>,
    /// Current generation number
    pub generation: u64,
    /// Population count (number of red and blue cells)
    pub population: usize,
    /// Red team population
    pub red_count: usize,
    /// Blue team population
    pub blue_count: usize,
    /// Bomb radii, keyed by position (see `bomb_key`)
    pub bomb_radii: HashMap<u128, usize>,
    /// Explosions that happened in the last step: (x, y, radius)
    pub last_explosions: Vec<(usize, usize, usize)>,
    /// High-value units destroyed in the last step: (x, y)
    pub last_hv_destroyed: Vec<(usize, usize)>,
    /// Whether the border has air walls (no wrapping)
    pub has_border_walls: bool,
}

/// The key under which the radius of the bomb at column `x`, row `y` is kept.
pub fn position_key(x: usize, y: usize) -> (k: u128)
    ensures
        k == bomb_key(x as int, y as int),
{
    (x as u128) * 0x1_0000_0000_0000_0000u128 + (y as u128)
}

/// A fair coin: calls `rand::random::<bool>()`, which draws from the thread-local
/// generator. The result rests on chance, so nothing is stated of it: callers must be
/// correct for either value.
#[verifier::external_body]
fn coin_flip() -> bool {
    rand::random::<bool>()
}

/// Walls, bombs and high-value units, which randomizing keeps.
pub open spec fn is_fixture(b: u8) -> bool {
    b == 3 || b == 4 || b == 5
}

/// `a` has the same number of rows as `g`, and rows of the same lengths.
pub open spec fn same_shape<T>(a: Seq<Vec<T>>, g: Seq<Seq<u8>>) -> bool {
    &&& a.len() == g.len()
    &&& forall|y: int| 0 <= y < g.len() ==> #[trigger] a[y]@.len() == g[y].len()
}

/// A board of `height` rows of `width` dead cells.
fn zero_grid(width: usize, height: usize) -> (cells: Vec<Vec<u8>>)
    ensures
        has_shape(grid_view(cells), width as int, height as int),
        forall|y: int, x: int|
            0 <= y < height && 0 <= x < width ==> #[trigger] grid_view(cells)[y][x] == 0,
{
    let mut cells: Vec<Vec<u8>> = Vec::new();
    let mut y: usize = 0;
    while y < height
        invariant
            y <= height,
            cells@.len() == y,
            forall|j: int| 0 <= j < y ==> #[trigger] cells@[j]@.len() == width,
            forall|j: int, x: int| 0 <= j < y && 0 <= x < width ==> #[trigger] cells@[j]@[x] == 0,
        decreases height - y,
    {
        let mut row: Vec<u8> = Vec::new();
        let mut x: usize = 0;
        while x < width
            invariant
                x <= width,
                row@.len() == x,
                forall|i: int| 0 <= i < x ==> #[trigger] row@[i] == 0,
            decreases width - x,
        {
            row.push(0);
            x = x + 1;
        }
        cells.push(row);
        y = y + 1;
    }
    cells
}

impl GameState {
    /// The board as plain values.
    pub open spec fn grid(&self) -> Seq<Seq<u8>> {
        grid_view(self.cells)
    }

    /// The board has `height` rows of `width` cells.
    pub open spec fn wf(&self) -> bool {
        has_shape(self.grid(), self.width as int, self.height as int)
    }

    /// The board of `width` by `height` fits in the rows of cells (they may hold more).
    pub open spec fn covers_board(&self) -> bool {
        covers(self.grid(), self.width as int, self.height as int)
    }

    /// The cell that column `x`, row `y` name once wrapped exists.
    pub open spec fn cell_in_board(&self, x: usize, y: usize) -> bool {
        &&& self.width > 0
        &&& self.height > 0
        &&& ((y % self.height) as int) < self.grid().len()
        &&& ((x % self.width) as int) < self.grid()[(y % self.height) as int].len()
    }

    /// The three counters agree with the board.
    pub open spec fn counts_match(&self) -> bool {
        &&& self.population == population_of(self.grid())
        &&& self.red_count == grid_count(self.grid(), 1)
        &&& self.blue_count == grid_count(self.grid(), 2)
    }

    /// The cell that column `x`, row `y` names once both wrap around the board.
    pub open spec fn wrapped_cell(&self, x: usize, y: usize) -> u8 {
        self.grid()[(y % self.height) as int][(x % self.width) as int]
    }

    /// The board after the cell that `x`, `y` name (wrapped) takes the value `v`.
    pub open spec fn grid_with(&self, x: usize, y: usize, v: u8) -> Seq<Seq<u8>> {
        let yy = (y % self.height) as int;
        let xx = (x % self.width) as int;
        self.grid().update(yy, self.grid()[yy].update(xx, v))
    }

    /// Everything but the board and the three counters is as in `old`.
    pub open spec fn same_but_board(old: GameState, new: GameState) -> bool {
        &&& new.width == old.width
        &&& new.height == old.height
        &&& new.generation == old.generation
        &&& new.bomb_radii@ == old.bomb_radii@
        &&& new.last_explosions@ == old.last_explosions@
        &&& new.last_hv_destroyed@ == old.last_hv_destroyed@
        &&& new.has_border_walls == old.has_border_walls
    }

    /// The counters can take a toggle of the cell that `x`, `y` name without running past
    /// their bounds (the counter arithmetic would overflow otherwise).
    pub open spec fn toggle_fits(&self, x: usize, y: usize) -> bool {
        let b = self.wrapped_cell(x, y);
        &&& b == 0 ==> self.population < usize::MAX && self.red_count < usize::MAX
        &&& b == 1 ==> self.red_count >= 1 && self.blue_count < usize::MAX
        &&& b == 2 ==> self.blue_count >= 1 && self.population >= 1
    }

    /// What toggling the cell that `x`, `y` name did, from `old` to `new`: the cell takes
    /// the next value of the cycle, the counters follow the red and blue cells (walls,
    /// bombs and high-value units never count), and nothing else changes.
    pub open spec fn toggle_done(old: GameState, new: GameState, x: usize, y: usize) -> bool {
        let b = old.wrapped_cell(x, y);
        let n = toggle_code(b);
        &&& new.grid() == old.grid_with(x, y, n)
        &&& new.population == old.population + ind(!is_living(b) && is_living(n)) - ind(
            is_living(b) && !is_living(n),
        )
        &&& new.red_count == old.red_count - ind(b == 1) + ind(n == 1)
        &&& new.blue_count == old.blue_count - ind(b == 2) + ind(n == 2)
        &&& Self::same_but_board(old, new)
        &&& old.wf() ==> new.wf()
        &&& old.covers_board() ==> new.covers_board()
        &&& old.counts_match() ==> new.counts_match()
    }

    /// The counters can take setting the cell that `x`, `y` name to `team`.
    pub open spec fn set_fits(&self, x: usize, y: usize, team: u8) -> bool {
        let b = self.wrapped_cell(x, y);
        let n = set_code(team);
        b != n ==> {
            &&& !is_living(b) && is_living(n) ==> self.population < usize::MAX
            &&& is_living(b) && !is_living(n) ==> self.population >= 1
            &&& b == 1 ==> self.red_count >= 1
            &&& b == 2 ==> self.blue_count >= 1
            &&& n == 1 ==> self.red_count < usize::MAX
            &&& n == 2 ==> self.blue_count < usize::MAX
        }
    }

    /// What setting the cell that `x`, `y` name to `team` needs.
    pub open spec fn set_ready(&self, x: usize, y: usize, team: u8) -> bool {
        &&& self.cell_in_board(x, y)
        &&& self.set_fits(x, y, team)
    }

    /// What setting the cell that `x`, `y` name to `team` did, from `old` to `new`.
    pub open spec fn set_done(old: GameState, new: GameState, x: usize, y: usize, team: u8) -> bool {
        let b = old.wrapped_cell(x, y);
        let n = set_code(team);
        let key = bomb_key((x % old.width) as int, (y % old.height) as int);
        &&& b == n ==> new == old
        &&& b != n ==> {
            &&& new.grid() == old.grid_with(x, y, n)
            &&& new.population == old.population + ind(!is_living(b) && is_living(n)) - ind(
                is_living(b) && !is_living(n),
            )
            &&& new.red_count == old.red_count - ind(b == 1) + ind(n == 1)
            &&& new.blue_count == old.blue_count - ind(b == 2) + ind(n == 2)
            &&& new.bomb_radii@ == (if b == 4 {
                old.bomb_radii@.remove(key)
            } else {
                old.bomb_radii@
            })
            &&& new.width == old.width
            &&& new.height == old.height
            &&& new.generation == old.generation
            &&& new.last_explosions@ == old.last_explosions@
            &&& new.last_hv_destroyed@ == old.last_hv_destroyed@
            &&& new.has_border_walls == old.has_border_walls
        }
        &&& old.wf() ==> new.wf()
        &&& old.covers_board() ==> new.covers_board()
        &&& old.counts_match() ==> new.counts_match()
    }

    /// Writes one cell; everything else stays.
    pub(crate) fn write_cell(&mut self, xx: usize, yy: usize, v: u8)
        requires
            yy < old(self).grid().len(),
            xx < old(self).grid()[yy as int].len(),
        ensures
            final(self).grid() == old(self).grid().update(
                yy as int,
                old(self).grid()[yy as int].update(xx as int, v),
            ),
            old(self).wf() ==> final(self).wf(),
            old(self).covers_board() ==> final(self).covers_board(),
            Self::same_but_board(*old(self), *final(self)),
            final(self).population == old(self).population,
            final(self).red_count == old(self).red_count,
            final(self).blue_count == old(self).blue_count,
    {
        self.cells[yy][xx] = v;
        proof {
            let g = old(self).grid();
            assert(self.grid() =~= g.update(yy as int, g[yy as int].update(xx as int, v)));
        }
    }

    /// Creates a new game with the specified dimensions: every cell dead, border walls on.
    pub fn new(width: usize, height: usize) -> (s: Self)
        ensures
            s.width == width,
            s.height == height,
            s.wf(),
            forall|y: int, x: int|
                0 <= y < height && 0 <= x < width ==> #[trigger] s.grid()[y][x] == 0,
            s.generation == 0,
            s.population == 0,
            s.red_count == 0,
            s.blue_count == 0,
            s.counts_match(),
            s.bomb_radii@ == Map::<u128, usize>::empty(),
            s.last_explosions@.len() == 0,
            s.last_hv_destroyed@.len() == 0,
            s.has_border_walls,
    {
        let cells = zero_grid(width, height);
        let s = GameState {
            width,
            height,
            cells,
            generation: 0,
            population: 0,
            red_count: 0,
            blue_count: 0,
            bomb_radii: HashMap::new(),
            last_explosions: Vec::new(),
            last_hv_destroyed: Vec::new(),
            has_border_walls: true,
        };
        proof {
            lemma_grid_count_zeros(s.grid(), 1);
            lemma_grid_count_zeros(s.grid(), 2);
        }
        s
    }

    /// Toggles the state of a cell (cycles: dead -> red -> blue -> dead; a wall, bomb or
    /// high-value unit turns dead); the coordinates wrap around the board. The counters
    /// follow the red and blue cells only: walls, bombs and high-value units never count.
    pub fn toggle_cell(&mut self, x: usize, y: usize)
        requires
            old(self).cell_in_board(x, y),
            old(self).toggle_fits(x, y),
        ensures
            Self::toggle_done(*old(self), *final(self), x, y),
    {
        let wrapped_x = x % self.width;
        let wrapped_y = y % self.height;
        let old_state = self.cells[wrapped_y][wrapped_x];
        let new_state: u8 = if old_state == 0 {
            1
        } else if old_state == 1 {
            2
        } else {
            0
        };
        self.write_cell(wrapped_x, wrapped_y, new_state);

        let old_alive = old_state == 1 || old_state == 2;
        let new_alive = new_state == 1 || new_state == 2;
        if !old_alive && new_alive {
            self.population += 1;
        } else if old_alive && !new_alive {
            self.population -= 1;
        }
        if old_state == 1 {
            self.red_count -= 1;
        }
        if old_state == 2 {
            self.blue_count -= 1;
        }
        if new_state == 1 {
            self.red_count += 1;
        }
        if new_state == 2 {
            self.blue_count += 1;
        }
        proof {
            let g = old(self).grid();
            lemma_count_after_write(g, wrapped_x as int, wrapped_y as int, new_state, 1);
            lemma_count_after_write(g, wrapped_x as int, wrapped_y as int, new_state, 2);
        }
    }

    /// Sets a cell to a team (0 = dead, 1 = red, 2 = blue, 3 = wall, 5 = high-value; any
    /// other value means dead); the coordinates wrap around the board. Covering a bomb
    /// drops its radius.
    #[verifier::rlimit(40)]
    #[verifier::spinoff_prover]
    pub fn set_cell(&mut self, x: usize, y: usize, team: u8)
        requires
            old(self).set_ready(x, y, team),
        ensures
            Self::set_done(*old(self), *final(self), x, y, team),
    {
        let wrapped_x = x % self.width;
        let wrapped_y = y % self.height;
        let old_state = self.cells[wrapped_y][wrapped_x];
        let new_state: u8 = if team == 1 || team == 2 || team == 3 || team == 5 {
            team
        } else {
            0
        };
        if old_state == new_state {
            return;
        }
        if old_state == 4 {
            self.bomb_radii.remove(&position_key(wrapped_x, wrapped_y));
        }
        self.write_cell(wrapped_x, wrapped_y, new_state);

        let old_alive = old_state == 1 || old_state == 2;
        let new_alive = new_state == 1 || new_state == 2;
        if !old_alive && new_alive {
            self.population += 1;
        } else if old_alive && !new_alive {
            self.population -= 1;
        }
        if old_state == 1 {
            self.red_count -= 1;
        }
        if old_state == 2 {
            self.blue_count -= 1;
        }
        if new_state == 1 {
            self.red_count += 1;
        }
        if new_state == 2 {
            self.blue_count += 1;
        }
        proof {
            let g = old(self).grid();
            lemma_count_after_write(g, wrapped_x as int, wrapped_y as int, new_state, 1);
            lemma_count_after_write(g, wrapped_x as int, wrapped_y as int, new_state, 2);
        }
    }

    /// Sets a cell to red (team 1).
    pub fn set_cell_red(&mut self, x: usize, y: usize)
        requires
            old(self).set_ready(x, y, 1),
        ensures
            Self::set_done(*old(self), *final(self), x, y, 1),
    {
        self.set_cell(x, y, 1);
    }

    /// Sets a cell to blue (team 2).
    pub fn set_cell_blue(&mut self, x: usize, y: usize)
        requires
            old(self).set_ready(x, y, 2),
        ensures
            Self::set_done(*old(self), *final(self), x, y, 2),
    {
        self.set_cell(x, y, 2);
    }

    /// Sets a cell to dead.
    pub fn set_cell_dead(&mut self, x: usize, y: usize)
        requires
            old(self).set_ready(x, y, 0),
        ensures
            Self::set_done(*old(self), *final(self), x, y, 0),
    {
        self.set_cell(x, y, 0);
    }

    /// Sets a cell to wall.
    pub fn set_cell_wall(&mut self, x: usize, y: usize)
        requires
            old(self).set_ready(x, y, 3),
        ensures
            Self::set_done(*old(self), *final(self), x, y, 3),
    {
        self.set_cell(x, y, 3);
    }

    /// Sets a cell to a high-value unit.
    pub fn set_cell_high_value(&mut self, x: usize, y: usize)
        requires
            old(self).set_ready(x, y, 5),
        ensures
            Self::set_done(*old(self), *final(self), x, y, 5),
    {
        self.set_cell(x, y, 5);
    }

    /// Toggles border walls (air walls vs toroidal wrapping).
    pub fn toggle_border_walls(&mut self)
        ensures
            final(self).has_border_walls == !old(self).has_border_walls,
            final(self).width == old(self).width,
            final(self).height == old(self).height,
            final(self).cells == old(self).cells,
            final(self).generation == old(self).generation,
            final(self).population == old(self).population,
            final(self).red_count == old(self).red_count,
            final(self).blue_count == old(self).blue_count,
            final(self).bomb_radii == old(self).bomb_radii,
            final(self).last_explosions == old(self).last_explosions,
            final(self).last_hv_destroyed == old(self).last_hv_destroyed,
    {
        self.has_border_walls = !self.has_border_walls;
    }

    /// The counters can take a bomb over the cell that `x`, `y` name.
    pub open spec fn bomb_fits(&self, x: usize, y: usize) -> bool {
        let b = self.wrapped_cell(x, y);
        &&& b == 1 ==> self.population >= 1 && self.red_count >= 1
        &&& b == 2 ==> self.population >= 1 && self.blue_count >= 1
    }

    /// Places a bomb with the given explosion radius; the coordinates wrap around the board.
    pub fn place_bomb(&mut self, x: usize, y: usize, radius: usize)
        requires
            old(self).cell_in_board(x, y),
            old(self).bomb_fits(x, y),
        ensures
            final(self).grid() == old(self).grid_with(x, y, 4),
            old(self).wf() ==> final(self).wf(),
            old(self).covers_board() ==> final(self).covers_board(),
            final(self).bomb_radii@ == old(self).bomb_radii@.insert(
                bomb_key((x % old(self).width) as int, (y % old(self).height) as int),
                radius,
            ),
            final(self).population == old(self).population - ind(
                is_living(old(self).wrapped_cell(x, y)),
            ),
            final(self).red_count == old(self).red_count - ind(old(self).wrapped_cell(x, y) == 1),
            final(self).blue_count == old(self).blue_count - ind(old(self).wrapped_cell(x, y) == 2),
            final(self).width == old(self).width,
            final(self).height == old(self).height,
            final(self).generation == old(self).generation,
            final(self).last_explosions@ == old(self).last_explosions@,
            final(self).last_hv_destroyed@ == old(self).last_hv_destroyed@,
            final(self).has_border_walls == old(self).has_border_walls,
            old(self).counts_match() ==> final(self).counts_match(),
    {
        let wrapped_x = x % self.width;
        let wrapped_y = y % self.height;
        let old_state = self.cells[wrapped_y][wrapped_x];
        if old_state == 1 {
            self.population -= 1;
            self.red_count -= 1;
        }
        if old_state == 2 {
            self.population -= 1;
            self.blue_count -= 1;
        }
        if old_state == 4 {
            self.bomb_radii.remove(&position_key(wrapped_x, wrapped_y));
        }
        self.write_cell(wrapped_x, wrapped_y, 4);
        self.bomb_radii.insert(position_key(wrapped_x, wrapped_y), radius);
        proof {
            let g = old(self).grid();
            lemma_count_after_write(g, wrapped_x as int, wrapped_y as int, 4, 1);
            lemma_count_after_write(g, wrapped_x as int, wrapped_y as int, 4, 2);
            assert(self.bomb_radii@ =~= old(self).bomb_radii@.insert(
                bomb_key(wrapped_x as int, wrapped_y as int),
                radius,
            ));
        }
    }

    /// Clears the grid: every cell dead (walls, bombs and high-value units too), counters
    /// and generation back to zero, bomb radii and the records of the last step dropped.
    pub fn clear(&mut self)
        ensures
            final(self).grid().len() == old(self).grid().len(),
            forall|y: int|
                0 <= y < old(self).grid().len() ==> #[trigger] final(self).grid()[y].len()
                    == old(self).grid()[y].len(),
            forall|y: int, x: int|
                0 <= y < final(self).grid().len() && 0 <= x < final(self).grid()[y].len()
                    ==> #[trigger] final(self).grid()[y][x] == 0,
            final(self).population == 0,
            final(self).red_count == 0,
            final(self).blue_count == 0,
            final(self).generation == 0,
            final(self).counts_match(),
            final(self).bomb_radii@ == Map::<u128, usize>::empty(),
            final(self).last_explosions@.len() == 0,
            final(self).last_hv_destroyed@.len() == 0,
            final(self).width == old(self).width,
            final(self).height == old(self).height,
            final(self).has_border_walls == old(self).has_border_walls,
            old(self).wf() ==> final(self).wf(),
    {
        let ghost g0 = self.grid();
        let n = self.cells.len();
        let mut y: usize = 0;
        while y < n
            invariant
                n == self.cells@.len(),
                n == g0.len(),
                y <= n,
                forall|j: int| 0 <= j < n ==> #[trigger] self.grid()[j].len() == g0[j].len(),
                forall|j: int, i: int|
                    0 <= j < y && 0 <= i < g0[j].len() ==> #[trigger] self.grid()[j][i] == 0,
                self.width == old(self).width,
                self.height == old(self).height,
                self.has_border_walls == old(self).has_border_walls,
                self.bomb_radii == old(self).bomb_radii,
                self.last_explosions == old(self).last_explosions,
                self.last_hv_destroyed == old(self).last_hv_destroyed,
            decreases n - y,
        {
            assert(self.grid()[y as int].len() == g0[y as int].len());
            let len = self.cells[y].len();
            let mut x: usize = 0;
            while x < len
                invariant
                    n == self.cells@.len(),
                    y < n,
                    len == g0[y as int].len(),
                    x <= len,
                    forall|j: int| 0 <= j < n ==> #[trigger] self.grid()[j].len() == g0[j].len(),
                    forall|j: int, i: int|
                        0 <= j < y && 0 <= i < g0[j].len() ==> #[trigger] self.grid()[j][i] == 0,
                    forall|i: int| 0 <= i < x ==> #[trigger] self.grid()[y as int][i] == 0,
                    self.width == old(self).width,
                    self.height == old(self).height,
                    self.has_border_walls == old(self).has_border_walls,
                    self.bomb_radii == old(self).bomb_radii,
                    self.last_explosions == old(self).last_explosions,
                    self.last_hv_destroyed == old(self).last_hv_destroyed,
                decreases len - x,
            {
                assert(self.grid()[y as int].len() == g0[y as int].len());
                let ghost before = self.grid();
                self.cells[y][x] = 0;
                assert(self.grid() =~= before.update(
                    y as int,
                    before[y as int].update(x as int, 0u8),
                ));
                x += 1;
            }
            y += 1;
        }
        let ghost done = self.cells;
        assert forall|j: int, i: int|
            0 <= j < grid_view(done).len() && 0 <= i < grid_view(done)[j].len() implies #[trigger] grid_view(done)[j][i]
                == 0 by {
            assert(self.grid()[j].len() == g0[j].len());
            assert(self.grid()[j][i] == 0);
        }
        assert forall|j: int| 0 <= j < g0.len() implies #[trigger] grid_view(done)[j].len()
            == g0[j].len() by {
            assert(self.grid()[j].len() == g0[j].len());
        }
        assert(grid_view(done).len() == g0.len());
        proof {
            lemma_grid_count_zeros(grid_view(done), 1);
            lemma_grid_count_zeros(grid_view(done), 2);
        }
        self.population = 0;
        self.red_count = 0;
        self.blue_count = 0;
        self.generation = 0;
        self.bomb_radii.clear();
        self.last_explosions.clear();
        self.last_hv_destroyed.clear();
        assert(self.cells == done);
        assert(self.grid() == grid_view(done));
    }

    /// What resizing to `new_width` by `new_height` did, from `old` to `new`: cells inside
    /// both the old and the new bounds are kept, the rest of the new board is dead, the
    /// counters agree with it, the generation is zero and nothing else changes.
    pub open spec fn resized(old: GameState, new: GameState, new_width: usize, new_height: usize) -> bool {
        &&& new.width == new_width
        &&& new.height == new_height
        &&& new.wf()
        &&& forall|y: int, x: int|
            0 <= y < new_height && 0 <= x < new_width ==> #[trigger] new.grid()[y][x] == if y
                < old.height && x < old.width {
                old.grid()[y][x]
            } else {
                0u8
            }
        &&& new.counts_match()
        &&& new.generation == 0
        &&& new.bomb_radii@ == old.bomb_radii@
        &&& new.last_explosions@ == old.last_explosions@
        &&& new.last_hv_destroyed@ == old.last_hv_destroyed@
        &&& new.has_border_walls == old.has_border_walls
    }

    /// Resizes the grid: cells inside both the old and the new bounds are kept, the rest of
    /// the new board is dead; counters are recomputed and the generation goes back to zero.
    pub fn resize(&mut self, new_width: usize, new_height: usize)
        requires
            old(self).grid().len() >= min(old(self).height as int, new_height as int),
            forall|y: int|
                0 <= y < min(old(self).height as int, new_height as int) ==> #[trigger] old(
                    self,
                ).grid()[y].len() >= min(old(self).width as int, new_width as int),
            new_width * new_height <= usize::MAX,
        ensures
            Self::resized(*old(self), *final(self), new_width, new_height),
    {
        let ghost g0 = self.grid();
        let mut new_cells = zero_grid(new_width, new_height);
        let mut population: usize = 0;
        let mut red_count: usize = 0;
        let mut blue_count: usize = 0;
        let ymax = if self.height < new_height {
            self.height
        } else {
            new_height
        };
        let xmax = if self.width < new_width {
            self.width
        } else {
            new_width
        };
        proof {
            lemma_grid_count_zeros(grid_view(new_cells), 1);
            lemma_grid_count_zeros(grid_view(new_cells), 2);
            lemma_total_cells_of_shape(grid_view(new_cells), new_width as int, new_height as int);
        }
        let mut y: usize = 0;
        while y < ymax
            invariant
                g0 == self.grid(),
                ymax <= new_height,
                ymax <= self.height,
                ymax <= g0.len(),
                xmax <= new_width,
                xmax <= self.width,
                forall|j: int| 0 <= j < ymax ==> #[trigger] g0[j].len() >= xmax,
                y <= ymax,
                has_shape(grid_view(new_cells), new_width as int, new_height as int),
                total_cells(grid_view(new_cells)) <= usize::MAX,
                forall|j: int, i: int|
                    0 <= j < new_height && 0 <= i < new_width ==> #[trigger] grid_view(
                        new_cells,
                    )[j][i] == if j < y && i < xmax {
                        g0[j][i]
                    } else {
                        0u8
                    },
                red_count == grid_count(grid_view(new_cells), 1),
                blue_count == grid_count(grid_view(new_cells), 2),
                population == red_count + blue_count,
            decreases ymax - y,
        {
            let mut x: usize = 0;
            while x < xmax
                invariant
                    g0 == self.grid(),
                    ymax <= new_height,
                    ymax <= g0.len(),
                    xmax <= new_width,
                    forall|j: int| 0 <= j < ymax ==> #[trigger] g0[j].len() >= xmax,
                    y < ymax,
                    x <= xmax,
                    has_shape(grid_view(new_cells), new_width as int, new_height as int),
                    total_cells(grid_view(new_cells)) <= usize::MAX,
                    forall|j: int, i: int|
                        0 <= j < new_height && 0 <= i < new_width ==> #[trigger] grid_view(
                            new_cells,
                        )[j][i] == if j < y && i < xmax {
                            g0[j][i]
                        } else if j == y && i < x {
                            g0[j][i]
                        } else {
                            0u8
                        },
                    red_count == grid_count(grid_view(new_cells), 1),
                    blue_count == grid_count(grid_view(new_cells), 2),
                    population == red_count + blue_count,
                decreases xmax - x,
            {
                assert(g0[y as int].len() >= xmax);
                let cell = self.cells[y][x];
                let ghost before = grid_view(new_cells);
                assert(before[y as int].len() == new_width);
                assert(before[y as int][x as int] == 0);
                new_cells[y][x] = cell;
                proof {
                    let after = before.update(y as int, before[y as int].update(x as int, cell));
                    assert(grid_view(new_cells) =~= after);
                    lemma_count_after_write(before, x as int, y as int, cell, 1);
                    lemma_count_after_write(before, x as int, y as int, cell, 2);
                    lemma_total_cells_update(before, y as int, before[y as int].update(x as int, cell));
                    lemma_population_bounded(after);
                    assert(has_shape(after, new_width as int, new_height as int));
                }
                if cell == 1 {
                    population += 1;
                    red_count += 1;
                } else if cell == 2 {
                    population += 1;
                    blue_count += 1;
                }
                x += 1;
            }
            y += 1;
        }
        self.width = new_width;
        self.height = new_height;
        self.cells = new_cells;
        self.population = population;
        self.red_count = red_count;
        self.blue_count = blue_count;
        self.generation = 0;
    }

    /// Fills the board from drawn outcomes: walls, bombs and high-value units stay, every
    /// other cell takes its draw (1 red, 2 blue, anything else dead). The counters are
    /// recomputed and the generation goes back to zero.
    pub fn apply_draws(&mut self, draws: &Vec<Vec<u8>>)
        requires
            same_shape(draws@, old(self).grid()),
            total_cells(old(self).grid()) <= usize::MAX,
        ensures
            final(self).grid().len() == old(self).grid().len(),
            forall|y: int|
                0 <= y < old(self).grid().len() ==> #[trigger] final(self).grid()[y].len()
                    == old(self).grid()[y].len(),
            forall|y: int, x: int|
                0 <= y < old(self).grid().len() && 0 <= x < old(self).grid()[y].len()
                    ==> #[trigger] final(self).grid()[y][x] == if is_fixture(
                    old(self).grid()[y][x],
                ) {
                    old(self).grid()[y][x]
                } else if draws@[y]@[x] == 1 || draws@[y]@[x] == 2 {
                    draws@[y]@[x]
                } else {
                    0u8
                },
            final(self).counts_match(),
            final(self).generation == 0,
            final(self).width == old(self).width,
            final(self).height == old(self).height,
            final(self).bomb_radii@ == old(self).bomb_radii@,
            final(self).last_explosions@ == old(self).last_explosions@,
            final(self).last_hv_destroyed@ == old(self).last_hv_destroyed@,
            final(self).has_border_walls == old(self).has_border_walls,
            old(self).wf() ==> final(self).wf(),
    {
        let ghost g0 = self.grid();
        let n = self.cells.len();
        let mut y: usize = 0;
        while y < n
            invariant
                n == self.cells@.len(),
                n == g0.len(),
                y <= n,
                same_shape(draws@, g0),
                forall|j: int| 0 <= j < n ==> #[trigger] self.grid()[j].len() == g0[j].len(),
                forall|j: int, i: int|
                    0 <= j < n && 0 <= i < g0[j].len() ==> #[trigger] self.grid()[j][i] == if j
                        < y {
                        if is_fixture(g0[j][i]) {
                            g0[j][i]
                        } else if draws@[j]@[i] == 1 || draws@[j]@[i] == 2 {
                            draws@[j]@[i]
                        } else {
                            0u8
                        }
                    } else {
                        g0[j][i]
                    },
                self.width == old(self).width,
                self.height == old(self).height,
                self.has_border_walls == old(self).has_border_walls,
                self.bomb_radii == old(self).bomb_radii,
                self.last_explosions == old(self).last_explosions,
                self.last_hv_destroyed == old(self).last_hv_destroyed,
                self.generation == old(self).generation,
            decreases n - y,
        {
            assert(self.grid()[y as int].len() == g0[y as int].len());
            assert(draws@[y as int]@.len() == g0[y as int].len());
            let len = self.cells[y].len();
            let mut x: usize = 0;
            while x < len
                invariant
                    n == self.cells@.len(),
                    n == g0.len(),
                    y < n,
                    len == g0[y as int].len(),
                    x <= len,
                    same_shape(draws@, g0),
                    forall|j: int| 0 <= j < n ==> #[trigger] self.grid()[j].len() == g0[j].len(),
                    forall|j: int, i: int|
                        0 <= j < n && 0 <= i < g0[j].len() ==> #[trigger] self.grid()[j][i] == if j
                            < y || (j == y && i < x) {
                            if is_fixture(g0[j][i]) {
                                g0[j][i]
                            } else if draws@[j]@[i] == 1 || draws@[j]@[i] == 2 {
                                draws@[j]@[i]
                            } else {
                                0u8
                            }
                        } else {
                            g0[j][i]
                        },
                    self.width == old(self).width,
                    self.height == old(self).height,
                    self.has_border_walls == old(self).has_border_walls,
                    self.bomb_radii == old(self).bomb_radii,
                    self.last_explosions == old(self).last_explosions,
                    self.last_hv_destroyed == old(self).last_hv_destroyed,
                    self.generation == old(self).generation,
                decreases len - x,
            {
                assert(self.grid()[y as int].len() == g0[y as int].len());
                assert(draws@[y as int]@.len() == g0[y as int].len());
                let ghost before = self.grid();
                let cell = self.cells[y][x];
                if !(cell == 3 || cell == 4 || cell == 5) {
                    let d = draws[y][x];
                    let v: u8 = if d == 1 || d == 2 {
                        d
                    } else {
                        0
                    };
                    self.cells[y][x] = v;
                    assert(self.grid() =~= before.update(
                        y as int,
                        before[y as int].update(x as int, v),
                    ));
                }
                x += 1;
            }
            y += 1;
        }
        let ghost done = self.cells;
        assert(grid_view(done).len() == g0.len());
        assert forall|j: int| 0 <= j < g0.len() implies #[trigger] grid_view(done)[j].len()
            == g0[j].len() by {
            assert(self.grid()[j].len() == g0[j].len());
        }
        assert forall|j: int, i: int| 0 <= j < g0.len() && 0 <= i < g0[j].len() implies #[trigger] grid_view(
            done,
        )[j][i] == if is_fixture(g0[j][i]) {
            g0[j][i]
        } else if draws@[j]@[i] == 1 || draws@[j]@[i] == 2 {
            draws@[j]@[i]
        } else {
            0u8
        } by {
            assert(self.grid()[j][i] == if is_fixture(g0[j][i]) {
                g0[j][i]
            } else if draws@[j]@[i] == 1 || draws@[j]@[i] == 2 {
                draws@[j]@[i]
            } else {
                0u8
            });
        }
        proof {
            lemma_total_cells_same_shape(grid_view(done), g0);
        }
        let (population, red_count, blue_count) = Self::count_population(&self.cells);
        self.population = population;
        self.red_count = red_count;
        self.blue_count = blue_count;
        self.generation = 0;
        assert(self.cells == done);
    }

    /// Randomizes the board from per-cell draws of whether a cell is alive: walls, bombs and
    /// high-value units stay, every other cell is dead unless drawn alive, in which case a
    /// fair coin makes it red or blue. Counters are recomputed, the generation goes back
    /// to zero.
    pub fn randomize(&mut self, alive: &Vec<Vec<bool>>)
        requires
            same_shape(alive@, old(self).grid()),
            total_cells(old(self).grid()) <= usize::MAX,
        ensures
            final(self).grid().len() == old(self).grid().len(),
            forall|y: int|
                0 <= y < old(self).grid().len() ==> #[trigger] final(self).grid()[y].len()
                    == old(self).grid()[y].len(),
            forall|y: int, x: int|
                0 <= y < old(self).grid().len() && 0 <= x < old(self).grid()[y].len() ==> {
                    let b = old(self).grid()[y][x];
                    let c = #[trigger] final(self).grid()[y][x];
                    &&& is_fixture(b) ==> c == b
                    &&& !is_fixture(b) && !alive@[y]@[x] ==> c == 0
                    &&& !is_fixture(b) && alive@[y]@[x] ==> c == 1 || c == 2
                },
            final(self).counts_match(),
            final(self).generation == 0,
            final(self).width == old(self).width,
            final(self).height == old(self).height,
            final(self).bomb_radii@ == old(self).bomb_radii@,
            final(self).last_explosions@ == old(self).last_explosions@,
            final(self).last_hv_destroyed@ == old(self).last_hv_destroyed@,
            final(self).has_border_walls == old(self).has_border_walls,
            old(self).wf() ==> final(self).wf(),
    {
        let mut draws: Vec<Vec<u8>> = Vec::new();
        let mut y: usize = 0;
        while y < alive.len()
            invariant
                y <= alive@.len(),
                draws@.len() == y,
                forall|j: int| 0 <= j < y ==> #[trigger] draws@[j]@.len() == alive@[j]@.len(),
                forall|j: int, i: int|
                    0 <= j < y && 0 <= i < alive@[j]@.len() ==> {
                        let d = #[trigger] draws@[j]@[i];
                        &&& !alive@[j]@[i] ==> d == 0
                        &&& alive@[j]@[i] ==> d == 1 || d == 2
                    },
            decreases alive@.len() - y,
        {
            let row = &alive[y];
            let mut drawn: Vec<u8> = Vec::new();
            let mut x: usize = 0;
            while x < row.len()
                invariant
                    x <= row@.len(),
                    drawn@.len() == x,
                    forall|i: int|
                        0 <= i < x ==> {
                            let d = #[trigger] drawn@[i];
                            &&& !row@[i] ==> d == 0
                            &&& row@[i] ==> d == 1 || d == 2
                        },
                decreases row@.len() - x,
            {
                let d: u8 = if row[x] {
                    if coin_flip() {
                        1
                    } else {
                        2
                    }
                } else {
                    0
                };
                drawn.push(d);
                x += 1;
            }
            draws.push(drawn);
            y += 1;
        }
        self.apply_draws(&draws);
    }

    /// Creates a new game with random initial cells: each cell drawn alive becomes red or
    /// blue by a fair coin, every other cell is dead.
    pub fn with_random(width: usize, height: usize, alive: &Vec<Vec<bool>>) -> (s: Self)
        requires
            alive@.len() == height,
            forall|y: int| 0 <= y < height ==> #[trigger] alive@[y]@.len() == width,
            width * height <= usize::MAX,
        ensures
            s.width == width,
            s.height == height,
            s.wf(),
            forall|y: int, x: int|
                0 <= y < height && 0 <= x < width ==> {
                    let c = #[trigger] s.grid()[y][x];
                    &&& !alive@[y]@[x] ==> c == 0
                    &&& alive@[y]@[x] ==> c == 1 || c == 2
                },
            s.counts_match(),
            s.generation == 0,
            s.bomb_radii@ == Map::<u128, usize>::empty(),
            s.last_explosions@.len() == 0,
            s.last_hv_destroyed@.len() == 0,
            s.has_border_walls,
    {
        let mut s = GameState::new(width, height);
        proof {
            lemma_total_cells_of_shape(s.grid(), width as int, height as int);
        }
        s.randomize(alive);
        s
    }

    /// Counts the living cells of a board: (population, red, blue).
    pub fn count_population(cells: &Vec<Vec<u8>>) -> (r: (usize, usize, usize))
        requires
            total_cells(grid_view(*cells)) <= usize::MAX,
        ensures
            r.0 == population_of(grid_view(*cells)),
            r.1 == grid_count(grid_view(*cells), 1),
            r.2 == grid_count(grid_view(*cells), 2),
    {
        let ghost g = grid_view(*cells);
        let mut population: usize = 0;
        let mut red_count: usize = 0;
        let mut blue_count: usize = 0;
        let mut y: usize = 0;
        while y < cells.len()
            invariant
                g == grid_view(*cells),
                total_cells(g) <= usize::MAX,
                y <= g.len(),
                red_count == grid_count(g.take(y as int), 1),
                blue_count == grid_count(g.take(y as int), 2),
                population == red_count + blue_count,
            decreases g.len() - y,
        {
            let row = &cells[y];
            let ghost r = g[y as int];
            proof {
                assert(g.take(y as int + 1).drop_last() =~= g.take(y as int));
                lemma_population_bounded(g.take(y as int + 1));
                lemma_total_cells_prefix(g, y as int + 1);
            }
            let mut x: usize = 0;
            while x < row.len()
                invariant
                    r == row@,
                    x <= r.len(),
                    red_count == grid_count(g.take(y as int), 1) + row_count(r.take(x as int), 1),
                    blue_count == grid_count(g.take(y as int), 2) + row_count(r.take(x as int), 2),
                    population == red_count + blue_count,
                    population_of(g.take(y as int)) + row_count(r, 1) + row_count(r, 2)
                        <= usize::MAX,
                decreases r.len() - x,
            {
                proof {
                    assert(r.take(x as int + 1).drop_last() =~= r.take(x as int));
                    lemma_row_counts_bounded(r.take(x as int + 1));
                    lemma_row_count_prefix(r, x as int + 1, 1);
                    lemma_row_count_prefix(r, x as int + 1, 2);
                }
                let cell = row[x];
                if cell == 1 {
                    population += 1;
                    red_count += 1;
                } else if cell == 2 {
                    population += 1;
                    blue_count += 1;
                }
                x += 1;
            }
            proof {
                assert(r.take(r.len() as int) =~= r);
            }
            y += 1;
        }
        proof {
            assert(g.take(g.len() as int) =~= g);
        }
        (population, red_count, blue_count)
    }
}

/// Counting after one cell of the board changes.
pub proof fn lemma_count_after_write(g: Seq<Seq<u8>>, x: int, y: int, v: u8, c: u8)
    requires
        0 <= y < g.len(),
        0 <= x < g[y].len(),
    ensures
        grid_count(g.update(y, g[y].update(x, v)), c) == grid_count(g, c) - ind(g[y][x] == c) + ind(
            v == c,
        ),
{
    lemma_row_count_update(g[y], x, v, c);
    lemma_grid_count_update(g, y, g[y].update(x, v), c);
}

} // verus!
