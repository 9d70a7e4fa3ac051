//! The values that travel between the game and its users: requests, saved games and the
//! state a user sees.
use std::collections::HashMap;
use vstd::prelude::*;

use crate::board::{grid_view, total_cells};
use crate::game::GameState;

verus! {

/// The default of the border-walls setting in saved games: on.
pub fn default_true() -> (b: bool)
    ensures
        b,
{
    true
}

/// Request body for initialization.
pub struct InitRequest {
    pub width: usize,
    pub height: usize,
}

/// A saved game.
pub struct SaveData {
    pub width: usize,
    pub height: usize,
    pub cells: Vec<Vec<u8>>,
    /// Bomb radii, keyed by position (see `bomb_key`).
    pub bomb_radii: HashMap<u128, usize>,
    pub has_border_walls: bool,
    pub generation: u64,
}

/// The state of a game as a user sees it.
pub struct GameStateResponse {
    pub width: usize,
    pub height: usize,
    pub cells: Vec<Vec<u8>>,
    pub generation: u64,
    pub population: usize,
    pub red_count: usize,
    pub blue_count: usize,
    pub last_explosions: Vec<(usize, usize, usize)>,
    pub last_hv_destroyed: Vec<(usize, usize)>,
    pub has_border_walls: bool,
}

/// A copy of a sequence of plain values.
fn copy_vec<T: Copy>(v: &Vec<T>) -> (r: Vec<T>)
    ensures
        r@ == v@,
{
    let mut r: Vec<T> = Vec::new();
    let mut i: usize = 0;
    while i < v.len()
        invariant
            i <= v@.len(),
            r@ == v@.take(i as int),
        decreases v@.len() - i,
    {
        r.push(v[i]);
        i += 1;
        assert(r@ =~= v@.take(i as int));
    }
    assert(v@.take(v@.len() as int) =~= v@);
    r
}

/// A copy of a board.
fn copy_cells(cells: &Vec<Vec<u8>>) -> (r: Vec<Vec<u8>>)
    ensures
        grid_view(r) == grid_view(*cells),
{
    let mut r: Vec<Vec<u8>> = Vec::new();
    let mut i: usize = 0;
    while i < cells.len()
        invariant
            i <= cells@.len(),
            r@.len() == i,
            forall|j: int| 0 <= j < i ==> #[trigger] r@[j]@ == cells@[j]@,
        decreases cells@.len() - i,
    {
        r.push(copy_vec(&cells[i]));
        i += 1;
    }
    assert(grid_view(r) =~= grid_view(*cells));
    r
}

impl GameStateResponse {
    /// What a user sees of a game: a copy of its fields.
    pub fn from(state: &GameState) -> (r: GameStateResponse)
        ensures
            r.width == state.width,
            r.height == state.height,
            grid_view(r.cells) == state.grid(),
            r.generation == state.generation,
            r.population == state.population,
            r.red_count == state.red_count,
            r.blue_count == state.blue_count,
            r.last_explosions@ == state.last_explosions@,
            r.last_hv_destroyed@ == state.last_hv_destroyed@,
            r.has_border_walls == state.has_border_walls,
    {
        GameStateResponse {
            width: state.width,
            height: state.height,
            cells: copy_cells(&state.cells),
            generation: state.generation,
            population: state.population,
            red_count: state.red_count,
            blue_count: state.blue_count,
            last_explosions: copy_vec(&state.last_explosions),
            last_hv_destroyed: copy_vec(&state.last_hv_destroyed),
            has_border_walls: state.has_border_walls,
        }
    }
}

impl GameState {
    /// `d` holds what saving `s` keeps: dimensions, cells, bomb radii, border setting and
    /// generation.
    pub open spec fn saved_as(s: GameState, d: SaveData) -> bool {
        &&& d.width == s.width
        &&& d.height == s.height
        &&& grid_view(d.cells) == s.grid()
        &&& d.bomb_radii@ == s.bomb_radii@
        &&& d.has_border_walls == s.has_border_walls
        &&& d.generation == s.generation
    }

    /// `t` is the game that loading `d` gives: everything `d` holds, taken as it is, no
    /// records of a last step, and counters computed from the cells.
    pub open spec fn loaded_from(d: SaveData, t: GameState) -> bool {
        &&& t.width == d.width
        &&& t.height == d.height
        &&& t.grid() == grid_view(d.cells)
        &&& t.bomb_radii@ == d.bomb_radii@
        &&& t.has_border_walls == d.has_border_walls
        &&& t.generation == d.generation
        &&& t.last_explosions@.len() == 0
        &&& t.last_hv_destroyed@.len() == 0
        &&& t.counts_match()
    }

    /// Exports the current game as save data.
    pub fn save_state(&self) -> (d: SaveData)
        ensures
            Self::saved_as(*self, d),
    {
        SaveData {
            width: self.width,
            height: self.height,
            cells: copy_cells(&self.cells),
            bomb_radii: self.bomb_radii.clone(),
            has_border_walls: self.has_border_walls,
            generation: self.generation,
        }
    }

    /// Imports a saved game: its dimensions, cells, bomb radii, border setting and
    /// generation are taken as they are, the records of the last step are dropped and the
    /// counters are recomputed from the cells.
    pub fn load_state(&mut self, data: SaveData)
        requires
            total_cells(grid_view(data.cells)) <= usize::MAX,
        ensures
            Self::loaded_from(data, *final(self)),
    {
        self.width = data.width;
        self.height = data.height;
        self.cells = data.cells;
        self.bomb_radii = data.bomb_radii;
        self.has_border_walls = data.has_border_walls;
        self.generation = data.generation;
        self.last_explosions.clear();
        self.last_hv_destroyed.clear();
        let (population, red_count, blue_count) = GameState::count_population(&self.cells);
        self.population = population;
        self.red_count = red_count;
        self.blue_count = blue_count;
    }
}

/// Loading what was saved gives back the game: the same board, dimensions, bomb radii,
/// border setting and generation; and the same counters when they agreed with the board.
pub proof fn lemma_save_load_round_trip(s: GameState, d: SaveData, t: GameState)
    requires
        GameState::saved_as(s, d),
        GameState::loaded_from(d, t),
    ensures
        t.grid() == s.grid(),
        t.width == s.width,
        t.height == s.height,
        t.bomb_radii@ == s.bomb_radii@,
        t.has_border_walls == s.has_border_walls,
        t.generation == s.generation,
        s.counts_match() ==> t.population == s.population && t.red_count == s.red_count
            && t.blue_count == s.blue_count,
{
}

} // verus!
