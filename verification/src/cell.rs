use vstd::prelude::*;

verus! {

/// The kinds of cell on the board. As a byte: 0 dead, 1 red (team 1), 2 blue (team 2),
/// 3 wall, 4 bomb, 5 high-value unit.
#[derive(Debug, Clone, Copy, PartialEq, Eq, Structural)]
pub enum Cell {
    Dead,
    Red,
    Blue,
    Wall,
    Bomb,
    HighValue,
}

/// The byte that stands for a cell kind.
pub open spec fn cell_code(c: Cell) -> u8 {
    match c {
        Cell::Dead => 0,
        Cell::Red => 1,
        Cell::Blue => 2,
        Cell::Wall => 3,
        Cell::Bomb => 4,
        Cell::HighValue => 5,
    }
}

/// The kind that a byte stands for; a byte outside 1..=5 stands for `Dead`.
pub open spec fn cell_of(b: u8) -> Cell {
    if b == 1 {
        Cell::Red
    } else if b == 2 {
        Cell::Blue
    } else if b == 3 {
        Cell::Wall
    } else if b == 4 {
        Cell::Bomb
    } else if b == 5 {
        Cell::HighValue
    } else {
        Cell::Dead
    }
}

impl Cell {
    /// Reads a byte as a cell kind; every byte outside 1..=5 reads as `Dead`.
    pub fn from_u8(val: u8) -> (c: Cell)
        ensures
            c == cell_of(val),
    {
        match val {
            1 => Cell::Red,
            2 => Cell::Blue,
            3 => Cell::Wall,
            4 => Cell::Bomb,
            5 => Cell::HighValue,
            _ => Cell::Dead,
        }
    }

    /// The byte that stands for this cell kind.
    pub fn to_u8(&self) -> (b: u8)
        ensures
            b == cell_code(*self),
    {
        match self {
            Cell::Dead => 0,
            Cell::Red => 1,
            Cell::Blue => 2,
            Cell::Wall => 3,
            Cell::Bomb => 4,
            Cell::HighValue => 5,
        }
    }

    /// Every kind but `Dead` counts as alive here (walls, bombs and high-value units too).
    pub fn is_alive(&self) -> (b: bool)
        ensures
            b == (*self != Cell::Dead),
    {
        match self {
            Cell::Dead => false,
            _ => true,
        }
    }
}

/// Reading the byte of a kind gives the kind back, and a byte up to 5 read as a kind
/// gives the byte back.
pub proof fn lemma_code_round_trip(c: Cell, b: u8)
    ensures
        cell_of(cell_code(c)) == c,
        b <= 5 ==> cell_code(cell_of(b)) == b,
{
}

} // verus!
