use vstd::prelude::*;

verus! {

/// The player-visible state of one cell. Only the state changes after
/// generation; the underlying value never does.
#[derive(Clone, Copy, PartialEq, Eq, Structural, Debug)]
pub enum CellState {
    Hidden,
    Flagged,
    Shown,
}

/// What a cell holds underneath: a mine, or the count of mines among its
/// in-bounds 8-neighbors (always in 0 ..= 8).
#[derive(Clone, Copy, PartialEq, Eq, Structural, Debug)]
pub enum CellValue {
    Mine,
    Adjacent(u8),
}

/// One grid cell.
#[derive(Clone, Copy, PartialEq, Eq, Structural, Debug)]
pub struct Cell {
    pub state: CellState,
    pub value: CellValue,
}

/// Display code for a cell as the player currently sees it: flagged cells
/// show 9, hidden cells 10, shown safe cells their adjacency count, and a
/// shown mine 11 (defensive: a losing dig leaves the mine hidden, so this
/// code should never arise from the actions of this library).
pub open spec fn show_code_of(c: Cell) -> int {
    match c.state {
        CellState::Flagged => 9,
        CellState::Hidden => 10,
        CellState::Shown => match c.value {
            CellValue::Adjacent(k) => k as int,
            CellValue::Mine => 11,
        },
    }
}

/// Display code for a cell's underlying value, regardless of its state:
/// a mine shows 11, a safe cell its adjacency count. Used for the
/// end-of-game full reveal.
pub open spec fn final_code_of(c: Cell) -> int {
    match c.value {
        CellValue::Mine => 11,
        CellValue::Adjacent(k) => k as int,
    }
}

} // verus!
