//! The board as a grid of cell values, and the rules of the puzzle on it.

use crate::sudoku::{Action, Cell, CellValue};
use vstd::prelude::*;

verus! {

/// The board as rows of cell values: `grid[x][y]` is the cell in row `x` and
/// column `y`.
pub type Grid = Seq<Seq<CellValue>>;

/// A cell value is `NotSet` or a digit from 1 to 9.
pub open spec fn value_valid(value: CellValue) -> bool {
    value matches CellValue::Digit(d) ==> 1 <= d <= 9
}

/// Nine rows of nine valid cell values.
pub open spec fn grid_valid(grid: Grid) -> bool {
    &&& grid.len() == 9
    &&& forall|x: int| 0 <= x < 9 ==> (#[trigger] grid[x]).len() == 9
    &&& forall|x: int, y: int| 0 <= x < 9 && 0 <= y < 9 ==> value_valid(#[trigger] grid[x][y])
}

/// The grid with no cell set.
pub open spec fn empty_grid() -> Grid {
    Seq::new(9, |x: int| Seq::new(9, |y: int| CellValue::NotSet))
}

/// The grid with one cell overwritten.
pub open spec fn with_cell(grid: Grid, x: int, y: int, value: CellValue) -> Grid {
    grid.update(x, grid[x].update(y, value))
}

/// `(x, y)` is a cell of the board and holds no digit.
pub open spec fn is_unset(grid: Grid, x: int, y: int) -> bool {
    0 <= x < 9 && 0 <= y < 9 && grid[x][y] == CellValue::NotSet
}

/// Every cell holds a digit.
pub open spec fn is_full(grid: Grid) -> bool {
    forall|x: int, y: int| 0 <= x < 9 && 0 <= y < 9 ==> #[trigger] grid[x][y] != CellValue::NotSet
}

/// The place of a cell in the row-major scan of the board.
pub open spec fn scan_index(x: int, y: int) -> int {
    9 * x + y
}

/// The unset cells, each by its place in the row-major scan.
pub open spec fn unset_places(grid: Grid) -> Set<int> {
    Set::new(|k: int| 0 <= k < 81 && is_unset(grid, k / 9, k % 9))
}

/// The number of cells that hold no digit.
pub open spec fn unset_count(grid: Grid) -> nat {
    unset_places(grid).len()
}

/// Row `x` holds the digit.
pub open spec fn row_has(grid: Grid, x: int, digit: usize) -> bool {
    exists|j: int| 0 <= j < 9 && #[trigger] grid[x][j] == CellValue::Digit(digit)
}

/// Column `y` holds the digit.
pub open spec fn column_has(grid: Grid, y: int, digit: usize) -> bool {
    exists|i: int| 0 <= i < 9 && #[trigger] grid[i][y] == CellValue::Digit(digit)
}

/// `(i, j)` is a cell of the three-by-three block that holds `(x, y)`.
pub open spec fn in_block_of(x: int, y: int, i: int, j: int) -> bool {
    &&& 3 * (x / 3) <= i < 3 * (x / 3) + 3
    &&& 3 * (y / 3) <= j < 3 * (y / 3) + 3
}

/// The block of `(x, y)` holds the digit.
pub open spec fn block_has(grid: Grid, x: int, y: int, digit: usize) -> bool {
    exists|i: int, j: int|
        in_block_of(x, y, i, j) && #[trigger] grid[i][j] == CellValue::Digit(digit)
}

/// The digit is absent from the row, the column and the block of `(x, y)`.
pub open spec fn fits(grid: Grid, x: int, y: int, digit: usize) -> bool {
    &&& !row_has(grid, x, digit)
    &&& !column_has(grid, y, digit)
    &&& !block_has(grid, x, y, digit)
}

/// The digits from 1 to `count`, increasing.
pub open spec fn digits_up_to(count: nat) -> Seq<usize> {
    Seq::new(count, |i: int| (i + 1) as usize)
}

/// The test that `cell_digits` keeps a digit by.
pub open spec fn fits_at(grid: Grid, x: int, y: int) -> spec_fn(usize) -> bool {
    |digit: usize| fits(grid, x, y, digit)
}

/// The digits that may be placed at `(x, y)`: those from 1 to 9 that fit
/// there, increasing.
pub open spec fn cell_digits(grid: Grid, x: int, y: int) -> Seq<usize> {
    digits_up_to(9).filter(fits_at(grid, x, y))
}

/// The candidate actions of one cell: one for each of its digits, in their
/// order.
pub open spec fn cell_actions(grid: Grid, x: int, y: int) -> Seq<Action> {
    Seq::new(
        cell_digits(grid, x, y).len(),
        |k: int|
            Action {
                cell: Cell { x: x as usize, y: y as usize },
                value: CellValue::Digit(cell_digits(grid, x, y)[k]),
            },
    )
}

/// Some unset cell has no digit left.
pub open spec fn is_dead_end(grid: Grid) -> bool {
    exists|x: int, y: int| #[trigger] is_unset(grid, x, y) && cell_digits(grid, x, y).len() == 0
}

/// `(x, y)` is the unset cell to branch on: none has fewer digits left, and
/// of those with as few none comes earlier in the row-major scan.
pub open spec fn is_selected(grid: Grid, x: int, y: int) -> bool {
    &&& is_unset(grid, x, y)
    &&& forall|i: int, j: int| #[trigger]
        is_unset(grid, i, j) ==> {
            ||| cell_digits(grid, x, y).len() < cell_digits(grid, i, j).len()
            ||| cell_digits(grid, x, y).len() == cell_digits(grid, i, j).len() && scan_index(x, y)
                <= scan_index(i, j)
        }
}

/// The cell to branch on, where there is one.
pub open spec fn selected_cell(grid: Grid) -> (int, int) {
    choose|x: int, y: int| is_selected(grid, x, y)
}

/// The candidate actions of the grid: none where it is full or at a dead
/// end, else those of the selected cell.
pub open spec fn enumerate_actions(grid: Grid) -> Seq<Action> {
    if is_full(grid) || is_dead_end(grid) {
        Seq::empty()
    } else {
        cell_actions(grid, selected_cell(grid).0, selected_cell(grid).1)
    }
}

/// `(x1, y1)` and `(x2, y2)` are two cells of the board that share a row, a
/// column or a block.
pub open spec fn are_peers(x1: int, y1: int, x2: int, y2: int) -> bool {
    &&& 0 <= x1 < 9 && 0 <= y1 < 9 && 0 <= x2 < 9 && 0 <= y2 < 9
    &&& x1 != x2 || y1 != y2
    &&& x1 == x2 || y1 == y2 || in_block_of(x1, y1, x2, y2)
}

/// No digit stands twice in a row, a column or a block.
pub open spec fn is_consistent(grid: Grid) -> bool {
    forall|x1: int, y1: int, x2: int, y2: int| #[trigger]
        are_peers(x1, y1, x2, y2) && grid[x1][y1] != CellValue::NotSet ==> grid[x1][y1]
            != grid[x2][y2]
}

/// The action places a digit from 1 to 9 at a cell of the board.
pub open spec fn action_valid(action: Action) -> bool {
    &&& action.cell.x < 9
    &&& action.cell.y < 9
    &&& action.value matches CellValue::Digit(d) && 1 <= d <= 9
}

/// The action fills an unset cell with a digit that fits there.
pub open spec fn is_legal(grid: Grid, action: Action) -> bool {
    &&& is_unset(grid, action.cell.x as int, action.cell.y as int)
    &&& action.value matches CellValue::Digit(d) && 1 <= d <= 9 && fits(
        grid,
        action.cell.x as int,
        action.cell.y as int,
        d,
    )
}

/// The grid after the action: its digit stands at its cell.
pub open spec fn after_apply(grid: Grid, action: Action) -> Grid {
    with_cell(grid, action.cell.x as int, action.cell.y as int, action.value)
}

/// The grid after the action is taken back: its cell is unset.
pub open spec fn after_revert(grid: Grid, action: Action) -> Grid {
    with_cell(grid, action.cell.x as int, action.cell.y as int, CellValue::NotSet)
}

} // verus!
