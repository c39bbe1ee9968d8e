//! What holds of the rules of the puzzle, proved from their definitions.

use crate::solver::{descend, lemma_search_ends_in_a_win, search, GameState};
use crate::sudoku::rules::{
    action_valid, after_apply, after_revert, are_peers, cell_actions, cell_digits, digits_up_to,
    enumerate_actions, fits, fits_at, grid_valid, in_block_of, is_consistent, is_dead_end,
    is_full, is_legal, is_selected, is_unset, scan_index, selected_cell, unset_count,
    unset_places, with_cell, Grid,
};
use crate::sudoku::{Action, Cell, CellValue, State};
use vstd::prelude::*;
use vstd::set_lib::{lemma_int_range, lemma_len_subset, set_int_range};

verus! {

/// At most one cell of a grid is the selected one.
pub proof fn lemma_selected_is_unique(grid: Grid, x1: int, y1: int, x2: int, y2: int)
    requires
        is_selected(grid, x1, y1),
        is_selected(grid, x2, y2),
    ensures
        x1 == x2,
        y1 == y2,
{
}

/// The digits among the first `count` that pass a test are listed in
/// increasing order, and none of them exceeds `count`.
proof fn lemma_kept_digits_increase(count: nat, keep: spec_fn(usize) -> bool)
    requires
        count <= 9,
    ensures
        forall|k: int|
            0 <= k < digits_up_to(count).filter(keep).len() ==> 1 <= #[trigger] digits_up_to(
                count,
            ).filter(keep)[k] <= count,
        forall|a: int, b: int|
            0 <= a < b < digits_up_to(count).filter(keep).len() ==> digits_up_to(count).filter(
                keep,
            )[a] < digits_up_to(count).filter(keep)[b],
    decreases count,
{
    reveal(Seq::filter);
    if count > 0 {
        let before = digits_up_to((count - 1) as nat);
        let kept = digits_up_to(count).filter(keep);
        lemma_kept_digits_increase((count - 1) as nat, keep);
        assert(digits_up_to(count).drop_last() =~= before);
        assert(digits_up_to(count).last() == count);
        if keep(count as usize) {
            assert(kept == before.filter(keep).push(count as usize));
            assert forall|k: int| 0 <= k < kept.len() implies 1 <= #[trigger] kept[k] <= count by {
                if k < kept.len() - 1 {
                    assert(kept[k] == before.filter(keep)[k]);
                }
            }
            assert forall|a: int, b: int| 0 <= a < b < kept.len() implies kept[a] < kept[b] by {
                assert(kept[a] == before.filter(keep)[a]);
                if b < kept.len() - 1 {
                    assert(kept[b] == before.filter(keep)[b]);
                }
            }
        } else {
            assert(kept == before.filter(keep));
        }
    } else {
        assert(digits_up_to(count).filter(keep).len() == 0);
    }
}

/// The digits of a cell are exactly the digits from 1 to 9 that fit there,
/// each listed once, in increasing order.
pub proof fn lemma_cell_digits(grid: Grid, x: int, y: int)
    ensures
        cell_digits(grid, x, y).len() <= 9,
        forall|k: int|
            0 <= k < cell_digits(grid, x, y).len() ==> 1 <= #[trigger] cell_digits(grid, x, y)[k]
                <= 9 && fits(grid, x, y, cell_digits(grid, x, y)[k]),
        forall|digit: usize|
            1 <= digit <= 9 && fits(grid, x, y, digit) ==> cell_digits(grid, x, y).contains(digit),
        forall|a: int, b: int|
            0 <= a < b < cell_digits(grid, x, y).len() ==> cell_digits(grid, x, y)[a]
                < cell_digits(grid, x, y)[b],
{
    let all = digits_up_to(9);
    let keep = fits_at(grid, x, y);
    all.lemma_filter_len(keep);
    lemma_kept_digits_increase(9, keep);
    assert forall|k: int| 0 <= k < all.filter(keep).len() implies fits(
        grid,
        x,
        y,
        #[trigger] all.filter(keep)[k],
    ) by {
        all.lemma_filter_pred(keep, k);
    }
    assert forall|digit: usize| 1 <= digit <= 9 && fits(grid, x, y, digit) implies all.filter(
        keep,
    ).contains(digit) by {
        assert(all[digit - 1] == digit);
        all.lemma_filter_contains(keep, digit - 1);
    }
}

/// `(x, y)` is the selected cell among the first `count` cells of the
/// row-major scan.
spec fn is_selected_among(grid: Grid, x: int, y: int, count: int) -> bool {
    &&& is_unset(grid, x, y)
    &&& scan_index(x, y) < count
    &&& forall|i: int, j: int| #[trigger]
        is_unset(grid, i, j) && scan_index(i, j) < count ==> {
            ||| cell_digits(grid, x, y).len() < cell_digits(grid, i, j).len()
            ||| cell_digits(grid, x, y).len() == cell_digits(grid, i, j).len() && scan_index(x, y)
                <= scan_index(i, j)
        }
}

/// One of the first `count` cells of the row-major scan is unset.
spec fn has_unset_among(grid: Grid, count: int) -> bool {
    exists|i: int, j: int| #[trigger] is_unset(grid, i, j) && scan_index(i, j) < count
}

/// Where one of the first `count` cells is unset, one of them is selected
/// among them.
proof fn lemma_selected_among(grid: Grid, count: int) -> (best: (int, int))
    requires
        0 <= count <= 81,
        has_unset_among(grid, count),
    ensures
        is_selected_among(grid, best.0, best.1, count),
    decreases count,
{
    let x = (count - 1) / 9;
    let y = (count - 1) % 9;
    if has_unset_among(grid, count - 1) {
        let earlier = lemma_selected_among(grid, count - 1);
        if is_unset(grid, x, y) && cell_digits(grid, x, y).len() < cell_digits(
            grid,
            earlier.0,
            earlier.1,
        ).len() {
            (x, y)
        } else {
            earlier
        }
    } else {
        let (i, j) = choose|i: int, j: int| #[trigger]
            is_unset(grid, i, j) && scan_index(i, j) < count;
        assert(!(is_unset(grid, i, j) && scan_index(i, j) < count - 1));
        assert(i == x && j == y);
        (x, y)
    }
}

/// A grid that is not full has a selected cell.
pub proof fn lemma_selected_exists(grid: Grid)
    requires
        !is_full(grid),
    ensures
        is_selected(grid, selected_cell(grid).0, selected_cell(grid).1),
{
    let (x, y) = choose|x: int, y: int|
        0 <= x < 9 && 0 <= y < 9 && #[trigger] grid[x][y] == CellValue::NotSet;
    assert(is_unset(grid, x, y) && scan_index(x, y) < 81);
    let best = lemma_selected_among(grid, 81);
    assert(is_selected(grid, best.0, best.1));
}

/// A grid has at most 81 unset cells.
pub proof fn lemma_unset_count_is_bounded(grid: Grid)
    ensures
        unset_count(grid) <= 81,
{
    lemma_int_range(0, 81);
    lemma_len_subset(unset_places(grid), set_int_range(0, 81));
}

/// A digit written to an unset cell leaves one unset cell fewer.
pub proof fn lemma_digit_lowers_unset_count(grid: Grid, x: int, y: int, value: CellValue)
    requires
        grid_valid(grid),
        is_unset(grid, x, y),
        value != CellValue::NotSet,
    ensures
        unset_count(with_cell(grid, x, y, value)) + 1 == unset_count(grid),
{
    let before = unset_places(grid);
    let after = unset_places(with_cell(grid, x, y, value));
    lemma_int_range(0, 81);
    lemma_len_subset(before, set_int_range(0, 81));
    assert(before.contains(9 * x + y));
    assert(after =~= before.remove(9 * x + y));
}

/// Every candidate action fills an unset cell with a digit from 1 to 9 that
/// its row, its column and its block do not hold yet.
pub proof fn lemma_candidates_are_legal(grid: Grid, index: int)
    requires
        0 <= index < enumerate_actions(grid).len(),
    ensures
        action_valid(enumerate_actions(grid)[index]),
        is_legal(grid, enumerate_actions(grid)[index]),
{
    lemma_selected_exists(grid);
    lemma_cell_digits(grid, selected_cell(grid).0, selected_cell(grid).1);
}

/// The candidate actions of a grid are those of its selected cell.
pub proof fn lemma_selected_cell_is_branched_on(grid: Grid, x: int, y: int)
    requires
        is_selected(grid, x, y),
    ensures
        enumerate_actions(grid) == cell_actions(grid, x, y),
{
    assert(grid[x][y] == CellValue::NotSet);
    assert(!is_full(grid));
    if is_dead_end(grid) {
        let (i, j) = choose|i: int, j: int| #[trigger]
            is_unset(grid, i, j) && cell_digits(grid, i, j).len() == 0;
        assert(cell_digits(grid, x, y).len() == 0);
        assert(enumerate_actions(grid) =~= cell_actions(grid, x, y));
    } else {
        lemma_selected_exists(grid);
        lemma_selected_is_unique(grid, x, y, selected_cell(grid).0, selected_cell(grid).1);
    }
}

/// Reversibility: an action that is legal in a grid, applied and then
/// reverted, gives the grid back, and with it the same candidate actions
/// and the same answer to whether the board is full.
pub proof fn lemma_apply_then_revert(grid: Grid, action: Action)
    requires
        grid_valid(grid),
        is_legal(grid, action),
    ensures
        after_revert(after_apply(grid, action), action) == grid,
        enumerate_actions(after_revert(after_apply(grid, action), action)) == enumerate_actions(
            grid,
        ),
        is_full(after_revert(after_apply(grid, action), action)) == is_full(grid),
{
    assert(after_revert(after_apply(grid, action), action) =~~= grid);
}

/// Completeness of candidates: a digit from 1 to 9 that is absent from the
/// row, the column and the block of the selected cell is offered for it.
pub proof fn lemma_candidates_are_complete(grid: Grid, x: int, y: int, digit: usize)
    requires
        is_selected(grid, x, y),
        1 <= digit <= 9,
        fits(grid, x, y, digit),
    ensures
        enumerate_actions(grid).contains(
            Action { cell: Cell { x: x as usize, y: y as usize }, value: CellValue::Digit(digit) },
        ),
{
    lemma_selected_cell_is_branched_on(grid, x, y);
    lemma_cell_digits(grid, x, y);
    let k = choose|k: int|
        0 <= k < cell_digits(grid, x, y).len() && cell_digits(grid, x, y)[k] == digit;
    assert(cell_actions(grid, x, y)[k] == Action {
        cell: Cell { x: x as usize, y: y as usize },
        value: CellValue::Digit(digit),
    });
}

/// Selection of the most constrained cell: where one unset cell has two
/// digits left and every other unset cell has three or more, the candidate
/// actions are the two of that cell.
pub proof fn lemma_two_digit_cell_is_branched_on(grid: Grid, x: int, y: int)
    requires
        is_unset(grid, x, y),
        cell_digits(grid, x, y).len() == 2,
        forall|i: int, j: int| #[trigger]
            is_unset(grid, i, j) && (i != x || j != y) ==> cell_digits(grid, i, j).len() >= 3,
    ensures
        enumerate_actions(grid) == cell_actions(grid, x, y),
        enumerate_actions(grid).len() == 2,
{
    assert(is_selected(grid, x, y));
    lemma_selected_cell_is_branched_on(grid, x, y);
}

/// Dead end: where the row, the column and the block of an unset cell hold
/// all nine digits between them, the grid has no candidate action.
pub proof fn lemma_dead_end_has_no_candidates(grid: Grid, x: int, y: int)
    requires
        is_unset(grid, x, y),
        forall|digit: usize| 1 <= digit <= 9 ==> !fits(grid, x, y, digit),
    ensures
        enumerate_actions(grid).len() == 0,
{
    lemma_cell_digits(grid, x, y);
    if cell_digits(grid, x, y).len() > 0 {
        assert(fits(grid, x, y, cell_digits(grid, x, y)[0]));
    }
    assert(is_dead_end(grid));
}

/// A legal action keeps a grid free of digits that stand twice in a row, a
/// column or a block.
pub proof fn lemma_legal_action_keeps_consistency(grid: Grid, action: Action)
    requires
        grid_valid(grid),
        is_consistent(grid),
        is_legal(grid, action),
    ensures
        is_consistent(after_apply(grid, action)),
{
    let x = action.cell.x as int;
    let y = action.cell.y as int;
    let digit = action.value->0;
    let next = after_apply(grid, action);
    assert forall|x1: int, y1: int, x2: int, y2: int| #[trigger]
        are_peers(x1, y1, x2, y2) && next[x1][y1] != CellValue::NotSet implies next[x1][y1]
        != next[x2][y2] by {
        if x1 == x && y1 == y {
            assert(next[x2][y2] == grid[x2][y2]);
            assert(in_block_of(x, y, x2, y2) || x2 == x || y2 == y);
            if grid[x2][y2] == CellValue::Digit(digit) {
                assert(fits(grid, x, y, digit));
            }
        } else if x2 == x && y2 == y {
            assert(next[x1][y1] == grid[x1][y1]);
            assert(in_block_of(x, y, x1, y1) || x1 == x || y1 == y);
            if grid[x1][y1] == CellValue::Digit(digit) {
                assert(fits(grid, x, y, digit));
            }
        } else {
            assert(next[x1][y1] == grid[x1][y1]);
            assert(next[x2][y2] == grid[x2][y2]);
        }
    }
}

/// The candidates that the choices name, taken one after another from a
/// valid and consistent grid, lead to a valid and consistent grid.
proof fn lemma_descent_keeps_consistency(grid: Grid, choices: Seq<int>)
    requires
        grid_valid(grid),
        is_consistent(grid),
        descend::<State>(grid, choices).is_some(),
    ensures
        grid_valid(descend::<State>(grid, choices).unwrap()),
        is_consistent(descend::<State>(grid, choices).unwrap()),
    decreases choices.len(),
{
    if choices.len() > 0 {
        let action = enumerate_actions(grid)[choices[0]];
        lemma_candidates_are_legal(grid, choices[0]);
        lemma_legal_action_keeps_consistency(grid, action);
        State::candidate_is_reversible(grid, choices[0]);
        lemma_descent_keeps_consistency(after_apply(grid, action), choices.drop_first());
    }
}

/// The search from a board on which no digit stands twice in a row, a
/// column or a block ends, where it ends in a board, in a solved one: every
/// cell holds a digit from 1 to 9, and still none stands twice.
pub proof fn lemma_search_ends_solved(grid: Grid)
    requires
        grid_valid(grid),
        is_consistent(grid),
        search::<State>(grid).is_some(),
    ensures
        grid_valid(search::<State>(grid).unwrap()),
        is_full(search::<State>(grid).unwrap()),
        is_consistent(search::<State>(grid).unwrap()),
{
    let choices = lemma_search_ends_in_a_win::<State>(grid);
    lemma_descent_keeps_consistency(grid, choices);
}

} // verus!
