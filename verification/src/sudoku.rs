pub mod laws;
pub mod rules;
pub mod text;

use crate::solver::GameState;
use crate::sudoku::laws::{
    lemma_candidates_are_legal, lemma_digit_lowers_unset_count, lemma_selected_is_unique,
};
use crate::sudoku::rules::{
    action_valid, after_apply, after_revert, cell_actions, cell_digits, column_has, digits_up_to,
    empty_grid, enumerate_actions, fits, fits_at, grid_valid, in_block_of, is_dead_end, is_full,
    is_legal, is_selected, is_unset, row_has, scan_index, selected_cell, unset_count, value_valid,
    Grid,
};
use crate::sudoku::text::{
    are_rows, cell_of, cell_text, grid_text, is_row, line_cells, line_valid, lines_grid,
    parse_cell, texts, trim, trimmed,
};
use vstd::prelude::*;
use vstd::string::StringExecFns;

verus! {

pub const WIDTH: usize = 9;

pub const SUBWIDTH: usize = 3;

/// What a cell of the board holds.
#[derive(Copy, Clone, Debug, PartialEq, Eq, Structural)]
pub enum CellValue {
    NotSet,
    Digit(usize),
}

/// A position on the board: row `x` and column `y`, both counted from 0.
#[derive(Copy, Clone, Debug, PartialEq, Eq, Hash, Structural)]
pub struct Cell {
    pub x: usize,
    pub y: usize,
}

/// A proposed assignment: the digit to place and the cell to place it at.
#[derive(Copy, Clone, Debug)]
pub struct Action {
    pub cell: Cell,
    pub value: CellValue,
}

/// A board of nine rows of nine cells. Its view is the grid of its cell
/// values.
#[derive(Copy, Clone, Debug)]
pub struct State {
    cells: [[CellValue; WIDTH]; WIDTH],
}

/// `std::io::Error`, which `ReadError` carries. It is opaque here: nothing
/// is stated of what one holds.
#[verifier::external_type_specification]
#[verifier::external_body]
pub struct ExIoError(std::io::Error);

/// Why a board could not be read.
#[derive(Debug)]
pub enum ReadError {
    /// The input failed, or ended before the ninth line.
    Io(std::io::Error),
    /// The line at `line_index`, counted from 0, does not stand for a row;
    /// `line` is that line as it was given.
    InvalidLine { line_index: usize, line: String },
}

impl From<std::io::Error> for ReadError {
    fn from(err: std::io::Error) -> (error: ReadError) {
        ReadError::Io(err)
    }
}

impl vstd::std_specs::convert::FromSpecImpl<std::io::Error> for ReadError {
    open spec fn obeys_from_spec() -> bool {
        true
    }

    open spec fn from_spec(err: std::io::Error) -> ReadError {
        ReadError::Io(err)
    }
}

/// The error for input that ends early, made by `std::io::Error::from` of
/// `std::io::ErrorKind::UnexpectedEof`. Nothing is claimed of the value.
#[verifier::external_body]
fn end_of_input() -> (error: std::io::Error) {
    std::io::Error::from(std::io::ErrorKind::UnexpectedEof)
}

impl View for State {
    type V = Grid;

    closed spec fn view(&self) -> Grid {
        Seq::new(9, |x: int| self.cells[x]@)
    }
}

impl State {
    /// Every cell holds `NotSet` or a digit from 1 to 9.
    pub open spec fn well_formed(&self) -> bool {
        grid_valid(self@)
    }

    /// The board with no cell set.
    pub fn new() -> (state: State)
        ensures
            state@ == empty_grid(),
            state.well_formed(),
    {
        let state = State { cells: [[CellValue::NotSet; WIDTH]; WIDTH] };
        assert(state@ =~~= empty_grid());
        state
    }

    /// What the cell in row `x` and column `y` holds.
    pub fn get(&self, x: usize, y: usize) -> (value: CellValue)
        requires
            x < 9,
            y < 9,
        ensures
            value == self@[x as int][y as int],
            self.well_formed() ==> value_valid(value),
    {
        self.cells[x][y]
    }

    /// Which digits are absent from the row, the column and the block of
    /// the cell: the entry at `d - 1` answers for the digit `d`.
    fn possible_values(&self, x: usize, y: usize) -> (possible: [bool; WIDTH])
        requires
            self.well_formed(),
            x < 9,
            y < 9,
        ensures
            forall|k: int|
                0 <= k < 9 ==> #[trigger] possible[k] == fits(
                    self@,
                    x as int,
                    y as int,
                    (k + 1) as usize,
                ),
    {
        let mut possible = [true; WIDTH];
        for yy in 0..WIDTH
            invariant
                self.well_formed(),
                x < 9,
                forall|k: int|
                    0 <= k < 9 ==> #[trigger] possible[k] == !seen_in_row(
                        self@,
                        x as int,
                        yy as int,
                        (k + 1) as usize,
                    ),
        {
            if let CellValue::Digit(d) = self.get(x, yy) {
                possible[d - 1] = false;
            }
        }
        for xx in 0..WIDTH
            invariant
                self.well_formed(),
                x < 9,
                y < 9,
                forall|k: int|
                    0 <= k < 9 ==> #[trigger] possible[k] == !(row_has(
                        self@,
                        x as int,
                        (k + 1) as usize,
                    ) || seen_in_column(self@, y as int, xx as int, (k + 1) as usize)),
        {
            if let CellValue::Digit(d) = self.get(xx, y) {
                possible[d - 1] = false;
            }
        }
        let x0 = SUBWIDTH * (x / SUBWIDTH);
        let y0 = SUBWIDTH * (y / SUBWIDTH);
        for xx in x0..x0 + SUBWIDTH
            invariant
                self.well_formed(),
                x < 9,
                y < 9,
                x0 == 3 * (x / 3),
                y0 == 3 * (y / 3),
                forall|k: int|
                    0 <= k < 9 ==> #[trigger] possible[k] == !(row_has(
                        self@,
                        x as int,
                        (k + 1) as usize,
                    ) || column_has(self@, y as int, (k + 1) as usize) || seen_in_block(
                        self@,
                        x as int,
                        y as int,
                        xx as int,
                        y0 as int,
                        (k + 1) as usize,
                    )),
        {
            for yy in y0..y0 + SUBWIDTH
                invariant
                    self.well_formed(),
                    x < 9,
                    y < 9,
                    x0 == 3 * (x / 3),
                    y0 == 3 * (y / 3),
                    x0 <= xx < x0 + 3,
                    forall|k: int|
                        0 <= k < 9 ==> #[trigger] possible[k] == !(row_has(
                            self@,
                            x as int,
                            (k + 1) as usize,
                        ) || column_has(self@, y as int, (k + 1) as usize) || seen_in_block(
                            self@,
                            x as int,
                            y as int,
                            xx as int,
                            yy as int,
                            (k + 1) as usize,
                        )),
            {
                if let CellValue::Digit(d) = self.get(xx, yy) {
                    possible[d - 1] = false;
                }
            }
        }
        possible
    }

    /// The digits that may be placed at the cell, increasing.
    fn digits_at(&self, x: usize, y: usize) -> (digits: Vec<usize>)
        requires
            self.well_formed(),
            x < 9,
            y < 9,
        ensures
            digits@ == cell_digits(self@, x as int, y as int),
    {
        let possible = self.possible_values(x, y);
        let mut digits: Vec<usize> = Vec::new();
        for v in 0..WIDTH
            invariant
                forall|k: int|
                    0 <= k < 9 ==> #[trigger] possible[k] == fits(
                        self@,
                        x as int,
                        y as int,
                        (k + 1) as usize,
                    ),
                digits@ == digits_up_to(v as nat).filter(fits_at(self@, x as int, y as int)),
        {
            proof {
                reveal(Seq::filter);
                assert(digits_up_to((v + 1) as nat).drop_last() =~= digits_up_to(v as nat));
            }
            if possible[v] {
                digits.push(v + 1);
            }
        }
        digits
    }

    /// The actions that place each of the digits at the cell, in their order.
    fn actions_at(&self, cell: Cell, digits: &Vec<usize>) -> (actions: Vec<Action>)
        requires
            digits@ == cell_digits(self@, cell.x as int, cell.y as int),
        ensures
            actions@ == cell_actions(self@, cell.x as int, cell.y as int),
    {
        let mut actions: Vec<Action> = Vec::new();
        for k in 0..digits.len()
            invariant
                digits@ == cell_digits(self@, cell.x as int, cell.y as int),
                actions@ == cell_actions(self@, cell.x as int, cell.y as int).take(k as int),
        {
            actions.push(Action { cell, value: CellValue::Digit(digits[k]) });
            assert(actions@ =~= cell_actions(self@, cell.x as int, cell.y as int).take(k + 1));
        }
        assert(actions@ =~= cell_actions(self@, cell.x as int, cell.y as int));
        actions
    }
}

impl GameState for State {
    type Action = Action;

    open spec fn valid(position: Grid) -> bool {
        grid_valid(position)
    }

    open spec fn won(position: Grid) -> bool {
        is_full(position)
    }

    open spec fn candidates(position: Grid) -> Seq<Action> {
        enumerate_actions(position)
    }

    open spec fn applicable(position: Grid, action: Action) -> bool {
        action_valid(action)
    }

    open spec fn applied(position: Grid, action: Action) -> Grid {
        after_apply(position, action)
    }

    open spec fn revertible(position: Grid, action: Action) -> bool {
        action.cell.x < 9 && action.cell.y < 9
    }

    open spec fn reverted(position: Grid, action: Action) -> Grid {
        after_revert(position, action)
    }

    open spec fn depth(position: Grid) -> nat {
        unset_count(position)
    }

    proof fn candidate_is_reversible(position: Grid, index: int) {
        let action = enumerate_actions(position)[index];
        lemma_candidates_are_legal(position, index);
        lemma_digit_lowers_unset_count(
            position,
            action.cell.x as int,
            action.cell.y as int,
            action.value,
        );
        assert(after_revert(after_apply(position, action), action) =~~= position);
    }

    /// Whether every cell holds a digit. That no digit stands twice in a
    /// row, a column or a block is not looked at.
    fn is_win(&self) -> (won: bool)
        ensures
            won == is_full(self@),
    {
        for x in 0..WIDTH
            invariant
                forall|i: int, j: int| 0 <= i < x && 0 <= j < 9 ==> #[trigger] self@[i][j]
                    != CellValue::NotSet,
        {
            for y in 0..WIDTH
                invariant
                    x < 9,
                    forall|i: int, j: int| 0 <= i < x && 0 <= j < 9 ==> #[trigger] self@[i][j]
                        != CellValue::NotSet,
                    forall|j: int| 0 <= j < y ==> #[trigger] self@[x as int][j]
                        != CellValue::NotSet,
            {
                if self.get(x, y) == CellValue::NotSet {
                    return false;
                }
            }
        }
        true
    }

    /// The candidate actions of the board: none where it is full or some
    /// unset cell has no digit left, else one for each digit of the unset
    /// cell with the fewest digits left, the first such cell in the
    /// row-major scan. Each of them is legal on the board.
    fn actions(&self) -> (actions: Vec<Action>)
        ensures
            actions@ == enumerate_actions(self@),
            forall|k: int| 0 <= k < actions@.len() ==> is_legal(self@, #[trigger] actions@[k]),
    {
        let mut best: Option<(Cell, Vec<usize>)> = None;
        for x in 0..WIDTH
            invariant
                self.well_formed(),
                scanned(self@, best, 9 * x),
        {
            for y in 0..WIDTH
                invariant
                    self.well_formed(),
                    x < 9,
                    scanned(self@, best, 9 * x + y),
            {
                match self.get(x, y) {
                    CellValue::Digit(_) => {},
                    CellValue::NotSet => {
                        let digits = self.digits_at(x, y);
                        if digits.len() == 0 {
                            assert(is_unset(self@, x as int, y as int));
                            assert(is_dead_end(self@));
                            return Vec::new();
                        }
                        let closer = match &best {
                            None => true,
                            Some(found) => digits.len() < found.1.len(),
                        };
                        if closer {
                            best = Some((Cell { x, y }, digits));
                        }
                    },
                }
            }
        }
        match best {
            None => {
                assert forall|x: int, y: int| 0 <= x < 9 && 0 <= y < 9 implies #[trigger] self@[x][y]
                    != CellValue::NotSet by {
                    assert(is_unset(self@, x, y) ==> scan_index(x, y) >= 81);
                }
                Vec::new()
            },
            Some(found) => {
                proof {
                    let x = found.0.x as int;
                    let y = found.0.y as int;
                    assert(is_selected(self@, x, y));
                    assert(self@[x][y] == CellValue::NotSet);
                    assert(!is_full(self@));
                    assert(!is_dead_end(self@));
                    lemma_selected_is_unique(
                        self@,
                        x,
                        y,
                        selected_cell(self@).0,
                        selected_cell(self@).1,
                    );
                }
                let actions = self.actions_at(found.0, &found.1);
                assert forall|k: int| 0 <= k < actions@.len() implies is_legal(
                    self@,
                    #[trigger] actions@[k],
                ) by {
                    lemma_candidates_are_legal(self@, k);
                }
                actions
            },
        }
    }

    /// Writes the digit of the action into its cell. No other cell changes,
    /// and nothing is tested. The action is to be valid: a digit from 1 to 9
    /// for a cell of the board.
    fn apply(&mut self, action: &Action)
        ensures
            final(self)@ == after_apply(old(self)@, *action),
            final(self).well_formed(),
    {
        self.cells[action.cell.x][action.cell.y] = action.value;
        assert(self@ =~= after_apply(old(self)@, *action));
    }

    /// Writes `NotSet` into the cell of the action, whatever it held. No
    /// other cell changes. The cell is to be one of the board.
    fn revert(&mut self, action: &Action)
        ensures
            final(self)@ == after_revert(old(self)@, *action),
            final(self).well_formed(),
    {
        self.cells[action.cell.x][action.cell.y] = CellValue::NotSet;
        assert(self@ =~= after_revert(old(self)@, *action));
    }
}

impl State {
    /// Reads a board from its lines, the first nine of them, each taken
    /// without the white space at its ends.
    ///
    /// The first line that does not stand for a row is reported as
    /// `InvalidLine`, with its index and the line as given. Where there is
    /// none and fewer than nine lines are given, the input has ended early,
    /// which is reported as `Io`.
    pub fn read(lines: &Vec<String>) -> (result: Result<State, ReadError>)
        ensures
            match result {
                Ok(state) => {
                    &&& are_rows(texts(lines@), 9)
                    &&& state@ == lines_grid(texts(lines@))
                    &&& state.well_formed()
                },
                Err(ReadError::InvalidLine { line_index, line }) => {
                    &&& line_index < 9
                    &&& line_index < lines@.len()
                    &&& are_rows(texts(lines@), line_index as int)
                    &&& !is_row(lines@[line_index as int]@)
                    &&& line@ == lines@[line_index as int]@
                },
                Err(ReadError::Io(_)) => {
                    &&& lines@.len() < 9
                    &&& are_rows(texts(lines@), lines@.len() as int)
                },
            },
    {
        let mut state = State::new();
        for i in 0..WIDTH
            invariant
                are_rows(texts(lines@), i as int),
                forall|x: int|
                    0 <= x < i ==> (#[trigger] state@[x]) == line_cells(
                        trimmed(lines@[x]@),
                    ),
                forall|x: int| i <= x < 9 ==> (#[trigger] state@[x]) == empty_grid()[x],
        {
            if i >= lines.len() {
                return Err(ReadError::Io(end_of_input()));
            }
            let line = &lines[i];
            let mut row = state.cells[i];
            let ghost before = state@;
            assert(texts(lines@)[i as int] == line@);
            if !State::parse_line(trim(line.as_str()), &mut row) {
                return Err(ReadError::InvalidLine { line_index: i, line: line.clone() });
            }
            state.cells[i] = row;
            assert(state@ =~~= before.update(i as int, row@));
        }
        assert(state@ =~~= lines_grid(texts(lines@)));
        Ok(state)
    }

    /// Reads one row from a line of nine characters. Returns whether the
    /// line stands for a row; if not, the row is left as it was.
    pub fn parse_line(line: &str, row: &mut [CellValue; WIDTH]) -> (valid: bool)
        ensures
            valid == line_valid(line@),
            valid ==> final(row)@ == line_cells(line@),
            !valid ==> *final(row) == *old(row),
    {
        if line.unicode_len() != WIDTH {
            return false;
        }
        let mut cells = *row;
        for i in 0..WIDTH
            invariant
                line@.len() == 9,
                *row == *old(row),
                forall|j: int|
                    0 <= j < i ==> cell_of(#[trigger] line@[j]) == Some(
                        cells[j],
                    ),
        {
            match parse_cell(line.get_char(i)) {
                Some(value) => {
                    cells[i] = value;
                },
                None => {
                    return false;
                },
            }
        }
        *row = cells;
        assert(row@ =~= line_cells(line@));
        true
    }

    /// The board as text: for each row its nine cells, `.` for an unset one
    /// and the digit for another, and a line feed.
    pub fn render(&self) -> (text: String)
        requires
            self.well_formed(),
        ensures
            text@ == grid_text(self@),
    {
        let mut text = String::new();
        for x in 0..WIDTH
            invariant
                self.well_formed(),
                text@ == grid_text(self@).take(10 * x),
        {
            for y in 0..WIDTH
                invariant
                    self.well_formed(),
                    x < 9,
                    text@ == grid_text(self@).take(10 * x + y),
            {
                text.append(cell_text(self.get(x, y)));
                assert(text@ =~= grid_text(self@).take(10 * x + y + 1));
            }
            proof {
                reveal_strlit("\n");
            }
            text.append("\n");
            assert(text@ =~= grid_text(self@).take(10 * x + 10));
        }
        assert(text@ =~= grid_text(self@));
        text
    }
}

/// What the scan for the cell to branch on has found when it has passed the
/// first `count` cells in row-major order: every unset cell among them has a
/// digit left, and `best` is the selected one among them with its digits,
/// or `None` where none of them is unset.
spec fn scanned(grid: Grid, best: Option<(Cell, Vec<usize>)>, count: int) -> bool {
    &&& forall|i: int, j: int| #[trigger]
        is_unset(grid, i, j) && scan_index(i, j) < count ==> cell_digits(grid, i, j).len() > 0
    &&& match best {
        None => forall|i: int, j: int| #[trigger]
            is_unset(grid, i, j) ==> scan_index(i, j) >= count,
        Some(found) => {
            &&& is_unset(grid, found.0.x as int, found.0.y as int)
            &&& scan_index(found.0.x as int, found.0.y as int) < count
            &&& found.1@ == cell_digits(grid, found.0.x as int, found.0.y as int)
            &&& forall|i: int, j: int| #[trigger]
                is_unset(grid, i, j) && scan_index(i, j) < count ==> {
                    ||| found.1@.len() < cell_digits(grid, i, j).len()
                    ||| found.1@.len() == cell_digits(grid, i, j).len() && scan_index(
                        found.0.x as int,
                        found.0.y as int,
                    ) <= scan_index(i, j)
                }
        },
    }
}

/// The digit stands in row `x` left of column `upto`.
spec fn seen_in_row(grid: Grid, x: int, upto: int, digit: usize) -> bool {
    exists|j: int| 0 <= j < upto && #[trigger] grid[x][j] == CellValue::Digit(digit)
}

/// The digit stands in column `y` above row `upto`.
spec fn seen_in_column(grid: Grid, y: int, upto: int, digit: usize) -> bool {
    exists|i: int| 0 <= i < upto && #[trigger] grid[i][y] == CellValue::Digit(digit)
}

/// The digit stands in the block of `(x, y)` above row `row`, or in that row
/// left of column `column`.
spec fn seen_in_block(grid: Grid, x: int, y: int, row: int, column: int, digit: usize) -> bool {
    exists|i: int, j: int|
        in_block_of(x, y, i, j) && (i < row || i == row && j < column) && #[trigger] grid[i][j]
            == CellValue::Digit(digit)
}

} // verus!
