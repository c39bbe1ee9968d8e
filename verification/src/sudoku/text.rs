//! The text form of a board: nine lines of nine characters.

use crate::sudoku::rules::{grid_valid, value_valid, Grid};
use crate::sudoku::CellValue;
use vstd::prelude::*;

verus! {

/// The characters that count as white space at the ends of a line: those
/// with the Unicode property `White_Space`.
pub open spec fn is_space(c: char) -> bool {
    ||| 0x09 <= c as u32 <= 0x0d
    ||| c as u32 == 0x20
    ||| c as u32 == 0x85
    ||| c as u32 == 0xa0
    ||| c as u32 == 0x1680
    ||| 0x2000 <= c as u32 <= 0x200a
    ||| c as u32 == 0x2028
    ||| c as u32 == 0x2029
    ||| c as u32 == 0x202f
    ||| c as u32 == 0x205f
    ||| c as u32 == 0x3000
}

/// The text without the white space it starts with.
pub open spec fn trimmed_start(text: Seq<char>) -> Seq<char>
    decreases text.len(),
{
    if text.len() > 0 && is_space(text.first()) {
        trimmed_start(text.drop_first())
    } else {
        text
    }
}

/// The text without the white space it ends with.
pub open spec fn trimmed_end(text: Seq<char>) -> Seq<char>
    decreases text.len(),
{
    if text.len() > 0 && is_space(text.last()) {
        trimmed_end(text.drop_last())
    } else {
        text
    }
}

/// The text without the white space at its two ends.
pub open spec fn trimmed(text: Seq<char>) -> Seq<char> {
    trimmed_end(trimmed_start(text))
}

/// What a character of a line stands for: `0`, `.` and `#` for an unset
/// cell, `1` to `9` for that digit; no other character stands for a cell.
pub open spec fn cell_of(c: char) -> Option<CellValue> {
    if c == '0' || c == '.' || c == '#' {
        Some(CellValue::NotSet)
    } else if 0x31 <= c as u32 <= 0x39 {
        Some(CellValue::Digit((c as u32 - 0x30) as usize))
    } else {
        None
    }
}

/// The line is nine characters that each stand for a cell.
pub open spec fn line_valid(line: Seq<char>) -> bool {
    &&& line.len() == 9
    &&& forall|i: int| 0 <= i < 9 ==> cell_of(#[trigger] line[i]).is_some()
}

/// The row of cells that a valid line stands for.
pub open spec fn line_cells(line: Seq<char>) -> Seq<CellValue> {
    Seq::new(9, |i: int| cell_of(line[i]).unwrap())
}

/// The line stands for a row once the white space at its ends is taken off.
pub open spec fn is_row(line: Seq<char>) -> bool {
    line_valid(trimmed(line))
}

/// The texts of the lines.
pub open spec fn texts(lines: Seq<String>) -> Seq<Seq<char>> {
    Seq::new(lines.len(), |i: int| lines[i]@)
}

/// The first `count` lines are there and each stands for a row.
pub open spec fn are_rows(lines: Seq<Seq<char>>, count: int) -> bool {
    &&& count <= lines.len()
    &&& forall|i: int| 0 <= i < count ==> is_row(#[trigger] lines[i])
}

/// The grid that the first nine lines stand for, each taken without the
/// white space at its ends.
pub open spec fn lines_grid(lines: Seq<Seq<char>>) -> Grid {
    Seq::new(9, |x: int| line_cells(trimmed(lines[x])))
}

/// The character that a digit from 1 to 9 is written as.
pub open spec fn digit_char(digit: usize) -> char {
    seq!['1', '2', '3', '4', '5', '6', '7', '8', '9'][digit - 1]
}

/// The character that a cell is written as: `.` for an unset one.
pub open spec fn cell_char(value: CellValue) -> char {
    match value {
        CellValue::NotSet => '.',
        CellValue::Digit(digit) => digit_char(digit),
    }
}

/// The text of a grid: for each row its nine cells and a line feed.
pub open spec fn grid_text(grid: Grid) -> Seq<char> {
    Seq::new(
        90,
        |k: int|
            if k % 10 == 9 {
                '\n'
            } else {
                cell_char(grid[k / 10][k % 10])
            },
    )
}

/// The lines of the text of a grid, each with its line feed.
pub open spec fn text_lines(grid: Grid) -> Seq<Seq<char>> {
    Seq::new(9, |x: int| grid_text(grid).subrange(10 * x, 10 * x + 10))
}

/// The character that a valid cell value is written as stands for that
/// value, and is no white space.
pub proof fn lemma_cell_char_reads_back(value: CellValue)
    requires
        value_valid(value),
    ensures
        cell_of(cell_char(value)) == Some(value),
        !is_space(cell_char(value)),
{
    match value {
        CellValue::NotSet => {},
        CellValue::Digit(digit) => {
            assert(digit == 1 || digit == 2 || digit == 3 || digit == 4 || digit == 5 || digit == 6
                || digit == 7 || digit == 8 || digit == 9);
        },
    }
}

/// The text of a board reads back as the board: its lines stand for rows,
/// and the grid that they stand for is that of the board.
pub proof fn lemma_text_reads_back(grid: Grid)
    requires
        grid_valid(grid),
    ensures
        are_rows(text_lines(grid), 9),
        lines_grid(text_lines(grid)) == grid,
{
    assert forall|x: int| 0 <= x < 9 implies is_row(#[trigger] text_lines(grid)[x]) && line_cells(
        trimmed(text_lines(grid)[x]),
    ) == grid[x] by {
        let line = text_lines(grid)[x];
        let row = line.drop_last();
        assert forall|y: int| 0 <= y < 9 implies #[trigger] row[y] == cell_char(grid[x][y]) by {
            assert(row[y] == grid_text(grid)[10 * x + y]);
        }
        assert(line.last() == grid_text(grid)[10 * x + 9]);
        lemma_cell_char_reads_back(grid[x][0]);
        lemma_cell_char_reads_back(grid[x][8]);
        assert(line.first() == row[0]);
        assert(row.last() == row[8]);
        assert(trimmed_start(line) == line);
        assert(trimmed_end(line) == trimmed_end(row));
        assert(trimmed_end(row) == row);
        assert forall|y: int| 0 <= y < 9 implies cell_of(#[trigger] row[y]) == Some(
            grid[x][y],
        ) by {
            lemma_cell_char_reads_back(grid[x][y]);
        }
        assert(line_cells(row) =~= grid[x]);
    }
    assert(lines_grid(text_lines(grid)) =~= grid);
}

/// Whether the character counts as white space at the end of a line.
pub fn is_whitespace(c: char) -> (space: bool)
    ensures
        space == is_space(c),
{
    let code = c as u32;
    (0x09 <= code && code <= 0x0d) || code == 0x20 || code == 0x85 || code == 0xa0 || code
        == 0x1680 || (0x2000 <= code && code <= 0x200a) || code == 0x2028 || code == 0x2029
        || code == 0x202f || code == 0x205f || code == 0x3000
}

/// The cell that the character stands for, if it stands for one.
pub fn parse_cell(c: char) -> (cell: Option<CellValue>)
    ensures
        cell == cell_of(c),
{
    if c == '0' || c == '.' || c == '#' {
        Some(CellValue::NotSet)
    } else {
        let code = c as u32;
        if 0x31 <= code && code <= 0x39 {
            Some(CellValue::Digit((code - 0x30) as usize))
        } else {
            None
        }
    }
}

/// The line without the white space at its two ends.
pub fn trim(line: &str) -> (inner: &str)
    ensures
        inner@ == trimmed(line@),
{
    let len = line.unicode_len();
    let mut from: usize = 0;
    assert(line@.subrange(0, len as int) =~= line@);
    while from < len && is_whitespace(line.get_char(from))
        invariant
            from <= len == line@.len(),
            trimmed_start(line@) == trimmed_start(line@.subrange(from as int, len as int)),
        decreases len - from,
    {
        assert(line@.subrange(from as int, len as int).drop_first() =~= line@.subrange(
            from + 1,
            len as int,
        ));
        from += 1;
    }
    let mut to: usize = len;
    while to > from && is_whitespace(line.get_char(to - 1))
        invariant
            from <= to <= len == line@.len(),
            trimmed(line@) == trimmed_end(line@.subrange(from as int, to as int)),
        decreases to - from,
    {
        assert(line@.subrange(from as int, to as int).drop_last() =~= line@.subrange(
            from as int,
            to - 1,
        ));
        to -= 1;
    }
    line.substring_char(from, to)
}

/// The text that a cell is written as.
pub fn cell_text(value: CellValue) -> (text: &'static str)
    requires
        value matches CellValue::Digit(digit) ==> 1 <= digit <= 9,
    ensures
        text@ == seq![cell_char(value)],
{
    proof {
        reveal_strlit(".");
        reveal_strlit("1");
        reveal_strlit("2");
        reveal_strlit("3");
        reveal_strlit("4");
        reveal_strlit("5");
        reveal_strlit("6");
        reveal_strlit("7");
        reveal_strlit("8");
        reveal_strlit("9");
    }
    let text = match value {
        CellValue::NotSet => ".",
        CellValue::Digit(digit) => if digit == 1 {
            "1"
        } else if digit == 2 {
            "2"
        } else if digit == 3 {
            "3"
        } else if digit == 4 {
            "4"
        } else if digit == 5 {
            "5"
        } else if digit == 6 {
            "6"
        } else if digit == 7 {
            "7"
        } else if digit == 8 {
            "8"
        } else {
            "9"
        },
    };
    assert(text@ =~= seq![cell_char(value)]);
    text
}

} // verus!
