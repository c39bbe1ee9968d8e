use game_search::solver::{solve, GameState};
use game_search::sudoku::{Action, Cell, CellValue, ReadError, State};

const CLASSIC: &str =
    "003020600/900305001/001806400/008102900/700000008/006708200/002609500/800203009/005010300";

const CLASSIC_SOLVED: &str =
    "483921657/967345821/251876493/548132976/729564138/136798245/372689514/814253769/695417382";

fn lines_of(board: &str) -> Vec<String> {
    board.split('/').map(|row| format!("{}\n", row)).collect()
}

fn board(text: &str) -> State {
    State::read(&lines_of(text)).expect("the board is well formed")
}

fn text_of(board: &str) -> String {
    board.split('/').map(|row| format!("{}\n", row.replace('0', "."))).collect()
}

fn digit_at(state: &State, x: usize, y: usize) -> Option<usize> {
    match state.get(x, y) {
        CellValue::NotSet => None,
        CellValue::Digit(d) => Some(d),
    }
}

fn fits(state: &State, x: usize, y: usize, d: usize) -> bool {
    for k in 0..9 {
        if digit_at(state, x, k) == Some(d) || digit_at(state, k, y) == Some(d) {
            return false;
        }
    }
    for i in 3 * (x / 3)..3 * (x / 3) + 3 {
        for j in 3 * (y / 3)..3 * (y / 3) + 3 {
            if digit_at(state, i, j) == Some(d) {
                return false;
            }
        }
    }
    true
}

fn is_solution(state: &State) -> bool {
    for k in 0..9 {
        let mut row = [false; 9];
        let mut column = [false; 9];
        let mut block = [false; 9];
        for l in 0..9 {
            match (
                digit_at(state, k, l),
                digit_at(state, l, k),
                digit_at(state, 3 * (k / 3) + l / 3, 3 * (k % 3) + l % 3),
            ) {
                (Some(a), Some(b), Some(c)) => {
                    row[a - 1] = true;
                    column[b - 1] = true;
                    block[c - 1] = true;
                }
                _ => return false,
            }
        }
        if row.contains(&false) || column.contains(&false) || block.contains(&false) {
            return false;
        }
    }
    true
}

fn pairs(actions: &[Action]) -> Vec<(usize, usize, CellValue)> {
    actions.iter().map(|a| (a.cell.x, a.cell.y, a.value)).collect()
}

#[test]
fn new_board_is_empty() {
    let state = State::new();
    for x in 0..9 {
        for y in 0..9 {
            assert_eq!(state.get(x, y), CellValue::NotSet);
        }
    }
    assert!(!state.is_win());
    assert_eq!(state.render(), ".........\n".repeat(9));
}

#[test]
fn read_places_rows_and_columns() {
    let state = board(CLASSIC);
    assert_eq!(state.get(0, 2), CellValue::Digit(3));
    assert_eq!(state.get(0, 4), CellValue::Digit(2));
    assert_eq!(state.get(1, 0), CellValue::Digit(9));
    assert_eq!(state.get(8, 6), CellValue::Digit(3));
    assert_eq!(state.get(0, 0), CellValue::NotSet);
    assert_eq!(state.get(8, 8), CellValue::NotSet);
}

#[test]
fn render_writes_dots_and_digits() {
    let state = board(CLASSIC);
    assert_eq!(
        state.render(),
        "..3.2.6..\n9..3.5..1\n..18.64..\n..81.29..\n7.......8\n..67.82..\n..26.95..\n8..2.3..9\n..5.1.3..\n"
    );
}

#[test]
fn render_then_read_gives_the_board_back() {
    let state = board(CLASSIC);
    let text = state.render();
    let lines: Vec<String> = text.lines().map(|l| l.to_string()).collect();
    let again = State::read(&lines).unwrap();
    for x in 0..9 {
        for y in 0..9 {
            assert_eq!(again.get(x, y), state.get(x, y));
        }
    }
}

#[test]
fn is_win_only_on_full_board() {
    assert!(board(CLASSIC_SOLVED).is_win());
    assert!(!board(CLASSIC).is_win());
    let almost = CLASSIC_SOLVED.replacen("2", ".", 1);
    assert!(!board(&almost).is_win());
}

#[test]
fn is_win_does_not_check_the_rules() {
    let ones = ["111111111"; 9].join("/");
    assert!(board(&ones).is_win());
}

#[test]
fn actions_of_full_board_are_none() {
    assert!(board(CLASSIC_SOLVED).actions().is_empty());
}

#[test]
fn apply_writes_one_cell_and_revert_clears_it() {
    let mut state = board(CLASSIC);
    let before = state.render();
    let action = Action { cell: Cell { x: 4, y: 4 }, value: CellValue::Digit(5) };
    state.apply(&action);
    assert_eq!(state.get(4, 4), CellValue::Digit(5));
    let mut expected = board(CLASSIC).render().into_bytes();
    expected[4 * 10 + 4] = b'5';
    assert_eq!(state.render().into_bytes(), expected);
    state.revert(&action);
    assert_eq!(state.get(4, 4), CellValue::NotSet);
    assert_eq!(state.render(), before);
}

#[test]
fn apply_then_revert_leaves_actions_and_is_win_unchanged() {
    let mut state = board(CLASSIC);
    let actions = state.actions();
    assert!(!actions.is_empty());
    for action in &actions {
        let text = state.render();
        let won = state.is_win();
        state.apply(action);
        state.revert(action);
        assert_eq!(state.render(), text);
        assert_eq!(state.is_win(), won);
        assert_eq!(pairs(&state.actions()), pairs(&actions));
    }
}

#[test]
fn candidates_duplicate_no_digit() {
    let mut state = board(CLASSIC);
    for _ in 0..20 {
        let actions = state.actions();
        if actions.is_empty() {
            break;
        }
        for action in &actions {
            assert_eq!(state.get(action.cell.x, action.cell.y), CellValue::NotSet);
            match action.value {
                CellValue::Digit(d) => {
                    assert!((1..=9).contains(&d));
                    assert!(fits(&state, action.cell.x, action.cell.y, d));
                }
                CellValue::NotSet => panic!("an action places a digit"),
            }
        }
        state.apply(&actions[0]);
    }
}

#[test]
fn candidates_hold_every_fitting_digit_of_one_cell() {
    let state = board(CLASSIC);
    let actions = state.actions();
    let cell = actions[0].cell;
    let expected: Vec<(usize, usize, CellValue)> = (1..=9)
        .filter(|d| fits(&state, cell.x, cell.y, *d))
        .map(|d| (cell.x, cell.y, CellValue::Digit(d)))
        .collect();
    assert_eq!(pairs(&actions), expected);
}

#[test]
fn candidates_of_classic_puzzle() {
    // (4, 4) is the first cell in the scan with a single digit left.
    let state = board(CLASSIC);
    let mut fewest = 10;
    let mut first = (9, 9);
    for x in 0..9 {
        for y in 0..9 {
            if state.get(x, y) == CellValue::NotSet {
                let count = (1..=9).filter(|d| fits(&state, x, y, *d)).count();
                if count < fewest {
                    fewest = count;
                    first = (x, y);
                }
            }
        }
    }
    let actions = state.actions();
    assert_eq!(actions.len(), fewest);
    assert!(actions.iter().all(|a| (a.cell.x, a.cell.y) == first));
}

#[test]
fn most_constrained_cell_is_selected() {
    let state = board(
        "123456000/000000000/000000000/000000000/000000700/000000000/000000000/000000000/000000000",
    );
    assert_eq!(
        pairs(&state.actions()),
        vec![(0, 6, CellValue::Digit(8)), (0, 6, CellValue::Digit(9))]
    );
}

#[test]
fn most_constrained_cell_late_in_the_scan_is_selected() {
    let state = board(
        "000000000/000000000/000000000/000000000/000000000/000000000/000000000/000000700/003456089",
    );
    assert_eq!(
        pairs(&state.actions()),
        vec![(8, 6, CellValue::Digit(1)), (8, 6, CellValue::Digit(2))]
    );
}

#[test]
fn first_of_equally_constrained_cells_is_selected() {
    let state = board(
        "123456000/000000000/000000000/000000000/000000000/000000000/000000000/000000000/000000000",
    );
    assert_eq!(
        pairs(&state.actions()),
        vec![
            (0, 6, CellValue::Digit(7)),
            (0, 6, CellValue::Digit(8)),
            (0, 6, CellValue::Digit(9))
        ]
    );
}

#[test]
fn cell_without_digits_gives_no_candidates() {
    // Row 0 and column 0 hold all nine digits between them.
    let only = "048921657/967345821/251876493/548132976/729564138/136798245/372689514/814253769/695417382";
    let state = board(only);
    assert!(!state.is_win());
    assert!(state.actions().is_empty());
}

#[test]
fn dead_end_hides_the_candidates_of_other_cells() {
    let state = board(
        "000000000/000000000/000000000/000000000/000000000/000000000/000000008/000000009/123456700",
    );
    // (8, 7) has no digit left, (8, 8) has none either, all others have some.
    assert!(state.actions().is_empty());
    let open = board(
        "000000000/000000000/000000000/000000000/000000000/000000000/000000000/000000000/123456700",
    );
    assert_eq!(
        pairs(&open.actions()),
        vec![(8, 7, CellValue::Digit(8)), (8, 7, CellValue::Digit(9))]
    );
}

#[test]
fn solves_classic_puzzle() {
    let mut state = board(CLASSIC);
    assert!(solve(&mut state));
    assert!(state.is_win());
    assert!(is_solution(&state));
    assert_eq!(state.render(), text_of(CLASSIC_SOLVED));
    let given = board(CLASSIC);
    for x in 0..9 {
        for y in 0..9 {
            if given.get(x, y) != CellValue::NotSet {
                assert_eq!(state.get(x, y), given.get(x, y));
            }
        }
    }
}

#[test]
fn solves_empty_board() {
    let mut state = State::new();
    assert!(solve(&mut state));
    assert!(is_solution(&state));
}

#[test]
fn solved_board_is_left_as_it_is() {
    let mut state = board(CLASSIC_SOLVED);
    assert!(solve(&mut state));
    assert_eq!(state.render(), text_of(CLASSIC_SOLVED));
}

#[test]
fn duplicate_digit_in_row_is_read_and_not_solved() {
    let text =
        "123456770/000000008/000000009/000000000/000000000/000000000/000000000/000000000/000000000";
    let mut state = board(text);
    assert!(!solve(&mut state));
    assert_eq!(state.render(), text_of(text));
}

#[test]
fn exhausted_search_restores_the_board() {
    // The last cell of row 0 needs a 9, which column 8 holds already.
    let text =
        "123456780/000000000/000000000/000000000/000000000/000000000/000000000/000000000/000000009";
    let mut state = board(text);
    assert!(!solve(&mut state));
    assert_eq!(state.render(), text_of(text));
}

#[test]
fn search_backtracks_over_wrong_branches() {
    // Row 0 lacks 8 and 9; column 7 holds the 9, so (0, 7) takes the 8 and
    // (0, 8) the 9, whichever cell is tried first.
    let text =
        "123456700/000000000/000000000/000000000/000000000/000000000/000000000/000000090/000000000";
    let mut state = board(text);
    assert!(solve(&mut state));
    assert!(is_solution(&state));
    assert_eq!(state.get(0, 7), CellValue::Digit(8));
    assert_eq!(state.get(0, 8), CellValue::Digit(9));
}

#[test]
fn row_of_length_8_is_an_invalid_line() {
    let mut lines = lines_of(CLASSIC);
    lines[0] = "00302060\n".to_string();
    match State::read(&lines) {
        Err(ReadError::InvalidLine { line_index, line }) => {
            assert_eq!(line_index, 0);
            assert_eq!(line, "00302060\n");
        }
        other => panic!("expected an invalid line, got {:?}", other.map(|s| s.render())),
    }
}

#[test]
fn invalid_line_is_cited_by_its_index() {
    let mut lines = lines_of(CLASSIC);
    lines[5] = "0067082000\n".to_string();
    lines[7] = "8002x3009\n".to_string();
    match State::read(&lines) {
        Err(ReadError::InvalidLine { line_index, line }) => {
            assert_eq!(line_index, 5);
            assert_eq!(line, "0067082000\n");
        }
        other => panic!("expected an invalid line, got {:?}", other.map(|s| s.render())),
    }
}

#[test]
fn unknown_character_is_an_invalid_line() {
    let mut lines = lines_of(CLASSIC);
    lines[8] = "00501030x\n".to_string();
    match State::read(&lines) {
        Err(ReadError::InvalidLine { line_index, line }) => {
            assert_eq!(line_index, 8);
            assert_eq!(line, "00501030x\n");
        }
        other => panic!("expected an invalid line, got {:?}", other.map(|s| s.render())),
    }
}

#[test]
fn empty_line_is_an_invalid_line() {
    let mut lines = lines_of(CLASSIC);
    lines[2] = "\n".to_string();
    assert!(matches!(
        State::read(&lines),
        Err(ReadError::InvalidLine { line_index: 2, .. })
    ));
}

#[test]
fn input_that_ends_early_is_an_io_failure() {
    let mut lines = lines_of(CLASSIC);
    lines.truncate(8);
    match State::read(&lines) {
        Err(ReadError::Io(error)) => {
            assert_eq!(error.kind(), std::io::ErrorKind::UnexpectedEof);
        }
        other => panic!("expected an I/O failure, got {:?}", other.map(|s| s.render())),
    }
    assert!(matches!(State::read(&Vec::new()), Err(ReadError::Io(_))));
}

#[test]
fn invalid_line_comes_before_the_early_end() {
    let mut lines = lines_of(CLASSIC);
    lines.truncate(4);
    lines[3] = "bad".to_string();
    assert!(matches!(
        State::read(&lines),
        Err(ReadError::InvalidLine { line_index: 3, .. })
    ));
}

#[test]
fn lines_after_the_ninth_are_not_read() {
    let mut lines = lines_of(CLASSIC);
    lines.push("not a row".to_string());
    let state = State::read(&lines).unwrap();
    assert_eq!(state.render(), text_of(CLASSIC));
}

#[test]
fn white_space_around_a_line_is_dropped() {
    let mut lines = lines_of(CLASSIC);
    lines[0] = "  003020600\t\r\n".to_string();
    lines[8] = "005010300".to_string();
    let state = State::read(&lines).unwrap();
    assert_eq!(state.render(), text_of(CLASSIC));
}

#[test]
fn white_space_inside_a_line_is_not_dropped() {
    let mut lines = lines_of(CLASSIC);
    lines[0] = "0030 20600\n".to_string();
    assert!(matches!(
        State::read(&lines),
        Err(ReadError::InvalidLine { line_index: 0, .. })
    ));
}

#[test]
fn placeholders_all_mean_unset() {
    let mut lines = lines_of(CLASSIC);
    lines[0] = "0.3#2.6#0\n".to_string();
    let state = State::read(&lines).unwrap();
    assert_eq!(state.render(), text_of(CLASSIC));
}

#[test]
fn io_error_converts_to_io_failure() {
    let error = std::io::Error::from(std::io::ErrorKind::PermissionDenied);
    match ReadError::from(error) {
        ReadError::Io(inner) => assert_eq!(inner.kind(), std::io::ErrorKind::PermissionDenied),
        ReadError::InvalidLine { .. } => panic!("expected an I/O failure"),
    }
}

#[test]
fn parse_line_reads_a_row() {
    let mut row = [CellValue::NotSet; 9];
    assert!(State::parse_line("1.#056789", &mut row));
    assert_eq!(
        row,
        [
            CellValue::Digit(1),
            CellValue::NotSet,
            CellValue::NotSet,
            CellValue::NotSet,
            CellValue::Digit(5),
            CellValue::Digit(6),
            CellValue::Digit(7),
            CellValue::Digit(8),
            CellValue::Digit(9),
        ]
    );
}

#[test]
fn parse_line_refuses_wrong_lengths_and_characters() {
    let filled = [CellValue::Digit(7); 9];
    for line in [
        "",
        "12345678",
        "1234567890",
        "12345678a",
        "1234-6789",
        "+23456789",
        "12345678 ",
        "1234567é",
        "١٢٣٤٥٦٧٨٩",
        "12345678\n",
    ] {
        let mut row = filled;
        assert!(!State::parse_line(line, &mut row), "{:?}", line);
        assert_eq!(row, filled);
    }
}
