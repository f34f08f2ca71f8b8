use tictactoe::{Cell, Coordinates, Field, MoveError, State};

fn at(r: usize, c: usize) -> Coordinates {
    Coordinates::from_str(&format!("{},{}", r, c)).unwrap()
}

fn play(field: &mut Field, moves: &[(usize, usize, Cell)]) -> Vec<State> {
    moves
        .iter()
        .map(|&(r, c, m)| field.set(&at(r, c), m).unwrap())
        .collect()
}

#[test]
fn new_field_is_empty() {
    let f = Field::new();
    assert_eq!(f.render(), vec![Cell::Empty; 9]);
}

#[test]
fn top_row_wins_for_first_player() {
    let mut f = Field::new();
    let states = play(
        &mut f,
        &[(0, 0, Cell::X), (1, 1, Cell::O), (0, 1, Cell::X), (1, 0, Cell::O), (0, 2, Cell::X)],
    );
    assert_eq!(states[..4], [State::InGame; 4]);
    assert_eq!(states[4], State::Win(Cell::X));
}

#[test]
fn full_board_without_line_is_draw() {
    let mut f = Field::new();
    let states = play(
        &mut f,
        &[
            (0, 0, Cell::X),
            (0, 1, Cell::O),
            (0, 2, Cell::X),
            (1, 0, Cell::X),
            (1, 1, Cell::O),
            (1, 2, Cell::O),
            (2, 0, Cell::O),
            (2, 1, Cell::X),
            (2, 2, Cell::X),
        ],
    );
    assert_eq!(states[..8], [State::InGame; 8]);
    assert_eq!(states[8], State::Draw);
}

#[test]
fn occupied_square_is_refused_unchanged() {
    let mut f = Field::new();
    assert_eq!(f.set(&at(1, 2), Cell::X), Ok(State::InGame));
    let before = f.render();
    assert_eq!(f.set(&at(1, 2), Cell::O), Err(MoveError::CellOccupied));
    assert_eq!(f.set(&at(1, 2), Cell::X), Err(MoveError::CellOccupied));
    assert_eq!(f.render(), before);
    assert_eq!(f.get(1, 2), Cell::X);
}

#[test]
fn set_writes_only_its_square() {
    let mut f = Field::new();
    f.set(&at(2, 1), Cell::O).unwrap();
    let cells = f.render();
    for (i, cell) in cells.iter().enumerate() {
        let expected = if i == 7 { Cell::O } else { Cell::Empty };
        assert_eq!(*cell, expected);
    }
}

#[test]
fn column_win() {
    let mut f = Field::new();
    let states = play(&mut f, &[(0, 1, Cell::O), (2, 1, Cell::O), (1, 1, Cell::O)]);
    assert_eq!(states, vec![State::InGame, State::InGame, State::Win(Cell::O)]);
}

#[test]
fn main_diagonal_win() {
    let mut f = Field::new();
    let states = play(&mut f, &[(0, 0, Cell::X), (2, 2, Cell::X), (1, 1, Cell::X)]);
    assert_eq!(states, vec![State::InGame, State::InGame, State::Win(Cell::X)]);
}

#[test]
fn anti_diagonal_win() {
    let mut f = Field::new();
    let states = play(&mut f, &[(1, 1, Cell::O), (2, 0, Cell::O), (0, 2, Cell::O)]);
    assert_eq!(states, vec![State::InGame, State::InGame, State::Win(Cell::O)]);
}

#[test]
fn mixed_line_does_not_win() {
    let mut f = Field::new();
    let states = play(&mut f, &[(0, 0, Cell::X), (0, 1, Cell::O), (0, 2, Cell::X)]);
    assert_eq!(states, vec![State::InGame; 3]);
}

#[test]
fn win_on_last_square_beats_draw() {
    let mut f = Field::new();
    let states = play(
        &mut f,
        &[
            (0, 0, Cell::X),
            (0, 1, Cell::O),
            (0, 2, Cell::X),
            (1, 0, Cell::O),
            (1, 1, Cell::X),
            (1, 2, Cell::O),
            (2, 1, Cell::X),
            (2, 0, Cell::O),
            (2, 2, Cell::X),
        ],
    );
    assert_eq!(states[8], State::Win(Cell::X));
}

#[test]
fn check_win_draw_reports_line_through_square() {
    let mut f = Field::new();
    play(&mut f, &[(1, 0, Cell::X), (1, 1, Cell::X), (1, 2, Cell::X)]);
    assert_eq!(f.check_win_draw(&at(1, 1), Cell::X), State::Win(Cell::X));
    assert_eq!(f.check_win_draw(&at(0, 0), Cell::X), State::InGame);
    assert_eq!(f.check_win_draw(&at(1, 1), Cell::O), State::InGame);
}
