use tictactoe::{Cell, Game, MoveError, State};

#[test]
fn new_game_starts_with_x_on_empty_board() {
    let g = Game::new();
    assert_eq!(g.turn, Cell::X);
    assert_eq!(g.state, State::InGame);
    assert!(!g.is_finished());
    assert_eq!(g.field.render(), vec![Cell::Empty; 9]);
}

#[test]
fn turns_alternate_and_errors_keep_turn() {
    let mut g = Game::new();
    assert_eq!(g.input("1,1\n"), Ok(State::InGame));
    assert_eq!(g.turn, Cell::O);
    assert_eq!(g.input("5,5\n"), Err(MoveError::InvalidInput));
    assert_eq!(g.turn, Cell::O);
    assert_eq!(g.input("1,1\n"), Err(MoveError::CellOccupied));
    assert_eq!(g.turn, Cell::O);
    assert_eq!(g.input("0,0\n"), Ok(State::InGame));
    assert_eq!(g.turn, Cell::X);
    assert_eq!(g.field.get(1, 1), Cell::X);
    assert_eq!(g.field.get(0, 0), Cell::O);
}

#[test]
fn game_ends_on_win() {
    let mut g = Game::new();
    for line in ["0,0", "1,1", "0,1", "1,0"] {
        assert_eq!(g.input(line), Ok(State::InGame));
    }
    assert_eq!(g.input("0,2"), Ok(State::Win(Cell::X)));
    assert!(g.is_finished());
    assert_eq!(g.state, State::Win(Cell::X));
    assert_eq!(g.turn, Cell::X);
}

#[test]
fn game_ends_on_draw() {
    let mut g = Game::new();
    let lines = ["0,0", "0,1", "0,2", "1,1", "1,0", "1,2", "2,1", "2,0"];
    for line in lines {
        assert_eq!(g.input(line), Ok(State::InGame));
    }
    assert_eq!(g.input("2,2"), Ok(State::Draw));
    assert!(g.is_finished());
}

#[test]
fn cell_symbols_and_other() {
    assert_eq!(Cell::X.symbol(), 'X');
    assert_eq!(Cell::O.symbol(), 'O');
    assert_eq!(Cell::Empty.symbol(), '_');
    assert_eq!(Cell::X.other(), Cell::O);
    assert_eq!(Cell::O.other(), Cell::X);
}
