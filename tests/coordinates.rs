use tictactoe::{Coordinates, MoveError};

fn square(s: &str) -> Option<(usize, usize)> {
    match Coordinates::from_str(s) {
        Ok(c) => Some((c.get_row(), c.get_column())),
        Err(e) => {
            assert_eq!(e, MoveError::InvalidInput);
            None
        }
    }
}

#[test]
fn every_square_reads_back() {
    for r in 0..3usize {
        for c in 0..3usize {
            assert_eq!(square(&format!("{},{}", r, c)), Some((r, c)));
            assert_eq!(square(&format!("  {} \t,\n {}  \n", r, c)), Some((r, c)));
            assert_eq!(square(&format!("\u{a0}{}\u{3000},{}\u{2003}", r, c)), Some((r, c)));
        }
    }
}

#[test]
fn out_of_range_pair_is_refused() {
    assert_eq!(square("5,5"), None);
    assert_eq!(square("3,0"), None);
    assert_eq!(square("0,3"), None);
}

#[test]
fn third_piece_is_ignored() {
    assert_eq!(square("1,1,9"), Some((1, 1)));
    assert_eq!(square("2,0,1"), Some((2, 0)));
    assert_eq!(square("0,2,x,,"), Some((0, 2)));
}

#[test]
fn too_few_indices_are_refused() {
    assert_eq!(square(""), None);
    assert_eq!(square("1"), None);
    assert_eq!(square("1,"), None);
    assert_eq!(square(","), None);
    assert_eq!(square("a,b"), None);
    assert_eq!(square("1 1"), None);
    assert_eq!(square("1;1"), None);
    assert_eq!(square("-1,2"), None);
    assert_eq!(square("1,-0"), None);
    assert_eq!(square("+,1"), None);
    assert_eq!(square("1,99999999999999999999999999"), None);
}

#[test]
fn pieces_that_name_no_index_are_passed_over() {
    assert_eq!(square("9,1,2"), Some((1, 2)));
    assert_eq!(square("1,,2"), Some((1, 2)));
    assert_eq!(square("x,0,y,1"), Some((0, 1)));
    assert_eq!(square("+1,+2"), Some((1, 2)));
    assert_eq!(square("002,0001"), Some((2, 1)));
    assert_eq!(square("1 ,\r\n2\n"), Some((1, 2)));
}
