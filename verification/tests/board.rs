use sharmat::board::{Board, BoardError};
use sharmat::player::PlayerColor;

#[test]
fn board_create() {
    let _board = Board::new(9, 8);
}

#[test]
fn board_set_name() {
    let mut board = Board::new(1, 1);
    board.set_name("Hello");
}

#[test]
fn board_get_name() {
    let mut board = Board::new(1, 1);
    board.set_name("Hello");
    assert_eq!(board.name(), "Hello");
}

#[test]
#[allow(unused_must_use)]
fn board_set_piece() {
    let mut board = Board::new(9, 8);
    board.set(0, 0, Some((2, PlayerColor::White)));
}

#[test]
fn board_oob_set_piece() {
    let mut board = Board::new(9, 8);
    assert_eq!(
        board.set(20, 20, Some((2, PlayerColor::White))).unwrap_err(),
        BoardError::OutOfBounds(20, 20)
    );
}

#[test]
#[allow(unused_must_use)]
fn board_get_piece() {
    for x in 0..9 {
        for y in 0..8 {
            let mut board = Board::new(9, 8);
            board.set(x, y, Some((1, if (x + y) % 2 == 0 { PlayerColor::White } else { PlayerColor::Black })));
            assert_eq!(
                board.get(x, y).unwrap(),
                Some((1, if (x + y) % 2 == 0 { PlayerColor::White } else { PlayerColor::Black }))
            );
        }
    }
}

#[test]
fn board_oob_get_piece() {
    let board = Board::new(3, 3);
    assert_eq!(board.get(5, 5).unwrap_err(), BoardError::OutOfBounds(5, 5));
}

#[test]
#[allow(unused_must_use)]
fn board_move_piece() {
    let mut board = Board::new(9, 8);
    board.set(0, 0, Some((1, PlayerColor::White)));
    board.move_piece(0, 0, 3, 3);
    assert_eq!(board.get(3, 3).unwrap(), Some((1, PlayerColor::White)));
}

#[test]
fn board_oob_move_piece_first_pos() {
    let mut board = Board::new(5, 5);
    assert_eq!(
        board.move_piece(6, 6, 0, 0).unwrap_err(),
        BoardError::OutOfBounds(6, 6)
    );
}

#[test]
fn board_oob_move_piece_scnd_pos() {
    let mut board = Board::new(5, 5);
    assert_eq!(
        board.move_piece(0, 0, 6, 6).unwrap_err(),
        BoardError::OutOfBounds(6, 6)
    );
}

#[test]
#[allow(unused_must_use)]
fn board_clear_piece() {
    let mut board = Board::new(9, 8);
    board.set(0, 0, Some((1, PlayerColor::White)));
    board.clear_pos(0, 0);
    assert_eq!(board.get(0, 0).unwrap(), None);
}

#[test]
fn board_oob_clear_piece() {
    let mut board = Board::new(5, 5);
    assert_eq!(
        board.clear_pos(6, 6).unwrap_err(),
        BoardError::OutOfBounds(6, 6)
    );
}

#[test]
#[allow(unused_must_use)]
fn board_clear_board() {
    let empty_board = Board::new(5, 5);
    let mut board = Board::new(5, 5);
    board.set(0, 0, Some((1, PlayerColor::White)));
    board.set(0, 3, Some((2, PlayerColor::Black)));
    board.set(3, 0, Some((3, PlayerColor::White)));
    board.clear();
    assert_eq!(board, empty_board);
}

#[test]
fn board_has_its_size() {
    let board = Board::new(9, 8);
    assert_eq!(board.width(), 9);
    assert_eq!(board.height(), 8);
    assert_eq!(board.name(), "Board");
}

#[test]
fn board_last_row_and_column_are_squares() {
    let mut board = Board::new(9, 8);
    assert_eq!(board.set(8, 7, Some((4, PlayerColor::Black))), Ok(()));
    assert_eq!(board.get(8, 7), Ok(Some((4, PlayerColor::Black))));
    assert_eq!(board.set(8, 0, Some((5, PlayerColor::White))), Ok(()));
    assert_eq!(board.set(0, 7, Some((6, PlayerColor::White))), Ok(()));
    assert_eq!(board.get(8, 0), Ok(Some((5, PlayerColor::White))));
    assert_eq!(board.get(0, 7), Ok(Some((6, PlayerColor::White))));
    assert_eq!(board.get(7, 7), Ok(None));
}

#[test]
fn board_set_then_get_on_every_square() {
    let mut board = Board::new(4, 3);
    for x in 0..4 {
        for y in 0..3 {
            board.set(x, y, Some((x * 3 + y, PlayerColor::Black))).unwrap();
        }
    }
    for x in 0..4 {
        for y in 0..3 {
            assert_eq!(board.get(x, y), Ok(Some((x * 3 + y, PlayerColor::Black))));
        }
    }
    board.set(2, 1, None).unwrap();
    assert_eq!(board.get(2, 1), Ok(None));
    assert_eq!(board.get(2, 0), Ok(Some((6, PlayerColor::Black))));
    assert_eq!(board.get(2, 2), Ok(Some((8, PlayerColor::Black))));
    assert_eq!(board.get(1, 1), Ok(Some((4, PlayerColor::Black))));
}

#[test]
fn board_bound_itself_is_out() {
    let mut board = Board::new(9, 8);
    assert_eq!(board.get(9, 0), Err(BoardError::OutOfBounds(9, 0)));
    assert_eq!(board.get(0, 8), Err(BoardError::OutOfBounds(0, 8)));
    assert_eq!(board.set(9, 7, None), Err(BoardError::OutOfBounds(9, 7)));
    assert_eq!(board.set(8, 8, None), Err(BoardError::OutOfBounds(8, 8)));
    assert_eq!(board.clear_pos(0, 8), Err(BoardError::OutOfBounds(0, 8)));
    assert_eq!(board.clear_pos(usize::MAX, 0), Err(BoardError::OutOfBounds(usize::MAX, 0)));
    assert_eq!(board.move_piece(9, 0, 0, 0), Err(BoardError::OutOfBounds(9, 0)));
    assert_eq!(board.move_piece(0, 0, 0, 8), Err(BoardError::OutOfBounds(0, 8)));
    assert_eq!(board.move_piece(9, 9, 10, 10), Err(BoardError::OutOfBounds(9, 9)));
}

#[test]
fn board_failed_calls_change_nothing() {
    let mut board = Board::new(5, 5);
    board.set(1, 1, Some((1, PlayerColor::White))).unwrap();
    let before = board.clone();
    assert!(board.set(5, 1, Some((2, PlayerColor::Black))).is_err());
    assert!(board.move_piece(1, 1, 5, 5).is_err());
    assert!(board.move_piece(5, 5, 1, 1).is_err());
    assert!(board.clear_pos(1, 5).is_err());
    assert_eq!(board, before);
}

#[test]
fn board_move_overwrites_and_empties() {
    let mut board = Board::new(5, 5);
    board.set(1, 1, Some((1, PlayerColor::White))).unwrap();
    board.set(2, 2, Some((2, PlayerColor::Black))).unwrap();
    assert_eq!(board.move_piece(1, 1, 2, 2), Ok(()));
    assert_eq!(board.get(2, 2), Ok(Some((1, PlayerColor::White))));
    assert_eq!(board.get(1, 1), Ok(None));
    assert_eq!(board.move_piece(0, 0, 2, 2), Ok(()));
    assert_eq!(board.get(2, 2), Ok(None));
    board.set(3, 3, Some((7, PlayerColor::Black))).unwrap();
    assert_eq!(board.move_piece(3, 3, 3, 3), Ok(()));
    assert_eq!(board.get(3, 3), Ok(None));
}

#[test]
fn board_clear_keeps_size_and_name() {
    let mut board = Board::new(6, 2);
    board.set_name("Hall");
    board.set(5, 1, Some((1, PlayerColor::White))).unwrap();
    board.clear();
    assert_eq!(board.width(), 6);
    assert_eq!(board.height(), 2);
    assert_eq!(board.name(), "Hall");
    for x in 0..6 {
        for y in 0..2 {
            assert_eq!(board.get(x, y), Ok(None));
        }
    }
    assert_ne!(board, Board::new(6, 2));
    board.set_name("Board");
    assert_eq!(board, Board::new(6, 2));
}

#[test]
fn board_equality_looks_at_all() {
    let mut a = Board::new(3, 4);
    let mut b = Board::new(3, 4);
    assert_eq!(a, b);
    assert_ne!(a, Board::new(4, 3));
    assert_ne!(a, Board::new(3, 5));
    a.set(2, 3, Some((1, PlayerColor::White))).unwrap();
    assert_ne!(a, b);
    b.set(2, 3, Some((1, PlayerColor::Black))).unwrap();
    assert_ne!(a, b);
    b.set(2, 3, Some((2, PlayerColor::White))).unwrap();
    assert_ne!(a, b);
    b.set(2, 3, Some((1, PlayerColor::White))).unwrap();
    assert_eq!(a, b);
    b.set_name("other");
    assert_ne!(a, b);
}

#[test]
fn board_clone_is_equal_and_apart() {
    let mut a = Board::new(3, 4);
    a.set_name("first");
    a.set(0, 3, Some((9, PlayerColor::Black))).unwrap();
    let mut b = a.clone();
    assert_eq!(a, b);
    b.set(0, 0, Some((1, PlayerColor::White))).unwrap();
    assert_eq!(a.get(0, 0), Ok(None));
    assert_eq!(a.get(0, 3), Ok(Some((9, PlayerColor::Black))));
}
