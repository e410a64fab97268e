use reversi::common::{Action, LineDirection, PlayerColor, Square, BOARD_SIZE};
use reversi::grid_board::Board;

#[test]
fn board_test_get_line() {
    let board = Board::new();

    let line0 = board.get_line(0, 0, LineDirection::Left2Right);
    assert!(line0.iter().all(|s| *s == Square::Empty));

    let line1 = board.get_line(0, 0, LineDirection::Top2Bottom);
    assert!(line1.iter().all(|s| *s == Square::Empty));

    let line2 = board.get_line(0, 0, LineDirection::TopLeft2BottomRight);
    assert!(line2[0] == Square::Empty);
    assert!(line2[1] == Square::Empty);
    assert!(line2[2] == Square::Empty);
    assert!(line2[3] == Square::White);
    assert!(line2[4] == Square::White);
    assert!(line2[5] == Square::Empty);
    assert!(line2[6] == Square::Empty);
    assert!(line2[7] == Square::Empty);

    let line3 = board.get_line(0, 0, LineDirection::BottomLeft2TopRight);
    assert!(line3.iter().all(|s| *s == Square::Empty));

    let line4 = board.get_line(BOARD_SIZE - 1, 0, LineDirection::BottomLeft2TopRight);
    assert!(line4[0] == Square::Empty);
    assert!(line4[1] == Square::Empty);
    assert!(line4[2] == Square::Empty);
    assert!(line4[3] == Square::Black);
    assert!(line4[4] == Square::Black);
    assert!(line4[5] == Square::Empty);
    assert!(line4[6] == Square::Empty);
    assert!(line4[7] == Square::Empty);
}

#[test]
fn board_test_apply_action() {
    let mut board = Board::new();

    let act = Action::new_move(PlayerColor::Black, 0, 0);
    let r = board.apply_action(&act);
    assert!(!r);

    let act = Action::new_move(PlayerColor::Black, 2, 3);
    let r = board.apply_action(&act);
    assert!(r);
    assert!(board.squares[2][3] == Square::Black);
    assert!(board.squares[3][3] == Square::Black);
    assert!(board.squares[4][3] == Square::Black);
    assert!(board.squares[3][4] == Square::Black);
    assert!(board.squares[4][4] == Square::White);

    let act = Action::new_move(PlayerColor::White, 2, 2);
    let r = board.apply_action(&act);
    assert!(r);
    assert!(board.squares[2][3] == Square::Black);
    assert!(board.squares[4][3] == Square::Black);
    assert!(board.squares[3][4] == Square::Black);
    assert!(board.squares[2][2] == Square::White);
    assert!(board.squares[3][3] == Square::White);
    assert!(board.squares[4][4] == Square::White);
}

#[test]
fn grid_board_lists_moves_and_refuses_what_is_not_legal() {
    let mut board = Board::new();
    assert_eq!(board.get_movable_positions(PlayerColor::Black), vec![(2, 3), (3, 2), (4, 5), (5, 4)]);
    assert_eq!(board.get_movable_positions(PlayerColor::White), vec![(2, 4), (3, 5), (4, 2), (5, 3)]);
    assert!(!board.can_pass(PlayerColor::Black));
    let before = board.squares.clone();
    assert!(!board.apply_action(&Action::new_pass(PlayerColor::Black)));
    assert!(!board.apply_action(&Action::new_move(PlayerColor::Black, 3, 3)));
    assert!(!board.apply_action(&Action::new_move(PlayerColor::Black, 7, 7)));
    assert_eq!(board.squares, before);
    let (l2r, t2b, tl2br, bl2tr) = board.get_flip_infos(PlayerColor::Black, 2, 3);
    assert_eq!((l2r.lower, l2r.higher), (0, 0));
    assert_eq!((t2b.lower, t2b.higher), (0, 1));
    assert_eq!(tl2br.flip_count() + bl2tr.flip_count(), 0);

    for row in board.squares.iter_mut() {
        for s in row.iter_mut() {
            *s = Square::Empty;
        }
    }
    board.squares[0][0] = Square::Black;
    board.squares[0][1] = Square::White;
    assert!(board.can_pass(PlayerColor::White));
    let before = board.squares.clone();
    assert!(board.apply_action(&Action::new_pass(PlayerColor::White)));
    assert_eq!(board.squares, before);
    assert!(board.apply_action(&Action::new_move(PlayerColor::Black, 0, 2)));
    assert_eq!(board.squares[0], vec![
        Square::Black,
        Square::Black,
        Square::Black,
        Square::Empty,
        Square::Empty,
        Square::Empty,
        Square::Empty,
        Square::Empty
    ]);
}
