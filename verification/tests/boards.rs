use reversi::array_board::ArrayBoard;
use reversi::bit_board::{
    data_to_positions, data_to_squares, flip, flip_data, movable_position, position_to_data,
    squares_to_data, BitBoard,
};
use reversi::board::Board;
use reversi::common::{
    index_to_position, position_to_index, squares_to_string, Action, ActionType, LineDirection,
    PlayerColor, Position, Square, Squares, BOARD_SIZE,
};
use reversi::index_board::IndexBoard;
use reversi::indexer::Indexer;
use std::rc::Rc;

#[test]
fn array_board_test_apply_action() {
    let board = ArrayBoard::new_initial();

    let act = Action::new(PlayerColor::Black, ActionType::Move(Position(0, 0)));
    let r = board.apply_action(&act);
    assert!(r.is_none());

    let act = Action::new(PlayerColor::Black, ActionType::Move(Position(2, 3)));
    let r = board.apply_action(&act);
    assert!(r.is_some());
    let next_board = r.unwrap();
    assert!(next_board.squares()[position_to_index(&Position(2, 3))] == Square::Black);
    assert!(next_board.squares()[position_to_index(&Position(3, 3))] == Square::Black);
    assert!(next_board.squares()[position_to_index(&Position(4, 3))] == Square::Black);
    assert!(next_board.squares()[position_to_index(&Position(3, 4))] == Square::Black);
    assert!(next_board.squares()[position_to_index(&Position(4, 4))] == Square::White);

    let act = Action::new(PlayerColor::White, ActionType::Move(Position(2, 2)));
    let r = next_board.apply_action(&act);
    assert!(r.is_some());
    let next_board = r.unwrap();
    assert!(next_board.squares()[position_to_index(&Position(2, 3))] == Square::Black);
    assert!(next_board.squares()[position_to_index(&Position(4, 3))] == Square::Black);
    assert!(next_board.squares()[position_to_index(&Position(3, 4))] == Square::Black);
    assert!(next_board.squares()[position_to_index(&Position(2, 2))] == Square::White);
    assert!(next_board.squares()[position_to_index(&Position(3, 3))] == Square::White);
    assert!(next_board.squares()[position_to_index(&Position(4, 4))] == Square::White);
}

#[test]
fn bit_board_test_data_to_squares() {
    let mut black = position_to_data(&Position(0, 0));
    black |= position_to_data(&Position(0, 1));

    let mut white = position_to_data(&Position(1, 0));
    white |= position_to_data(&Position(1, 1));

    let squares = data_to_squares(black, white);
    assert!(squares[position_to_index(&Position(0, 0))] == Square::Black);
    assert!(squares[position_to_index(&Position(0, 1))] == Square::Black);
    assert!(squares[position_to_index(&Position(1, 0))] == Square::White);
    assert!(squares[position_to_index(&Position(1, 1))] == Square::White);
}

#[test]
fn bit_board_test_squares_to_data() {
    let mut black = position_to_data(&Position(0, 0));
    black |= position_to_data(&Position(0, 1));

    let mut white = position_to_data(&Position(1, 0));
    white |= position_to_data(&Position(1, 1));

    let squares = data_to_squares(black, white);
    let (black_data, white_data) = squares_to_data(&squares);
    assert_eq!(black_data, black);
    assert_eq!(white_data, white);
}

#[test]
fn bit_board_test_movable_position() {
    let mut squares: Squares = [Square::Empty; BOARD_SIZE * BOARD_SIZE];
    squares[position_to_index(&Position(3, 4))] = Square::Black;
    squares[position_to_index(&Position(4, 3))] = Square::Black;
    squares[position_to_index(&Position(3, 3))] = Square::White;
    squares[position_to_index(&Position(4, 4))] = Square::White;

    let (black, white) = squares_to_data(&squares);
    let pos = movable_position(black, white);
    let temp = data_to_squares(pos, 0);
    assert!(temp[position_to_index(&Position(2, 3))] == Square::Black);
    assert!(temp[position_to_index(&Position(3, 2))] == Square::Black);
    assert!(temp[position_to_index(&Position(4, 5))] == Square::Black);
    assert!(temp[position_to_index(&Position(5, 4))] == Square::Black);

    for r in 0..BOARD_SIZE {
        for c in 0..BOARD_SIZE {
            if r == 2 && c == 3 || r == 3 && c == 2 || r == 4 && c == 5 || r == 5 && c == 4 {
                continue;
            }
            assert!(temp[position_to_index(&Position(r, c))] == Square::Empty);
        }
    }
}

#[test]
fn bit_board_test_apply_action() {
    let board = BitBoard::new_initial();

    let act = Action::new(PlayerColor::Black, ActionType::Move(Position(0, 0)));
    let r = board.apply_action(&act);
    assert!(r.is_none());

    let act = Action::new(PlayerColor::Black, ActionType::Move(Position(2, 3)));
    let r = board.apply_action(&act);
    assert!(r.is_some());
    let next_board = r.unwrap();
    assert!(next_board.squares()[position_to_index(&Position(2, 3))] == Square::Black);
    assert!(next_board.squares()[position_to_index(&Position(3, 3))] == Square::Black);
    assert!(next_board.squares()[position_to_index(&Position(4, 3))] == Square::Black);
    assert!(next_board.squares()[position_to_index(&Position(3, 4))] == Square::Black);
    assert!(next_board.squares()[position_to_index(&Position(4, 4))] == Square::White);

    let act = Action::new(PlayerColor::White, ActionType::Move(Position(2, 2)));
    let r = next_board.apply_action(&act);
    assert!(r.is_some());
    let next_board = r.unwrap();
    assert!(next_board.squares()[position_to_index(&Position(2, 3))] == Square::Black);
    assert!(next_board.squares()[position_to_index(&Position(4, 3))] == Square::Black);
    assert!(next_board.squares()[position_to_index(&Position(3, 4))] == Square::Black);
    assert!(next_board.squares()[position_to_index(&Position(2, 2))] == Square::White);
    assert!(next_board.squares()[position_to_index(&Position(3, 3))] == Square::White);
    assert!(next_board.squares()[position_to_index(&Position(4, 4))] == Square::White);
}

#[test]
fn test_square_count() {
    let board = BitBoard::new_initial();

    assert_eq!(board.black_count(), 2);
    assert_eq!(board.white_count(), 2);
    assert_eq!(board.empty_count(), 60);
}

#[test]
fn index_board_test_get_line() {
    let indexer = Rc::new(Indexer::new());
    let board = IndexBoard::new_initial(indexer);

    let line0 = board.get_line(Position(0, 0), LineDirection::Left2Right);
    assert!(line0.iter().all(|s| *s == Square::Empty));

    let line1 = board.get_line(Position(0, 0), LineDirection::Top2Bottom);
    assert!(line1.iter().all(|s| *s == Square::Empty));

    let line2 = board.get_line(Position(0, 0), LineDirection::TopLeft2BottomRight);
    assert!(line2[0] == Square::Empty);
    assert!(line2[1] == Square::Empty);
    assert!(line2[2] == Square::Empty);
    assert!(line2[3] == Square::White);
    assert!(line2[4] == Square::White);
    assert!(line2[5] == Square::Empty);
    assert!(line2[6] == Square::Empty);
    assert!(line2[7] == Square::Empty);

    let line3 = board.get_line(Position(0, 0), LineDirection::BottomLeft2TopRight);
    assert!(line3.iter().all(|s| *s == Square::Empty));

    let line4 = board.get_line(Position(BOARD_SIZE - 1, 0), LineDirection::BottomLeft2TopRight);
    assert!(line4[0] == Square::Empty);
    assert!(line4[1] == Square::Empty);
    assert!(line4[2] == Square::Empty);
    assert!(line4[3] == Square::Black);
    assert!(line4[4] == Square::Black);
    assert!(line4[5] == Square::Empty);
    assert!(line4[6] == Square::Empty);
    assert!(line4[7] == Square::Empty);
}

#[test]
fn index_board_test_apply_action() {
    let indexer = Rc::new(Indexer::new());
    let board = IndexBoard::new_initial(indexer);

    let act = Action::new(PlayerColor::Black, ActionType::Move(Position(0, 0)));
    let r = board.apply_action(&act);
    assert!(r.is_none());

    let act = Action::new(PlayerColor::Black, ActionType::Move(Position(2, 3)));
    let r = board.apply_action(&act);
    assert!(r.is_some());
    let next_board = r.unwrap();
    assert!(next_board.squares()[position_to_index(&Position(2, 3))] == Square::Black);
    assert!(next_board.squares()[position_to_index(&Position(3, 3))] == Square::Black);
    assert!(next_board.squares()[position_to_index(&Position(4, 3))] == Square::Black);
    assert!(next_board.squares()[position_to_index(&Position(3, 4))] == Square::Black);
    assert!(next_board.squares()[position_to_index(&Position(4, 4))] == Square::White);

    let act = Action::new(PlayerColor::White, ActionType::Move(Position(2, 2)));
    let r = next_board.apply_action(&act);
    assert!(r.is_some());
    let next_board = r.unwrap();
    assert!(next_board.squares()[position_to_index(&Position(2, 3))] == Square::Black);
    assert!(next_board.squares()[position_to_index(&Position(4, 3))] == Square::Black);
    assert!(next_board.squares()[position_to_index(&Position(3, 4))] == Square::Black);
    assert!(next_board.squares()[position_to_index(&Position(2, 2))] == Square::White);
    assert!(next_board.squares()[position_to_index(&Position(3, 3))] == Square::White);
    assert!(next_board.squares()[position_to_index(&Position(4, 4))] == Square::White);
}

fn sorted(mut positions: Vec<Position>) -> Vec<(usize, usize)> {
    positions.sort_by_key(|p| (p.0, p.1));
    positions.iter().map(|p| (p.0, p.1)).collect()
}

#[test]
fn opening_moves_are_the_four_known_ones() {
    let expected = vec![(2, 3), (3, 2), (4, 5), (5, 4)];
    let array = ArrayBoard::new_initial();
    assert_eq!(sorted(array.get_movable_positions(&PlayerColor::Black)), expected);
    let index = IndexBoard::new_initial(Rc::new(Indexer::new()));
    assert_eq!(sorted(index.get_movable_positions(&PlayerColor::Black)), expected);
    let bit = BitBoard::new_initial();
    assert_eq!(sorted(bit.get_movable_positions(&PlayerColor::Black)), expected);
}

#[test]
fn basic_capture_and_refusal_and_cross_capture() {
    let board = BitBoard::new_initial();
    let first = board
        .apply_action(&Action::new(PlayerColor::Black, ActionType::Move(Position(2, 3))))
        .unwrap();
    assert_eq!(first.depth(), 1);
    for (i, s) in first.squares().iter().enumerate() {
        let expected = match i {
            19 | 27 | 35 | 28 => Square::Black,
            36 => Square::White,
            _ => Square::Empty,
        };
        assert_eq!(*s, expected, "cell {}", i);
    }

    let refused = first.apply_action(&Action::new(PlayerColor::White, ActionType::Move(Position(0, 0))));
    assert!(refused.is_none());
    assert_eq!(first.depth(), 1);
    assert_eq!(first.black_count(), 4);
    assert_eq!(first.white_count(), 1);

    let second = first
        .apply_action(&Action::new(PlayerColor::White, ActionType::Move(Position(2, 2))))
        .unwrap();
    assert_eq!(second.depth(), 2);
    for (i, s) in second.squares().iter().enumerate() {
        let expected = match i {
            18 | 27 | 36 => Square::White,
            19 | 28 | 35 => Square::Black,
            _ => Square::Empty,
        };
        assert_eq!(*s, expected, "cell {}", i);
    }
}

#[test]
fn pass_is_refused_while_a_placement_exists() {
    let board = ArrayBoard::new_initial();
    assert!(board.apply_action(&Action::new_pass(PlayerColor::Black)).is_none());
    let index = IndexBoard::new_initial(Rc::new(Indexer::new()));
    assert!(index.apply_action(&Action::new_pass(PlayerColor::White)).is_none());
    let bit = BitBoard::new_initial();
    assert!(bit.apply_action(&Action::new_pass(PlayerColor::Black)).is_none());
}

#[test]
fn pass_is_made_where_no_placement_exists() {
    let mut squares: Squares = [Square::Empty; 64];
    squares[0] = Square::Black;
    squares[1] = Square::White;
    let board = BitBoard::new(&squares, 6);
    assert!(board.get_movable_positions(&PlayerColor::White).is_empty());
    assert!(!board.is_game_over());
    let next = board.apply_action(&Action::new_pass(PlayerColor::White)).unwrap();
    assert_eq!(next.depth(), 7);
    assert_eq!(next.squares(), board.squares());
    let array = ArrayBoard::new(squares, 6);
    let next = array.apply_action(&Action::new_pass(PlayerColor::White)).unwrap();
    assert_eq!(next.depth(), 7);
    assert_eq!(next.squares(), &squares);
    let index = IndexBoard::new(squares, 6, Rc::new(Indexer::new()));
    let next = index.apply_action(&Action::new_pass(PlayerColor::White)).unwrap();
    assert_eq!(next.depth(), 7);
    assert_eq!(next.squares(), &squares);
}

#[test]
fn short_game_ends_after_ten_moves() {
    let moves = [(4, 5), (5, 5), (5, 4), (3, 5), (2, 4), (1, 3), (2, 3), (5, 3), (3, 2), (3, 1)];
    let mut board = BitBoard::new_initial();
    for (r, c) in moves {
        assert!(!board.is_game_over());
        let action = Action::new(board.turn(), ActionType::Move(Position(r, c)));
        board = board.apply_action(&action).unwrap();
    }
    assert!(board.is_game_over());
    assert_eq!(board.black_count(), 0);
    assert_eq!(board.white_count(), 14);
    assert_eq!(board.depth(), 10);
}

#[test]
fn the_three_boards_agree_along_a_greedy_game() {
    let indexer = Rc::new(Indexer::new());
    let mut array = ArrayBoard::new_initial();
    let mut index = IndexBoard::new_initial(indexer);
    let mut bit = BitBoard::new_initial();
    let mut turns = 0;
    while !bit.is_game_over() {
        assert_eq!(array.squares(), bit.squares());
        assert_eq!(index.squares(), bit.squares());
        for color in [PlayerColor::Black, PlayerColor::White] {
            let a = array.get_movable_positions(&color);
            assert_eq!(a, index.get_movable_positions(&color));
            assert_eq!(a, bit.get_movable_positions(&color));
            for i in 0..64 {
                let p = index_to_position(i);
                let action = Action::new(color, ActionType::Move(p));
                assert_eq!(a.contains(&p), bit.apply_action(&action).is_some());
            }
        }
        assert_eq!(bit.black_count() + bit.white_count() + bit.empty_count(), 64);
        assert_eq!(array.black_count(), bit.black_count());
        assert_eq!(index.white_count(), bit.white_count());
        assert_eq!(array.empty_count(), bit.empty_count());
        let color = bit.turn();
        let positions = bit.get_movable_positions(&color);
        let action = if positions.is_empty() {
            Action::new_pass(color)
        } else {
            Action::new(color, ActionType::Move(positions[positions.len() / 2]))
        };
        let depth = bit.depth();
        array = array.apply_action(&action).unwrap();
        index = index.apply_action(&action).unwrap();
        bit = bit.apply_action(&action).unwrap();
        assert_eq!(bit.depth(), depth + 1);
        assert_eq!(array.depth(), depth + 1);
        assert_eq!(index.depth(), depth + 1);
        turns += 1;
        assert!(turns < 200);
    }
    assert!(array.is_game_over());
    assert!(index.is_game_over());
    assert_eq!(array.squares(), bit.squares());
    assert_eq!(index.squares(), bit.squares());
}

#[test]
fn positions_and_indices_convert_both_ways() {
    assert_eq!(position_to_index(&Position(0, 0)), 0);
    assert_eq!(position_to_index(&Position(3, 4)), 28);
    assert_eq!(position_to_index(&Position(7, 7)), 63);
    assert_eq!(index_to_position(28), Position(3, 4));
    assert_eq!(index_to_position(63), Position(7, 7));
    for i in 0..64 {
        assert_eq!(position_to_index(&index_to_position(i)), i);
    }
    assert_eq!(PlayerColor::Black.opponent(), PlayerColor::White);
    assert_eq!(PlayerColor::White.opponent(), PlayerColor::Black);
    assert_eq!(PlayerColor::White.to_square(), Square::White);
    assert_eq!(
        Action::new_move(PlayerColor::Black, 2, 3),
        Action::new(PlayerColor::Black, ActionType::Move(Position(2, 3)))
    );
}

#[test]
fn bit_words_and_positions() {
    assert_eq!(position_to_data(&Position(0, 0)), 1);
    assert_eq!(position_to_data(&Position(1, 0)), 0x100);
    assert_eq!(position_to_data(&Position(7, 7)), 0x8000_0000_0000_0000);
    assert_eq!(
        data_to_positions(0x8000_0000_0000_0101),
        vec![Position(0, 0), Position(1, 0), Position(7, 7)]
    );
    assert!(data_to_positions(0).is_empty());
    let board = BitBoard::new_initial();
    let (black, white) = squares_to_data(board.squares());
    assert_eq!(black, (1 << 28) | (1 << 35));
    assert_eq!(white, (1 << 27) | (1 << 36));
    let placed = position_to_data(&Position(2, 3));
    assert_eq!(flip_data(black, white, placed), 1 << 27);
    assert_eq!(flip(black, white, placed), (black | placed | (1 << 27), 1 << 36));
    assert_eq!(flip_data(black, white, position_to_data(&Position(0, 0))), 0);
    let from_words = BitBoard::new_from_data(black, white, 3);
    assert_eq!(from_words.squares(), board.squares());
    assert_eq!(from_words.depth(), 3);
    assert_eq!(from_words.turn(), PlayerColor::White);
    assert_eq!(board.duplicate().squares(), board.squares());
}

#[test]
fn a_run_to_the_edge_captures_nothing_and_does_not_wrap() {
    let mut squares: Squares = [Square::Empty; 64];
    squares[position_to_index(&Position(2, 5))] = Square::Black;
    squares[position_to_index(&Position(2, 6))] = Square::White;
    squares[position_to_index(&Position(2, 7))] = Square::White;
    squares[position_to_index(&Position(3, 0))] = Square::White;
    squares[position_to_index(&Position(3, 1))] = Square::White;
    let bit = BitBoard::new(&squares, 0);
    let array = ArrayBoard::new(squares, 0);
    let index = IndexBoard::new(squares, 0, Rc::new(Indexer::new()));
    assert!(bit.get_movable_positions(&PlayerColor::Black).is_empty());
    assert!(array.get_movable_positions(&PlayerColor::Black).is_empty());
    assert!(index.get_movable_positions(&PlayerColor::Black).is_empty());
    assert_eq!(array.get_flip_count(&PlayerColor::Black, &Position(3, 2), &(-1, 0)), 0);
    assert_eq!(sorted(bit.get_movable_positions(&PlayerColor::White)), vec![(2, 4)]);
    assert_eq!(array.get_flip_count(&PlayerColor::White, &Position(2, 4), &(1, 0)), 1);
}

#[test]
fn six_stones_are_captured_along_a_whole_line() {
    let mut squares: Squares = [Square::Empty; 64];
    for c in 1..7 {
        squares[position_to_index(&Position(4, c))] = Square::White;
    }
    squares[position_to_index(&Position(4, 7))] = Square::Black;
    let action = Action::new(PlayerColor::Black, ActionType::Move(Position(4, 0)));
    let bit = BitBoard::new(&squares, 0).apply_action(&action).unwrap();
    let array = ArrayBoard::new(squares, 0).apply_action(&action).unwrap();
    let index = IndexBoard::new(squares, 0, Rc::new(Indexer::new())).apply_action(&action).unwrap();
    for c in 0..8 {
        assert_eq!(bit.squares()[32 + c], Square::Black);
    }
    assert_eq!(bit.black_count(), 8);
    assert_eq!(array.squares(), bit.squares());
    assert_eq!(index.squares(), bit.squares());
    assert!(bit.is_game_over());
}

#[test]
fn board_text_has_header_rule_and_rows() {
    let board = BitBoard::new_initial();
    let text = squares_to_string(board.squares());
    let expected = "   a b c d e f g h\n   ----------------\n\
1| . . . . . . . .\n\
2| . . . . . . . .\n\
3| . . . . . . . .\n\
4| . . . w b . . .\n\
5| . . . b w . . .\n\
6| . . . . . . . .\n\
7| . . . . . . . .\n\
8| . . . . . . . .\n";
    assert_eq!(text, expected);
}

#[test]
fn the_game_is_over_exactly_when_nobody_can_place() {
    let mut boards = vec![BitBoard::new_initial()];
    let moves = [(4, 5), (5, 5), (5, 4), (3, 5), (2, 4), (1, 3), (2, 3), (5, 3), (3, 2), (3, 1)];
    for (r, c) in moves {
        let last = boards.last().unwrap();
        let next = last.apply_action(&Action::new_move(last.turn(), r, c)).unwrap();
        boards.push(next);
    }
    let mut lonely: Squares = [Square::Empty; 64];
    lonely[0] = Square::Black;
    lonely[1] = Square::White;
    boards.push(BitBoard::new(&lonely, 0));
    boards.push(BitBoard::new(&[Square::Empty; 64], 0));
    boards.push(BitBoard::new(&[Square::White; 64], 0));
    for board in boards.iter() {
        let nobody = board.get_movable_positions(&PlayerColor::Black).is_empty()
            && board.get_movable_positions(&PlayerColor::White).is_empty();
        assert_eq!(board.is_game_over(), nobody);
        let array = ArrayBoard::new(*board.squares(), board.depth());
        assert_eq!(array.is_game_over(), nobody);
        assert_eq!(array.black_count() + array.white_count() + array.empty_count(), 64);
    }
    assert!(boards[10].is_game_over());
    assert!(!boards[11].is_game_over());
    assert!(boards[12].is_game_over());
    assert!(boards[13].is_game_over());
}
