use reversi::array_board::ArrayBoard;
use reversi::bit_board::BitBoard;
use reversi::board::Board;
use reversi::common::{Action, ActionType, PlayerColor, Position, Square, Squares, BOARD_SIZE};
use reversi::evaluator::{simple_evaluate, SimpleEvaluator};
use reversi::game::{parse_move, play_turn, AiPlayer, GameState, Player};
use reversi::game_tree::{search_game_tree, GameTreeNode, SearchType};
use reversi::game_tree_node::{actions_of, GameTreeNode__, Node, State};
use reversi::index_board::IndexBoard;
use reversi::indexer::Indexer;
use reversi::reversi_node::{ReversiNode, ReversiState};
use std::rc::Rc;

#[test]
fn test_simple_evaluate() {
    let board = BitBoard::new_initial();
    let result0 = simple_evaluate(board.squares(), &PlayerColor::Black);
    assert_eq!(result0.value, 0);

    let result1 = simple_evaluate(board.squares(), &PlayerColor::White);
    assert_eq!(result1.value, 0);

    let mut squares: Squares = [Square::Empty; BOARD_SIZE * BOARD_SIZE];
    squares[0] = Square::Black;
    squares[1] = Square::White;

    let result2 = simple_evaluate(&squares, &PlayerColor::Black);
    assert_eq!(result2.value, 42);

    let result3 = simple_evaluate(&squares, &PlayerColor::White);
    assert_eq!(result3.value, -42);
}

#[test]
fn game_tree_test_game_tree_negaalpha_search() {
    let indexer = Rc::new(Indexer::new());
    let board = IndexBoard::new_initial(indexer);
    let mut node = GameTreeNode::new(&board, &PlayerColor::Black, None);

    let mut searched_nodes: usize = 0;
    let value_action = node.search::<SimpleEvaluator>(&SearchType::NegaAlpha, 2, &mut searched_nodes);

    assert_eq!(value_action.0, -1);

    let act = Action::new(PlayerColor::Black, ActionType::Move(Position(2, 3)));
    assert_eq!(value_action.1.unwrap(), act);
}

#[test]
fn game_tree_test_game_tree_negamax_search() {
    let indexer = Rc::new(Indexer::new());
    let board = IndexBoard::new_initial(indexer);
    let mut node = GameTreeNode::new(&board, &PlayerColor::Black, None);

    let mut searched_nodes: usize = 0;
    let value_action = node.search::<SimpleEvaluator>(&SearchType::NegaMax, 2, &mut searched_nodes);

    assert_eq!(value_action.0, -1);

    let act = Action::new(PlayerColor::Black, ActionType::Move(Position(2, 3)));
    assert_eq!(value_action.1.unwrap(), act);
}

#[test]
fn game_tree_test_search_game_tree() {
    let board = ArrayBoard::new_initial();
    let squares = board.squares();
    let depth = 7;

    let nega_max_result =
        search_game_tree::<SimpleEvaluator>(squares, &PlayerColor::Black, &SearchType::NegaMax, depth);
    assert!(nega_max_result.action != None);
    println!("[NegaMax] depth: {},  searched_nodes: {}", depth, nega_max_result.searched_nodes);

    let nega_alpha_result =
        search_game_tree::<SimpleEvaluator>(squares, &PlayerColor::Black, &SearchType::NegaAlpha, depth);
    assert!(nega_alpha_result.action != None);
    println!("[NegaAlpha] depth: {},  searched_nodes: {}", depth, nega_alpha_result.searched_nodes);
    assert!(nega_alpha_result.searched_nodes < nega_max_result.searched_nodes);
}

#[test]
fn game_tree_node_test_game_tree_negaalpha_search() {
    let indexer = Rc::new(Indexer::new());
    let board = IndexBoard::new_initial(indexer);
    let mut node = GameTreeNode::new(&board, &PlayerColor::Black, None);

    let mut searched_nodes: usize = 0;
    let value_action = node.search::<SimpleEvaluator>(&SearchType::NegaAlpha, 2, &mut searched_nodes);

    assert_eq!(value_action.0, -1);

    let act = Action::new(PlayerColor::Black, ActionType::Move(Position(2, 3)));
    assert_eq!(value_action.1.unwrap(), act);
}

#[test]
fn game_tree_node_test_game_tree_negamax_search() {
    let indexer = Rc::new(Indexer::new());
    let board = IndexBoard::new_initial(indexer);
    let mut node = GameTreeNode::new(&board, &PlayerColor::Black, None);

    let mut searched_nodes: usize = 0;
    let value_action = node.search::<SimpleEvaluator>(&SearchType::NegaMax, 2, &mut searched_nodes);

    assert_eq!(value_action.0, -1);

    let act = Action::new(PlayerColor::Black, ActionType::Move(Position(2, 3)));
    assert_eq!(value_action.1.unwrap(), act);
}

#[test]
fn game_tree_node_test_search_game_tree() {
    let board = ArrayBoard::new_initial();
    let squares = board.squares();
    let depth = 7;

    let nega_max_result =
        search_game_tree::<SimpleEvaluator>(squares, &PlayerColor::Black, &SearchType::NegaMax, depth);
    println!("[NegaMax] depth: {},  searched_nodes: {}", depth, nega_max_result.searched_nodes);

    let nega_alpha_result =
        search_game_tree::<SimpleEvaluator>(squares, &PlayerColor::Black, &SearchType::NegaAlpha, depth);
    println!("[NegaAlpha] depth: {},  searched_nodes: {}", depth, nega_alpha_result.searched_nodes);
    assert!(nega_alpha_result.searched_nodes < nega_max_result.searched_nodes);
}

#[test]
fn depth_zero_evaluates_the_root_and_chooses_nothing() {
    let board = BitBoard::new_initial();
    for search_type in [SearchType::NegaMax, SearchType::NegaAlpha] {
        let result = search_game_tree::<SimpleEvaluator>(board.squares(), &PlayerColor::Black, &search_type, 0);
        assert_eq!(result.value, 0);
        assert_eq!(result.action, None);
        assert_eq!(result.searched_nodes, 1);
    }
}

#[test]
fn depth_one_takes_the_first_best_reply_value() {
    let board = BitBoard::new_initial();
    let result = search_game_tree::<SimpleEvaluator>(
        board.squares(),
        &PlayerColor::Black,
        &SearchType::NegaMax,
        1,
    );
    assert_eq!(result.value, -3);
    assert_eq!(result.action, Some(Action::new_move(PlayerColor::Black, 2, 3)));
    assert_eq!(result.searched_nodes, 5);

    let first = board.apply_action(&Action::new_move(PlayerColor::Black, 2, 3)).unwrap();
    let positions = first.get_movable_positions(&PlayerColor::White);
    let mut best = i32::MIN + 1;
    let mut best_move = None;
    for p in positions.iter() {
        let action = Action::new(PlayerColor::White, ActionType::Move(*p));
        let next = first.apply_action(&action).unwrap();
        let v = -simple_evaluate(next.squares(), &PlayerColor::Black).value;
        if v > best {
            best = v;
            best_move = Some(action);
        }
    }
    let result = search_game_tree::<SimpleEvaluator>(
        first.squares(),
        &PlayerColor::White,
        &SearchType::NegaMax,
        1,
    );
    assert_eq!(result.value, best);
    assert_eq!(result.action, best_move);
    let pruned = search_game_tree::<SimpleEvaluator>(
        first.squares(),
        &PlayerColor::White,
        &SearchType::NegaAlpha,
        1,
    );
    assert_eq!(pruned.value, best);
    assert_eq!(pruned.action, best_move);
    assert_eq!(pruned.searched_nodes, result.searched_nodes);
}

#[test]
fn search_passes_where_the_side_to_move_has_no_placement() {
    let mut squares: Squares = [Square::Empty; 64];
    squares[0] = Square::Black;
    squares[1] = Square::White;
    for search_type in [SearchType::NegaMax, SearchType::NegaAlpha] {
        let result = search_game_tree::<SimpleEvaluator>(&squares, &PlayerColor::White, &search_type, 2);
        assert_eq!(result.action, Some(Action::new_pass(PlayerColor::White)));
        assert_eq!(result.value, -18);
        assert_eq!(result.searched_nodes, 3);
    }
}

#[test]
fn search_stops_where_the_game_is_over() {
    let mut squares: Squares = [Square::Empty; 64];
    squares[0] = Square::Black;
    squares[63] = Square::White;
    for search_type in [SearchType::NegaMax, SearchType::NegaAlpha] {
        let result = search_game_tree::<SimpleEvaluator>(&squares, &PlayerColor::Black, &search_type, 5);
        assert_eq!(result.action, None);
        assert_eq!(result.value, 0);
        assert_eq!(result.searched_nodes, 1);
    }
}

#[test]
fn node_counts_of_the_opening() {
    let board = BitBoard::new_initial();
    let counts = [1, 5, 17, 73];
    for (depth, count) in counts.iter().enumerate() {
        let result = search_game_tree::<SimpleEvaluator>(
            board.squares(),
            &PlayerColor::Black,
            &SearchType::NegaMax,
            depth,
        );
        assert_eq!(result.searched_nodes, *count);
    }
}

struct FirstMovePlayer();

impl Player for FirstMovePlayer {
    fn take_action(&self, state: &GameState) -> Action {
        let color = state.turn;
        let board = BitBoard::new(&state.board, state.depth);
        let positions = board.get_movable_positions(&color);

        if positions.is_empty() {
            return Action::new_pass(color);
        }

        Action::new(color, ActionType::Move(positions[0]))
    }
}

struct ShortestGamePlayer {}

impl Player for ShortestGamePlayer {
    fn take_action(&self, state: &GameState) -> Action {
        let color = state.turn;
        match state.depth {
            0 => Action::new(color, ActionType::Move(Position(4, 5))),
            1 => Action::new(color, ActionType::Move(Position(5, 5))),
            2 => Action::new(color, ActionType::Move(Position(5, 4))),
            3 => Action::new(color, ActionType::Move(Position(3, 5))),
            4 => Action::new(color, ActionType::Move(Position(2, 4))),
            5 => Action::new(color, ActionType::Move(Position(1, 3))),
            6 => Action::new(color, ActionType::Move(Position(2, 3))),
            7 => Action::new(color, ActionType::Move(Position(5, 3))),
            8 => Action::new(color, ActionType::Move(Position(3, 2))),
            9 => Action::new(color, ActionType::Move(Position(3, 1))),
            _ => Action::new_pass(color),
        }
    }
}

fn run<T: Board>(initial: T, black: &dyn Player, white: &dyn Player) -> (GameState, Vec<T>, Vec<Action>) {
    let mut board = initial;
    let mut history = Vec::new();
    let mut record = Vec::new();
    loop {
        let state = GameState::new(&board);
        let action = if board.turn() == PlayerColor::Black {
            black.take_action(&state)
        } else {
            white.take_action(&state)
        };
        let (next, over) = play_turn(board, &action, &mut history, &mut record);
        board = next;
        if over {
            break;
        }
    }
    (GameState::new(&board), history, record)
}

#[test]
fn test_play_game() {
    {
        let board = BitBoard::new_initial();
        let (state, history, record) = run(board, &FirstMovePlayer {}, &FirstMovePlayer {});

        assert_eq!(64, state.depth);
        assert_eq!(19, state.black_count);
        assert_eq!(45, state.white_count);
        assert!(state.is_end);
        assert_eq!(history.len(), 64);
        assert_eq!(record.len(), 64);
    }

    {
        let board = BitBoard::new_initial();
        let (state, history, record) = run(board, &ShortestGamePlayer {}, &ShortestGamePlayer {});

        assert_eq!(10, state.depth);
        assert_eq!(0, state.black_count);
        assert_eq!(14, state.white_count);
        assert_eq!(history.len(), 10);
        assert_eq!(record[9], Action::new_move(PlayerColor::White, 3, 1));
    }
}

#[test]
fn test_index_board_run() {
    {
        let indexer = Rc::new(Indexer::new());
        let board = IndexBoard::new_initial(indexer);
        let (state, _, _) = run(board, &FirstMovePlayer {}, &FirstMovePlayer {});

        assert_eq!(64, state.depth);
        assert_eq!(19, state.black_count);
        assert_eq!(45, state.white_count);
    }

    {
        let indexer = Rc::new(Indexer::new());
        let board = IndexBoard::new_initial(indexer);
        let (state, _, _) = run(board, &ShortestGamePlayer {}, &ShortestGamePlayer {});

        assert_eq!(10, state.depth);
        assert_eq!(0, state.black_count);
        assert_eq!(14, state.white_count);
    }
}

#[test]
fn test_array_board_run() {
    {
        let board = ArrayBoard::new_initial();
        let (state, _, _) = run(board, &FirstMovePlayer {}, &FirstMovePlayer {});

        assert_eq!(64, state.depth);
        assert_eq!(19, state.black_count);
        assert_eq!(45, state.white_count);
    }

    {
        let board = ArrayBoard::new_initial();
        let (state, _, _) = run(board, &ShortestGamePlayer {}, &ShortestGamePlayer {});

        assert_eq!(10, state.depth);
        assert_eq!(0, state.black_count);
        assert_eq!(14, state.white_count);
    }
}

#[test]
fn an_illegal_move_changes_nothing_and_is_not_recorded() {
    let board = BitBoard::new_initial();
    let mut history = Vec::new();
    let mut record = Vec::new();
    let action = Action::new_move(PlayerColor::Black, 0, 0);
    let (same, over) = play_turn(board, &action, &mut history, &mut record);
    assert!(!over);
    assert_eq!(same.depth(), 0);
    assert_eq!(same.squares(), BitBoard::new_initial().squares());
    assert!(history.is_empty());
    assert!(record.is_empty());
}

#[test]
fn ai_player_makes_the_move_of_the_search() {
    let board = BitBoard::new_initial();
    let state = GameState::new(&board);
    assert_eq!(state.turn, PlayerColor::Black);
    assert!(!state.is_end);
    let player = AiPlayer::new(2);
    assert_eq!(player.take_action(&state), Action::new_move(PlayerColor::Black, 2, 3));
    let lazy = AiPlayer::new(0);
    assert_eq!(lazy.take_action(&state), Action::new_pass(PlayerColor::Black));
}

#[test]
fn nodes_expand_to_one_child_for_each_move() {
    let mut node = Node {
        board: BitBoard::new_initial(),
        color: PlayerColor::Black,
        move_count: 0,
        last_action: Action::new_pass(PlayerColor::White),
        value: None,
        children: Vec::new(),
    };
    node.expand();
    assert_eq!(node.children.len(), 4);
    assert_eq!(node.children[0].last_action, Action::new_move(PlayerColor::Black, 2, 3));
    assert_eq!(node.children[3].last_action, Action::new_move(PlayerColor::Black, 5, 4));
    for child in node.children.iter() {
        assert_eq!(child.color, PlayerColor::White);
        assert_eq!(child.move_count, 1);
        assert_eq!(child.board.depth(), 1);
        assert_eq!(child.board.black_count(), 4);
        assert!(child.value.is_none());
        assert!(child.children.is_empty());
    }

    let mut squares: Squares = [Square::Empty; 64];
    squares[0] = Square::Black;
    squares[1] = Square::White;
    let board = BitBoard::new(&squares, 0);
    assert_eq!(actions_of(&board, PlayerColor::White), vec![Action::new_pass(PlayerColor::White)]);
    assert_eq!(actions_of(&board, PlayerColor::Black), vec![Action::new_move(PlayerColor::Black, 0, 2)]);
}

#[test]
fn reversi_nodes_expand_through_their_states() {
    let state = ReversiState { board: BitBoard::new_initial(), color: PlayerColor::Black, depth: 0 };
    assert_eq!(state.leagal_actions().len(), 4);
    assert!(state.apply_action(&Action::new_pass(PlayerColor::Black)).is_none());
    let next = state.apply_action(&Action::new_move(PlayerColor::Black, 2, 3)).unwrap();
    assert_eq!(next.color, PlayerColor::White);
    assert_eq!(next.depth, 1);
    assert_eq!(state.next_states().len(), 4);

    let mut node = ReversiNode::new(state);
    assert!(!node.is_leaf());
    assert!(node.value().is_none());
    assert!(node.action().is_none());
    node.expand();
    assert_eq!(node.children().len(), 4);
    assert_eq!(node.children()[1].1, Action::new_move(PlayerColor::Black, 3, 2));
    assert_eq!(node.children()[1].0.state().depth, 1);
    node.set_value(7);
    node.set_action(Action::new_move(PlayerColor::Black, 3, 2));
    assert_eq!(*node.value(), Some(7));
    assert_eq!(*node.action(), Some(Action::new_move(PlayerColor::Black, 3, 2)));
    node.children_mut().clear();
    assert!(node.children().is_empty());
}

#[test]
fn console_tokens_are_read_as_moves() {
    assert_eq!(parse_move("a1", PlayerColor::Black), Some(Action::new_move(PlayerColor::Black, 0, 0)));
    assert_eq!(parse_move("d3", PlayerColor::White), Some(Action::new_move(PlayerColor::White, 2, 3)));
    assert_eq!(parse_move("h8", PlayerColor::Black), Some(Action::new_move(PlayerColor::Black, 7, 7)));
    assert_eq!(parse_move("pass", PlayerColor::White), Some(Action::new_pass(PlayerColor::White)));
    for token in ["", "a", "a9", "i1", "A1", "1a", "a0", "d3 ", "d33", "Pass", "pas", "passs"] {
        assert_eq!(parse_move(token, PlayerColor::Black), None, "{:?}", token);
    }
}
