use reversi::api;
use reversi::bit_board::BitBoard;
use reversi::board::Board;
use reversi::boundary::{
    game_event_param_to_reversi_game_event_param, player_color_to_reversi_player_color,
    reversi_action_to_action, ReversiAction, ReversiPlayerColor,
};
use reversi::common::{Action, ActionType, PlayerColor, Position, Square, Squares};
use reversi::array_board::ArrayBoard;
use reversi::evaluator::{EvaluationFunction, SimpleEvaluationFunction, SimpleEvaluator};
use reversi::game::GameState;
use reversi::game_tree::{search_game_tree, SearchType};
use reversi::nega_alpha::{
    NegaAlpha, NegaAlphaEvaluationFunction, NegaAlphaNode, SimpleNegaAlphaEvaluationFunction,
};
use reversi::nega_max::{
    NegaMax, NegaMaxEvaluationFunction, NegaMaxNode, SimpleNegaMaxEvaluationFunction,
};
use reversi::node::Node;

struct TestEvaluationFunction {
    param: i32,
}

impl NegaAlphaEvaluationFunction for TestEvaluationFunction {
    fn evaluate(&mut self, _node: &NegaAlphaNode) -> i32 {
        self.param += 1;
        if self.param > 10 {
            self.param = 0;
        }
        self.param
    }
}

struct TestEvaluationFunction2 {
    param: i32,
}

impl NegaMaxEvaluationFunction for TestEvaluationFunction2 {
    fn evaluate(&mut self, _node: &NegaMaxNode) -> i32 {
        self.param += 1;
        if self.param > 10 {
            self.param = 0;
        }
        self.param
    }
}

fn count_max(node: &NegaMaxNode) -> usize {
    1 + node.children.iter().map(count_max).sum::<usize>()
}

fn searched_alpha(node: &NegaAlphaNode) -> usize {
    if node.value.is_none() {
        0
    } else {
        1 + node.children.iter().map(searched_alpha).sum::<usize>()
    }
}

#[test]
fn nega_max_test_nega_max() {
    let mut nega_max = NegaMax::new(TestEvaluationFunction2 { param: 0 });

    let mut root = NegaMaxNode {
        board: BitBoard::new_initial(),
        color: PlayerColor::Black,
        move_count: 0,
        last_move: Action::new_pass(PlayerColor::White),
        value: None,
        children: Vec::new(),
    };

    let value = nega_max.search(&mut root, 2);
    println!("{}", root.to_string());
    assert_eq!(root.value, Some(value));
    assert_eq!(root.children.len(), 4);
    assert_eq!(count_max(&root), 17);
    assert_eq!(root.node_count(), 17);
    assert_eq!(root.searched_nodes(), 17);
    // The leaves get 1, 2, 3, then 4, 5, 6, and so on: each reply node keeps
    // the negated least of its three, and the root the negated largest of
    // those.
    assert_eq!(root.children[0].value, Some(-1));
    assert_eq!(root.children[1].value, Some(-4));
    assert_eq!(root.children[2].value, Some(-7));
    assert_eq!(root.children[3].value, Some(0));
    assert_eq!(value, 7);
}

#[test]
fn nega_alpha_test_nega_max() {
    let mut nega_alpha = NegaAlpha::new(TestEvaluationFunction { param: 0 });

    let mut root = NegaAlphaNode {
        board: BitBoard::new_initial(),
        color: PlayerColor::Black,
        move_count: 0,
        last_move: Action::new_pass(PlayerColor::White),
        value: None,
        children: Vec::new(),
    };

    let value = nega_alpha.search(&mut root, 5);
    assert_eq!(root.value, Some(value));
    assert_eq!(root.children.len(), 4);
    assert!(root.children[0].value.is_some());
    assert_eq!(root.children[0].move_count, 1);
    assert_eq!(root.children[0].color, PlayerColor::White);
}

#[test]
fn kept_trees_agree_with_the_search_that_keeps_none() {
    let board = BitBoard::new_initial();
    for depth in 0..5 {
        let mut root = NegaMaxNode::new(
            BitBoard::new_initial(),
            PlayerColor::Black,
            0,
            Action::new_pass(PlayerColor::White),
        );
        let mut search = NegaMax::new(SimpleNegaMaxEvaluationFunction::new());
        let value = search.search(&mut root, depth);
        let plain =
            search_game_tree::<SimpleEvaluator>(board.squares(), &PlayerColor::Black, &SearchType::NegaMax, depth);
        assert_eq!(value, plain.value);
        assert_eq!(count_max(&root), plain.searched_nodes);

        let mut root = NegaAlphaNode::new(
            BitBoard::new_initial(),
            PlayerColor::Black,
            0,
            Action::new_pass(PlayerColor::White),
        );
        let mut search = NegaAlpha::new(SimpleNegaAlphaEvaluationFunction::new());
        let value = search.search(&mut root, depth);
        let plain = search_game_tree::<SimpleEvaluator>(
            board.squares(),
            &PlayerColor::Black,
            &SearchType::NegaAlpha,
            depth,
        );
        assert_eq!(value, plain.value);
        assert_eq!(searched_alpha(&root), plain.searched_nodes);
        assert_eq!(root.searched_nodes(), plain.searched_nodes);
        assert!(root.searched_nodes() <= root.node_count());
    }
}

#[test]
fn nega_alpha_ends_a_scan_without_raising_its_bound() {
    let board = BitBoard::new_initial();
    let plain = search_game_tree::<SimpleEvaluator>(board.squares(), &PlayerColor::Black, &SearchType::NegaMax, 3);
    assert_eq!(plain.value, -4);
    assert_eq!(plain.action, Some(Action::new_move(PlayerColor::Black, 2, 3)));
    let pruned =
        search_game_tree::<SimpleEvaluator>(board.squares(), &PlayerColor::Black, &SearchType::NegaAlpha, 3);
    assert_eq!(pruned.value, -2);
    assert_eq!(pruned.action, Some(Action::new_move(PlayerColor::Black, 4, 5)));
    assert!(pruned.searched_nodes < plain.searched_nodes);
}

#[test]
fn node_accessors_show_the_fields() {
    let mut node = NegaMaxNode::new(
        BitBoard::new_initial(),
        PlayerColor::White,
        3,
        Action::new_move(PlayerColor::Black, 2, 3),
    );
    assert_eq!(node.board().depth(), 0);
    assert_eq!(*node.color(), PlayerColor::White);
    assert_eq!(*node.move_count(), 3);
    assert_eq!(*node.last_move(), Action::new_move(PlayerColor::Black, 2, 3));
    assert!(node.value().is_none());
    assert!(node.children().is_empty());
    *node.value_mut() = Some(9);
    assert_eq!(*node.value(), Some(9));
    node.expand();
    assert_eq!(node.children().len(), 4);
    assert_eq!(*node.children()[0].move_count(), 4);
    assert_eq!(*node.children()[0].color(), PlayerColor::Black);
    assert_eq!(*node.children()[2].last_move(), Action::new_move(PlayerColor::White, 4, 2));
    node.children_mut().pop();
    assert_eq!(node.children().len(), 3);
    node.set_children(Vec::new());
    assert!(node.children().is_empty());

    let mut squares: Squares = [Square::Empty; 64];
    squares[0] = Square::Black;
    squares[1] = Square::White;
    let mut passing = NegaAlphaNode::new(
        BitBoard::new(&squares, 0),
        PlayerColor::White,
        0,
        Action::new_pass(PlayerColor::Black),
    );
    passing.expand();
    assert_eq!(passing.children().len(), 1);
    assert_eq!(*passing.children()[0].last_move(), Action::new_pass(PlayerColor::White));
    assert_eq!(passing.children()[0].board().depth(), 1);
    let mut search = NegaAlpha::new(SimpleNegaAlphaEvaluationFunction::new());
    assert_eq!(search.search(&mut passing, 2), -18);
    assert_eq!(passing.children()[0].value, Some(18));
}

#[test]
fn plain_integer_search() {
    let board = BitBoard::new_initial();
    let codes: Vec<i32> = board
        .squares()
        .iter()
        .map(|s| match s {
            Square::Empty => 0,
            Square::Black => 1,
            Square::White => 2,
        })
        .collect();
    assert_eq!(api::squares_from_codes(&codes), *board.squares());
    assert_eq!(api::squares_from_codes(&vec![1, 2, 1]), [Square::Empty; 64]);
    let result = api::search_game_tree(codes.clone(), 0, 1, 2);
    assert_eq!(result.value, -1);
    assert_eq!(result.action.color, 1);
    assert_eq!(result.action.row, 2);
    assert_eq!(result.action.col, 3);
    assert!(!result.action.is_pass);
    let result = api::search_game_tree(codes, 0, 2, 1);
    assert_eq!(result.action.color, 2);
    assert_eq!((result.action.row, result.action.col), (2, 4));

    let mut codes = vec![0; 64];
    codes[0] = 1;
    codes[1] = 2;
    let result = api::search_game_tree(codes, 0, 7, 2);
    assert!(result.action.is_pass);
    assert_eq!((result.action.row, result.action.col), (0, 0));
    assert_eq!(result.value, -18);
}

#[test]
fn host_values() {
    assert_eq!(player_color_to_reversi_player_color(PlayerColor::Black), ReversiPlayerColor::Black);
    assert_eq!(player_color_to_reversi_player_color(PlayerColor::White), ReversiPlayerColor::White);
    let board = BitBoard::new_initial();
    let state = GameState::new(&board);
    let param = game_event_param_to_reversi_game_event_param(&state, &None);
    assert_eq!(param.board[3][3], 2);
    assert_eq!(param.board[3][4], 1);
    assert_eq!(param.board[4][3], 1);
    assert_eq!(param.board[4][4], 2);
    assert_eq!(param.board[0][0], 0);
    assert_eq!(param.board.iter().flatten().filter(|c| **c == 0).count(), 60);
    assert_eq!((param.depth, param.black_count, param.white_count), (0, 2, 2));
    assert!(!param.is_end);
    assert_eq!(param.turn, ReversiPlayerColor::Black);
    assert!(param.last_action.is_none);
    let last = Some(Action::new_move(PlayerColor::White, 5, 6));
    let param = game_event_param_to_reversi_game_event_param(&state, &last);
    assert_eq!(
        param.last_action,
        ReversiAction {
            is_none: false,
            turn: ReversiPlayerColor::White,
            move_pos_row: 5,
            move_pos_col: 6,
            is_pass: false
        }
    );
    let last = Some(Action::new_pass(PlayerColor::Black));
    let param = game_event_param_to_reversi_game_event_param(&state, &last);
    assert!(param.last_action.is_pass && !param.last_action.is_none);
    assert_eq!(
        reversi_action_to_action(PlayerColor::White, &param.last_action),
        Action::new_pass(PlayerColor::White)
    );
    let answer = ReversiAction {
        is_none: false,
        turn: ReversiPlayerColor::Black,
        move_pos_row: 2,
        move_pos_col: 3,
        is_pass: false,
    };
    assert_eq!(
        reversi_action_to_action(PlayerColor::Black, &answer),
        Action::new(PlayerColor::Black, ActionType::Move(Position(2, 3)))
    );
}

#[test]
fn boards_are_judged_by_their_cells() {
    let mut judge = SimpleEvaluationFunction::new();
    let mut squares: Squares = [Square::Empty; 64];
    squares[0] = Square::Black;
    squares[9] = Square::White;
    squares[63] = Square::White;
    assert_eq!(judge.evaluate(&BitBoard::new(&squares, 0), &PlayerColor::Black), 30 + 15 - 30);
    assert_eq!(judge.evaluate(&ArrayBoard::new(squares, 0), &PlayerColor::White), -15);
}

#[test]
fn a_fresh_node_counts_as_one() {
    let mut node = NegaAlphaNode::new(
        BitBoard::new_initial(),
        PlayerColor::Black,
        0,
        Action::new_pass(PlayerColor::White),
    );
    assert_eq!(node.node_count(), 1);
    assert_eq!(node.searched_nodes(), 1);
    node.expand();
    assert_eq!(node.node_count(), 5);
    assert_eq!(node.searched_nodes(), 1);
    let mut search = NegaAlpha::new(SimpleNegaAlphaEvaluationFunction::new());
    search.search(&mut node, 3);
    // A child behind a cut-off is kept without children of its own.
    assert!(node.node_count() < 1 + 4 + 12 + 56);
    assert!(node.searched_nodes() < node.node_count());
}

fn text_of(node: &NegaMaxNode, text: &mut String, depth: usize) {
    for _ in 0..depth {
        text.push_str("  ");
    }
    text.push_str(&format!("move_count: {}, value: {:?}\n", node.move_count, node.value));
    for child in &node.children {
        text_of(child, text, depth + 1);
    }
}

#[test]
fn a_tree_is_shown_line_by_line() {
    let mut root = NegaMaxNode::new(
        BitBoard::new_initial(),
        PlayerColor::Black,
        0,
        Action::new_pass(PlayerColor::White),
    );
    assert_eq!(root.to_string(), "move_count: 0, value: None\n");
    let mut search = NegaMax::new(SimpleNegaMaxEvaluationFunction::new());
    search.search(&mut root, 2);
    let text = root.to_string();
    let mut expected = String::new();
    text_of(&root, &mut expected, 0);
    assert_eq!(text, expected);
    assert!(text.starts_with("move_count: 0, value: Some(-1)\n  move_count: 1, value: Some("));
    assert_eq!(text.lines().count(), 17);
    assert!(text.contains("\n    move_count: 2, value: Some(-"));

    let mut lone = NegaMaxNode::new(
        BitBoard::new_initial(),
        PlayerColor::Black,
        255,
        Action::new_pass(PlayerColor::White),
    );
    lone.value = Some(i32::MIN);
    assert_eq!(lone.to_string(), "move_count: 255, value: Some(-2147483648)\n");
    lone.value = Some(1907);
    let mut text = String::from(">");
    lone.to_string_impl(&mut text, 2);
    assert_eq!(text, ">    move_count: 255, value: Some(1907)\n");
}

#[test]
fn candidates_come_best_first() {
    let mut root = NegaMaxNode::new(
        BitBoard::new_initial(),
        PlayerColor::Black,
        0,
        Action::new_pass(PlayerColor::White),
    );
    assert_eq!(root.candidate(), None);
    root.expand();
    let moves: Vec<Action> = root.children.iter().map(|c| c.last_move).collect();
    assert_eq!(root.candidate(), Some(moves.clone()));
    root.children[0].value = Some(3);
    root.children[1].value = Some(7);
    root.children[3].value = Some(3);
    assert_eq!(root.candidate(), Some(vec![moves[1], moves[0], moves[3], moves[2]]));
    root.children[2].value = Some(i32::MIN);
    root.children[3].value = None;
    assert_eq!(root.candidate(), Some(vec![moves[1], moves[0], moves[2], moves[3]]));
    root.children[2].value = Some(8);
    root.children[3].value = Some(8);
    assert_eq!(root.candidate(), Some(vec![moves[2], moves[3], moves[1], moves[0]]));
}
