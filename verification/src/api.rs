//! The search for callers that speak in plain integers: a cell is 0 where it
//! is empty, 1 for a black stone and 2 for a white one, and the side to move
//! is 1 for Black and anything else for White.

use vstd::prelude::*;
use crate::common::{Square, Squares, PlayerColor, ActionType};
use crate::evaluator::SimpleEvaluator;
use crate::game_tree::{
    SearchType, is_leaf_at, search_spec, search_index, chosen_action, search_game_tree as search_tree,
};

verus! {

/// A move in plain integers. `row` and `col` are zero for a pass.
pub struct Action {
    pub color: i32,
    pub row: i32,
    pub col: i32,
    pub is_pass: bool,
}

/// The value of a position and the move chosen in it.
pub struct SearchResult {
    pub value: i32,
    pub action: Box<Action>,
}

/// The cell that a code stands for: 1 is a black stone, 2 a white one, and
/// anything else an empty cell.
pub open spec fn square_of_code(code: i32) -> Square {
    if code == 1 {
        Square::Black
    } else if code == 2 {
        Square::White
    } else {
        Square::Empty
    }
}

/// The side that a code stands for: 1 is Black, anything else White.
pub open spec fn color_of_code(code: i32) -> PlayerColor {
    if code == 1 {
        PlayerColor::Black
    } else {
        PlayerColor::White
    }
}

/// The cells that a list of codes stands for: one cell for each code where
/// there are 64 codes, and the empty board otherwise.
pub open spec fn cells_of_codes(codes: Seq<i32>) -> Seq<Square> {
    if codes.len() == 64 {
        Seq::new(64, |i: int| square_of_code(codes[i]))
    } else {
        Seq::new(64, |i: int| Square::Empty)
    }
}

/// The cells that a list of codes stands for.
pub fn squares_from_codes(codes: &Vec<i32>) -> (squares: Squares)
    ensures
        squares@ == cells_of_codes(codes@),
{
    let mut squares: Squares = [Square::Empty;64];
    if codes.len() == 64 {
        let mut i: usize = 0;
        while i < 64
            invariant
                i <= 64,
                codes@.len() == 64,
                forall|j: int| 0 <= j < i ==> squares@[j] == square_of_code(#[trigger] codes@[j]),
            decreases 64 - i,
        {
            let code = codes[i];
            squares[i] = if code == 1 {
                Square::Black
            } else if code == 2 {
                Square::White
            } else {
                Square::Empty
            };
            i += 1;
        }
    }
    assert(squares@ =~= cells_of_codes(codes@));
    squares
}

/// The move in plain integers.
pub open spec fn action_in_codes(color: i32, action: ActionType) -> Action {
    match action {
        ActionType::Move(p) => Action { color, row: p.0 as i32, col: p.1 as i32, is_pass: false },
        ActionType::Pass => Action { color, row: 0, col: 0, is_pass: true },
    }
}

/// Searches the position with NegaAlpha and the simple evaluator,
/// `search_depth` plies deep. The search must have a move to report: the
/// depth is not zero and the game is not over.
pub fn search_game_tree(squares: Vec<i32>, turn_depth: i32, color: i32, search_depth: i32) -> (r:
    SearchResult)
    requires
        search_depth > 0,
        !is_leaf_at(cells_of_codes(squares@), search_depth as nat),
        search_spec::<SimpleEvaluator>(
            cells_of_codes(squares@),
            color_of_code(color),
            SearchType::NegaAlpha,
            search_depth as nat,
        ).1 <= usize::MAX,
    ensures
        r.value == search_spec::<SimpleEvaluator>(
            cells_of_codes(squares@),
            color_of_code(color),
            SearchType::NegaAlpha,
            search_depth as nat,
        ).0,
        chosen_action(
            cells_of_codes(squares@),
            color_of_code(color),
            search_depth as nat,
            None,
            search_index::<SimpleEvaluator>(
                cells_of_codes(squares@),
                color_of_code(color),
                SearchType::NegaAlpha,
                search_depth as nat,
            ),
        ) matches Some(chosen) && *r.action == action_in_codes(color, chosen.action),
{
    let squares = squares_from_codes(&squares);
    let player_color = if color == 1 {
        PlayerColor::Black
    } else {
        PlayerColor::White
    };
    let result = search_tree::<SimpleEvaluator>(
        &squares,
        &player_color,
        &SearchType::NegaAlpha,
        search_depth as usize,
    );
    proof {
        crate::rules::lemma_legal_upto(squares@, player_color, 64);
    }
    let value = result.value;
    let act = result.action.unwrap();
    let action = match act.action {
        ActionType::Move(pos) => Action { color, row: pos.0 as i32, col: pos.1 as i32, is_pass: false },
        ActionType::Pass => Action { color, row: 0, col: 0, is_pass: true },
    };
    SearchResult { action: Box::new(action), value }
}

} // verus!
