//! What a game driver and its players see of a board, and what the driver
//! does with a move that a player has returned.

use vstd::prelude::*;
use vstd::string::StrSliceExecFns;
use crate::common::{Square, Squares, PlayerColor, Position, Action, ActionType};
use crate::board::Board;
use crate::evaluator::SimpleEvaluator;
use crate::game_tree::{SearchType, search_game_tree, search_spec, search_index, chosen_action};
use crate::rules::{action_legal, apply_spec, game_over, count_of, turn_at};

verus! {

/// A snapshot of a board for a player: the cells by value, the counts and
/// whose turn it is. A player never holds the board itself.
pub struct GameState {
    pub board: Squares,
    pub depth: u32,
    pub black_count: u32,
    pub white_count: u32,
    pub is_end: bool,
    pub turn: PlayerColor,
}

impl GameState {
    /// The snapshot of `board`.
    pub fn new<T>(board: &T) -> (state: Self) where T: Board
        requires
            board.wf(),
        ensures
            state.board@ == board.cells(),
            state.depth == board.ply(),
            state.black_count == count_of(board.cells(), Square::Black),
            state.white_count == count_of(board.cells(), Square::White),
            state.is_end == game_over(board.cells()),
            state.turn == turn_at(board.ply()),
    {
        Self {
            board: *board.squares(),
            depth: board.depth(),
            black_count: board.black_count(),
            white_count: board.white_count(),
            is_end: board.is_game_over(),
            turn: board.turn(),
        }
    }
}

/// How a game ended: the last snapshot, the boards before each move, and the
/// moves.
pub struct GameResult<T> {
    pub state: GameState,
    pub history: Vec<T>,
    pub game_record: Vec<Action>,
}

/// Someone who chooses moves.
pub trait Player {
    /// The snapshots on which this player can be asked for a move: all of
    /// them, unless the player says otherwise.
    open spec fn accepts(&self, state: &GameState) -> bool {
        true
    }

    /// The move of the side to move in `param`.
    fn take_action(&self, param: &GameState) -> (action: Action)
        requires
            self.accepts(param),
    ;
}

/// The player that makes the move which NegaAlpha chooses with the simple
/// evaluator, and passes where the search chooses none.
pub struct AiPlayer {
    search_depth: usize,
}

impl AiPlayer {
    /// The player that searches `search_depth` plies deep.
    pub fn new(search_depth: usize) -> (player: AiPlayer)
        ensures
            player.depth() == search_depth,
    {
        AiPlayer { search_depth }
    }

    /// The number of plies that this player searches.
    pub closed spec fn depth(&self) -> usize {
        self.search_depth
    }
}

impl Player for AiPlayer {
    open spec fn accepts(&self, state: &GameState) -> bool {
        self.depth() <= u32::MAX && search_spec::<SimpleEvaluator>(
            state.board@,
            state.turn,
            SearchType::NegaAlpha,
            self.depth() as nat,
        ).1 <= usize::MAX
    }

    fn take_action(&self, param: &GameState) -> (action: Action)
        ensures
            action == match chosen_action(
                param.board@,
                param.turn,
                self.depth() as nat,
                None,
                search_index::<SimpleEvaluator>(
                    param.board@,
                    param.turn,
                    SearchType::NegaAlpha,
                    self.depth() as nat,
                ),
            ) {
                Some(chosen) => chosen,
                None => Action { color: param.turn, action: ActionType::Pass },
            },
    {
        let color = param.turn;
        let result = search_game_tree::<SimpleEvaluator>(
            &param.board,
            &color,
            &SearchType::NegaAlpha,
            self.search_depth,
        );
        match result.action {
            Some(chosen) => chosen,
            None => Action::new(color, ActionType::Pass),
        }
    }
}

/// What the driver does with the move that the player to move has returned.
/// A legal move is made: the board before it goes to `history`, the move to
/// `game_record`, and the result is the new board and whether the game is
/// over. Any other move changes nothing: the result is the board as it was,
/// and the driver asks the same player again.
pub fn play_turn<T>(board: T, action: &Action, history: &mut Vec<T>, game_record: &mut Vec<Action>) -> (r: (
    T,
    bool,
)) where T: Board
    requires
        board.wf(),
        action.valid(),
        board.ply() < u32::MAX,
    ensures
        r.0.wf(),
        action_legal(board.cells(), *action) ==> {
            &&& r.0.cells() == apply_spec(board.cells(), *action)
            &&& r.0.ply() == board.ply() + 1
            &&& r.1 == game_over(r.0.cells())
            &&& final(history)@ == old(history)@.push(board)
            &&& final(game_record)@ == old(game_record)@.push(*action)
        },
        !action_legal(board.cells(), *action) ==> {
            &&& r.0 == board
            &&& !r.1
            &&& final(history)@ == old(history)@
            &&& final(game_record)@ == old(game_record)@
        },
{
    match board.apply_action(action) {
        Some(next_board) => {
            history.push(board);
            game_record.push(*action);
            let over = next_board.is_game_over();
            (next_board, over)
        },
        None => (board, false),
    }
}

} // verus!

verus! {

/// The move that a token of a person at a console stands for: a file from
/// `a` to `h` followed by a rank from `1` to `8` is the placement on that
/// column and row, the word `pass` is the pass, and nothing else is a move.
pub open spec fn parsed_move(token: Seq<char>, color: PlayerColor) -> Option<Action> {
    if token.len() == 2 && 'a' as u32 <= token[0] as u32 <= 'h' as u32 && '1' as u32 <= token[1] as u32
        <= '8' as u32 {
        Some(
            Action {
                color,
                action: ActionType::Move(
                    Position(
                        (token[1] as u32 - '1' as u32) as usize,
                        (token[0] as u32 - 'a' as u32) as usize,
                    ),
                ),
            },
        )
    } else if token == "pass"@ {
        Some(Action { color, action: ActionType::Pass })
    } else {
        None
    }
}

/// Reads a token of a person at a console as a move of `color`.
pub fn parse_move(token: &str, color: PlayerColor) -> (r: Option<Action>)
    ensures
        r == parsed_move(token@, color),
        r matches Some(action) ==> action.valid(),
{
    proof {
        reveal_strlit("pass");
    }
    let n = token.unicode_len();
    if n == 2 {
        let file = token.get_char(0) as u32;
        let rank = token.get_char(1) as u32;
        if 'a' as u32 <= file && file <= 'h' as u32 && '1' as u32 <= rank && rank <= '8' as u32 {
            let row = (rank - '1' as u32) as usize;
            let col = (file - 'a' as u32) as usize;
            return Some(Action::new(color, ActionType::Move(Position(row, col))));
        }
        return None;
    }
    if n == 4 && token.get_char(0) == 'p' && token.get_char(1) == 'a' && token.get_char(2) == 's'
        && token.get_char(3) == 's' {
        assert(token@ =~= "pass"@);
        return Some(Action::new(color, ActionType::Pass));
    }
    None
}

} // verus!
