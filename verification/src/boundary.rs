//! The values that cross the boundary to a host which drives the game from
//! outside: everything is a small number or a flag in a buffer of fixed
//! size.

use vstd::prelude::*;
use crate::common::{Square, PlayerColor, Position, Action, ActionType};
use crate::game::GameState;

verus! {

/// What the game tells the host.
#[derive(Clone, Copy, PartialEq, Eq, Structural, Debug)]
pub enum ReversiGameEvent {
    Started,
    TurnStarted,
    TurnEnded,
    GameOver,
}

/// A side, for the host.
#[derive(Clone, Copy, PartialEq, Eq, Structural, Debug)]
pub enum ReversiPlayerColor {
    Black,
    White,
}

/// A move, for the host. Where `is_none` is set there is no move and the
/// other fields mean nothing.
#[derive(Clone, Copy, PartialEq, Eq, Structural, Debug)]
pub struct ReversiAction {
    pub is_none: bool,
    pub turn: ReversiPlayerColor,
    pub move_pos_row: usize,
    pub move_pos_col: usize,
    pub is_pass: bool,
}

/// A snapshot of the game, for the host. A cell of `board` is 0 where it is
/// empty, 1 for a black stone and 2 for a white one.
#[derive(Clone, Copy, Debug)]
pub struct ReversiGameEventParam {
    pub board: [[u32; 8]; 8],
    pub depth: u32,
    pub black_count: u32,
    pub white_count: u32,
    pub is_end: bool,
    pub turn: ReversiPlayerColor,
    pub last_action: ReversiAction,
}

/// The number that stands for a cell.
pub open spec fn square_code(s: Square) -> u32 {
    match s {
        Square::Empty => 0,
        Square::Black => 1,
        Square::White => 2,
    }
}

/// The side, for the host.
pub open spec fn host_color(c: PlayerColor) -> ReversiPlayerColor {
    match c {
        PlayerColor::Black => ReversiPlayerColor::Black,
        PlayerColor::White => ReversiPlayerColor::White,
    }
}

/// The move, for the host; where there is none, the host sees a move of
/// Black at the first cell with `is_none` set.
pub open spec fn host_action(action: Option<Action>) -> ReversiAction {
    match action {
        Some(act) => match act.action {
            ActionType::Move(pos) => ReversiAction {
                is_none: false,
                turn: host_color(act.color),
                move_pos_row: pos.0,
                move_pos_col: pos.1,
                is_pass: false,
            },
            ActionType::Pass => ReversiAction {
                is_none: false,
                turn: host_color(act.color),
                move_pos_row: 0,
                move_pos_col: 0,
                is_pass: true,
            },
        },
        None => ReversiAction {
            is_none: true,
            turn: ReversiPlayerColor::Black,
            move_pos_row: 0,
            move_pos_col: 0,
            is_pass: false,
        },
    }
}

/// The side, for the host.
pub fn player_color_to_reversi_player_color(c: PlayerColor) -> (r: ReversiPlayerColor)
    ensures
        r == host_color(c),
{
    match c {
        PlayerColor::Black => ReversiPlayerColor::Black,
        PlayerColor::White => ReversiPlayerColor::White,
    }
}

/// The snapshot and the last move, for the host.
pub fn game_event_param_to_reversi_game_event_param(param: &GameState, last_action: &Option<Action>) -> (r:
    ReversiGameEventParam)
    ensures
        forall|row: int, col: int|
            0 <= row < 8 && 0 <= col < 8 ==> (#[trigger] r.board@[row]@[col]) == square_code(
                param.board@[8 * row + col],
            ),
        r.depth == param.depth,
        r.black_count == param.black_count,
        r.white_count == param.white_count,
        r.is_end == param.is_end,
        r.turn == host_color(param.turn),
        r.last_action == host_action(*last_action),
{
    let mut board: [[u32; 8]; 8] = [[0u32;8];8];
    let mut r: usize = 0;
    while r < 8
        invariant
            r <= 8,
            forall|row: int, col: int|
                0 <= row < r && 0 <= col < 8 ==> (#[trigger] board@[row]@[col]) == square_code(
                    param.board@[8 * row + col],
                ),
        decreases 8 - r,
    {
        let mut line: [u32; 8] = [0u32;8];
        let mut c: usize = 0;
        while c < 8
            invariant
                r < 8,
                c <= 8,
                forall|col: int|
                    0 <= col < c ==> (#[trigger] line@[col]) == square_code(param.board@[8 * r + col]),
            decreases 8 - c,
        {
            line[c] = match param.board[8 * r + c] {
                Square::Empty => 0,
                Square::Black => 1,
                Square::White => 2,
            };
            c += 1;
        }
        board[r] = line;
        r += 1;
    }
    let turn = player_color_to_reversi_player_color(param.turn);
    let last = match last_action {
        Some(act) => {
            let t = player_color_to_reversi_player_color(act.color);
            match act.action {
                ActionType::Move(pos) => ReversiAction {
                    is_none: false,
                    turn: t,
                    move_pos_row: pos.0,
                    move_pos_col: pos.1,
                    is_pass: false,
                },
                ActionType::Pass => ReversiAction {
                    is_none: false,
                    turn: t,
                    move_pos_row: 0,
                    move_pos_col: 0,
                    is_pass: true,
                },
            }
        },
        None => ReversiAction {
            is_none: true,
            turn: ReversiPlayerColor::Black,
            move_pos_row: 0,
            move_pos_col: 0,
            is_pass: false,
        },
    };
    ReversiGameEventParam {
        board,
        depth: param.depth,
        black_count: param.black_count,
        white_count: param.white_count,
        is_end: param.is_end,
        turn,
        last_action: last,
    }
}

/// The move that the host has answered with, as a move of the side `turn`.
/// The host must have answered with a move.
pub fn reversi_action_to_action(turn: PlayerColor, action: &ReversiAction) -> (r: Action)
    requires
        !action.is_none,
    ensures
        r.color == turn,
        r.action == if action.is_pass {
            ActionType::Pass
        } else {
            ActionType::Move(Position(action.move_pos_row, action.move_pos_col))
        },
{
    if action.is_pass {
        Action::new(turn, ActionType::Pass)
    } else {
        Action::new(turn, ActionType::Move(Position(action.move_pos_row, action.move_pos_col)))
    }
}

} // verus!
