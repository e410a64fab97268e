//! What every board representation offers, stated against the rules.

use vstd::prelude::*;
use crate::common::{Square, Squares, PlayerColor, Position, Action};
use crate::rules::{action_legal, apply_spec, legal_positions, game_over, count_of, turn_at};

verus! {

/// A Reversi position with a ply counter. Boards are values: a move gives a
/// new board and leaves the old one as it was.
pub trait Board: Sized {
    /// The 64 cells in row-major order.
    spec fn cells(&self) -> Seq<Square>;

    /// The number of moves, passes included, that led to this board.
    spec fn ply(&self) -> u32;

    /// The representation is consistent.
    spec fn wf(&self) -> bool;

    /// A consistent board has 64 cells.
    proof fn lemma_cells_len(&self)
        requires
            self.wf(),
        ensures
            self.cells().len() == 64,
    ;

    /// The cells in row-major order.
    fn squares(&self) -> (s: &Squares)
        ensures
            s@ == self.cells(),
    ;

    /// The number of moves, passes included, that led to this board.
    fn depth(&self) -> (d: u32)
        ensures
            d == self.ply(),
    ;

    /// The number of cells that hold `color`.
    fn square_count(&self, color: Square) -> (n: u32)
        requires
            self.wf(),
        ensures
            n == count_of(self.cells(), color),
            n <= 64,
    ;

    /// A copy of this board.
    fn duplicate(&self) -> (b: Self)
        requires
            self.wf(),
        ensures
            b.wf(),
            b.cells() == self.cells(),
            b.ply() == self.ply(),
    ;

    /// The board after `action`, or `None` where the rules do not allow it.
    fn apply_action(&self, action: &Action) -> (r: Option<Self>)
        requires
            self.wf(),
            action.valid(),
            self.ply() < u32::MAX,
        ensures
            r is Some <==> action_legal(self.cells(), *action),
            r matches Some(b) ==> b.wf() && b.cells() == apply_spec(self.cells(), *action) && b.ply()
                == self.ply() + 1,
    ;

    /// The legal placements of `color`, in ascending order of their flat
    /// index.
    fn get_movable_positions(&self, color: &PlayerColor) -> (v: Vec<Position>)
        requires
            self.wf(),
        ensures
            v@ == legal_positions(self.cells(), *color),
    ;

    /// Neither side has a legal placement.
    fn is_game_over(&self) -> (b: bool)
        requires
            self.wf(),
        ensures
            b == game_over(self.cells()),
    {
        self.get_movable_positions(&PlayerColor::Black).len() == 0 && self.get_movable_positions(
            &PlayerColor::White,
        ).len() == 0
    }

    fn black_count(&self) -> (n: u32)
        requires
            self.wf(),
        ensures
            n == count_of(self.cells(), Square::Black),
    {
        self.square_count(Square::Black)
    }

    fn white_count(&self) -> (n: u32)
        requires
            self.wf(),
        ensures
            n == count_of(self.cells(), Square::White),
    {
        self.square_count(Square::White)
    }

    fn empty_count(&self) -> (n: u32)
        requires
            self.wf(),
        ensures
            n == count_of(self.cells(), Square::Empty),
    {
        self.square_count(Square::Empty)
    }

    /// The side to move: Black on even plies, White on odd ones.
    fn turn(&self) -> (c: PlayerColor)
        ensures
            c == turn_at(self.ply()),
    {
        if self.depth() % 2 == 0 {
            PlayerColor::Black
        } else {
            PlayerColor::White
        }
    }
}

} // verus!
