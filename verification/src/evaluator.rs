//! How good a position is for the side to move.

use vstd::prelude::*;
use crate::common::{Square, Squares, PlayerColor};
use crate::board::Board;

verus! {

/// What an evaluator says of a position: its value for the side to move and,
/// where the evaluator has one, a preference for each cell.
pub struct EvalResult {
    pub value: i32,
    pub policy: Option<[i32; 64]>,
}

/// A judge of positions. The value is relative to the side to move: positive
/// values favour it. The search negates the values of successor positions,
/// so no value may be `i32::MIN`.
pub trait Evaluator {
    /// The value of the position for `color`.
    spec fn value_of(cells: Seq<Square>, color: PlayerColor) -> int;

    /// Every value can be negated within `i32`.
    proof fn lemma_value_range(cells: Seq<Square>, color: PlayerColor)
        ensures
            i32::MIN < Self::value_of(cells, color) <= i32::MAX,
    ;

    /// The value of the position for `color`.
    fn evaluate(board: &Squares, color: &PlayerColor) -> (r: EvalResult)
        ensures
            r.value == Self::value_of(board@, *color),
            r.value > i32::MIN,
    ;
}

/// The evaluator that weighs each stone by the cell it stands on.
pub struct SimpleEvaluator {}

/// The weight of the cell `(r, c)` of the upper left quarter of the board.
pub open spec fn quarter_weight(r: int, c: int) -> int {
    if r == 0 {
        if c == 0 {
            30
        } else if c == 1 {
            -12
        } else if c == 2 {
            0
        } else {
            -1
        }
    } else if r == 1 {
        if c == 0 {
            -12
        } else if c == 1 {
            -15
        } else {
            -3
        }
    } else if r == 2 {
        if c == 0 {
            0
        } else if c == 1 {
            -3
        } else if c == 2 {
            0
        } else {
            -1
        }
    } else {
        if c == 1 {
            -3
        } else {
            -1
        }
    }
}

/// The weight of the cell with flat index `i`: corners count 30, the cells
/// diagonally inside them -15, the cells beside them on the edge -12. The
/// weights are the same under every symmetry of the board.
pub open spec fn weight(i: int) -> int {
    let r = i / 8;
    let c = i % 8;
    quarter_weight(
        if r < 4 {
            r
        } else {
            7 - r
        },
        if c < 4 {
            c
        } else {
            7 - c
        },
    )
}

/// The weights of the stones of `color` among the first `n` cells, less the
/// weights of the stones of its opponent.
pub open spec fn weighted_sum(cells: Seq<Square>, color: PlayerColor, n: nat) -> int
    decreases n,
{
    if n == 0 {
        0
    } else {
        weighted_sum(cells, color, (n - 1) as nat) + if cells[n - 1] == Square::Empty {
            0
        } else if cells[n - 1] == color.stone() {
            weight(n - 1)
        } else {
            -weight(n - 1)
        }
    }
}

/// The value of the position for `color` by the weights of the cells.
pub open spec fn simple_value(cells: Seq<Square>, color: PlayerColor) -> int {
    weighted_sum(cells, color, 64)
}

/// No weight exceeds 30 either way.
pub proof fn lemma_weight_bound(i: int)
    ensures
        -30 <= weight(i) <= 30,
{
}

/// The weighted sum of `n` cells lies within `30 * n` of zero.
pub proof fn lemma_weighted_sum_bound(cells: Seq<Square>, color: PlayerColor, n: nat)
    ensures
        -30 * n <= weighted_sum(cells, color, n) <= 30 * n,
    decreases n,
{
    if n > 0 {
        lemma_weighted_sum_bound(cells, color, (n - 1) as nat);
        lemma_weight_bound(n - 1);
    }
}

/// The simple evaluator is relative to the side to move: what the cells are
/// worth to one side is the negated worth to the other.
pub proof fn law_value_is_side_relative(cells: Seq<Square>, color: PlayerColor, n: nat)
    ensures
        weighted_sum(cells, color.other(), n) == -weighted_sum(cells, color, n),
    decreases n,
{
    if n > 0 {
        law_value_is_side_relative(cells, color, (n - 1) as nat);
    }
}

/// The weight of the cell with flat index `i`.
pub fn cell_weight(i: usize) -> (w: i32)
    requires
        i < 64,
    ensures
        w == weight(i as int),
{
    let weight_table: [i32; 64] = [
        30, -12, 0, -1, -1, 0, -12, 30,
        -12, -15, -3, -3, -3, -3, -15, -12,
        0, -3, 0, -1, -1, 0, -3, 0,
        -1, -3, -1, -1, -1, -1, -3, -1,
        -1, -3, -1, -1, -1, -1, -3, -1,
        0, -3, 0, -1, -1, 0, -3, 0,
        -12, -15, -3, -3, -3, -3, -15, -12,
        30, -12, 0, -1, -1, 0, -12, 30,
    ];
    weight_table[i]
}

/// The value of the position for `color` by the weights of the cells.
pub fn simple_evaluate(board: &Squares, color: &PlayerColor) -> (r: EvalResult)
    ensures
        r.value == simple_value(board@, *color),
        -1920 <= r.value <= 1920,
        r.policy is None,
{
    let own = color.to_square();
    let mut value: i32 = 0;
    let mut i: usize = 0;
    while i < 64
        invariant
            i <= 64,
            own == color.stone(),
            value == weighted_sum(board@, *color, i as nat),
            -30 * i <= value <= 30 * i,
        decreases 64 - i,
    {
        let s = board[i];
        let w = cell_weight(i);
        proof {
            lemma_weight_bound(i as int);
        }
        if s == Square::Empty {
        } else if s == own {
            value = value + w;
        } else {
            value = value - w;
        }
        i += 1;
    }
    EvalResult { value, policy: None }
}

impl Evaluator for SimpleEvaluator {
    open spec fn value_of(cells: Seq<Square>, color: PlayerColor) -> int {
        simple_value(cells, color)
    }

    proof fn lemma_value_range(cells: Seq<Square>, color: PlayerColor) {
        lemma_weighted_sum_bound(cells, color, 64);
    }

    fn evaluate(board: &Squares, color: &PlayerColor) -> (r: EvalResult) {
        simple_evaluate(board, color)
    }
}

} // verus!

verus! {

/// A judge of boards that may change with every board it sees. The search
/// negates its values, so none may be `i32::MIN`.
pub trait EvaluationFunction {
    fn evaluate<B>(&mut self, board: &B, color: &PlayerColor) -> (v: i32) where B: Board
        requires
            board.wf(),
        ensures
            v > i32::MIN,
    ;
}

/// The judge that weighs each stone by the cell it stands on.
pub struct SimpleEvaluationFunction {}

impl SimpleEvaluationFunction {
    pub fn new() -> Self {
        SimpleEvaluationFunction {  }
    }
}

impl EvaluationFunction for SimpleEvaluationFunction {
    fn evaluate<B>(&mut self, board: &B, color: &PlayerColor) -> (v: i32) where B: Board
        ensures
            v == simple_value(board.cells(), *color),
    {
        simple_evaluate(board.squares(), color).value
    }
}

} // verus!
