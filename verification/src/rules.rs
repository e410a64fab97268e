//! The rules of Reversi as mathematics over a sequence of 64 cells.
//!
//! Every board representation of this crate states its behaviour in the terms
//! defined here, so that two boards with the same cells provably agree on
//! which moves are legal and on what each move does.

use vstd::prelude::*;
use crate::common::{Square, PlayerColor, Position, Action, ActionType};

verus! {

/// `(r, c)` is a cell of the board.
pub open spec fn on_board(r: int, c: int) -> bool {
    0 <= r < 8 && 0 <= c < 8
}

/// `(dr, dc)` is one of the eight compass steps.
pub open spec fn is_step(dr: int, dc: int) -> bool {
    -1 <= dr <= 1 && -1 <= dc <= 1 && !(dr == 0 && dc == 0)
}

/// What the cell `(r, c)` holds.
pub open spec fn cell(cells: Seq<Square>, r: int, c: int) -> Square {
    cells[8 * r + c]
}

/// The row step of the `k`-th compass direction.
pub open spec fn step_row(k: int) -> int {
    if k <= 2 {
        -1
    } else if k <= 4 {
        0
    } else {
        1
    }
}

/// The column step of the `k`-th compass direction.
pub open spec fn step_col(k: int) -> int {
    if k == 0 || k == 3 || k == 5 {
        -1
    } else if k == 1 || k == 6 {
        0
    } else {
        1
    }
}

/// An upper bound on the number of cells that a walk from `(r, c)` by
/// `(dr, dc)` can still visit.
pub open spec fn room(r: int, c: int, dr: int, dc: int) -> int {
    if dr > 0 {
        8 - r
    } else if dr < 0 {
        r + 1
    } else if dc > 0 {
        8 - c
    } else {
        c + 1
    }
}

/// The number of consecutive cells that hold `target`, counted from `(r, c)`
/// itself along `(dr, dc)`.
pub open spec fn run_len(cells: Seq<Square>, target: Square, r: int, c: int, dr: int, dc: int) -> nat
    decreases room(r, c, dr, dc),
{
    if on_board(r, c) && is_step(dr, dc) && cell(cells, r, c) == target {
        1 + run_len(cells, target, r + dr, c + dc, dr, dc)
    } else {
        0
    }
}

/// The walk from `(r, c)` along `(dr, dc)` crosses stones of the opponent of
/// `color` only, and ends on a stone of `color` before it leaves the board.
pub open spec fn closes(cells: Seq<Square>, color: PlayerColor, r: int, c: int, dr: int, dc: int) -> bool
    decreases room(r, c, dr, dc),
{
    if on_board(r, c) && is_step(dr, dc) {
        if cell(cells, r, c) == color.other().stone() {
            closes(cells, color, r + dr, c + dc, dr, dc)
        } else {
            cell(cells, r, c) == color.stone()
        }
    } else {
        false
    }
}

/// The number of stones that `color` captures along `(dr, dc)` by placing a
/// stone at `(r, c)`.
pub open spec fn flips_toward(cells: Seq<Square>, color: PlayerColor, r: int, c: int, dr: int, dc: int) -> nat {
    if closes(cells, color, r + dr, c + dc, dr, dc) {
        run_len(cells, color.other().stone(), r + dr, c + dc, dr, dc)
    } else {
        0
    }
}

/// The coordinate reached from `x` after `n` steps of `d`.
pub open spec fn along(x: int, d: int, n: int) -> int {
    if d > 0 {
        x + n
    } else if d < 0 {
        x - n
    } else {
        x
    }
}

/// The number of steps of `(dr, dc)` that lead from `(r, c)` to `(qr, qc)`,
/// if any number does.
pub open spec fn steps_between(r: int, c: int, dr: int, dc: int, qr: int, qc: int) -> int {
    if dr > 0 {
        qr - r
    } else if dr < 0 {
        r - qr
    } else if dc > 0 {
        qc - c
    } else {
        c - qc
    }
}

/// `(qr, qc)` lies on the walk from `(r, c)` along `(dr, dc)`, at least `lo`
/// and at most `hi` steps away.
pub open spec fn on_ray(r: int, c: int, dr: int, dc: int, lo: int, hi: int, qr: int, qc: int) -> bool {
    let i = steps_between(r, c, dr, dc, qr, qc);
    lo <= i <= hi && qr == along(r, dr, i) && qc == along(c, dc, i)
}

/// The stone at `(qr, qc)` is captured along `(dr, dc)` when `color` places
/// at `(r, c)`.
pub open spec fn captured_toward(
    cells: Seq<Square>,
    color: PlayerColor,
    r: int,
    c: int,
    dr: int,
    dc: int,
    qr: int,
    qc: int,
) -> bool {
    on_ray(r, c, dr, dc, 1, flips_toward(cells, color, r, c, dr, dc) as int, qr, qc)
}

/// The stone at `(qr, qc)` is captured along one of the first `k` compass
/// directions when `color` places at `(r, c)`.
pub open spec fn captured_within(
    cells: Seq<Square>,
    color: PlayerColor,
    r: int,
    c: int,
    qr: int,
    qc: int,
    k: nat,
) -> bool
    decreases k,
{
    k > 0 && (captured_within(cells, color, r, c, qr, qc, (k - 1) as nat) || captured_toward(
        cells,
        color,
        r,
        c,
        step_row(k - 1),
        step_col(k - 1),
        qr,
        qc,
    ))
}

/// The stone at `(qr, qc)` is captured when `color` places at `(r, c)`.
pub open spec fn captured(cells: Seq<Square>, color: PlayerColor, r: int, c: int, qr: int, qc: int) -> bool {
    captured_within(cells, color, r, c, qr, qc, 8)
}

/// The number of stones that `color` captures along the first `k` compass
/// directions by placing at `(r, c)`.
pub open spec fn flips_within(cells: Seq<Square>, color: PlayerColor, r: int, c: int, k: nat) -> nat
    decreases k,
{
    if k == 0 {
        0
    } else {
        flips_within(cells, color, r, c, (k - 1) as nat) + flips_toward(
            cells,
            color,
            r,
            c,
            step_row(k - 1),
            step_col(k - 1),
        )
    }
}

/// The number of stones that `color` captures by placing at `(r, c)`.
pub open spec fn total_flips(cells: Seq<Square>, color: PlayerColor, r: int, c: int) -> nat {
    flips_within(cells, color, r, c, 8)
}

/// `color` may place a stone at `(r, c)`: the cell is empty and the placement
/// captures at least one stone.
pub open spec fn place_legal(cells: Seq<Square>, color: PlayerColor, r: int, c: int) -> bool {
    on_board(r, c) && cell(cells, r, c) == Square::Empty && total_flips(cells, color, r, c) > 0
}

/// The cells after `color` has placed a stone at `(r, c)`: the stone is there,
/// every captured stone has changed sides, and nothing else has changed.
pub open spec fn place_result(cells: Seq<Square>, color: PlayerColor, r: int, c: int) -> Seq<Square> {
    Seq::new(
        64,
        |q: int|
            if q == 8 * r + c || captured(cells, color, r, c, q / 8, q % 8) {
                color.stone()
            } else {
                cells[q]
            },
    )
}

/// The legal placements of `color` among the first `n` cells, in ascending
/// order of their flat index.
pub open spec fn legal_upto(cells: Seq<Square>, color: PlayerColor, n: nat) -> Seq<Position>
    decreases n,
{
    if n == 0 {
        Seq::empty()
    } else {
        let q = n - 1;
        let before = legal_upto(cells, color, q as nat);
        if place_legal(cells, color, q / 8, q % 8) {
            before.push(Position((q / 8) as usize, (q % 8) as usize))
        } else {
            before
        }
    }
}

/// The legal placements of `color`, in ascending order of their flat index.
pub open spec fn legal_positions(cells: Seq<Square>, color: PlayerColor) -> Seq<Position> {
    legal_upto(cells, color, 64)
}

/// The move is legal: a placement that captures, or a pass by a side that has
/// no placement.
pub open spec fn action_legal(cells: Seq<Square>, a: Action) -> bool {
    match a.action {
        ActionType::Move(p) => place_legal(cells, a.color, p.0 as int, p.1 as int),
        ActionType::Pass => legal_positions(cells, a.color).len() == 0,
    }
}

/// The cells after the move.
pub open spec fn apply_spec(cells: Seq<Square>, a: Action) -> Seq<Square> {
    match a.action {
        ActionType::Move(p) => place_result(cells, a.color, p.0 as int, p.1 as int),
        ActionType::Pass => cells,
    }
}

/// Neither side has a legal placement.
pub open spec fn game_over(cells: Seq<Square>) -> bool {
    legal_positions(cells, PlayerColor::Black).len() == 0 && legal_positions(
        cells,
        PlayerColor::White,
    ).len() == 0
}

/// The number of cells among the first `n` that hold `s`.
pub open spec fn count_upto(cells: Seq<Square>, s: Square, n: nat) -> nat
    decreases n,
{
    if n == 0 {
        0
    } else {
        count_upto(cells, s, (n - 1) as nat) + if cells[n - 1] == s {
            1nat
        } else {
            0nat
        }
    }
}

/// The number of cells that hold `s`.
pub open spec fn count_of(cells: Seq<Square>, s: Square) -> nat {
    count_upto(cells, s, 64)
}

/// The side to move after `depth` plies: Black moves first.
pub open spec fn turn_at(depth: u32) -> PlayerColor {
    if depth % 2 == 0 {
        PlayerColor::Black
    } else {
        PlayerColor::White
    }
}

/// The cells of the opening position.
pub open spec fn initial_cells() -> Seq<Square> {
    Seq::new(
        64,
        |q: int|
            if q == 28 || q == 35 {
                Square::Black
            } else if q == 27 || q == 36 {
                Square::White
            } else {
                Square::Empty
            },
    )
}

/// A capture along one direction takes at most six stones.
pub proof fn lemma_flips_toward_bound(cells: Seq<Square>, color: PlayerColor, r: int, c: int, dr: int, dc: int)
    requires
        on_board(r, c),
        is_step(dr, dc),
    ensures
        flips_toward(cells, color, r, c, dr, dc) <= 6,
{
    lemma_closing_run_bound(cells, color, r + dr, c + dc, dr, dc);
}

/// A run that closes leaves room for the stone that closes it.
pub proof fn lemma_closing_run_bound(cells: Seq<Square>, color: PlayerColor, r: int, c: int, dr: int, dc: int)
    requires
        is_step(dr, dc),
        on_board(r - dr, c - dc),
    ensures
        closes(cells, color, r, c, dr, dc) ==> run_len(cells, color.other().stone(), r, c, dr, dc) + 1
            <= room(r, c, dr, dc),
        room(r, c, dr, dc) <= 7,
    decreases room(r, c, dr, dc),
{
    if on_board(r, c) && cell(cells, r, c) == color.other().stone() {
        lemma_closing_run_bound(cells, color, r + dr, c + dc, dr, dc);
    }
}

/// A placement is legal exactly when its cell is empty and it captures along
/// at least one direction.
pub proof fn lemma_total_flips_positive(cells: Seq<Square>, color: PlayerColor, r: int, c: int, k: nat)
    ensures
        flips_within(cells, color, r, c, k) > 0 <==> exists|j: int|
            0 <= j < k && #[trigger] flips_toward(cells, color, r, c, step_row(j), step_col(j)) > 0,
    decreases k,
{
    if k > 0 {
        lemma_total_flips_positive(cells, color, r, c, (k - 1) as nat);
        if flips_within(cells, color, r, c, k) > 0 {
            if flips_within(cells, color, r, c, (k - 1) as nat) > 0 {
                let j = choose|j: int|
                    0 <= j < k - 1 && #[trigger] flips_toward(cells, color, r, c, step_row(j), step_col(j))
                        > 0;
                assert(0 <= j < k && flips_toward(cells, color, r, c, step_row(j), step_col(j)) > 0);
            } else {
                assert(flips_toward(cells, color, r, c, step_row(k - 1), step_col(k - 1)) > 0);
            }
        }
    }
}

/// What `legal_upto` holds: every entry is a legal placement on the board
/// below the bound, the entries ascend, and no legal placement is missing.
pub proof fn lemma_legal_upto(cells: Seq<Square>, color: PlayerColor, n: nat)
    requires
        n <= 64,
    ensures
        legal_upto(cells, color, n).len() <= n,
        forall|i: int|
            0 <= i < legal_upto(cells, color, n).len() ==> {
                let p = #[trigger] legal_upto(cells, color, n)[i];
                p.valid() && p.index() < n && place_legal(cells, color, p.0 as int, p.1 as int)
            },
        forall|i: int, j: int|
            0 <= i < j < legal_upto(cells, color, n).len() ==> (#[trigger] legal_upto(
                cells,
                color,
                n,
            )[i]).index() < (#[trigger] legal_upto(cells, color, n)[j]).index(),
        forall|r: int, c: int|
            on_board(r, c) && 8 * r + c < n && #[trigger] place_legal(cells, color, r, c)
                ==> legal_upto(cells, color, n).contains(Position(r as usize, c as usize)),
    decreases n,
{
    if n > 0 {
        let q = (n - 1) as nat;
        lemma_legal_upto(cells, color, q);
        let before = legal_upto(cells, color, q);
        let now = legal_upto(cells, color, n);
        assert forall|r: int, c: int|
            on_board(r, c) && 8 * r + c < n && #[trigger] place_legal(cells, color, r, c) implies now.contains(
            Position(r as usize, c as usize),
        ) by {
            if 8 * r + c < q {
                let p = Position(r as usize, c as usize);
                assert(before.contains(p));
                let i = choose|i: int| 0 <= i < before.len() && before[i] == p;
                assert(now[i] == p);
            } else {
                assert(q / 8 == r && q % 8 == c);
                assert(now[now.len() - 1] == Position(r as usize, c as usize));
            }
        }
    }
}

} // verus!

verus! {

/// Every cell of a run lies on the board and holds the stone that the run is
/// made of.
pub proof fn lemma_run_cells(cells: Seq<Square>, target: Square, r: int, c: int, dr: int, dc: int, i: int)
    requires
        0 <= i < run_len(cells, target, r, c, dr, dc),
    ensures
        is_step(dr, dc),
        on_board(along(r, dr, i), along(c, dc, i)),
        cell(cells, along(r, dr, i), along(c, dc, i)) == target,
    decreases i,
{
    if i > 0 {
        lemma_run_cells(cells, target, r + dr, c + dc, dr, dc, i - 1);
    }
}

/// A run ends on a cell that is off the board or holds something else.
pub proof fn lemma_run_end(cells: Seq<Square>, target: Square, r: int, c: int, dr: int, dc: int)
    requires
        is_step(dr, dc),
    ensures
        ({
            let n = run_len(cells, target, r, c, dr, dc) as int;
            !on_board(along(r, dr, n), along(c, dc, n)) || cell(cells, along(r, dr, n), along(c, dc, n))
                != target
        }),
    decreases room(r, c, dr, dc),
{
    if on_board(r, c) && cell(cells, r, c) == target {
        lemma_run_end(cells, target, r + dr, c + dc, dr, dc);
    }
}

/// A walk closes exactly when the cell behind its run of opposing stones lies
/// on the board and holds a stone of the side that moves.
pub proof fn lemma_closes_at_end(cells: Seq<Square>, color: PlayerColor, r: int, c: int, dr: int, dc: int)
    requires
        is_step(dr, dc),
    ensures
        ({
            let n = run_len(cells, color.other().stone(), r, c, dr, dc) as int;
            closes(cells, color, r, c, dr, dc) == (on_board(along(r, dr, n), along(c, dc, n)) && cell(
                cells,
                along(r, dr, n),
                along(c, dc, n),
            ) == color.stone())
        }),
    decreases room(r, c, dr, dc),
{
    if on_board(r, c) && cell(cells, r, c) == color.other().stone() {
        lemma_closes_at_end(cells, color, r + dr, c + dc, dr, dc);
    }
}

/// The captures of a placement, direction by direction.
pub proof fn lemma_total_flips_unfold(cells: Seq<Square>, color: PlayerColor, r: int, c: int)
    ensures
        total_flips(cells, color, r, c) == flips_toward(cells, color, r, c, -1, -1) + flips_toward(
            cells,
            color,
            r,
            c,
            -1,
            0,
        ) + flips_toward(cells, color, r, c, -1, 1) + flips_toward(cells, color, r, c, 0, -1)
            + flips_toward(cells, color, r, c, 0, 1) + flips_toward(cells, color, r, c, 1, -1)
            + flips_toward(cells, color, r, c, 1, 0) + flips_toward(cells, color, r, c, 1, 1),
{
    reveal_with_fuel(flips_within, 9);
}

/// A stone is captured exactly when it is captured along one of the eight
/// directions.
pub proof fn lemma_captured_unfold(cells: Seq<Square>, color: PlayerColor, r: int, c: int, qr: int, qc: int)
    ensures
        captured(cells, color, r, c, qr, qc) == (captured_toward(cells, color, r, c, -1, -1, qr, qc)
            || captured_toward(cells, color, r, c, -1, 0, qr, qc) || captured_toward(
            cells,
            color,
            r,
            c,
            -1,
            1,
            qr,
            qc,
        ) || captured_toward(cells, color, r, c, 0, -1, qr, qc) || captured_toward(
            cells,
            color,
            r,
            c,
            0,
            1,
            qr,
            qc,
        ) || captured_toward(cells, color, r, c, 1, -1, qr, qc) || captured_toward(
            cells,
            color,
            r,
            c,
            1,
            0,
            qr,
            qc,
        ) || captured_toward(cells, color, r, c, 1, 1, qr, qc)),
{
    reveal_with_fuel(captured_within, 9);
}

} // verus!

verus! {

/// A run that has `t` stones and a further stone of the same kind right
/// behind them has more than `t` stones.
pub proof fn lemma_run_extend(cells: Seq<Square>, target: Square, r: int, c: int, dr: int, dc: int, t: int)
    requires
        is_step(dr, dc),
        0 <= t <= run_len(cells, target, r, c, dr, dc),
        on_board(along(r, dr, t), along(c, dc, t)),
        cell(cells, along(r, dr, t), along(c, dc, t)) == target,
    ensures
        run_len(cells, target, r, c, dr, dc) >= t + 1,
{
    lemma_run_end(cells, target, r, c, dr, dc);
}

/// A captured stone is a stone of the opponent on the board, and not the
/// cell of the placement.
pub proof fn lemma_captured_is_opponent(
    cells: Seq<Square>,
    color: PlayerColor,
    r: int,
    c: int,
    dr: int,
    dc: int,
    qr: int,
    qc: int,
)
    requires
        is_step(dr, dc),
        on_board(r, c),
        captured_toward(cells, color, r, c, dr, dc, qr, qc),
    ensures
        on_board(qr, qc),
        cell(cells, qr, qc) == color.other().stone(),
        !(qr == r && qc == c),
{
    let t = steps_between(r, c, dr, dc, qr, qc);
    lemma_run_cells(cells, color.other().stone(), r + dr, c + dc, dr, dc, t - 1);
    assert(along(r + dr, dr, t - 1) == along(r, dr, t));
    assert(along(c + dc, dc, t - 1) == along(c, dc, t));
}

} // verus!
