//! The bitboard: one word of 64 bits for each side, and moves by shifts and
//! masks.

use vstd::prelude::*;
use crate::common::{
    Square, Squares, PlayerColor, Position, Action, ActionType, position_to_index, BOARD_SIZE,
};
use crate::board::Board;
use crate::bits::{
    bit, ones_upto, lemma_bit_and, lemma_bit_or, lemma_bit_xor, lemma_bit_not, lemma_bit_shl,
    lemma_bit_shr, lemma_bit_single, lemma_bit_zero, lemma_bit_nonzero, lemma_nonzero_bit,
};
use crate::rules::{
    on_board, is_step, cell, run_len, closes, flips_toward, along, steps_between, on_ray,
    captured_toward, captured, place_legal, place_result, legal_upto, count_upto, initial_cells,
    lemma_flips_toward_bound, lemma_run_cells, lemma_run_extend, lemma_captured_is_opponent,
    lemma_closes_at_end, lemma_closing_run_bound, lemma_total_flips_unfold, lemma_captured_unfold,
};

verus! {

/// The cells that have a neighbour to the left and one to the right.
pub const HORIZONTAL_MASK: u64 = 0x7e7e7e7e7e7e7e7e;

/// The cells that have a neighbour above and one below.
pub const VERTICAL_MASK: u64 = 0x00ffffffffffff00;

/// The cells that have all four diagonal neighbours.
pub const DIAGONAL_MASK: u64 = 0x007e7e7e7e7e7e00;

/// A shift of a whole board by a number of cells, toward higher or toward
/// lower indices.
pub trait BoardShift {
    /// By how much the index of a stone changes.
    spec fn step(shift_count: u32) -> int;

    /// The shifted word.
    spec fn shifted(value: u64, shift_count: u32) -> u64;

    /// A stone stands on cell `i` after the shift exactly when one stood
    /// `step` cells before it.
    proof fn lemma_shifted(value: u64, shift_count: u32)
        requires
            shift_count < 64,
        ensures
            forall|i: int| #[trigger]
                bit(Self::shifted(value, shift_count), i) == (0 <= i < 64 && bit(
                    value,
                    i - Self::step(shift_count),
                )),
    ;

    fn shift(value: u64, shift_count: u32) -> (r: u64)
        requires
            shift_count < 64,
        ensures
            r == Self::shifted(value, shift_count),
    ;
}

/// The shift toward higher indices.
pub struct LeftShift;

/// The shift toward lower indices.
pub struct RightShift;

impl BoardShift for LeftShift {
    open spec fn step(shift_count: u32) -> int {
        shift_count as int
    }

    open spec fn shifted(value: u64, shift_count: u32) -> u64 {
        value << (shift_count as u64)
    }

    proof fn lemma_shifted(value: u64, shift_count: u32) {
        lemma_bit_shl(value, shift_count as u64);
    }

    fn shift(value: u64, shift_count: u32) -> (r: u64) {
        value << (shift_count as u64)
    }
}

impl BoardShift for RightShift {
    open spec fn step(shift_count: u32) -> int {
        -(shift_count as int)
    }

    open spec fn shifted(value: u64, shift_count: u32) -> u64 {
        value >> (shift_count as u64)
    }

    proof fn lemma_shifted(value: u64, shift_count: u32) {
        lemma_bit_shr(value, shift_count as u64);
    }

    fn shift(value: u64, shift_count: u32) -> (r: u64) {
        value >> (shift_count as u64)
    }
}

/// Cell `i` is reached from a stone of `data` by at most `n` steps of `s`
/// that all land on cells of `mask`.
pub open spec fn reach(data: u64, mask: u64, s: int, i: int, n: nat) -> bool
    decreases n,
{
    n > 0 && bit(mask, i) && (bit(data, i - s) || reach(data, mask, s, i - s, (n - 1) as nat))
}

/// What can be reached in fewer steps can be reached in more.
pub proof fn lemma_reach_more(data: u64, mask: u64, s: int, i: int, n: nat)
    requires
        reach(data, mask, s, i, n),
    ensures
        reach(data, mask, s, i, n + 1),
    decreases n,
{
    if !bit(data, i - s) {
        lemma_reach_more(data, mask, s, i - s, (n - 1) as nat);
    }
}

/// One more round of shifting and masking reaches one step further.
pub proof fn lemma_reach_round<T: BoardShift>(data: u64, mask: u64, k: u32, acc: u64, n: nat)
    requires
        k < 64,
        n > 0,
        forall|i: int| #[trigger] bit(acc, i) == reach(data, mask, T::step(k), i, n),
    ensures
        forall|i: int| #[trigger]
            bit(acc | (mask & T::shifted(acc, k)), i) == reach(data, mask, T::step(k), i, n + 1),
{
    let s = T::step(k);
    let next = acc | (mask & T::shifted(acc, k));
    T::lemma_shifted(acc, k);
    lemma_bit_and(mask, T::shifted(acc, k));
    lemma_bit_or(acc, mask & T::shifted(acc, k));
    assert forall|i: int| #[trigger] bit(next, i) == reach(data, mask, s, i, n + 1) by {
        assert(bit(next, i) == (bit(acc, i) || (bit(mask, i) && bit(T::shifted(acc, k), i))));
        assert(bit(acc, i - s) == reach(data, mask, s, i - s, n));
        if reach(data, mask, s, i, n) {
            lemma_reach_more(data, mask, s, i, n);
        }
    }
}

/// The stones reached from `data` by one to six steps of the shift through
/// cells of `mask`.
pub open spec fn continuous_line_spec<T: BoardShift>(data: u64, mask: u64, k: u32) -> u64 {
    let r1 = mask & T::shifted(data, k);
    let r2 = r1 | (mask & T::shifted(r1, k));
    let r3 = r2 | (mask & T::shifted(r2, k));
    let r4 = r3 | (mask & T::shifted(r3, k));
    let r5 = r4 | (mask & T::shifted(r4, k));
    r5 | (mask & T::shifted(r5, k))
}

/// The bits of a continuous line.
pub proof fn lemma_continuous_line<T: BoardShift>(data: u64, mask: u64, k: u32)
    requires
        k < 64,
    ensures
        forall|i: int| #[trigger]
            bit(continuous_line_spec::<T>(data, mask, k), i) == reach(data, mask, T::step(k), i, 6),
{
    let s = T::step(k);
    let r1 = mask & T::shifted(data, k);
    let r2 = r1 | (mask & T::shifted(r1, k));
    let r3 = r2 | (mask & T::shifted(r2, k));
    let r4 = r3 | (mask & T::shifted(r3, k));
    let r5 = r4 | (mask & T::shifted(r4, k));
    T::lemma_shifted(data, k);
    lemma_bit_and(mask, T::shifted(data, k));
    assert forall|i: int| #[trigger] bit(r1, i) == reach(data, mask, s, i, 1) by {
        assert(!reach(data, mask, s, i - s, 0));
    }
    lemma_reach_round::<T>(data, mask, k, r1, 1);
    lemma_reach_round::<T>(data, mask, k, r2, 2);
    lemma_reach_round::<T>(data, mask, k, r3, 3);
    lemma_reach_round::<T>(data, mask, k, r4, 4);
    lemma_reach_round::<T>(data, mask, k, r5, 5);
}

/// The stones reached from `data` by one to six steps of the shift through
/// cells of `mask`.
pub fn continuous_line<T>(data: u64, mask: u64, shift_count: u32) -> (r: u64) where T: BoardShift
    requires
        shift_count < 64,
    ensures
        r == continuous_line_spec::<T>(data, mask, shift_count),
        forall|i: int| #[trigger] bit(r, i) == reach(data, mask, T::step(shift_count), i, 6),
{
    let mut result: u64 = mask & T::shift(data, shift_count);
    result |= mask & T::shift(result, shift_count);
    result |= mask & T::shift(result, shift_count);
    result |= mask & T::shift(result, shift_count);
    result |= mask & T::shift(result, shift_count);
    result |= mask & T::shift(result, shift_count);
    proof {
        lemma_continuous_line::<T>(data, mask, shift_count);
    }
    result
}

/// Which cells each mask holds.
pub proof fn lemma_masks()
    ensures
        forall|i: int| 0 <= i < 64 ==> #[trigger] bit(HORIZONTAL_MASK, i) == (1 <= i % 8 <= 6),
        forall|i: int| 0 <= i < 64 ==> #[trigger] bit(VERTICAL_MASK, i) == (1 <= i / 8 <= 6),
        forall|i: int|
            0 <= i < 64 ==> #[trigger] bit(DIAGONAL_MASK, i) == (1 <= i % 8 <= 6 && 1 <= i / 8 <= 6),
{
    assert forall|i: int| 0 <= i < 64 implies #[trigger] bit(HORIZONTAL_MASK, i) == (1 <= i % 8 <= 6) by {
        let j = i as u64;
        assert(((0x7e7e7e7e7e7e7e7eu64 >> j) & 1u64 == 1u64) == (1 <= j % 8 && j % 8 <= 6)) by (bit_vector)
            requires
                j < 64,
        ;
    }
    assert forall|i: int| 0 <= i < 64 implies #[trigger] bit(VERTICAL_MASK, i) == (1 <= i / 8 <= 6) by {
        let j = i as u64;
        assert(((0x00ffffffffffff00u64 >> j) & 1u64 == 1u64) == (1 <= j / 8 && j / 8 <= 6)) by (bit_vector)
            requires
                j < 64,
        ;
    }
    assert forall|i: int| 0 <= i < 64 implies #[trigger] bit(DIAGONAL_MASK, i) == (1 <= i % 8 <= 6 && 1 <= i
        / 8 <= 6) by {
        let j = i as u64;
        assert(((0x007e7e7e7e7e7e00u64 >> j) & 1u64 == 1u64) == (1 <= j % 8 && j % 8 <= 6 && 1 <= j / 8 && j
            / 8 <= 6)) by (bit_vector)
            requires
                j < 64,
        ;
    }
}

} // verus!

verus! {

/// The cells that two words stand for: bit `i` of `black` is a black stone on
/// cell `i`, bit `i` of `white` a white one.
pub open spec fn cells_of(black: u64, white: u64) -> Seq<Square> {
    Seq::new(
        64,
        |i: int|
            if bit(white, i) {
                Square::White
            } else if bit(black, i) {
                Square::Black
            } else {
                Square::Empty
            },
    )
}

/// The cells that the words of the side to move and of its opponent stand
/// for.
pub open spec fn board_cells(player: u64, opponent: u64, color: PlayerColor) -> Seq<Square> {
    match color {
        PlayerColor::Black => cells_of(player, opponent),
        PlayerColor::White => cells_of(opponent, player),
    }
}

/// The two words hold exactly the stones of `color` and of its opponent.
pub open spec fn bits_match(player: u64, opponent: u64, cells: Seq<Square>, color: PlayerColor) -> bool {
    &&& cells.len() == 64
    &&& forall|i: int| 0 <= i < 64 ==> #[trigger] bit(player, i) == (cells[i] == color.stone())
    &&& forall|i: int| 0 <= i < 64 ==> #[trigger] bit(opponent, i) == (cells[i] == color.other().stone())
}

/// Two words without a common bit hold the stones of the cells they stand
/// for.
pub proof fn lemma_board_cells(player: u64, opponent: u64, color: PlayerColor)
    requires
        player & opponent == 0,
    ensures
        bits_match(player, opponent, board_cells(player, opponent, color), color),
{
    lemma_bit_and(player, opponent);
    lemma_bit_zero();
    let cells = board_cells(player, opponent, color);
    assert forall|i: int| 0 <= i < 64 implies #[trigger] bit(player, i) == (cells[i] == color.stone()) by {
        assert(bit(player & opponent, i) == (bit(player, i) && bit(opponent, i)));
    }
    assert forall|i: int| 0 <= i < 64 implies #[trigger] bit(opponent, i) == (cells[i]
        == color.other().stone()) by {
        assert(bit(player & opponent, i) == (bit(player, i) && bit(opponent, i)));
    }
}

/// The mask that keeps a walk along `(dr, dc)` from wrapping round the edge.
pub open spec fn dir_mask(dr: int, dc: int) -> u64 {
    if dr == 0 {
        HORIZONTAL_MASK
    } else if dc == 0 {
        VERTICAL_MASK
    } else {
        DIAGONAL_MASK
    }
}

/// `(r, c)` has a neighbour on the board both along `(dr, dc)` and against
/// it.
pub open spec fn interior(r: int, c: int, dr: int, dc: int) -> bool {
    on_board(r, c) && on_board(r - dr, c - dc) && on_board(r + dr, c + dc)
}

/// The mask of a direction holds the cells that are interior to it.
pub proof fn lemma_dir_mask(dr: int, dc: int)
    requires
        is_step(dr, dc),
    ensures
        forall|i: int| 0 <= i < 64 ==> #[trigger] bit(dir_mask(dr, dc), i) == interior(i / 8, i % 8, dr, dc),
{
    lemma_masks();
}

/// The walk from `(r, c)` along `(dr, dc)` starts on a stone of the opponent
/// of `color`, crosses at most `n` of them and then meets a stone of `color`.
pub open spec fn closing_back(
    cells: Seq<Square>,
    color: PlayerColor,
    r: int,
    c: int,
    dr: int,
    dc: int,
    n: nat,
) -> bool
    decreases n,
{
    n > 0 && on_board(r, c) && cell(cells, r, c) == color.other().stone() && ((on_board(r + dr, c + dc)
        && cell(cells, r + dr, c + dc) == color.stone()) || closing_back(
        cells,
        color,
        r + dr,
        c + dc,
        dr,
        dc,
        (n - 1) as nat,
    ))
}

/// A bounded closing walk is a walk that closes after a run of one to `n`
/// stones.
pub proof fn lemma_closing_back(cells: Seq<Square>, color: PlayerColor, r: int, c: int, dr: int, dc: int, n: nat)
    requires
        is_step(dr, dc),
    ensures
        closing_back(cells, color, r, c, dr, dc, n) == (closes(cells, color, r, c, dr, dc) && 1 <= run_len(
            cells,
            color.other().stone(),
            r,
            c,
            dr,
            dc,
        ) <= n),
    decreases n,
{
    if n > 0 && on_board(r, c) && cell(cells, r, c) == color.other().stone() {
        lemma_closing_back(cells, color, r + dr, c + dc, dr, dc, (n - 1) as nat);
        let next_run = run_len(cells, color.other().stone(), r + dr, c + dc, dr, dc);
        assert(run_len(cells, color.other().stone(), r, c, dr, dc) == 1 + next_run);
        assert(closes(cells, color, r, c, dr, dc) == closes(cells, color, r + dr, c + dc, dr, dc));
        if on_board(r + dr, c + dc) && cell(cells, r + dr, c + dc) == color.stone() {
            assert(next_run == 0);
            assert(closes(cells, color, r + dr, c + dc, dr, dc));
        } else if closes(cells, color, r + dr, c + dc, dr, dc) {
            assert(next_run >= 1);
        }
    }
}

/// A bounded closing walk has a cell of the board behind its first stone.
pub proof fn lemma_closing_back_next(
    cells: Seq<Square>,
    color: PlayerColor,
    r: int,
    c: int,
    dr: int,
    dc: int,
    n: nat,
)
    requires
        closing_back(cells, color, r, c, dr, dc, n),
    ensures
        on_board(r + dr, c + dc),
{
    reveal_with_fuel(closing_back, 2);
}

/// Reaching cell `i` from a stone of the side to move, through opposing
/// stones that are interior to the direction, is a closing walk from `i`
/// back against the direction.
pub proof fn lemma_reach_player(
    player: u64,
    opponent: u64,
    cells: Seq<Square>,
    color: PlayerColor,
    dr: int,
    dc: int,
    i: int,
    n: nat,
)
    requires
        bits_match(player, opponent, cells, color),
        is_step(dr, dc),
    ensures
        reach(player, opponent & dir_mask(dr, dc), 8 * dr + dc, i, n) == (0 <= i < 64 && interior(
            i / 8,
            i % 8,
            dr,
            dc,
        ) && closing_back(cells, color, i / 8, i % 8, -dr, -dc, n)),
    decreases n,
{
    let mask = opponent & dir_mask(dr, dc);
    let s = 8 * dr + dc;
    lemma_bit_and(opponent, dir_mask(dr, dc));
    lemma_dir_mask(dr, dc);
    if n > 0 && 0 <= i < 64 {
        let r = i / 8;
        let c = i % 8;
        assert(bit(mask, i) == (bit(opponent, i) && bit(dir_mask(dr, dc), i)));
        if interior(r, c, dr, dc) {
            assert((i - s) / 8 == r - dr && (i - s) % 8 == c - dc);
            assert(0 <= i - s < 64);
            lemma_reach_player(player, opponent, cells, color, dr, dc, i - s, (n - 1) as nat);
            assert(bit(player, i - s) == (cells[i - s] == color.stone()));
            if closing_back(cells, color, r - dr, c - dc, -dr, -dc, (n - 1) as nat) {
                lemma_closing_back_next(cells, color, r - dr, c - dc, -dr, -dc, (n - 1) as nat);
            }
        }
    }
}

/// One step beyond what a continuous line reaches lies a cell from which the
/// side to move captures against the direction of the line.
pub proof fn lemma_frontier(
    player: u64,
    opponent: u64,
    cells: Seq<Square>,
    color: PlayerColor,
    dr: int,
    dc: int,
    y: int,
)
    requires
        bits_match(player, opponent, cells, color),
        is_step(dr, dc),
        0 <= y < 64,
    ensures
        reach(player, opponent & dir_mask(dr, dc), 8 * dr + dc, y - (8 * dr + dc), 6) == (flips_toward(
            cells,
            color,
            y / 8,
            y % 8,
            -dr,
            -dc,
        ) > 0),
{
    let s = 8 * dr + dc;
    let i = y - s;
    let yr = y / 8;
    let yc = y % 8;
    lemma_reach_player(player, opponent, cells, color, dr, dc, i, 6);
    lemma_closing_back(cells, color, yr - dr, yc - dc, -dr, -dc, 6);
    lemma_closing_run_bound(cells, color, yr - dr, yc - dc, -dr, -dc);
    if 0 <= i < 64 && interior(i / 8, i % 8, dr, dc) {
        assert(i / 8 == yr - dr && i % 8 == yc - dc);
    }
    if flips_toward(cells, color, yr, yc, -dr, -dc) > 0 {
        assert(on_board(yr - dr, yc - dc));
        assert(closes(cells, color, yr - dr - dr, yc - dc - dc, -dr, -dc));
        assert(interior(yr - dr, yc - dc, dr, dc));
        assert(8 * (yr - dr) + (yc - dc) == i);
    }
}

/// The cells from which `data` is met along the shift by `shift_count`,
/// either way, across stones of `opponent`; the stones crossed are part of
/// the result.
fn dir_continuous_line(data: u64, opponent: u64, dir_mask: u64, shift_count: u32) -> (r: u64)
    requires
        0 < shift_count < 64,
    ensures
        forall|i: int|
            0 <= i < 64 ==> #[trigger] bit(r, i) == (reach(
                data,
                opponent & dir_mask,
                shift_count as int,
                i,
                6,
            ) || reach(data, opponent & dir_mask, shift_count as int, i - shift_count, 6) || reach(
                data,
                opponent & dir_mask,
                -(shift_count as int),
                i,
                6,
            ) || reach(data, opponent & dir_mask, -(shift_count as int), i + shift_count, 6)),
{
    let mask = opponent & dir_mask;
    let mut line1 = continuous_line::<LeftShift>(data, mask, shift_count);
    let ghost run1 = line1;
    line1 |= LeftShift::shift(line1, shift_count);
    let mut line2 = continuous_line::<RightShift>(data, mask, shift_count);
    let ghost run2 = line2;
    line2 |= RightShift::shift(line2, shift_count);
    proof {
        LeftShift::lemma_shifted(run1, shift_count);
        RightShift::lemma_shifted(run2, shift_count);
        lemma_bit_or(run1, LeftShift::shifted(run1, shift_count));
        lemma_bit_or(run2, RightShift::shifted(run2, shift_count));
        lemma_bit_or(line1, line2);
    }
    line1 | line2
}

/// The cells on which the side with the stones `player` may place a stone
/// against the side with the stones `opponent`.
pub fn movable_position(player: u64, opponent: u64) -> (m: u64)
    requires
        player & opponent == 0,
    ensures
        forall|i: int|
            0 <= i < 64 ==> #[trigger] bit(m, i) == place_legal(
                board_cells(player, opponent, PlayerColor::Black),
                PlayerColor::Black,
                i / 8,
                i % 8,
            ),
        forall|i: int|
            0 <= i < 64 ==> #[trigger] bit(m, i) == place_legal(
                board_cells(player, opponent, PlayerColor::White),
                PlayerColor::White,
                i / 8,
                i % 8,
            ),
{
    let horizontal = dir_continuous_line(player, opponent, HORIZONTAL_MASK, 1);
    let vertical = dir_continuous_line(player, opponent, VERTICAL_MASK, 8);
    let diagonal_ltrb = dir_continuous_line(player, opponent, DIAGONAL_MASK, 9);
    let diagonal_rtlb = dir_continuous_line(player, opponent, DIAGONAL_MASK, 7);

    let m = (horizontal | vertical | diagonal_ltrb | diagonal_rtlb) & !(player | opponent);
    proof {
        lemma_bit_or(horizontal, vertical);
        lemma_bit_or(horizontal | vertical, diagonal_ltrb);
        lemma_bit_or(horizontal | vertical | diagonal_ltrb, diagonal_rtlb);
        lemma_bit_or(player, opponent);
        lemma_bit_not(player | opponent);
        lemma_bit_and(horizontal | vertical | diagonal_ltrb | diagonal_rtlb, !(player | opponent));
        lemma_movable_bits(player, opponent, PlayerColor::Black, horizontal, vertical, diagonal_ltrb, diagonal_rtlb, m);
        lemma_movable_bits(player, opponent, PlayerColor::White, horizontal, vertical, diagonal_ltrb, diagonal_rtlb, m);
    }
    m
}

/// What the four continuous lines say of a cell `i`, for either way of each
/// shift: a stone is met across opposing stones, or cell `i` is itself one of
/// the stones crossed.
pub open spec fn lines_at(data: u64, opponent: u64, mask: u64, k: int, i: int, line: u64) -> bool {
    bit(line, i) == (reach(data, opponent & mask, k, i, 6) || reach(data, opponent & mask, k, i - k, 6)
        || reach(data, opponent & mask, -k, i, 6) || reach(data, opponent & mask, -k, i + k, 6))
}

/// The legal-move mask holds the legal placements.
proof fn lemma_movable_bits(
    player: u64,
    opponent: u64,
    color: PlayerColor,
    horizontal: u64,
    vertical: u64,
    diagonal_ltrb: u64,
    diagonal_rtlb: u64,
    m: u64,
)
    requires
        player & opponent == 0,
        forall|i: int| 0 <= i < 64 ==> lines_at(player, opponent, HORIZONTAL_MASK, 1, i, horizontal),
        forall|i: int| 0 <= i < 64 ==> lines_at(player, opponent, VERTICAL_MASK, 8, i, vertical),
        forall|i: int| 0 <= i < 64 ==> lines_at(player, opponent, DIAGONAL_MASK, 9, i, diagonal_ltrb),
        forall|i: int| 0 <= i < 64 ==> lines_at(player, opponent, DIAGONAL_MASK, 7, i, diagonal_rtlb),
        forall|i: int|
            0 <= i < 64 ==> #[trigger] bit(m, i) == ((bit(horizontal, i) || bit(vertical, i) || bit(
                diagonal_ltrb,
                i,
            ) || bit(diagonal_rtlb, i)) && !(bit(player, i) || bit(opponent, i))),
    ensures
        forall|i: int|
            0 <= i < 64 ==> #[trigger] bit(m, i) == place_legal(
                board_cells(player, opponent, color),
                color,
                i / 8,
                i % 8,
            ),
{
    let cells = board_cells(player, opponent, color);
    lemma_board_cells(player, opponent, color);
    assert forall|i: int| 0 <= i < 64 implies #[trigger] bit(m, i) == place_legal(cells, color, i / 8, i % 8) by {
        let r = i / 8;
        let c = i % 8;
        assert(lines_at(player, opponent, HORIZONTAL_MASK, 1, i, horizontal));
        assert(lines_at(player, opponent, VERTICAL_MASK, 8, i, vertical));
        assert(lines_at(player, opponent, DIAGONAL_MASK, 9, i, diagonal_ltrb));
        assert(lines_at(player, opponent, DIAGONAL_MASK, 7, i, diagonal_rtlb));
        lemma_total_flips_unfold(cells, color, r, c);
        lemma_frontier(player, opponent, cells, color, 0, 1, i);
        lemma_frontier(player, opponent, cells, color, 0, -1, i);
        lemma_frontier(player, opponent, cells, color, 1, 0, i);
        lemma_frontier(player, opponent, cells, color, -1, 0, i);
        lemma_frontier(player, opponent, cells, color, 1, 1, i);
        lemma_frontier(player, opponent, cells, color, -1, -1, i);
        lemma_frontier(player, opponent, cells, color, 1, -1, i);
        lemma_frontier(player, opponent, cells, color, -1, 1, i);
        lemma_bit_and(opponent, HORIZONTAL_MASK);
        lemma_bit_and(opponent, VERTICAL_MASK);
        lemma_bit_and(opponent, DIAGONAL_MASK);
        assert(bit(player, i) == (cells[i] == color.stone()));
        assert(bit(opponent, i) == (cells[i] == color.other().stone()));
        assert(cell(cells, r, c) == cells[i]);
    }
}

} // verus!

verus! {

/// The index of the cell that a word with a single bit stands for.
pub open spec fn cell_index_of(position: u64) -> int {
    vstd::std_specs::bits::u64_trailing_zeros(position) as int
}

/// The word has exactly one bit set.
pub open spec fn is_cell(position: u64) -> bool {
    0 <= cell_index_of(position) < 64 && position == 1u64 << (cell_index_of(position) as u64)
}

/// The word `1 << y` stands for cell `y`.
pub proof fn lemma_is_cell(y: u64)
    requires
        y < 64,
    ensures
        is_cell(1u64 << y),
        cell_index_of(1u64 << y) == y,
{
    let p = 1u64 << y;
    lemma_bit_single(y);
    assert(bit(p, y as int));
    lemma_bit_nonzero(p, y as int);
    lemma_nonzero_bit(p);
}

/// The bits of a word with a single bit.
pub proof fn lemma_cell_bits(position: u64)
    requires
        is_cell(position),
    ensures
        forall|i: int| #[trigger] bit(position, i) == (i == cell_index_of(position)),
{
    lemma_bit_single(cell_index_of(position) as u64);
}

/// The walk from `(r, c)` against `(dr, dc)` crosses at most `n` stones of
/// the opponent of `color`, each interior to the direction, and then arrives
/// at `(yr, yc)`.
pub open spec fn chain_back(
    cells: Seq<Square>,
    color: PlayerColor,
    yr: int,
    yc: int,
    r: int,
    c: int,
    dr: int,
    dc: int,
    n: nat,
) -> bool
    decreases n,
{
    n > 0 && interior(r, c, dr, dc) && cell(cells, r, c) == color.other().stone() && ((r - dr == yr && c
        - dc == yc) || chain_back(cells, color, yr, yc, r - dr, c - dc, dr, dc, (n - 1) as nat))
}

/// Reaching cell `i` from the single stone on cell `y`, through opposing
/// stones that are interior to the direction, is a chain from `i` back to
/// `y`.
pub proof fn lemma_reach_single(
    position: u64,
    opponent: u64,
    cells: Seq<Square>,
    color: PlayerColor,
    y: int,
    dr: int,
    dc: int,
    i: int,
    n: nat,
)
    requires
        cells.len() == 64,
        forall|j: int| 0 <= j < 64 ==> #[trigger] bit(opponent, j) == (cells[j] == color.other().stone()),
        forall|j: int| #[trigger] bit(position, j) == (j == y),
        0 <= y < 64,
        is_step(dr, dc),
    ensures
        reach(position, opponent & dir_mask(dr, dc), 8 * dr + dc, i, n) == (0 <= i < 64 && chain_back(
            cells,
            color,
            y / 8,
            y % 8,
            i / 8,
            i % 8,
            dr,
            dc,
            n,
        )),
    decreases n,
{
    let mask = opponent & dir_mask(dr, dc);
    let s = 8 * dr + dc;
    lemma_bit_and(opponent, dir_mask(dr, dc));
    lemma_dir_mask(dr, dc);
    if n > 0 && 0 <= i < 64 {
        let r = i / 8;
        let c = i % 8;
        assert(bit(mask, i) == (bit(opponent, i) && bit(dir_mask(dr, dc), i)));
        if interior(r, c, dr, dc) {
            assert((i - s) / 8 == r - dr && (i - s) % 8 == c - dc);
            assert(0 <= i - s < 64);
            lemma_reach_single(position, opponent, cells, color, y, dr, dc, i - s, (n - 1) as nat);
            assert(bit(position, i - s) == (i - s == y));
        }
    }
}

/// A chain back to `(yr, yc)` lies on the walk from `(yr, yc)` along the
/// direction, within the run of opposing stones that starts there.
pub proof fn lemma_chain_is_ray(
    cells: Seq<Square>,
    color: PlayerColor,
    yr: int,
    yc: int,
    r: int,
    c: int,
    dr: int,
    dc: int,
    n: nat,
)
    requires
        chain_back(cells, color, yr, yc, r, c, dr, dc, n),
        on_board(yr, yc),
        is_step(dr, dc),
    ensures
        on_ray(yr, yc, dr, dc, 1, n as int, r, c),
        steps_between(yr, yc, dr, dc, r, c) <= run_len(cells, color.other().stone(), yr + dr, yc + dc, dr, dc),
    decreases n,
{
    let opp = color.other().stone();
    if r - dr == yr && c - dc == yc {
        assert(run_len(cells, opp, yr + dr, yc + dc, dr, dc) >= 1);
    } else {
        lemma_chain_is_ray(cells, color, yr, yc, r - dr, c - dc, dr, dc, (n - 1) as nat);
        let t = steps_between(yr, yc, dr, dc, r - dr, c - dc);
        assert(along(yr + dr, dr, t) == r && along(yc + dc, dc, t) == c);
        lemma_run_extend(cells, opp, yr + dr, yc + dc, dr, dc, t);
    }
}

/// Every stone that a placement captures along a direction is the end of a
/// chain back to the placement.
pub proof fn lemma_ray_is_chain(
    cells: Seq<Square>,
    color: PlayerColor,
    yr: int,
    yc: int,
    dr: int,
    dc: int,
    t: int,
    n: nat,
)
    requires
        on_board(yr, yc),
        is_step(dr, dc),
        1 <= t <= flips_toward(cells, color, yr, yc, dr, dc),
        t <= n,
    ensures
        chain_back(cells, color, yr, yc, along(yr, dr, t), along(yc, dc, t), dr, dc, n),
    decreases t,
{
    let opp = color.other().stone();
    let f = flips_toward(cells, color, yr, yc, dr, dc) as int;
    lemma_run_cells(cells, opp, yr + dr, yc + dc, dr, dc, t - 1);
    assert(along(yr + dr, dr, t - 1) == along(yr, dr, t));
    assert(along(yc + dc, dc, t - 1) == along(yc, dc, t));
    if t < f {
        lemma_run_cells(cells, opp, yr + dr, yc + dc, dr, dc, t);
    } else {
        lemma_closes_at_end(cells, color, yr + dr, yc + dc, dr, dc);
    }
    assert(along(yr + dr, dr, t) == along(yr, dr, t) + dr);
    assert(along(yc + dc, dc, t) == along(yc, dc, t) + dc);
    if t > 1 {
        lemma_ray_is_chain(cells, color, yr, yc, dr, dc, t - 1, (n - 1) as nat);
        assert(along(yr, dr, t - 1) == along(yr, dr, t) - dr);
        assert(along(yc, dc, t - 1) == along(yc, dc, t) - dc);
    }
}

/// The continuous line from a placed stone along one direction is the run
/// that the placement captures there, provided that a stone of the side to
/// move stands one step behind the line; otherwise nothing is captured.
pub proof fn lemma_dir_flip(
    player: u64,
    opponent: u64,
    position: u64,
    cells: Seq<Square>,
    color: PlayerColor,
    y: int,
    dr: int,
    dc: int,
    line: u64,
    behind: u64,
)
    requires
        bits_match(player, opponent, cells, color),
        0 <= y < 64,
        forall|j: int| #[trigger] bit(position, j) == (j == y),
        is_step(dr, dc),
        forall|q: int| #[trigger] bit(line, q) == reach(position, opponent & dir_mask(dr, dc), 8 * dr + dc, q, 6),
        forall|j: int| #[trigger] bit(behind, j) == (0 <= j < 64 && bit(line, j - (8 * dr + dc))),
    ensures
        (player & behind != 0) == (flips_toward(cells, color, y / 8, y % 8, dr, dc) > 0),
        flips_toward(cells, color, y / 8, y % 8, dr, dc) > 0 ==> forall|q: int|
            0 <= q < 64 ==> #[trigger] bit(line, q) == captured_toward(
                cells,
                color,
                y / 8,
                y % 8,
                dr,
                dc,
                q / 8,
                q % 8,
            ),
{
    let yr = y / 8;
    let yc = y % 8;
    let s = 8 * dr + dc;
    let opp = color.other().stone();
    let temp = player & behind;
    let f = flips_toward(cells, color, yr, yc, dr, dc) as int;
    let run = run_len(cells, opp, yr + dr, yc + dc, dr, dc) as int;
    lemma_bit_and(player, behind);
    lemma_flips_toward_bound(cells, color, yr, yc, dr, dc);
    lemma_closes_at_end(cells, color, yr + dr, yc + dc, dr, dc);
    if temp != 0 {
        lemma_nonzero_bit(temp);
        let j = vstd::std_specs::bits::u64_trailing_zeros(temp) as int;
        assert(bit(temp, j));
        assert(bit(player, j) && bit(behind, j));
        let q = j - s;
        assert(bit(line, q));
        lemma_reach_single(position, opponent, cells, color, y, dr, dc, q, 6);
        let qr = q / 8;
        let qc = q % 8;
        assert(chain_back(cells, color, yr, yc, qr, qc, dr, dc, 6));
        assert(interior(qr, qc, dr, dc));
        assert(j / 8 == qr + dr && j % 8 == qc + dc);
        lemma_chain_is_ray(cells, color, yr, yc, qr, qc, dr, dc, 6);
        let t = steps_between(yr, yc, dr, dc, qr, qc);
        assert(along(yr + dr, dr, t) == qr + dr && along(yc + dc, dc, t) == qc + dc);
        assert(cells[j] == color.stone());
        if run > t {
            lemma_run_cells(cells, opp, yr + dr, yc + dc, dr, dc, t);
        }
        assert(run == t);
        assert(f > 0);
    }
    if f > 0 {
        assert(f == run);
        lemma_ray_is_chain(cells, color, yr, yc, dr, dc, f, 6);
        let er = along(yr, dr, f);
        let ec = along(yc, dc, f);
        assert(along(yr + dr, dr, f) == er + dr && along(yc + dc, dc, f) == ec + dc);
        let e = 8 * er + ec;
        assert(e / 8 == er && e % 8 == ec);
        lemma_reach_single(position, opponent, cells, color, y, dr, dc, e, 6);
        assert(bit(line, e));
        let j = e + s;
        assert(j == 8 * (er + dr) + (ec + dc));
        assert(0 <= j < 64);
        assert(bit(behind, j));
        assert(cells[j] == color.stone());
        assert(bit(player, j));
        assert(bit(temp, j));
        lemma_bit_nonzero(temp, j);
        assert forall|q: int| 0 <= q < 64 implies #[trigger] bit(line, q) == captured_toward(
            cells,
            color,
            yr,
            yc,
            dr,
            dc,
            q / 8,
            q % 8,
        ) by {
            let qr = q / 8;
            let qc = q % 8;
            lemma_reach_single(position, opponent, cells, color, y, dr, dc, q, 6);
            if bit(line, q) {
                lemma_chain_is_ray(cells, color, yr, yc, qr, qc, dr, dc, 6);
            }
            if captured_toward(cells, color, yr, yc, dr, dc, qr, qc) {
                let t = steps_between(yr, yc, dr, dc, qr, qc);
                lemma_ray_is_chain(cells, color, yr, yc, dr, dc, t, 6);
            }
        }
    }
}

} // verus!

verus! {

/// The row step of the left shift by `k` cells.
pub open spec fn shift_row(k: u32) -> int {
    if k == 1 {
        0
    } else {
        1
    }
}

/// The column step of the left shift by `k` cells.
pub open spec fn shift_col(k: u32) -> int {
    if k == 8 {
        0
    } else if k == 7 {
        -1
    } else {
        1
    }
}

/// `k` is the shift of one of the four line orientations of the board, and
/// `mask` is the mask of that orientation.
pub open spec fn is_board_shift(k: u32, mask: u64) -> bool {
    (k == 1 || k == 7 || k == 8 || k == 9) && mask == dir_mask(shift_row(k), shift_col(k))
}

/// The stone on cell `q` is captured along `(dr, dc)` by the stone that
/// `position` stands for.
pub open spec fn flips_along(
    player: u64,
    opponent: u64,
    position: u64,
    color: PlayerColor,
    dr: int,
    dc: int,
    q: int,
) -> bool {
    captured_toward(
        board_cells(player, opponent, color),
        color,
        cell_index_of(position) / 8,
        cell_index_of(position) % 8,
        dr,
        dc,
        q / 8,
        q % 8,
    )
}

/// The stone on cell `q` is captured by the stone that `position` stands
/// for.
pub open spec fn flips_at(player: u64, opponent: u64, position: u64, color: PlayerColor, q: int) -> bool {
    captured(
        board_cells(player, opponent, color),
        color,
        cell_index_of(position) / 8,
        cell_index_of(position) % 8,
        q / 8,
        q % 8,
    )
}

/// The stones captured along one line orientation, both ways, seen as the
/// stones of `color`.
proof fn lemma_dir_flip_pair(
    player: u64,
    opponent: u64,
    position: u64,
    color: PlayerColor,
    mask: u64,
    k: u32,
    line1: u64,
    behind1: u64,
    line2: u64,
    behind2: u64,
    result: u64,
)
    requires
        player & opponent == 0,
        is_cell(position),
        is_board_shift(k, mask),
        line1 == continuous_line_spec::<LeftShift>(position, opponent & mask, k),
        behind1 == LeftShift::shifted(line1, k),
        line2 == continuous_line_spec::<RightShift>(position, opponent & mask, k),
        behind2 == RightShift::shifted(line2, k),
        forall|q: int| #[trigger]
            bit(result, q) == ((player & behind1 != 0 && bit(line1, q)) || (player & behind2 != 0 && bit(
                line2,
                q,
            ))),
    ensures
        forall|q: int|
            0 <= q < 64 ==> #[trigger] bit(result, q) == (flips_along(
                player,
                opponent,
                position,
                color,
                shift_row(k),
                shift_col(k),
                q,
            ) || flips_along(player, opponent, position, color, -shift_row(k), -shift_col(k), q)),
{
    let dr = shift_row(k);
    let dc = shift_col(k);
    let y = cell_index_of(position);
    let cells = board_cells(player, opponent, color);
    lemma_cell_bits(position);
    lemma_board_cells(player, opponent, color);
    lemma_continuous_line::<LeftShift>(position, opponent & mask, k);
    lemma_continuous_line::<RightShift>(position, opponent & mask, k);
    LeftShift::lemma_shifted(line1, k);
    RightShift::lemma_shifted(line2, k);
    assert(dir_mask(-dr, -dc) == dir_mask(dr, dc));
    lemma_dir_flip(player, opponent, position, cells, color, y, dr, dc, line1, behind1);
    lemma_dir_flip(player, opponent, position, cells, color, y, -dr, -dc, line2, behind2);
}

/// The stones that the stone `position` captures along one line
/// orientation, both ways.
fn dir_flip(player: u64, opponent: u64, position: u64, dir_mask: u64, shift_count: u32) -> (r: u64)
    requires
        player & opponent == 0,
        is_cell(position),
        is_board_shift(shift_count, dir_mask),
    ensures
        forall|q: int|
            0 <= q < 64 ==> #[trigger] bit(r, q) == (flips_along(
                player,
                opponent,
                position,
                PlayerColor::Black,
                shift_row(shift_count),
                shift_col(shift_count),
                q,
            ) || flips_along(
                player,
                opponent,
                position,
                PlayerColor::Black,
                -shift_row(shift_count),
                -shift_col(shift_count),
                q,
            )),
        forall|q: int|
            0 <= q < 64 ==> #[trigger] bit(r, q) == (flips_along(
                player,
                opponent,
                position,
                PlayerColor::White,
                shift_row(shift_count),
                shift_col(shift_count),
                q,
            ) || flips_along(
                player,
                opponent,
                position,
                PlayerColor::White,
                -shift_row(shift_count),
                -shift_col(shift_count),
                q,
            )),
{
    let mut result: u64 = 0;
    let mask = opponent & dir_mask;

    let line1 = continuous_line::<LeftShift>(position, mask, shift_count);
    let behind1 = LeftShift::shift(line1, shift_count);
    let temp = player & behind1;
    if temp != 0 {
        result |= line1;
    }
    let ghost middle = result;
    let line2 = continuous_line::<RightShift>(position, mask, shift_count);
    let behind2 = RightShift::shift(line2, shift_count);
    let temp = player & behind2;
    if temp != 0 {
        result |= line2;
    }
    proof {
        lemma_bit_zero();
        lemma_bit_or(0, line1);
        lemma_bit_or(middle, line2);
        lemma_dir_flip_pair(
            player,
            opponent,
            position,
            PlayerColor::Black,
            dir_mask,
            shift_count,
            line1,
            behind1,
            line2,
            behind2,
            result,
        );
        lemma_dir_flip_pair(
            player,
            opponent,
            position,
            PlayerColor::White,
            dir_mask,
            shift_count,
            line1,
            behind1,
            line2,
            behind2,
            result,
        );
    }
    result
}

/// The four words of a flip, put together, are the captured stones.
proof fn lemma_flip_data(
    player: u64,
    opponent: u64,
    position: u64,
    color: PlayerColor,
    horizontal: u64,
    vertical: u64,
    diagonal_ltrb: u64,
    diagonal_rtlb: u64,
)
    requires
        forall|q: int|
            0 <= q < 64 ==> #[trigger] bit(horizontal, q) == (flips_along(
                player,
                opponent,
                position,
                color,
                0,
                1,
                q,
            ) || flips_along(player, opponent, position, color, 0, -1, q)),
        forall|q: int|
            0 <= q < 64 ==> #[trigger] bit(vertical, q) == (flips_along(
                player,
                opponent,
                position,
                color,
                1,
                0,
                q,
            ) || flips_along(player, opponent, position, color, -1, 0, q)),
        forall|q: int|
            0 <= q < 64 ==> #[trigger] bit(diagonal_ltrb, q) == (flips_along(
                player,
                opponent,
                position,
                color,
                1,
                1,
                q,
            ) || flips_along(player, opponent, position, color, -1, -1, q)),
        forall|q: int|
            0 <= q < 64 ==> #[trigger] bit(diagonal_rtlb, q) == (flips_along(
                player,
                opponent,
                position,
                color,
                1,
                -1,
                q,
            ) || flips_along(player, opponent, position, color, -1, 1, q)),
    ensures
        forall|q: int|
            0 <= q < 64 ==> #[trigger] bit(horizontal | vertical | diagonal_ltrb | diagonal_rtlb, q)
                == flips_at(player, opponent, position, color, q),
{
    lemma_bit_or(horizontal, vertical);
    lemma_bit_or(horizontal | vertical, diagonal_ltrb);
    lemma_bit_or(horizontal | vertical | diagonal_ltrb, diagonal_rtlb);
    let y = cell_index_of(position);
    assert forall|q: int| 0 <= q < 64 implies #[trigger] bit(
        horizontal | vertical | diagonal_ltrb | diagonal_rtlb,
        q,
    ) == flips_at(player, opponent, position, color, q) by {
        lemma_captured_unfold(board_cells(player, opponent, color), color, y / 8, y % 8, q / 8, q % 8);
        assert(bit(horizontal, q) == (flips_along(player, opponent, position, color, 0, 1, q)
            || flips_along(player, opponent, position, color, 0, -1, q)));
        assert(bit(vertical, q) == (flips_along(player, opponent, position, color, 1, 0, q) || flips_along(
            player,
            opponent,
            position,
            color,
            -1,
            0,
            q,
        )));
        assert(bit(diagonal_ltrb, q) == (flips_along(player, opponent, position, color, 1, 1, q)
            || flips_along(player, opponent, position, color, -1, -1, q)));
        assert(bit(diagonal_rtlb, q) == (flips_along(player, opponent, position, color, 1, -1, q)
            || flips_along(player, opponent, position, color, -1, 1, q)));
    }
}

/// The stones of `opponent` that the stone `position` captures for the side
/// with the stones `player`.
pub fn flip_data(player: u64, opponent: u64, position: u64) -> (f: u64)
    requires
        player & opponent == 0,
        is_cell(position),
    ensures
        forall|q: int|
            0 <= q < 64 ==> #[trigger] bit(f, q) == flips_at(player, opponent, position, PlayerColor::Black, q),
        forall|q: int|
            0 <= q < 64 ==> #[trigger] bit(f, q) == flips_at(player, opponent, position, PlayerColor::White, q),
{
    let horizontal = dir_flip(player, opponent, position, HORIZONTAL_MASK, 1);
    let vertical = dir_flip(player, opponent, position, VERTICAL_MASK, 8);
    let diagonal_ltrb = dir_flip(player, opponent, position, DIAGONAL_MASK, 9);
    let diagonal_rtlb = dir_flip(player, opponent, position, DIAGONAL_MASK, 7);
    proof {
        lemma_flip_data(
            player,
            opponent,
            position,
            PlayerColor::Black,
            horizontal,
            vertical,
            diagonal_ltrb,
            diagonal_rtlb,
        );
        lemma_flip_data(
            player,
            opponent,
            position,
            PlayerColor::White,
            horizontal,
            vertical,
            diagonal_ltrb,
            diagonal_rtlb,
        );
    }
    horizontal | vertical | diagonal_ltrb | diagonal_rtlb
}

/// Placing on an empty cell and turning the captured stones gives the cells
/// that the rules ask for.
proof fn lemma_flip_cells(
    player: u64,
    opponent: u64,
    position: u64,
    color: PlayerColor,
    f: u64,
    next_player: u64,
    next_opponent: u64,
)
    requires
        player & opponent == 0,
        is_cell(position),
        !bit(player, cell_index_of(position)),
        !bit(opponent, cell_index_of(position)),
        forall|q: int| 0 <= q < 64 ==> #[trigger] bit(f, q) == flips_at(player, opponent, position, color, q),
        next_player == player ^ position ^ f,
        next_opponent == opponent ^ f,
    ensures
        next_player & next_opponent == 0,
        board_cells(next_player, next_opponent, color) == place_result(
            board_cells(player, opponent, color),
            color,
            cell_index_of(position) / 8,
            cell_index_of(position) % 8,
        ),
{
    let y = cell_index_of(position);
    let yr = y / 8;
    let yc = y % 8;
    let cells = board_cells(player, opponent, color);
    lemma_cell_bits(position);
    lemma_board_cells(player, opponent, color);
    lemma_bit_xor(player, position);
    lemma_bit_xor(player ^ position, f);
    lemma_bit_xor(opponent, f);
    lemma_bit_and(next_player, next_opponent);
    assert forall|q: int| 0 <= q < 64 implies (#[trigger] bit(next_player, q) == (bit(player, q) || q == y
        || bit(f, q))) && (bit(next_opponent, q) == (bit(opponent, q) && !bit(f, q))) by {
        assert(bit(player ^ position, q) == (bit(player, q) != bit(position, q)));
        assert(bit(next_opponent, q) == (bit(opponent, q) != bit(f, q)));
        assert(bit(player, q) == (cells[q] == color.stone()));
        assert(bit(opponent, q) == (cells[q] == color.other().stone()));
        if bit(f, q) {
            assert(flips_at(player, opponent, position, color, q));
            lemma_captured_unfold(cells, color, yr, yc, q / 8, q % 8);
            if captured_toward(cells, color, yr, yc, -1, -1, q / 8, q % 8) {
                lemma_captured_is_opponent(cells, color, yr, yc, -1, -1, q / 8, q % 8);
            } else if captured_toward(cells, color, yr, yc, -1, 0, q / 8, q % 8) {
                lemma_captured_is_opponent(cells, color, yr, yc, -1, 0, q / 8, q % 8);
            } else if captured_toward(cells, color, yr, yc, -1, 1, q / 8, q % 8) {
                lemma_captured_is_opponent(cells, color, yr, yc, -1, 1, q / 8, q % 8);
            } else if captured_toward(cells, color, yr, yc, 0, -1, q / 8, q % 8) {
                lemma_captured_is_opponent(cells, color, yr, yc, 0, -1, q / 8, q % 8);
            } else if captured_toward(cells, color, yr, yc, 0, 1, q / 8, q % 8) {
                lemma_captured_is_opponent(cells, color, yr, yc, 0, 1, q / 8, q % 8);
            } else if captured_toward(cells, color, yr, yc, 1, -1, q / 8, q % 8) {
                lemma_captured_is_opponent(cells, color, yr, yc, 1, -1, q / 8, q % 8);
            } else if captured_toward(cells, color, yr, yc, 1, 0, q / 8, q % 8) {
                lemma_captured_is_opponent(cells, color, yr, yc, 1, 0, q / 8, q % 8);
            } else {
                lemma_captured_is_opponent(cells, color, yr, yc, 1, 1, q / 8, q % 8);
            }
            assert(cells[q] == cell(cells, q / 8, q % 8));
        }
    }
    if next_player & next_opponent != 0 {
        lemma_nonzero_bit(next_player & next_opponent);
        let j = vstd::std_specs::bits::u64_trailing_zeros(next_player & next_opponent) as int;
        assert(bit(next_player, j) && bit(next_opponent, j));
        assert(bit(next_player, j) == (bit(player, j) || j == y || bit(f, j)));
        assert(bit(player & opponent, j) == (bit(player, j) && bit(opponent, j)));
        lemma_bit_and(player, opponent);
        lemma_bit_zero();
        assert(false);
    }
    let after = board_cells(next_player, next_opponent, color);
    let wanted = place_result(cells, color, yr, yc);
    assert forall|q: int| 0 <= q < 64 implies after[q] == wanted[q] by {
        assert(bit(next_player, q) == (bit(player, q) || q == y || bit(f, q)));
        assert(bit(f, q) == flips_at(player, opponent, position, color, q));
        assert(bit(player, q) == (cells[q] == color.stone()));
        assert(bit(opponent, q) == (cells[q] == color.other().stone()));
    }
    assert(after =~= wanted);
}

/// The words of both sides after the side with the stones `player` has
/// placed the stone `position`.
pub fn flip(player: u64, opponent: u64, position: u64) -> (r: (u64, u64))
    requires
        player & opponent == 0,
        is_cell(position),
    ensures
        forall|q: int|
            0 <= q < 64 ==> #[trigger] bit(r.0, q) == ((bit(player, q) != (q == cell_index_of(position)))
                != flips_at(player, opponent, position, PlayerColor::Black, q)),
        forall|q: int|
            0 <= q < 64 ==> #[trigger] bit(r.1, q) == (bit(opponent, q) != flips_at(
                player,
                opponent,
                position,
                PlayerColor::Black,
                q,
            )),
        forall|color: PlayerColor|
            !bit(player, cell_index_of(position)) && !bit(opponent, cell_index_of(position)) ==> r.0 & r.1
                == 0 && #[trigger] board_cells(r.0, r.1, color) == place_result(
                board_cells(player, opponent, color),
                color,
                cell_index_of(position) / 8,
                cell_index_of(position) % 8,
            ),
{
    let flip_data = flip_data(player, opponent, position);
    proof {
        lemma_cell_bits(position);
        lemma_bit_xor(player, position);
        lemma_bit_xor(player ^ position, flip_data);
        lemma_bit_xor(opponent, flip_data);
        if !bit(player, cell_index_of(position)) && !bit(opponent, cell_index_of(position)) {
            lemma_flip_cells(
                player,
                opponent,
                position,
                PlayerColor::Black,
                flip_data,
                player ^ position ^ flip_data,
                opponent ^ flip_data,
            );
            lemma_flip_cells(
                player,
                opponent,
                position,
                PlayerColor::White,
                flip_data,
                player ^ position ^ flip_data,
                opponent ^ flip_data,
            );
        }
    }
    (player ^ position ^ flip_data, opponent ^ flip_data)
}

} // verus!

verus! {

/// The positions of the set bits among the lowest `n` bits of `data`, in
/// ascending order.
pub open spec fn positions_upto(data: u64, n: nat) -> Seq<Position>
    decreases n,
{
    if n == 0 {
        Seq::empty()
    } else {
        let q = n - 1;
        let before = positions_upto(data, q as nat);
        if bit(data, q) {
            before.push(Position((q / 8) as usize, (q % 8) as usize))
        } else {
            before
        }
    }
}

/// The positions of the set bits of `data`, lowest bit first.
pub open spec fn positions_of(data: u64) -> Seq<Position> {
    positions_upto(data, 64)
}

/// A word that holds the legal placements lists them as the rules do.
pub proof fn lemma_positions_are_legal(m: u64, cells: Seq<Square>, color: PlayerColor, n: nat)
    requires
        n <= 64,
        forall|i: int| 0 <= i < 64 ==> #[trigger] bit(m, i) == place_legal(cells, color, i / 8, i % 8),
    ensures
        positions_upto(m, n) == legal_upto(cells, color, n),
    decreases n,
{
    if n > 0 {
        lemma_positions_are_legal(m, cells, color, (n - 1) as nat);
        assert(bit(m, n - 1) == place_legal(cells, color, (n - 1) / 8, (n - 1) % 8));
    }
}

/// The number of set bits of a word that marks the cells holding `s` is the
/// number of those cells.
pub proof fn lemma_ones_count(x: u64, cells: Seq<Square>, s: Square, n: nat)
    requires
        n <= 64,
        forall|i: int| 0 <= i < 64 ==> #[trigger] bit(x, i) == (cells[i] == s),
    ensures
        ones_upto(x, n) == count_upto(cells, s, n),
    decreases n,
{
    if n > 0 {
        lemma_ones_count(x, cells, s, (n - 1) as nat);
        assert(bit(x, n - 1) == (cells[n - 1] == s));
    }
}

/// The number of set bits of a word that marks the taken cells, and the
/// number of empty cells, add up to the number of cells.
pub proof fn lemma_ones_taken(x: u64, cells: Seq<Square>, n: nat)
    requires
        n <= 64,
        forall|i: int| 0 <= i < 64 ==> #[trigger] bit(x, i) == (cells[i] != Square::Empty),
    ensures
        ones_upto(x, n) + count_upto(cells, Square::Empty, n) == n,
    decreases n,
{
    if n > 0 {
        lemma_ones_taken(x, cells, (n - 1) as nat);
        assert(bit(x, n - 1) == (cells[n - 1] != Square::Empty));
    }
}

/// The positions of the set bits of `data`, lowest bit first.
pub fn data_to_positions(data: u64) -> (positions: Vec<Position>)
    ensures
        positions@ == positions_of(data),
{
    let mut positions: Vec<Position> = Vec::new();
    let mut r: usize = 0;
    while r < BOARD_SIZE
        invariant
            r <= 8,
            positions@ == positions_upto(data, (8 * r) as nat),
        decreases 8 - r,
    {
        let mut c: usize = 0;
        while c < BOARD_SIZE
            invariant
                r < 8,
                c <= 8,
                positions@ == positions_upto(data, (8 * r + c) as nat),
            decreases 8 - c,
        {
            let index: u64 = (8 * r + c) as u64;
            proof {
                assert((8 * r + c) / 8 == r && (8 * r + c) % 8 == c);
            }
            if crate::bits::has_bit(data, index) {
                positions.push(Position(r, c));
            }
            c += 1;
        }
        r += 1;
    }
    positions
}

/// The word with the single bit of `position`.
pub fn position_to_data(position: &Position) -> (d: u64)
    requires
        position.valid(),
    ensures
        d == 1u64 << (position.index() as u64),
        is_cell(d),
        cell_index_of(d) == position.index(),
{
    proof {
        lemma_is_cell(position.index() as u64);
    }
    1u64 << ((position.0 * BOARD_SIZE + position.1) as u64)
}

/// The cells that the two words stand for.
pub fn data_to_squares(black: u64, white: u64) -> (squares: Squares)
    ensures
        squares@ == cells_of(black, white),
{
    let mut squares: Squares = [Square::Empty;64];
    let mut i: usize = 0;
    while i < 64
        invariant
            i <= 64,
            forall|j: int| 0 <= j < i ==> squares@[j] == #[trigger] cells_of(black, white)[j],
        decreases 64 - i,
    {
        let index: u64 = i as u64;
        if crate::bits::has_bit(white, index) {
            squares[i] = Square::White;
        } else if crate::bits::has_bit(black, index) {
            squares[i] = Square::Black;
        } else {
            squares[i] = Square::Empty;
        }
        i += 1;
    }
    assert(squares@ =~= cells_of(black, white));
    squares
}

/// The words of the black and of the white stones among the cells.
pub fn squares_to_data(squares: &Squares) -> (data: (u64, u64))
    ensures
        forall|i: int| 0 <= i < 64 ==> #[trigger] bit(data.0, i) == (squares@[i] == Square::Black),
        forall|i: int| 0 <= i < 64 ==> #[trigger] bit(data.1, i) == (squares@[i] == Square::White),
        data.0 & data.1 == 0,
        cells_of(data.0, data.1) == squares@,
{
    let mut black_data: u64 = 0;
    let mut white_data: u64 = 0;
    let mut i: usize = 0;
    proof {
        lemma_bit_zero();
    }
    while i < 64
        invariant
            i <= 64,
            forall|j: int| #[trigger] bit(black_data, j) == (0 <= j < i && squares@[j] == Square::Black),
            forall|j: int| #[trigger] bit(white_data, j) == (0 <= j < i && squares@[j] == Square::White),
        decreases 64 - i,
    {
        let p = crate::common::index_to_position(i);
        let s = squares[i];
        let ghost old_black = black_data;
        let ghost old_white = white_data;
        if s == Square::Black {
            let d = position_to_data(&p);
            black_data |= d;
            proof {
                lemma_cell_bits(d);
                lemma_bit_or(old_black, d);
            }
        } else if s == Square::White {
            let d = position_to_data(&p);
            white_data |= d;
            proof {
                lemma_cell_bits(d);
                lemma_bit_or(old_white, d);
            }
        }
        i += 1;
    }
    proof {
        lemma_bit_and(black_data, white_data);
        if black_data & white_data != 0 {
            lemma_nonzero_bit(black_data & white_data);
            let j = vstd::std_specs::bits::u64_trailing_zeros(black_data & white_data) as int;
            assert(bit(black_data, j) && bit(white_data, j));
            assert(false);
        }
        assert(cells_of(black_data, white_data) =~= squares@);
    }
    (black_data, white_data)
}

/// A board held as one word for each side, with the cells kept beside them.
#[derive(Clone, Debug)]
pub struct BitBoard {
    black: u64,
    white: u64,
    squares: Squares,
    depth: u32,
}

impl BitBoard {
    /// The board with the given cells after `depth` plies.
    pub fn new(squares: &Squares, depth: u32) -> (b: Self)
        ensures
            b.wf(),
            b.cells() == squares@,
            b.ply() == depth,
    {
        let (black, white) = squares_to_data(squares);
        let ss: Squares = *squares;
        Self { black, white, squares: ss, depth }
    }

    /// The board with the given stones after `depth` plies. No cell can hold
    /// a stone of both sides.
    pub fn new_from_data(black: u64, white: u64, depth: u32) -> (b: Self)
        requires
            black & white == 0,
        ensures
            b.wf(),
            b.cells() == cells_of(black, white),
            b.ply() == depth,
            b.black_bits() == black,
            b.white_bits() == white,
    {
        let squares = data_to_squares(black, white);
        Self { black, white, squares, depth }
    }

    /// The opening position.
    pub fn new_initial() -> (b: Self)
        ensures
            b.wf(),
            b.cells() == initial_cells(),
            b.ply() == 0,
    {
        let mut squares: Squares = [Square::Empty;64];
        squares[position_to_index(&Position(3, 4))] = Square::Black;
        squares[position_to_index(&Position(4, 3))] = Square::Black;
        squares[position_to_index(&Position(3, 3))] = Square::White;
        squares[position_to_index(&Position(4, 4))] = Square::White;
        assert(squares@ =~= initial_cells());
        Self::new(&squares, 0)
    }

    /// The word of the black stones.
    pub closed spec fn black_bits(&self) -> u64 {
        self.black
    }

    /// The word of the white stones.
    pub closed spec fn white_bits(&self) -> u64 {
        self.white
    }

    /// The words of the side `color` and of its opponent.
    fn sides(&self, color: PlayerColor) -> (r: (u64, u64))
        requires
            self.wf(),
        ensures
            r.0 & r.1 == 0,
            board_cells(r.0, r.1, color) == self.cells(),
            r == if color == PlayerColor::Black {
                (self.black, self.white)
            } else {
                (self.white, self.black)
            },
    {
        proof {
            crate::bits::lemma_and_commutes(self.black, self.white);
        }
        if color == PlayerColor::Black {
            (self.black, self.white)
        } else {
            (self.white, self.black)
        }
    }
}

impl Board for BitBoard {
    closed spec fn cells(&self) -> Seq<Square> {
        self.squares@
    }

    closed spec fn ply(&self) -> u32 {
        self.depth
    }

    closed spec fn wf(&self) -> bool {
        self.black & self.white == 0 && self.squares@ == cells_of(self.black, self.white)
    }

    proof fn lemma_cells_len(&self) {
    }

    fn squares(&self) -> (s: &Squares) {
        &self.squares
    }

    fn depth(&self) -> (d: u32) {
        self.depth
    }

    fn square_count(&self, color: Square) -> (n: u32) {
        proof {
            lemma_board_cells(self.black, self.white, PlayerColor::Black);
            lemma_bit_or(self.black, self.white);
            let taken = self.black | self.white;
            assert forall|i: int| 0 <= i < 64 implies #[trigger] bit(taken, i) == (self.squares@[i]
                != Square::Empty) by {
                assert(bit(self.black, i) == (self.squares@[i] == Square::Black));
                assert(bit(self.white, i) == (self.squares@[i] == Square::White));
            }
            lemma_ones_count(self.black, self.squares@, Square::Black, 64);
            lemma_ones_count(self.white, self.squares@, Square::White, 64);
            lemma_ones_taken(taken, self.squares@, 64);
            crate::bits::lemma_ones_upto_bound(self.black, 64);
            crate::bits::lemma_ones_upto_bound(self.white, 64);
        }
        match color {
            Square::Black => self.black.count_ones(),
            Square::White => self.white.count_ones(),
            Square::Empty => (self.black | self.white).count_zeros(),
        }
    }

    fn duplicate(&self) -> (b: Self) {
        BitBoard { black: self.black, white: self.white, squares: self.squares, depth: self.depth }
    }

    fn apply_action(&self, action: &Action) -> (r: Option<Self>) {
        match action.action {
            ActionType::Pass => {
                if self.get_movable_positions(&action.color).len() == 0 {
                    Some(BitBoard::new_from_data(self.black, self.white, self.depth + 1))
                } else {
                    None
                }
            },
            ActionType::Move(position) => {
                let (player, opponent) = self.sides(action.color);
                let movable = movable_position(player, opponent);
                let pos = position_to_data(&position);
                let ghost y = position.index();
                proof {
                    lemma_cell_bits(pos);
                    lemma_bit_and(pos, movable);
                    lemma_board_cells(player, opponent, action.color);
                    assert(y / 8 == position.0 && y % 8 == position.1);
                    assert(bit(movable, y) == place_legal(
                        self.cells(),
                        action.color,
                        position.0 as int,
                        position.1 as int,
                    ));
                    if pos & movable != 0 {
                        lemma_nonzero_bit(pos & movable);
                    }
                    if bit(movable, y) {
                        assert(bit(pos & movable, y));
                        lemma_bit_nonzero(pos & movable, y);
                    }
                }
                if pos & movable == 0 {
                    return None;
                }
                proof {
                    assert(bit(player, y) == (self.cells()[y] == action.color.stone()));
                    assert(bit(opponent, y) == (self.cells()[y] == action.color.other().stone()));
                }
                let (next_player, next_opponent) = flip(player, opponent, pos);
                proof {
                    assert(board_cells(next_player, next_opponent, action.color) == place_result(
                        board_cells(player, opponent, action.color),
                        action.color,
                        y / 8,
                        y % 8,
                    ));
                    crate::bits::lemma_and_commutes(next_player, next_opponent);
                }
                let (next_black, next_white) = if action.color == PlayerColor::Black {
                    (next_player, next_opponent)
                } else {
                    (next_opponent, next_player)
                };
                Some(BitBoard::new_from_data(next_black, next_white, self.depth + 1))
            },
        }
    }

    fn get_movable_positions(&self, color: &PlayerColor) -> (v: Vec<Position>) {
        let (player, opponent) = self.sides(*color);
        let movable = movable_position(player, opponent);
        proof {
            lemma_positions_are_legal(movable, self.cells(), *color, 64);
        }
        data_to_positions(movable)
    }
}

} // verus!
