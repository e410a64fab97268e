//! The board that is changed in place: eight rows of eight cells, with
//! capture tables of its own.

use vstd::prelude::*;
use crate::common::{Square, PlayerColor, Position, Action, ActionType, LineDirection, BOARD_SIZE};
use crate::indexer::{Indexer, FlipInfo};
use crate::index_board::{
    line_through, line_info, ray_line, lemma_line_info, lemma_painted_cells_on_board,
};
use crate::rules::{
    on_board, is_step, cell, flips_toward, along, on_ray, place_result, legal_upto,
    legal_positions, action_legal, apply_spec, initial_cells, lemma_total_flips_unfold,
    lemma_captured_unfold,
};

verus! {

/// A board of eight rows of eight cells that its moves change in place.
pub struct Board {
    pub squares: Vec<Vec<Square>>,
    indexer: Indexer,
}

/// There are eight rows of eight cells.
pub open spec fn is_grid(rows: Seq<Vec<Square>>) -> bool {
    rows.len() == 8 && forall|r: int| 0 <= r < 8 ==> (#[trigger] rows[r])@.len() == 8
}

/// The cells of the rows in row-major order.
pub open spec fn grid_cells(rows: Seq<Vec<Square>>) -> Seq<Square> {
    Seq::new(64, |i: int| rows[i / 8]@[i % 8])
}

/// Writes `s` to the cell `(r, c)`.
fn put(squares: &mut Vec<Vec<Square>>, r: usize, c: usize, s: Square)
    requires
        is_grid(old(squares)@),
        r < 8,
        c < 8,
    ensures
        is_grid(final(squares)@),
        grid_cells(final(squares)@) == grid_cells(old(squares)@).update(8 * r + c, s),
{
    let mut row = squares[r].clone();
    row.set(c, s);
    squares.set(r, row);
    proof {
        let before = grid_cells(old(squares)@);
        let after = grid_cells(squares@);
        assert forall|i: int| 0 <= i < 64 implies after[i] == before.update(8 * r + c, s)[i] by {
            if i / 8 == r {
                assert(squares@[i / 8]@ == old(squares)@[r as int]@.update(c as int, s));
            } else {
                assert(squares@[i / 8] == old(squares)@[i / 8]);
            }
        }
        assert(after =~= before.update(8 * r + c, s));
    }
}

/// The cells after `p` cells have been painted with `s`, starting one step
/// of `(dr, dc)` away from `(r, c)`.
pub open spec fn painted(cells: Seq<Square>, r: int, c: int, dr: int, dc: int, p: int, s: Square) -> Seq<
    Square,
> {
    Seq::new(
        64,
        |q: int|
            if on_ray(r, c, dr, dc, 1, p, q / 8, q % 8) {
                s
            } else {
                cells[q]
            },
    )
}

/// Paints `n` cells with `s`, starting one step of `(dr, dc)` away from
/// `(r, c)`.
fn paint_run(squares: &mut Vec<Vec<Square>>, r: usize, c: usize, dr: i32, dc: i32, n: u8, s: Square)
    requires
        is_grid(old(squares)@),
        on_board(r as int, c as int),
        is_step(dr as int, dc as int),
        n <= 7,
        on_board(along(r as int, dr as int, n as int), along(c as int, dc as int, n as int)),
    ensures
        is_grid(final(squares)@),
        grid_cells(final(squares)@) == painted(
            grid_cells(old(squares)@),
            r as int,
            c as int,
            dr as int,
            dc as int,
            n as int,
            s,
        ),
{
    let mut row: i32 = r as i32;
    let mut col: i32 = c as i32;
    let mut p: u8 = 0;
    let ghost start = grid_cells(squares@);
    assert(start =~= painted(start, r as int, c as int, dr as int, dc as int, 0, s));
    while p < n
        invariant
            p <= n <= 7,
            is_grid(squares@),
            on_board(r as int, c as int),
            is_step(dr as int, dc as int),
            on_board(along(r as int, dr as int, n as int), along(c as int, dc as int, n as int)),
            row == along(r as int, dr as int, p as int),
            col == along(c as int, dc as int, p as int),
            start.len() == 64,
            grid_cells(squares@) == painted(start, r as int, c as int, dr as int, dc as int, p as int, s),
        decreases n - p,
    {
        row += dr;
        col += dc;
        put(squares, row as usize, col as usize, s);
        proof {
            let before = painted(start, r as int, c as int, dr as int, dc as int, p as int, s);
            let after = painted(start, r as int, c as int, dr as int, dc as int, p + 1, s);
            assert forall|q: int| 0 <= q < 64 implies before.update(8 * row + col, s)[q] == after[q] by {
                if q == 8 * row + col {
                    assert(q / 8 == row && q % 8 == col);
                }
            }
            assert(before.update(8 * row + col, s) =~= after);
        }
        p += 1;
    }
}

/// The cells after a stone `s` has been put on `(r, c)` and runs of the given
/// lengths have been painted with it along the eight directions.
pub open spec fn painted_around(
    cells: Seq<Square>,
    r: int,
    c: int,
    s: Square,
    east: int,
    west: int,
    south: int,
    north: int,
    south_east: int,
    north_west: int,
    north_east: int,
    south_west: int,
) -> Seq<Square> {
    let s0 = cells.update(8 * r + c, s);
    let s1 = painted(s0, r, c, 0, 1, east, s);
    let s2 = painted(s1, r, c, 0, -1, west, s);
    let s3 = painted(s2, r, c, 1, 0, south, s);
    let s4 = painted(s3, r, c, -1, 0, north, s);
    let s5 = painted(s4, r, c, 1, 1, south_east, s);
    let s6 = painted(s5, r, c, -1, -1, north_west, s);
    let s7 = painted(s6, r, c, -1, 1, north_east, s);
    painted(s7, r, c, 1, -1, south_west, s)
}

/// Painting the runs that a placement captures gives the cells that the
/// rules ask for.
pub proof fn lemma_painted_around(cells: Seq<Square>, color: PlayerColor, r: int, c: int)
    requires
        cells.len() == 64,
        on_board(r, c),
    ensures
        painted_around(
            cells,
            r,
            c,
            color.stone(),
            flips_toward(cells, color, r, c, 0, 1) as int,
            flips_toward(cells, color, r, c, 0, -1) as int,
            flips_toward(cells, color, r, c, 1, 0) as int,
            flips_toward(cells, color, r, c, -1, 0) as int,
            flips_toward(cells, color, r, c, 1, 1) as int,
            flips_toward(cells, color, r, c, -1, -1) as int,
            flips_toward(cells, color, r, c, -1, 1) as int,
            flips_toward(cells, color, r, c, 1, -1) as int,
        ) == place_result(cells, color, r, c),
{
    let got = painted_around(
        cells,
        r,
        c,
        color.stone(),
        flips_toward(cells, color, r, c, 0, 1) as int,
        flips_toward(cells, color, r, c, 0, -1) as int,
        flips_toward(cells, color, r, c, 1, 0) as int,
        flips_toward(cells, color, r, c, -1, 0) as int,
        flips_toward(cells, color, r, c, 1, 1) as int,
        flips_toward(cells, color, r, c, -1, -1) as int,
        flips_toward(cells, color, r, c, -1, 1) as int,
        flips_toward(cells, color, r, c, 1, -1) as int,
    );
    let wanted = place_result(cells, color, r, c);
    assert forall|q: int| 0 <= q < 64 implies got[q] == wanted[q] by {
        lemma_captured_unfold(cells, color, r, c, q / 8, q % 8);
    }
    assert(got =~= wanted);
}

/// Puts a stone `s` on `(r, c)` and paints runs of the given lengths with it
/// along the eight directions.
fn paint_around(
    squares: &mut Vec<Vec<Square>>,
    r: usize,
    c: usize,
    s: Square,
    l2r: FlipInfo,
    t2b: FlipInfo,
    tl2br: FlipInfo,
    bl2tr: FlipInfo,
)
    requires
        is_grid(old(squares)@),
        on_board(r as int, c as int),
        l2r.higher <= 7 && on_board(along(r as int, 0, l2r.higher as int), along(c as int, 1, l2r.higher as int)),
        l2r.lower <= 7 && on_board(along(r as int, 0, l2r.lower as int), along(c as int, -1, l2r.lower as int)),
        t2b.higher <= 7 && on_board(along(r as int, 1, t2b.higher as int), along(c as int, 0, t2b.higher as int)),
        t2b.lower <= 7 && on_board(along(r as int, -1, t2b.lower as int), along(c as int, 0, t2b.lower as int)),
        tl2br.higher <= 7 && on_board(
            along(r as int, 1, tl2br.higher as int),
            along(c as int, 1, tl2br.higher as int),
        ),
        tl2br.lower <= 7 && on_board(
            along(r as int, -1, tl2br.lower as int),
            along(c as int, -1, tl2br.lower as int),
        ),
        bl2tr.higher <= 7 && on_board(
            along(r as int, -1, bl2tr.higher as int),
            along(c as int, 1, bl2tr.higher as int),
        ),
        bl2tr.lower <= 7 && on_board(
            along(r as int, 1, bl2tr.lower as int),
            along(c as int, -1, bl2tr.lower as int),
        ),
    ensures
        is_grid(final(squares)@),
        grid_cells(final(squares)@) == painted_around(
            grid_cells(old(squares)@),
            r as int,
            c as int,
            s,
            l2r.higher as int,
            l2r.lower as int,
            t2b.higher as int,
            t2b.lower as int,
            tl2br.higher as int,
            tl2br.lower as int,
            bl2tr.higher as int,
            bl2tr.lower as int,
        ),
{
    put(squares, r, c, s);
    paint_run(squares, r, c, 0, 1, l2r.higher, s);
    paint_run(squares, r, c, 0, -1, l2r.lower, s);
    paint_run(squares, r, c, 1, 0, t2b.higher, s);
    paint_run(squares, r, c, -1, 0, t2b.lower, s);
    paint_run(squares, r, c, 1, 1, tl2br.higher, s);
    paint_run(squares, r, c, -1, -1, tl2br.lower, s);
    paint_run(squares, r, c, -1, 1, bl2tr.higher, s);
    paint_run(squares, r, c, 1, -1, bl2tr.lower, s);
}

impl Board {
    /// The rows are eight rows of eight cells, and the tables are complete.
    pub closed spec fn wf(&self) -> bool {
        is_grid(self.squares@) && self.indexer.wf()
    }

    /// The 64 cells in row-major order.
    pub closed spec fn cells(&self) -> Seq<Square> {
        grid_cells(self.squares@)
    }

    /// The rows of the board.
    pub closed spec fn rows(&self) -> Seq<Vec<Square>> {
        self.squares@
    }

    /// The rows of a consistent board are eight rows of eight cells, and the
    /// cells are their cells in row-major order.
    pub proof fn lemma_rows(&self)
        requires
            self.wf(),
        ensures
            is_grid(self.rows()),
            self.cells() == grid_cells(self.rows()),
    {
    }

    /// The opening position, with tables of its own.
    pub fn new() -> (board: Board)
        ensures
            board.wf(),
            board.cells() == initial_cells(),
    {
        let mut squares: Vec<Vec<Square>> = Vec::new();
        let mut r: usize = 0;
        while r < BOARD_SIZE
            invariant
                r <= 8,
                squares@.len() == r,
                forall|i: int|
                    0 <= i < r ==> (#[trigger] squares@[i])@.len() == 8 && forall|j: int|
                        0 <= j < 8 ==> squares@[i]@[j] == Square::Empty,
            decreases 8 - r,
        {
            let mut row: Vec<Square> = Vec::new();
            let mut c: usize = 0;
            while c < BOARD_SIZE
                invariant
                    c <= 8,
                    row@.len() == c,
                    forall|j: int| 0 <= j < c ==> row@[j] == Square::Empty,
                decreases 8 - c,
            {
                row.push(Square::Empty);
                c += 1;
            }
            squares.push(row);
            r += 1;
        }
        put(&mut squares, 3, 4, Square::Black);
        put(&mut squares, 4, 3, Square::Black);
        put(&mut squares, 3, 3, Square::White);
        put(&mut squares, 4, 4, Square::White);
        assert(grid_cells(squares@) =~= initial_cells());
        let indexer = Indexer::new();
        Board { squares, indexer }
    }

    /// Makes the move if the rules allow it, and says whether they do. A
    /// move that they do not allow changes nothing.
    pub fn apply_action(&mut self, action: &Action) -> (r: bool)
        requires
            old(self).wf(),
            action.valid(),
        ensures
            final(self).wf(),
            r == action_legal(old(self).cells(), *action),
            final(self).cells() == if r {
                apply_spec(old(self).cells(), *action)
            } else {
                old(self).cells()
            },
    {
        match action.action {
            ActionType::Pass => self.can_pass(action.color),
            ActionType::Move(position) => {
                let color = action.color;
                let row = position.0;
                let col = position.1;
                let ghost cells = self.cells();
                proof {
                    assert(cell(cells, row as int, col as int) == self.squares@[row as int]@[col as int]);
                }
                if self.squares[row][col] != Square::Empty {
                    return false;
                }
                let (l2r_finfo, t2b_finfo, tl2br_finfo, bl2tr_finfo) = self.get_flip_infos(color, row, col);
                proof {
                    let pr = row as int;
                    let pc = col as int;
                    lemma_line_info(cells, color, pr, pc, LineDirection::Left2Right);
                    lemma_line_info(cells, color, pr, pc, LineDirection::Top2Bottom);
                    lemma_line_info(cells, color, pr, pc, LineDirection::TopLeft2BottomRight);
                    lemma_line_info(cells, color, pr, pc, LineDirection::BottomLeft2TopRight);
                    lemma_total_flips_unfold(cells, color, pr, pc);
                    lemma_painted_cells_on_board(cells, color, pr, pc, 0, 1);
                    lemma_painted_cells_on_board(cells, color, pr, pc, 0, -1);
                    lemma_painted_cells_on_board(cells, color, pr, pc, 1, 0);
                    lemma_painted_cells_on_board(cells, color, pr, pc, -1, 0);
                    lemma_painted_cells_on_board(cells, color, pr, pc, 1, 1);
                    lemma_painted_cells_on_board(cells, color, pr, pc, -1, -1);
                    lemma_painted_cells_on_board(cells, color, pr, pc, -1, 1);
                    lemma_painted_cells_on_board(cells, color, pr, pc, 1, -1);
                }
                let flip_count = l2r_finfo.flip_count() + t2b_finfo.flip_count()
                    + tl2br_finfo.flip_count() + bl2tr_finfo.flip_count();
                if flip_count == 0 {
                    return false;
                }
                let stone = color.to_square();
                paint_around(&mut self.squares, row, col, stone, l2r_finfo, t2b_finfo, tl2br_finfo, bl2tr_finfo);
                proof {
                    lemma_painted_around(cells, color, row as int, col as int);
                }
                true
            },
        }
    }

    /// The legal placements of `color`, each as `(row, column)`, in
    /// ascending order of the flat index.
    pub fn get_movable_positions(&self, color: PlayerColor) -> (positions: Vec<(usize, usize)>)
        requires
            self.wf(),
        ensures
            positions@.len() == legal_positions(self.cells(), color).len(),
            forall|i: int|
                0 <= i < positions@.len() ==> Position((#[trigger] positions@[i]).0, positions@[i].1)
                    == legal_positions(self.cells(), color)[i],
    {
        let mut positions: Vec<(usize, usize)> = Vec::new();
        let ghost cells = self.cells();
        let mut r: usize = 0;
        while r < BOARD_SIZE
            invariant
                r <= 8,
                self.wf(),
                cells == self.cells(),
                positions@.len() == legal_upto(cells, color, (8 * r) as nat).len(),
                forall|i: int|
                    0 <= i < positions@.len() ==> Position((#[trigger] positions@[i]).0, positions@[i].1)
                        == legal_upto(cells, color, (8 * r) as nat)[i],
            decreases 8 - r,
        {
            let mut c: usize = 0;
            while c < BOARD_SIZE
                invariant
                    r < 8,
                    c <= 8,
                    self.wf(),
                    cells == self.cells(),
                    positions@.len() == legal_upto(cells, color, (8 * r + c) as nat).len(),
                    forall|i: int|
                        0 <= i < positions@.len() ==> Position(
                            (#[trigger] positions@[i]).0,
                            positions@[i].1,
                        ) == legal_upto(cells, color, (8 * r + c) as nat)[i],
                decreases 8 - c,
            {
                let (l2r, t2b, tl2br, bl2tr) = self.get_flip_infos(color, r, c);
                proof {
                    lemma_line_info(cells, color, r as int, c as int, LineDirection::Left2Right);
                    lemma_line_info(cells, color, r as int, c as int, LineDirection::Top2Bottom);
                    lemma_line_info(cells, color, r as int, c as int, LineDirection::TopLeft2BottomRight);
                    lemma_line_info(cells, color, r as int, c as int, LineDirection::BottomLeft2TopRight);
                    lemma_total_flips_unfold(cells, color, r as int, c as int);
                    assert((8 * r + c) / 8 == r && (8 * r + c) % 8 == c);
                }
                let count = l2r.flip_count() + t2b.flip_count() + tl2br.flip_count() + bl2tr.flip_count();
                if count > 0 {
                    positions.push((r, c));
                }
                c += 1;
            }
            r += 1;
        }
        positions
    }

    /// What the tables hold for a placement of `color` at `(row, col)`, for
    /// the horizontal line, the vertical line and the two diagonals through
    /// it.
    pub fn get_flip_infos(&self, color: PlayerColor, row: usize, col: usize) -> (infos: (
        FlipInfo,
        FlipInfo,
        FlipInfo,
        FlipInfo,
    ))
        requires
            self.wf(),
            row < 8,
            col < 8,
        ensures
            infos.0 == line_info(self.cells(), color, row as int, col as int, LineDirection::Left2Right),
            infos.1 == line_info(self.cells(), color, row as int, col as int, LineDirection::Top2Bottom),
            infos.2 == line_info(
                self.cells(),
                color,
                row as int,
                col as int,
                LineDirection::TopLeft2BottomRight,
            ),
            infos.3 == line_info(
                self.cells(),
                color,
                row as int,
                col as int,
                LineDirection::BottomLeft2TopRight,
            ),
    {
        let l2r = self.get_line(row, col, LineDirection::Left2Right);
        let l2r_finfo = *self.indexer.get_flip_info(color, l2r.as_slice(), col);

        let t2b = self.get_line(row, col, LineDirection::Top2Bottom);
        let t2b_finfo = *self.indexer.get_flip_info(color, t2b.as_slice(), row);

        let tl2br = self.get_line(row, col, LineDirection::TopLeft2BottomRight);
        let pos = if row >= col {
            col
        } else {
            row
        };
        let tl2br_finfo = *self.indexer.get_flip_info(color, tl2br.as_slice(), pos);

        let bl2tr = self.get_line(row, col, LineDirection::BottomLeft2TopRight);
        let pos = if row + col + 1 < BOARD_SIZE {
            col
        } else {
            BOARD_SIZE - 1 - row
        };
        let bl2tr_finfo = *self.indexer.get_flip_info(color, bl2tr.as_slice(), pos);

        (l2r_finfo, t2b_finfo, tl2br_finfo, bl2tr_finfo)
    }

    /// The line of eight cells through `(row, col)` in the given
    /// orientation. A diagonal that is shorter than eight cells is filled up
    /// with empty cells.
    pub fn get_line(&self, row: usize, col: usize, dir: LineDirection) -> (found: Vec<Square>)
        requires
            self.wf(),
            row < 8,
            col < 8,
        ensures
            found@ == line_through(self.cells(), row as int, col as int, dir),
    {
        let mut line: Vec<Square> = Vec::new();
        let ghost cells = self.cells();
        let (mut r, mut c, dr, dc): (i32, i32, i32, i32) = match dir {
            LineDirection::Left2Right => (row as i32, 0, 0, 1),
            LineDirection::Top2Bottom => (0, col as i32, 1, 0),
            LineDirection::TopLeft2BottomRight => {
                if row >= col {
                    ((row - col) as i32, 0, 1, 1)
                } else {
                    (0, (col - row) as i32, 1, 1)
                }
            },
            LineDirection::BottomLeft2TopRight => {
                if row + col <= 7 {
                    ((row + col) as i32, 0, -1, 1)
                } else {
                    (7, (row + col - 7) as i32, -1, 1)
                }
            },
        };
        let ghost r0 = r as int;
        let ghost c0 = c as int;
        let mut i: usize = 0;
        while i < BOARD_SIZE
            invariant
                i <= 8,
                self.wf(),
                cells == self.cells(),
                is_step(dr as int, dc as int),
                on_board(r0, c0),
                r == along(r0, dr as int, i as int),
                c == along(c0, dc as int, i as int),
                line@.len() == i,
                forall|j: int| 0 <= j < i ==> line@[j] == #[trigger] ray_line(cells, r0, c0, dr as int, dc as int)[j],
            decreases 8 - i,
        {
            if 0 <= r && r < 8 && 0 <= c && c < 8 {
                proof {
                    assert(cell(cells, r as int, c as int) == self.squares@[r as int]@[c as int]);
                }
                line.push(self.squares[r as usize][c as usize]);
            } else {
                line.push(Square::Empty);
            }
            r += dr;
            c += dc;
            i += 1;
        }
        assert(line@ =~= ray_line(cells, r0, c0, dr as int, dc as int));
        line
    }

    /// `color` has no legal placement.
    pub fn can_pass(&self, color: PlayerColor) -> (b: bool)
        requires
            self.wf(),
        ensures
            b == (legal_positions(self.cells(), color).len() == 0),
    {
        self.get_movable_positions(color).len() == 0
    }
}

} // verus!
