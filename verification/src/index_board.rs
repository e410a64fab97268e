//! The table-driven board: the four lines through a cell are looked up in the
//! capture tables, and nothing is walked when a move is made.

use std::rc::Rc;
use vstd::prelude::*;
use crate::common::{
    Square, Squares, PlayerColor, Position, Action, ActionType, LineDirection, position_to_index,
    BOARD_SIZE,
};
use crate::board::Board;
use crate::indexer::{
    Indexer, FlipInfo, flip_info_of, line_run, line_closes, lemma_line_flips_bound,
};
use crate::rules::{
    on_board, is_step, cell, run_len, closes, flips_toward, along, on_ray, place_result,
    legal_upto, legal_positions, count_upto, initial_cells, lemma_run_cells,
    lemma_total_flips_unfold, lemma_captured_unfold,
};

verus! {

/// A board held as 64 cells and a ply counter, with a shared handle to the
/// capture tables.
pub struct IndexBoard {
    squares: Squares,
    depth: u32,
    indexer: Rc<Indexer>,
}

/// The row step of a line in its canonical orientation.
pub open spec fn line_step_row(dir: LineDirection) -> int {
    match dir {
        LineDirection::Left2Right => 0,
        LineDirection::Top2Bottom => 1,
        LineDirection::TopLeft2BottomRight => 1,
        LineDirection::BottomLeft2TopRight => -1,
    }
}

/// The column step of a line in its canonical orientation.
pub open spec fn line_step_col(dir: LineDirection) -> int {
    match dir {
        LineDirection::Left2Right => 1,
        LineDirection::Top2Bottom => 0,
        LineDirection::TopLeft2BottomRight => 1,
        LineDirection::BottomLeft2TopRight => 1,
    }
}

/// The row of the first cell of the line through `(r, c)`.
pub open spec fn line_start_row(r: int, c: int, dir: LineDirection) -> int {
    match dir {
        LineDirection::Left2Right => r,
        LineDirection::Top2Bottom => 0,
        LineDirection::TopLeft2BottomRight => if r >= c {
            r - c
        } else {
            0
        },
        LineDirection::BottomLeft2TopRight => if r + c <= 7 {
            r + c
        } else {
            7
        },
    }
}

/// The column of the first cell of the line through `(r, c)`.
pub open spec fn line_start_col(r: int, c: int, dir: LineDirection) -> int {
    match dir {
        LineDirection::Left2Right => 0,
        LineDirection::Top2Bottom => c,
        LineDirection::TopLeft2BottomRight => if r >= c {
            0
        } else {
            c - r
        },
        LineDirection::BottomLeft2TopRight => if r + c <= 7 {
            0
        } else {
            r + c - 7
        },
    }
}

/// Where `(r, c)` stands on the line through it.
pub open spec fn line_focus(r: int, c: int, dir: LineDirection) -> int {
    match dir {
        LineDirection::Left2Right => c,
        LineDirection::Top2Bottom => r,
        LineDirection::TopLeft2BottomRight => if r >= c {
            c
        } else {
            r
        },
        LineDirection::BottomLeft2TopRight => if r + c < 7 {
            c
        } else {
            7 - r
        },
    }
}

/// The eight cells that start at `(r0, c0)` and follow each other by
/// `(dr, dc)`; where the walk has left the board the line is empty.
pub open spec fn ray_line(cells: Seq<Square>, r0: int, c0: int, dr: int, dc: int) -> Seq<Square> {
    Seq::new(
        8,
        |i: int|
            if on_board(along(r0, dr, i), along(c0, dc, i)) {
                cell(cells, along(r0, dr, i), along(c0, dc, i))
            } else {
                Square::Empty
            },
    )
}

/// The line through `(r, c)` in the given orientation.
pub open spec fn line_through(cells: Seq<Square>, r: int, c: int, dir: LineDirection) -> Seq<Square> {
    ray_line(
        cells,
        line_start_row(r, c, dir),
        line_start_col(r, c, dir),
        line_step_row(dir),
        line_step_col(dir),
    )
}

/// What the tables hold for a placement of `color` at `(r, c)`, seen along
/// the line of the given orientation.
pub open spec fn line_info(cells: Seq<Square>, color: PlayerColor, r: int, c: int, dir: LineDirection) -> FlipInfo {
    flip_info_of(line_through(cells, r, c, dir), color, line_focus(r, c, dir))
}

/// Walking a line toward its end is walking the board along the line's step.
pub proof fn lemma_line_forward(cells: Seq<Square>, color: PlayerColor, r0: int, c0: int, dr: int, dc: int, i: int)
    requires
        on_board(r0, c0),
        is_step(dr, dc),
        0 <= i <= 8,
    ensures
        line_run(ray_line(cells, r0, c0, dr, dc), color.other().stone(), i, 1) == run_len(
            cells,
            color.other().stone(),
            along(r0, dr, i),
            along(c0, dc, i),
            dr,
            dc,
        ),
        line_closes(ray_line(cells, r0, c0, dr, dc), color, i, 1) == closes(
            cells,
            color,
            along(r0, dr, i),
            along(c0, dc, i),
            dr,
            dc,
        ),
    decreases 8 - i,
{
    if i < 8 {
        lemma_line_forward(cells, color, r0, c0, dr, dc, i + 1);
        assert(along(r0, dr, i + 1) == along(r0, dr, i) + dr);
        assert(along(c0, dc, i + 1) == along(c0, dc, i) + dc);
    }
}

/// Walking a line toward its start is walking the board against the line's
/// step, provided that the line starts at the edge of the board.
pub proof fn lemma_line_backward(cells: Seq<Square>, color: PlayerColor, r0: int, c0: int, dr: int, dc: int, i: int)
    requires
        on_board(r0, c0),
        !on_board(r0 - dr, c0 - dc),
        is_step(dr, dc),
        -1 <= i < 8,
    ensures
        line_run(ray_line(cells, r0, c0, dr, dc), color.other().stone(), i, -1) == run_len(
            cells,
            color.other().stone(),
            along(r0, dr, i),
            along(c0, dc, i),
            -dr,
            -dc,
        ),
        line_closes(ray_line(cells, r0, c0, dr, dc), color, i, -1) == closes(
            cells,
            color,
            along(r0, dr, i),
            along(c0, dc, i),
            -dr,
            -dc,
        ),
    decreases i + 1,
{
    if i >= 0 {
        lemma_line_backward(cells, color, r0, c0, dr, dc, i - 1);
        assert(along(r0, dr, i - 1) == along(r0, dr, i) - dr);
        assert(along(c0, dc, i - 1) == along(c0, dc, i) - dc);
    }
}

/// What the tables hold is what the rules say: on an empty cell the two
/// counts of a line are the captures along its two directions, and on a
/// taken cell they are zero.
pub proof fn lemma_line_info(cells: Seq<Square>, color: PlayerColor, r: int, c: int, dir: LineDirection)
    requires
        on_board(r, c),
    ensures
        cell(cells, r, c) == Square::Empty ==> line_info(cells, color, r, c, dir).higher == flips_toward(
            cells,
            color,
            r,
            c,
            line_step_row(dir),
            line_step_col(dir),
        ) && line_info(cells, color, r, c, dir).lower == flips_toward(
            cells,
            color,
            r,
            c,
            -line_step_row(dir),
            -line_step_col(dir),
        ),
        cell(cells, r, c) != Square::Empty ==> line_info(cells, color, r, c, dir).higher == 0 && line_info(
            cells,
            color,
            r,
            c,
            dir,
        ).lower == 0,
        line_info(cells, color, r, c, dir).higher <= 6,
        line_info(cells, color, r, c, dir).lower <= 6,
{
    let r0 = line_start_row(r, c, dir);
    let c0 = line_start_col(r, c, dir);
    let dr = line_step_row(dir);
    let dc = line_step_col(dir);
    let f = line_focus(r, c, dir);
    let line = line_through(cells, r, c, dir);
    assert(along(r0, dr, f) == r && along(c0, dc, f) == c);
    assert(line[f] == cell(cells, r, c));
    lemma_line_forward(cells, color, r0, c0, dr, dc, f + 1);
    lemma_line_backward(cells, color, r0, c0, dr, dc, f - 1);
    lemma_line_flips_bound(line, color, f + 1, 1);
    lemma_line_flips_bound(line, color, f - 1, -1);
    assert(along(r0, dr, f + 1) == r + dr && along(c0, dc, f + 1) == c + dc);
    assert(along(r0, dr, f - 1) == r - dr && along(c0, dc, f - 1) == c - dc);
}

/// Paints `n` cells with `s`, starting one step of `(dr, dc)` away from
/// `(r, c)`.
fn paint_run(squares: &mut Squares, r: usize, c: usize, dr: i32, dc: i32, n: u8, s: Square)
    requires
        on_board(r as int, c as int),
        is_step(dr as int, dc as int),
        n <= 7,
        on_board(along(r as int, dr as int, n as int), along(c as int, dc as int, n as int)),
    ensures
        forall|q: int|
            0 <= q < 64 ==> final(squares)@[q] == if on_ray(
                r as int,
                c as int,
                dr as int,
                dc as int,
                1,
                n as int,
                q / 8,
                q % 8,
            ) {
                s
            } else {
                old(squares)@[q]
            },
{
    let mut row: i32 = r as i32;
    let mut col: i32 = c as i32;
    let mut p: u8 = 0;
    while p < n
        invariant
            p <= n <= 7,
            on_board(r as int, c as int),
            is_step(dr as int, dc as int),
            on_board(along(r as int, dr as int, n as int), along(c as int, dc as int, n as int)),
            row == along(r as int, dr as int, p as int),
            col == along(c as int, dc as int, p as int),
            forall|q: int|
                0 <= q < 64 ==> squares@[q] == if on_ray(
                    r as int,
                    c as int,
                    dr as int,
                    dc as int,
                    1,
                    p as int,
                    q / 8,
                    q % 8,
                ) {
                    s
                } else {
                    old(squares)@[q]
                },
        decreases n - p,
    {
        row += dr;
        col += dc;
        let index = position_to_index(&Position(row as usize, col as usize));
        squares[index] = s;
        p += 1;
    }
}

impl IndexBoard {
    /// The opening position.
    pub fn new_initial(indexer: Rc<Indexer>) -> (b: IndexBoard)
        requires
            indexer.wf(),
        ensures
            b.wf(),
            b.cells() == initial_cells(),
            b.ply() == 0,
    {
        let mut squares: Squares = [Square::Empty;64];
        squares[position_to_index(&Position(3, 4))] = Square::Black;
        squares[position_to_index(&Position(4, 3))] = Square::Black;
        squares[position_to_index(&Position(3, 3))] = Square::White;
        squares[position_to_index(&Position(4, 4))] = Square::White;
        assert(squares@ =~= initial_cells());
        IndexBoard::new(squares, 0, indexer)
    }

    /// The board with the given cells after `depth` plies.
    pub fn new(squares: Squares, depth: u32, indexer: Rc<Indexer>) -> (b: IndexBoard)
        requires
            indexer.wf(),
        ensures
            b.wf(),
            b.cells() == squares@,
            b.ply() == depth,
    {
        IndexBoard { squares, depth, indexer }
    }

    /// What the tables hold for a placement of `color` at `pos`, for the
    /// horizontal line, the vertical line and the two diagonals through it.
    pub fn get_flip_infos(&self, color: &PlayerColor, pos: &Position) -> (infos: (
        &FlipInfo,
        &FlipInfo,
        &FlipInfo,
        &FlipInfo,
    ))
        requires
            self.wf(),
            pos.valid(),
        ensures
            *infos.0 == line_info(self.cells(), *color, pos.0 as int, pos.1 as int, LineDirection::Left2Right),
            *infos.1 == line_info(self.cells(), *color, pos.0 as int, pos.1 as int, LineDirection::Top2Bottom),
            *infos.2 == line_info(
                self.cells(),
                *color,
                pos.0 as int,
                pos.1 as int,
                LineDirection::TopLeft2BottomRight,
            ),
            *infos.3 == line_info(
                self.cells(),
                *color,
                pos.0 as int,
                pos.1 as int,
                LineDirection::BottomLeft2TopRight,
            ),
    {
        let l2r = self.get_line(*pos, LineDirection::Left2Right);
        let l2r_finfo = self.indexer.get_flip_info(*color, &l2r, pos.1);

        let t2b = self.get_line(*pos, LineDirection::Top2Bottom);
        let t2b_finfo = self.indexer.get_flip_info(*color, &t2b, pos.0);

        let tl2br = self.get_line(*pos, LineDirection::TopLeft2BottomRight);
        let p = if pos.0 >= pos.1 {
            pos.1
        } else {
            pos.0
        };
        let tl2br_finfo = self.indexer.get_flip_info(*color, &tl2br, p);

        let bl2tr = self.get_line(*pos, LineDirection::BottomLeft2TopRight);
        let p = if pos.0 + pos.1 + 1 < BOARD_SIZE {
            pos.1
        } else {
            BOARD_SIZE - 1 - pos.0
        };
        let bl2tr_finfo = self.indexer.get_flip_info(*color, &bl2tr, p);

        (l2r_finfo, t2b_finfo, tl2br_finfo, bl2tr_finfo)
    }

    /// The line of eight cells through `pos` in the given orientation. A
    /// diagonal that is shorter than eight cells is filled up with empty
    /// cells.
    pub fn get_line(&self, pos: Position, dir: LineDirection) -> (found: [Square; 8])
        requires
            pos.valid(),
        ensures
            found@ == line_through(self.cells(), pos.0 as int, pos.1 as int, dir),
    {
        let mut line: [Square; 8] = [
            Square::Empty,
            Square::Empty,
            Square::Empty,
            Square::Empty,
            Square::Empty,
            Square::Empty,
            Square::Empty,
            Square::Empty,
        ];
        let ghost cells = self.squares@;
        let (mut r, mut c, dr, dc): (i32, i32, i32, i32) = match dir {
            LineDirection::Left2Right => (pos.0 as i32, 0, 0, 1),
            LineDirection::Top2Bottom => (0, pos.1 as i32, 1, 0),
            LineDirection::TopLeft2BottomRight => {
                if pos.0 >= pos.1 {
                    ((pos.0 - pos.1) as i32, 0, 1, 1)
                } else {
                    (0, (pos.1 - pos.0) as i32, 1, 1)
                }
            },
            LineDirection::BottomLeft2TopRight => {
                if pos.0 + pos.1 <= 7 {
                    ((pos.0 + pos.1) as i32, 0, -1, 1)
                } else {
                    (7, (pos.0 + pos.1 - 7) as i32, -1, 1)
                }
            },
        };
        let ghost r0 = r as int;
        let ghost c0 = c as int;
        let mut i: usize = 0;
        while i < 8 && 0 <= r && r < 8 && 0 <= c && c < 8
            invariant
                i <= 8,
                cells == self.squares@,
                is_step(dr as int, dc as int),
                on_board(r0, c0),
                r == along(r0, dr as int, i as int),
                c == along(c0, dc as int, i as int),
                forall|j: int| 0 <= j < i ==> line@[j] == #[trigger] ray_line(cells, r0, c0, dr as int, dc as int)[j],
                forall|j: int| i <= j < 8 ==> line@[j] == Square::Empty,
                i > 0 ==> on_board(r - dr, c - dc),
            decreases 8 - i,
        {
            let index = position_to_index(&Position(r as usize, c as usize));
            line[i] = self.squares[index];
            r += dr;
            c += dc;
            i += 1;
        }
        proof {
            assert forall|j: int| 0 <= j < 8 implies line@[j] == #[trigger] ray_line(
                cells,
                r0,
                c0,
                dr as int,
                dc as int,
            )[j] by {
                if j >= i {
                    assert(!on_board(along(r0, dr as int, j), along(c0, dc as int, j)));
                }
            }
            assert(line@ =~= ray_line(cells, r0, c0, dr as int, dc as int));
        }
        line
    }

    /// `color` has no legal placement.
    pub fn can_pass(&self, color: &PlayerColor) -> (b: bool)
        requires
            self.wf(),
        ensures
            b == (legal_positions(self.cells(), *color).len() == 0),
    {
        self.get_movable_positions(color).len() == 0
    }
}

/// `Rc::clone` gives another handle to the same tables; nothing is copied.
#[verifier::external_body]
fn share(indexer: &Rc<Indexer>) -> (r: Rc<Indexer>)
    ensures
        r == *indexer,
{
    indexer.clone()
}

impl Board for IndexBoard {
    closed spec fn cells(&self) -> Seq<Square> {
        self.squares@
    }

    closed spec fn ply(&self) -> u32 {
        self.depth
    }

    closed spec fn wf(&self) -> bool {
        self.indexer.wf()
    }

    proof fn lemma_cells_len(&self) {
    }

    fn squares(&self) -> (s: &Squares) {
        &self.squares
    }

    fn depth(&self) -> (d: u32) {
        self.depth
    }

    fn square_count(&self, color: Square) -> (n: u32) {
        let mut count: u32 = 0;
        let mut i: usize = 0;
        while i < 64
            invariant
                i <= 64,
                count == count_upto(self.squares@, color, i as nat),
                count <= i,
            decreases 64 - i,
        {
            if self.squares[i] == color {
                count += 1;
            }
            i += 1;
        }
        count
    }

    fn duplicate(&self) -> (b: Self) {
        IndexBoard { squares: self.squares, depth: self.depth, indexer: share(&self.indexer) }
    }

    fn apply_action(&self, action: &Action) -> (r: Option<Self>) {
        match action.action {
            ActionType::Pass => {
                if self.can_pass(&action.color) {
                    Some(IndexBoard::new(self.squares, self.depth + 1, share(&self.indexer)))
                } else {
                    None
                }
            },
            ActionType::Move(position) => {
                let color = action.color;
                let index = position_to_index(&position);
                if self.squares[index] != Square::Empty {
                    return None;
                }
                let ghost cells = self.squares@;
                let ghost pr = position.0 as int;
                let ghost pc = position.1 as int;

                let (l2r_finfo, t2b_finfo, tl2br_finfo, bl2tr_finfo) = self.get_flip_infos(
                    &color,
                    &position,
                );
                proof {
                    lemma_line_info(cells, color, pr, pc, LineDirection::Left2Right);
                    lemma_line_info(cells, color, pr, pc, LineDirection::Top2Bottom);
                    lemma_line_info(cells, color, pr, pc, LineDirection::TopLeft2BottomRight);
                    lemma_line_info(cells, color, pr, pc, LineDirection::BottomLeft2TopRight);
                    lemma_total_flips_unfold(cells, color, pr, pc);
                }

                let flip_count = l2r_finfo.flip_count() + t2b_finfo.flip_count()
                    + tl2br_finfo.flip_count() + bl2tr_finfo.flip_count();

                if flip_count == 0 {
                    return None;
                }
                let mut squares = self.squares;
                let square_color = color.to_square();
                squares[index] = square_color;
                proof {
                    lemma_painted_cells_on_board(cells, color, pr, pc, 0, 1);
                    lemma_painted_cells_on_board(cells, color, pr, pc, 0, -1);
                    lemma_painted_cells_on_board(cells, color, pr, pc, 1, 0);
                    lemma_painted_cells_on_board(cells, color, pr, pc, -1, 0);
                    lemma_painted_cells_on_board(cells, color, pr, pc, 1, 1);
                    lemma_painted_cells_on_board(cells, color, pr, pc, -1, -1);
                    lemma_painted_cells_on_board(cells, color, pr, pc, -1, 1);
                    lemma_painted_cells_on_board(cells, color, pr, pc, 1, -1);
                }

                paint_run(&mut squares, position.0, position.1, 0, 1, l2r_finfo.higher, square_color);
                paint_run(&mut squares, position.0, position.1, 0, -1, l2r_finfo.lower, square_color);
                paint_run(&mut squares, position.0, position.1, 1, 0, t2b_finfo.higher, square_color);
                paint_run(&mut squares, position.0, position.1, -1, 0, t2b_finfo.lower, square_color);
                paint_run(&mut squares, position.0, position.1, 1, 1, tl2br_finfo.higher, square_color);
                paint_run(&mut squares, position.0, position.1, -1, -1, tl2br_finfo.lower, square_color);
                paint_run(&mut squares, position.0, position.1, -1, 1, bl2tr_finfo.higher, square_color);
                paint_run(&mut squares, position.0, position.1, 1, -1, bl2tr_finfo.lower, square_color);

                proof {
                    assert forall|q: int| 0 <= q < 64 implies squares@[q] == #[trigger] place_result(
                        cells,
                        color,
                        pr,
                        pc,
                    )[q] by {
                        lemma_captured_unfold(cells, color, pr, pc, q / 8, q % 8);
                    }
                    assert(squares@ =~= place_result(cells, color, pr, pc));
                }
                Some(IndexBoard::new(squares, self.depth + 1, share(&self.indexer)))
            },
        }
    }

    fn get_movable_positions(&self, color: &PlayerColor) -> (v: Vec<Position>) {
        let mut positions: Vec<Position> = Vec::new();
        let ghost cells = self.squares@;
        let mut r: usize = 0;
        while r < BOARD_SIZE
            invariant
                r <= 8,
                self.wf(),
                cells == self.squares@,
                positions@ == legal_upto(cells, *color, (8 * r) as nat),
            decreases 8 - r,
        {
            let mut c: usize = 0;
            while c < BOARD_SIZE
                invariant
                    r < 8,
                    c <= 8,
                    self.wf(),
                    cells == self.squares@,
                    positions@ == legal_upto(cells, *color, (8 * r + c) as nat),
                decreases 8 - c,
            {
                let (l2r, t2b, tl2br, bl2tr) = self.get_flip_infos(color, &Position(r, c));
                proof {
                    lemma_line_info(cells, *color, r as int, c as int, LineDirection::Left2Right);
                    lemma_line_info(cells, *color, r as int, c as int, LineDirection::Top2Bottom);
                    lemma_line_info(cells, *color, r as int, c as int, LineDirection::TopLeft2BottomRight);
                    lemma_line_info(cells, *color, r as int, c as int, LineDirection::BottomLeft2TopRight);
                    lemma_total_flips_unfold(cells, *color, r as int, c as int);
                    assert((8 * r + c) / 8 == r && (8 * r + c) % 8 == c);
                }
                let count = l2r.flip_count() + t2b.flip_count() + tl2br.flip_count()
                    + bl2tr.flip_count();
                if count > 0 {
                    positions.push(Position(r, c));
                }
                c += 1;
            }
            r += 1;
        }
        positions
    }
}

/// The stones that a placement captures along one direction lie on the board.
pub proof fn lemma_painted_cells_on_board(cells: Seq<Square>, color: PlayerColor, r: int, c: int, dr: int, dc: int)
    requires
        on_board(r, c),
        is_step(dr, dc),
    ensures
        ({
            let n = flips_toward(cells, color, r, c, dr, dc) as int;
            on_board(along(r, dr, n), along(c, dc, n))
        }),
{
    let n = flips_toward(cells, color, r, c, dr, dc) as int;
    if n > 0 {
        lemma_run_cells(cells, color.other().stone(), r + dr, c + dc, dr, dc, n - 1);
        assert(along(r + dr, dr, n - 1) == along(r, dr, n));
        assert(along(c + dc, dc, n - 1) == along(c, dc, n));
    }
}

} // verus!
