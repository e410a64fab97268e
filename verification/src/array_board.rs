//! The reference board: a flat array of cells, walked ray by ray.

use vstd::prelude::*;
use crate::common::{
    Square, Squares, PlayerColor, Position, Action, ActionType, position_to_index, BOARD_SIZE,
};
use crate::board::Board;
use crate::rules::{
    on_board, is_step, cell, step_row, step_col, room, run_len, closes, flips_toward, along,
    on_ray, captured_within, flips_within, place_legal, place_result, legal_upto, count_upto,
    initial_cells, lemma_closing_run_bound, lemma_total_flips_positive, lemma_legal_upto,
};

verus! {

/// A board held as 64 cells and a ply counter.
#[derive(Clone, Debug)]
pub struct ArrayBoard {
    squares: Squares,
    depth: u32,
}

/// The `k`-th compass direction as `(column step, row step)`.
pub fn direction(k: usize) -> (d: (i32, i32))
    requires
        k < 8,
    ensures
        d.1 == step_row(k as int),
        d.0 == step_col(k as int),
        is_step(d.1 as int, d.0 as int),
{
    if k == 0 {
        (-1, -1)
    } else if k == 1 {
        (0, -1)
    } else if k == 2 {
        (1, -1)
    } else if k == 3 {
        (-1, 0)
    } else if k == 4 {
        (1, 0)
    } else if k == 5 {
        (-1, 1)
    } else if k == 6 {
        (0, 1)
    } else {
        (1, 1)
    }
}

/// Both coordinates lie on the board.
pub fn is_valid_pos(pos: &Position) -> (b: bool)
    ensures
        b == pos.valid(),
{
    let size: usize = BOARD_SIZE;
    pos.0 < size && pos.1 < size
}

/// The distance between two cells in king's moves: the larger of the row
/// distance and the column distance.
pub fn get_distance(start: &Position, end: &Position) -> (d: u32)
    requires
        start.valid(),
        end.valid(),
    ensures
        d == king_distance(start.0 as int, start.1 as int, end.0 as int, end.1 as int),
{
    let dr: usize = if start.0 >= end.0 {
        start.0 - end.0
    } else {
        end.0 - start.0
    };
    let dc: usize = if start.1 >= end.1 {
        start.1 - end.1
    } else {
        end.1 - start.1
    };
    if dr >= dc {
        dr as u32
    } else {
        dc as u32
    }
}

/// The larger of `|r0 - r1|` and `|c0 - c1|`.
pub open spec fn king_distance(r0: int, c0: int, r1: int, c1: int) -> int {
    let dr = if r0 >= r1 {
        r0 - r1
    } else {
        r1 - r0
    };
    let dc = if c0 >= c1 {
        c0 - c1
    } else {
        c1 - c0
    };
    if dr >= dc {
        dr
    } else {
        dc
    }
}

/// `v` holds `p`.
pub fn contains_position(v: &Vec<Position>, p: &Position) -> (b: bool)
    ensures
        b == v@.contains(*p),
{
    let mut i: usize = 0;
    while i < v.len()
        invariant
            i <= v.len(),
            forall|j: int| 0 <= j < i ==> v@[j] != *p,
        decreases v.len() - i,
    {
        if v[i].0 == p.0 && v[i].1 == p.1 {
            return true;
        }
        i += 1;
    }
    false
}

/// What the cell `q` holds while a placement at `(r, c)` is being painted:
/// the first `k` directions are done, and `j` stones of direction `k`.
pub open spec fn painted_cell(
    cells: Seq<Square>,
    color: PlayerColor,
    r: int,
    c: int,
    k: nat,
    j: int,
    q: int,
) -> Square {
    if q == 8 * r + c || captured_within(cells, color, r, c, q / 8, q % 8, k) || on_ray(
        r,
        c,
        step_row(k as int),
        step_col(k as int),
        1,
        j,
        q / 8,
        q % 8,
    ) {
        color.stone()
    } else {
        cells[q]
    }
}

impl ArrayBoard {
    /// The opening position.
    pub fn new_initial() -> (b: ArrayBoard)
        ensures
            b.wf(),
            b.cells() == initial_cells(),
            b.ply() == 0,
    {
        let mut squares: Squares = [Square::Empty;64];
        squares[position_to_index(&Position(3, 4))] = Square::Black;
        squares[position_to_index(&Position(4, 3))] = Square::Black;
        squares[position_to_index(&Position(3, 3))] = Square::White;
        squares[position_to_index(&Position(4, 4))] = Square::White;
        assert(squares@ =~= initial_cells());
        ArrayBoard::new(squares, 0)
    }

    /// The board with the given cells after `depth` plies.
    pub fn new(squares: Squares, depth: u32) -> (b: ArrayBoard)
        ensures
            b.wf(),
            b.cells() == squares@,
            b.ply() == depth,
    {
        ArrayBoard { squares, depth }
    }

    /// The cell `(r, c)` lies on the board and holds `s`.
    fn holds(&self, r: i32, c: i32, s: Square) -> (b: bool)
        ensures
            b == (on_board(r as int, c as int) && cell(self.squares@, r as int, c as int) == s),
    {
        if r < 0 || c < 0 {
            return false;
        }
        let target_pos = Position(r as usize, c as usize);
        if !is_valid_pos(&target_pos) {
            return false;
        }
        self.squares[position_to_index(&target_pos)] == s
    }

    /// The number of stones that `color` captures along `dir`, given as
    /// `(column step, row step)`, by placing at `pos`.
    pub fn get_flip_count(&self, color: &PlayerColor, pos: &Position, dir: &(i32, i32)) -> (n: i32)
        requires
            pos.valid(),
            is_step(dir.1 as int, dir.0 as int),
        ensures
            n == flips_toward(self.cells(), *color, pos.0 as int, pos.1 as int, dir.1 as int, dir.0 as int),
            0 <= n <= 6,
    {
        let own = color.to_square();
        let opp = color.opponent().to_square();
        let mut r: i32 = pos.0 as i32 + dir.1;
        let mut c: i32 = pos.1 as i32 + dir.0;
        let ghost cells = self.squares@;
        let ghost dr = dir.1 as int;
        let ghost dc = dir.0 as int;
        let ghost r0 = r as int;
        let ghost c0 = c as int;
        let ghost mut steps: int = 0;
        while self.holds(r, c, opp)
            invariant
                cells == self.squares@,
                dr == dir.1,
                dc == dir.0,
                opp == color.other().stone(),
                is_step(dr, dc),
                pos.valid(),
                0 <= steps,
                on_board(r - dr, c - dc),
                r == along(pos.0 as int, dr, steps + 1),
                c == along(pos.1 as int, dc, steps + 1),
                run_len(cells, opp, r0, c0, dr, dc) == steps + run_len(cells, opp, r as int, c as int, dr, dc),
                closes(cells, *color, r0, c0, dr, dc) == closes(cells, *color, r as int, c as int, dr, dc),
            decreases room(r as int, c as int, dr, dc),
        {
            r += dir.1;
            c += dir.0;
            proof {
                steps = steps + 1;
            }
        }
        proof {
            lemma_closing_run_bound(cells, *color, r0, c0, dr, dc);
        }
        if self.holds(r, c, own) {
            let target_pos = Position(r as usize, c as usize);
            let d = get_distance(pos, &target_pos);
            if d >= 2 {
                return d as i32 - 1;
            }
        }
        0
    }
}

impl Board for ArrayBoard {
    closed spec fn cells(&self) -> Seq<Square> {
        self.squares@
    }

    closed spec fn ply(&self) -> u32 {
        self.depth
    }

    closed spec fn wf(&self) -> bool {
        true
    }

    proof fn lemma_cells_len(&self) {
    }

    fn squares(&self) -> (s: &Squares) {
        &self.squares
    }

    fn depth(&self) -> (d: u32) {
        self.depth
    }

    fn square_count(&self, color: Square) -> (n: u32) {
        let mut count: u32 = 0;
        let mut i: usize = 0;
        while i < 64
            invariant
                i <= 64,
                count == count_upto(self.squares@, color, i as nat),
                count <= i,
            decreases 64 - i,
        {
            if self.squares[i] == color {
                count += 1;
            }
            i += 1;
        }
        count
    }

    fn duplicate(&self) -> (b: Self) {
        ArrayBoard { squares: self.squares, depth: self.depth }
    }

    fn apply_action(&self, action: &Action) -> (r: Option<Self>) {
        match action.action {
            ActionType::Pass => {
                let movables = self.get_movable_positions(&action.color);
                if movables.len() == 0 {
                    Some(ArrayBoard::new(self.squares, self.depth + 1))
                } else {
                    None
                }
            },
            ActionType::Move(position) => {
                let color = action.color;
                let index = position_to_index(&position);
                if self.squares[index] != Square::Empty {
                    return None;
                }
                let movables = self.get_movable_positions(&color);
                let ghost cells = self.squares@;
                let ghost pr = position.0 as int;
                let ghost pc = position.1 as int;
                proof {
                    lemma_legal_upto(cells, color, 64);
                }
                if contains_position(&movables, &position) {
                    let mut squares = self.squares;
                    let square_color = color.to_square();
                    squares[index] = square_color;
                    let mut k: usize = 0;
                    while k < 8
                        invariant
                            k <= 8,
                            cells == self.squares@,
                            position.valid(),
                            pr == position.0,
                            pc == position.1,
                            square_color == color.stone(),
                            forall|q: int|
                                0 <= q < 64 ==> squares@[q] == painted_cell(cells, color, pr, pc, k as nat, 0, q),
                        decreases 8 - k,
                    {
                        let dir = direction(k);
                        let flip = self.get_flip_count(&color, &position, &dir);
                        let mut row: i32 = position.0 as i32;
                        let mut col: i32 = position.1 as i32;
                        let mut j: i32 = 0;
                        let ghost dr = dir.1 as int;
                        let ghost dc = dir.0 as int;
                        while j < flip
                            invariant
                                0 <= j <= flip <= 6,
                                k < 8,
                                cells == self.squares@,
                                position.valid(),
                                pr == position.0,
                                pc == position.1,
                                dr == dir.1 == step_row(k as int),
                                dc == dir.0 == step_col(k as int),
                                is_step(dr, dc),
                                square_color == color.stone(),
                                flip == flips_toward(cells, color, pr, pc, dr, dc),
                                row == along(pr, dr, j as int),
                                col == along(pc, dc, j as int),
                                on_board(row as int, col as int),
                                j < flip ==> run_len(cells, color.other().stone(), row + dr, col + dc, dr, dc) == flip - j,
                                forall|q: int|
                                    0 <= q < 64 ==> squares@[q] == painted_cell(
                                        cells,
                                        color,
                                        pr,
                                        pc,
                                        k as nat,
                                        j as int,
                                        q,
                                    ),
                            decreases flip - j,
                        {
                            row += dir.1;
                            col += dir.0;
                            let i = position_to_index(&Position(row as usize, col as usize));
                            squares[i] = square_color;
                            j += 1;
                        }
                        k += 1;
                    }
                    proof {
                        assert(squares@ =~= place_result(cells, color, pr, pc));
                    }
                    Some(ArrayBoard::new(squares, self.depth + 1))
                } else {
                    None
                }
            },
        }
    }

    fn get_movable_positions(&self, color: &PlayerColor) -> (v: Vec<Position>) {
        let mut positions: Vec<Position> = Vec::new();
        let ghost cells = self.squares@;
        let mut row: usize = 0;
        while row < 8
            invariant
                row <= 8,
                cells == self.squares@,
                positions@ == legal_upto(cells, *color, (8 * row) as nat),
            decreases 8 - row,
        {
            let mut col: usize = 0;
            while col < 8
                invariant
                    row < 8,
                    col <= 8,
                    cells == self.squares@,
                    positions@ == legal_upto(cells, *color, (8 * row + col) as nat),
                decreases 8 - col,
            {
                let pos = Position(row, col);
                let index = position_to_index(&pos);
                let mut found = false;
                if self.squares[index] == Square::Empty {
                    let mut k: usize = 0;
                    while k < 8 && !found
                        invariant
                            k <= 8,
                            pos.valid(),
                            pos == Position(row, col),
                            cells == self.squares@,
                            found ==> flips_within(cells, *color, row as int, col as int, 8) > 0,
                            !found ==> flips_within(cells, *color, row as int, col as int, k as nat) == 0,
                        decreases 8 - k + if found { 0int } else { 1int },
                    {
                        let dir = direction(k);
                        let flip = self.get_flip_count(color, &pos, &dir);
                        if flip > 0 {
                            found = true;
                            proof {
                                lemma_total_flips_positive(cells, *color, row as int, col as int, 8);
                            }
                        } else {
                            k += 1;
                        }
                    }
                }
                proof {
                    assert((8 * row + col) / 8 == row && (8 * row + col) % 8 == col);
                    assert(found == place_legal(cells, *color, row as int, col as int));
                }
                if found {
                    positions.push(pos);
                }
                col += 1;
            }
            row += 1;
        }
        positions
    }
}

} // verus!
