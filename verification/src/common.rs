//! The vocabulary shared by every board representation: cells, colours,
//! positions and moves.

use vstd::prelude::*;

verus! {

/// Number of rows, and of columns, of the board.
pub const BOARD_SIZE: usize = 8;

/// Number of cells of the board.
pub const SQUARE_COUNT: usize = 64;

/// The cells of a board in row-major order: the cell of row `r` and column `c`
/// stands at index `8 * r + c`.
pub type Squares = [Square; 64];

/// The four lines that run through a cell, each in its canonical orientation.
#[derive(Clone, Copy, PartialEq, Eq, Structural, Hash, Debug)]
pub enum LineDirection {
    Left2Right,
    Top2Bottom,
    TopLeft2BottomRight,
    BottomLeft2TopRight,
}

/// What a cell holds.
#[derive(Clone, Copy, PartialEq, Eq, Structural, Hash, Debug)]
pub enum Square {
    Empty,
    Black,
    White,
}

/// Whose turn it is. Kept apart from [`Square`] so that a side to move can
/// never be "empty".
#[derive(Clone, Copy, PartialEq, Eq, Structural, Hash, Debug)]
pub enum PlayerColor {
    Black,
    White,
}

/// A cell of the board as `(row, column)`.
#[derive(Clone, Copy, PartialEq, Eq, Structural, Hash, Debug)]
pub struct Position(pub usize, pub usize);

/// What a player does on their turn.
#[derive(Clone, Copy, PartialEq, Eq, Structural, Hash, Debug)]
pub enum ActionType {
    Move(Position),
    Pass,
}

/// A move together with the side that makes it.
#[derive(Clone, Copy, PartialEq, Eq, Structural, Hash, Debug)]
pub struct Action {
    pub color: PlayerColor,
    pub action: ActionType,
}

impl Square {
    /// The base-3 digit that stands for this cell in a line pattern.
    pub open spec fn digit(self) -> nat {
        match self {
            Square::Empty => 0,
            Square::Black => 1,
            Square::White => 2,
        }
    }
}

impl PlayerColor {
    /// The other side, as a specification.
    pub open spec fn other(self) -> PlayerColor {
        match self {
            PlayerColor::Black => PlayerColor::White,
            PlayerColor::White => PlayerColor::Black,
        }
    }

    /// The stone this side places.
    pub open spec fn stone(self) -> Square {
        match self {
            PlayerColor::Black => Square::Black,
            PlayerColor::White => Square::White,
        }
    }

    /// The other side.
    pub fn opponent(&self) -> (r: PlayerColor)
        ensures
            r == self.other(),
            r != *self,
            r.other() == *self,
    {
        if *self == PlayerColor::Black {
            PlayerColor::White
        } else {
            PlayerColor::Black
        }
    }

    /// The stone this side places, as a cell value.
    pub fn to_square(&self) -> (s: Square)
        ensures
            s == self.stone(),
            s != Square::Empty,
    {
        match self {
            PlayerColor::Black => Square::Black,
            PlayerColor::White => Square::White,
        }
    }
}

impl Position {
    /// Both coordinates lie on the board.
    pub open spec fn valid(self) -> bool {
        self.0 < 8 && self.1 < 8
    }

    /// The flat index of this position.
    pub open spec fn index(self) -> int {
        8 * self.0 + self.1
    }
}

impl ActionType {
    /// A placement names a cell of the board; a pass is always well formed.
    pub open spec fn valid(self) -> bool {
        match self {
            ActionType::Move(p) => p.valid(),
            ActionType::Pass => true,
        }
    }
}

impl Action {
    /// The move names a cell of the board, if it names one at all.
    pub open spec fn valid(self) -> bool {
        self.action.valid()
    }

    pub fn new(color: PlayerColor, action: ActionType) -> (a: Action)
        ensures
            a == (Action { color, action }),
    {
        Action { color, action }
    }

    /// The placement of a stone of `color` at row `row`, column `col`.
    pub fn new_move(color: PlayerColor, row: usize, col: usize) -> (a: Action)
        ensures
            a == (Action { color, action: ActionType::Move(Position(row, col)) }),
    {
        Action { color, action: ActionType::Move(Position(row, col)) }
    }

    /// The pass of `color`.
    pub fn new_pass(color: PlayerColor) -> (a: Action)
        ensures
            a == (Action { color, action: ActionType::Pass }),
    {
        Action { color, action: ActionType::Pass }
    }
}

/// The flat index `8 * row + column` of a position on the board.
pub fn position_to_index(pos: &Position) -> (i: usize)
    requires
        pos.valid(),
    ensures
        i == pos.index(),
        i < 64,
        i / 8 == pos.0,
        i % 8 == pos.1,
{
    BOARD_SIZE * pos.0 + pos.1
}

/// The position `(index / 8, index % 8)` of a flat index.
pub fn index_to_position(index: usize) -> (p: Position)
    ensures
        p.0 == index / 8,
        p.1 == index % 8,
        index < 64 ==> p.valid() && p.index() == index,
{
    Position(index / BOARD_SIZE, index % BOARD_SIZE)
}

} // verus!

verus! {

/// `String::push_str` appends the characters of `part` to `text` and leaves
/// what `text` held before in front of them.
#[verifier::external_body]
pub(crate) fn push_text(text: &mut String, part: &str)
    ensures
        final(text)@ == old(text)@ + part@,
{
    text.push_str(part);
}

/// The two characters that show a cell: a space, then `.` for an empty cell,
/// `b` for a black stone and `w` for a white one.
pub open spec fn square_text(s: Square) -> Seq<char> {
    match s {
        Square::Empty => " ."@,
        Square::Black => " b"@,
        Square::White => " w"@,
    }
}

/// The label that starts the line of row `r`: its number, counted from one,
/// and a bar.
pub open spec fn row_label(r: int) -> Seq<char> {
    if r == 0 {
        "1|"@
    } else if r == 1 {
        "2|"@
    } else if r == 2 {
        "3|"@
    } else if r == 3 {
        "4|"@
    } else if r == 4 {
        "5|"@
    } else if r == 5 {
        "6|"@
    } else if r == 6 {
        "7|"@
    } else {
        "8|"@
    }
}

/// The line of row `r` up to and including the cell of column `c - 1`.
pub open spec fn row_text(cells: Seq<Square>, r: int, c: nat) -> Seq<char>
    decreases c,
{
    if c == 0 {
        row_label(r)
    } else {
        row_text(cells, r, (c - 1) as nat) + square_text(cells[8 * r + c - 1])
    }
}

/// The text of the first `r` rows, each closed by a line feed, under the
/// header of the columns and a rule.
pub open spec fn rows_text(cells: Seq<Square>, r: nat) -> Seq<char>
    decreases r,
{
    if r == 0 {
        "   a b c d e f g h\n"@ + "   ----------------\n"@
    } else {
        rows_text(cells, (r - 1) as nat) + row_text(cells, r - 1, 8) + "\n"@
    }
}

/// The board as text for a console.
pub open spec fn board_text(cells: Seq<Square>) -> Seq<char> {
    rows_text(cells, 8)
}

/// The label that starts the line of row `r`.
fn row_label_text(r: usize) -> (label: &'static str)
    requires
        r < 8,
    ensures
        label@ == row_label(r as int),
{
    if r == 0 {
        "1|"
    } else if r == 1 {
        "2|"
    } else if r == 2 {
        "3|"
    } else if r == 3 {
        "4|"
    } else if r == 4 {
        "5|"
    } else if r == 5 {
        "6|"
    } else if r == 6 {
        "7|"
    } else {
        "8|"
    }
}

/// The board as text for a console: a header with the letters of the
/// columns, a rule, and one line for each row.
pub fn squares_to_string(squares: &Squares) -> (text: String)
    ensures
        text@ == board_text(squares@),
{
    let mut text = String::new();
    push_text(&mut text, "   a b c d e f g h\n");
    push_text(&mut text, "   ----------------\n");
    let mut r: usize = 0;
    while r < BOARD_SIZE
        invariant
            r <= 8,
            text@ == rows_text(squares@, r as nat),
        decreases 8 - r,
    {
        let ghost before = text@;
        push_text(&mut text, row_label_text(r));
        let index: usize = r * BOARD_SIZE;
        let mut c: usize = 0;
        while c < BOARD_SIZE
            invariant
                r < 8,
                c <= 8,
                index == 8 * r,
                text@ == before + row_text(squares@, r as int, c as nat),
            decreases 8 - c,
        {
            let part = match squares[index + c] {
                Square::Empty => " .",
                Square::Black => " b",
                Square::White => " w",
            };
            let ghost line = text@;
            push_text(&mut text, part);
            assert(text@ =~= before + row_text(squares@, r as int, (c + 1) as nat));
            c += 1;
        }
        push_text(&mut text, "\n");
        assert(text@ =~= rows_text(squares@, (r + 1) as nat));
        r += 1;
    }
    text
}

} // verus!
