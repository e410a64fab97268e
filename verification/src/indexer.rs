//! Capture tables for single lines of eight cells.
//!
//! A line is encoded as a number in base 3, its first cell in the lowest
//! digit. For each of the 6561 lines, each side and each cell of the line the
//! tables hold how many stones a placement on that cell captures toward the
//! start of the line and toward its end.

use vstd::prelude::*;
use crate::common::{Square, PlayerColor, BOARD_SIZE};

verus! {

/// The number of lines of eight cells: three to the power of eight.
pub const INDEX_COUNT: usize = 6561;

/// What a placement on one cell of a line captures: `lower` stones toward the
/// start of the line and `higher` stones toward its end.
#[derive(Clone, Copy, PartialEq, Eq, Structural, Debug)]
pub struct FlipInfo {
    pub lower: u8,
    pub higher: u8,
}

/// The capture counts of the eight cells of one line, for one side.
#[derive(Clone, Copy, Debug)]
pub struct MobilityInfo {
    pub flip_infos: [FlipInfo; 8],
}

/// The capture tables of both sides.
pub struct Indexer {
    black_mobility_table: Vec<MobilityInfo>,
    white_mobility_table: Vec<MobilityInfo>,
}

/// The cell that a base-3 digit stands for.
pub open spec fn digit_square(d: int) -> Square {
    if d == 1 {
        Square::Black
    } else if d == 2 {
        Square::White
    } else {
        Square::Empty
    }
}

/// The number whose base-3 digits, lowest first, are the cells of `line` from
/// cell `i` on.
pub open spec fn line_value(line: Seq<Square>, i: int) -> nat
    decreases 8 - i,
{
    if 0 <= i < 8 {
        line[i].digit() + 3 * line_value(line, i + 1)
    } else {
        0
    }
}

/// The index of a line: its cells read as a number in base 3, the first cell
/// in the lowest digit.
pub open spec fn line_index(line: Seq<Square>) -> nat {
    line_value(line, 0)
}

/// The line of eight cells with the given index.
pub open spec fn index_line(index: nat) -> Seq<Square> {
    Seq::new(8, |i: int| digit_square(((index / pow3(i as nat)) % 3) as int))
}

/// Three to the power of `n`.
pub open spec fn pow3(n: nat) -> nat
    decreases n,
{
    if n == 0 {
        1
    } else {
        3 * pow3((n - 1) as nat)
    }
}

/// An upper bound on the cells that a walk along a line from cell `i` can
/// still visit.
pub open spec fn line_room(i: int, d: int) -> int {
    if d > 0 {
        8 - i
    } else {
        i + 1
    }
}

/// The number of consecutive cells of `line` that hold `target`, counted from
/// cell `i` itself toward the end (`d == 1`) or the start (`d == -1`).
pub open spec fn line_run(line: Seq<Square>, target: Square, i: int, d: int) -> nat
    decreases line_room(i, d),
{
    if 0 <= i < 8 && (d == 1 || d == -1) && line[i] == target {
        1 + line_run(line, target, i + d, d)
    } else {
        0
    }
}

/// The walk from cell `i` crosses stones of the opponent of `color` only and
/// ends on a stone of `color` before it leaves the line.
pub open spec fn line_closes(line: Seq<Square>, color: PlayerColor, i: int, d: int) -> bool
    decreases line_room(i, d),
{
    if 0 <= i < 8 && (d == 1 || d == -1) {
        if line[i] == color.other().stone() {
            line_closes(line, color, i + d, d)
        } else {
            line[i] == color.stone()
        }
    } else {
        false
    }
}

/// The number of stones that `color` captures toward `d` by placing on cell
/// `pos` of `line`; none where that cell is taken.
pub open spec fn line_flips(line: Seq<Square>, color: PlayerColor, pos: int, d: int) -> nat {
    if 0 <= pos < 8 && line[pos] == Square::Empty && line_closes(line, color, pos + d, d) {
        line_run(line, color.other().stone(), pos + d, d)
    } else {
        0
    }
}

/// The table entry for a placement of `color` on cell `pos` of `line`.
pub open spec fn flip_info_of(line: Seq<Square>, color: PlayerColor, pos: int) -> FlipInfo {
    FlipInfo {
        lower: line_flips(line, color, pos, -1) as u8,
        higher: line_flips(line, color, pos, 1) as u8,
    }
}

/// The table of `color` holds, for every line and every cell, what the rules
/// say.
pub open spec fn table_complete(table: Seq<MobilityInfo>, color: PlayerColor, n: nat) -> bool {
    forall|i: int, pos: int|
        0 <= i < n && 0 <= pos < 8 ==> (#[trigger] table[i].flip_infos@[pos]) == flip_info_of(
            index_line(i as nat),
            color,
            pos,
        )
}

/// A closing run along a line leaves room for the stone that closes it.
pub proof fn lemma_line_flips_bound(line: Seq<Square>, color: PlayerColor, i: int, d: int)
    requires
        line.len() == 8,
        d == 1 || d == -1,
        -1 <= i <= 8,
    ensures
        line_closes(line, color, i, d) ==> line_run(line, color.other().stone(), i, d) + 1 <= line_room(
            i,
            d,
        ),
        0 <= i < 8 ==> line_run(line, color.other().stone(), i, d) <= line_room(i, d),
        !(0 <= i < 8) ==> line_run(line, color.other().stone(), i, d) == 0,
    decreases line_room(i, d),
{
    if 0 <= i < 8 && line[i] == color.other().stone() {
        lemma_line_flips_bound(line, color, i + d, d);
    }
}

/// The value of a line from cell `i` on is below three to the power of the
/// number of cells that are left.
pub proof fn lemma_line_value_bound(line: Seq<Square>, i: int)
    requires
        line.len() == 8,
        0 <= i <= 8,
    ensures
        line_value(line, i) < pow3((8 - i) as nat),
    decreases 8 - i,
{
    if i < 8 {
        lemma_line_value_bound(line, i + 1);
        assert(pow3((8 - i) as nat) == 3 * pow3((8 - i - 1) as nat));
    }
}

/// Three to the power of eight.
pub proof fn lemma_pow3_values()
    ensures
        pow3(0) == 1,
        pow3(1) == 3,
        pow3(2) == 9,
        pow3(3) == 27,
        pow3(4) == 81,
        pow3(5) == 243,
        pow3(6) == 729,
        pow3(7) == 2187,
        pow3(8) == 6561,
{
    reveal_with_fuel(pow3, 10);
}

/// Dividing the value of a line by three to the power of `i` drops its first
/// `i` cells.
pub proof fn lemma_line_value_shift(line: Seq<Square>, i: nat)
    requires
        line.len() == 8,
        i <= 8,
    ensures
        line_index(line) / pow3(i) == line_value(line, i as int),
    decreases i,
{
    if i > 0 {
        let j = (i - 1) as nat;
        lemma_line_value_shift(line, j);
        let v = line_index(line);
        let p = pow3(j);
        let d = line[j as int].digit();
        let rest = line_value(line, i as int);
        assert(v / p == d + 3 * rest);
        assert(pow3(i) == 3 * p);
        assert(p > 0) by {
            lemma_pow3_positive(j);
        }
        assert(v / (3 * p) == (v / p) / 3) by (nonlinear_arith)
            requires
                p > 0,
                v >= 0,
        ;
        assert((d + 3 * rest) / 3 == rest);
        assert(v / (3 * p) == rest);
        assert(v / pow3(i) == rest);
    } else {
        assert(pow3(0) == 1);
        assert(line_index(line) / 1 == line_index(line));
    }
}

/// Powers of three are positive.
pub proof fn lemma_pow3_positive(n: nat)
    ensures
        pow3(n) > 0,
    decreases n,
{
    if n > 0 {
        lemma_pow3_positive((n - 1) as nat);
    }
}

/// Decoding the index of a line of eight cells gives the line back.
pub proof fn lemma_index_line_of_line_index(line: Seq<Square>)
    requires
        line.len() == 8,
    ensures
        index_line(line_index(line)) == line,
{
    let v = line_index(line);
    assert forall|i: int| 0 <= i < 8 implies #[trigger] index_line(v)[i] == line[i] by {
        lemma_line_value_shift(line, i as nat);
    }
    assert(index_line(v) =~= line);
}

/// The value of the decoded line from cell `i` on is the index without its
/// `i` lowest digits.
pub proof fn lemma_line_value_of_index_line(index: nat, i: int)
    requires
        0 <= i <= 8,
        index < 6561,
    ensures
        line_value(index_line(index), i) == index / pow3(i as nat),
    decreases 8 - i,
{
    let line = index_line(index);
    let p = pow3(i as nat);
    lemma_pow3_positive(i as nat);
    lemma_pow3_values();
    if i < 8 {
        lemma_line_value_of_index_line(index, i + 1);
        let q = index / p;
        assert(pow3((i + 1) as nat) == 3 * p);
        assert(index / (3 * p) == q / 3) by (nonlinear_arith)
            requires
                p > 0,
                index >= 0,
                q == index / p,
        ;
        assert(line[i] == digit_square((q % 3) as int));
        assert(line[i].digit() == q % 3);
    } else {
        assert(p == 6561);
        assert(index / p == 0);
    }
}

/// Lines and indices stand for each other: encoding the line of an index
/// below 6561 gives the index back.
pub proof fn law_index_round_trip(index: nat)
    requires
        index < 6561,
    ensures
        line_index(index_line(index)) == index,
{
    lemma_line_value_of_index_line(index, 0);
    assert(pow3(0) == 1);
    assert(index / 1 == index);
}

impl FlipInfo {
    /// The number of stones captured along the line, both ways.
    pub fn flip_count(&self) -> (n: u8)
        requires
            self.lower + self.higher <= u8::MAX,
        ensures
            n == self.lower + self.higher,
    {
        self.lower + self.higher
    }
}

/// The line of eight cells with the given index.
pub fn index_to_line(index: usize) -> (line: Vec<Square>)
    ensures
        line@ == index_line(index as nat),
        line@.len() == 8,
{
    let mut line: Vec<Square> = Vec::new();
    let mut i: usize = index;
    let mut n: usize = 0;
    proof {
        lemma_pow3_values();
    }
    while n < BOARD_SIZE
        invariant
            n <= 8,
            line@.len() == n,
            i == index as nat / pow3(n as nat),
            forall|j: int| 0 <= j < n ==> line@[j] == #[trigger] index_line(index as nat)[j],
        decreases 8 - n,
    {
        let d: usize = i % 3;
        let s = if d == 1 {
            Square::Black
        } else if d == 2 {
            Square::White
        } else {
            Square::Empty
        };
        line.push(s);
        proof {
            let p = pow3(n as nat);
            lemma_pow3_positive(n as nat);
            assert(pow3((n + 1) as nat) == 3 * p);
            let x = index as nat;
            assert(x / (3 * p) == (x / p) / 3) by (nonlinear_arith)
                requires
                    p > 0,
                    x >= 0,
            ;
        }
        i = i / 3;
        n += 1;
    }
    assert(line@ =~= index_line(index as nat));
    line
}

/// The index of a line of eight cells.
pub fn line_to_index(line: &[Square]) -> (index: usize)
    requires
        line@.len() == 8,
    ensures
        index == line_index(line@),
        index < 6561,
{
    let mut index: usize = 0;
    let mut i: usize = BOARD_SIZE;
    proof {
        lemma_pow3_values();
    }
    while i > 0
        invariant
            i <= 8,
            line@.len() == 8,
            index == line_value(line@, i as int),
            index < pow3((8 - i) as nat),
        decreases i,
    {
        i -= 1;
        let num: usize = match line[i] {
            Square::Empty => 0,
            Square::Black => 1,
            Square::White => 2,
        };
        proof {
            lemma_pow3_values();
            lemma_line_value_bound(line@, i as int);
            lemma_line_value_bound(line@, 0);
            assert(pow3((8 - i) as nat) == 3 * pow3((8 - i - 1) as nat));
            lemma_pow3_monotonic((8 - i) as nat, 8);
        }
        index = index * 3 + num;
    }
    index
}

/// Powers of three grow with the exponent.
pub proof fn lemma_pow3_monotonic(a: nat, b: nat)
    requires
        a <= b,
    ensures
        pow3(a) <= pow3(b),
    decreases b,
{
    if a < b {
        lemma_pow3_monotonic(a, (b - 1) as nat);
    }
}

/// Cell `i` lies on the line and holds `s`.
fn line_holds(line: &Vec<Square>, i: i32, s: Square) -> (b: bool)
    requires
        line@.len() == 8,
    ensures
        b == (0 <= i < 8 && line@[i as int] == s),
{
    if i < 0 || i >= 8 {
        return false;
    }
    line[i as usize] == s
}

/// The number of stones that `color` captures toward `d` by placing on the
/// empty cell `pos` of `line`.
fn scan_line(line: &Vec<Square>, color: PlayerColor, pos: i32, d: i32) -> (n: u8)
    requires
        line@.len() == 8,
        0 <= pos < 8,
        line@[pos as int] == Square::Empty,
        d == 1 || d == -1,
    ensures
        n == line_flips(line@, color, pos as int, d as int),
        n <= 6,
{
    let own = color.to_square();
    let opponent = color.opponent().to_square();
    let mut i_it: i32 = pos + d;
    let ghost start = i_it as int;
    while line_holds(line, i_it, opponent)
        invariant
            line@.len() == 8,
            0 <= pos < 8,
            d == 1 || d == -1,
            opponent == color.other().stone(),
            -1 <= i_it <= 8,
            d == 1 ==> pos < i_it,
            d == -1 ==> i_it < pos,
            line_run(line@, opponent, start, d as int) == (if d == 1 {
                i_it - start
            } else {
                start - i_it
            }) + line_run(line@, opponent, i_it as int, d as int),
            line_closes(line@, color, start, d as int) == line_closes(line@, color, i_it as int, d as int),
        decreases line_room(i_it as int, d as int),
    {
        i_it += d;
    }
    proof {
        lemma_line_flips_bound(line@, color, start, d as int);
    }
    let distance: i32 = if d == 1 {
        i_it - pos
    } else {
        pos - i_it
    };
    if distance > 1 && line_holds(line, i_it, own) {
        (distance - 1) as u8
    } else {
        0
    }
}

/// The capture table of `color`: one entry for each of the 6561 lines.
pub fn create_mobility_table(color: PlayerColor) -> (table: Vec<MobilityInfo>)
    ensures
        table@.len() == 6561,
        table_complete(table@, color, 6561),
{
    let mut table: Vec<MobilityInfo> = Vec::new();
    let mut i: usize = 0;
    while i < INDEX_COUNT
        invariant
            i <= 6561,
            table@.len() == i,
            table_complete(table@, color, i as nat),
        decreases 6561 - i,
    {
        let line = index_to_line(i);
        let mut flip_infos: [FlipInfo; 8] = [FlipInfo { lower: 0, higher: 0 };8];
        let mut pos: i32 = 0;
        while pos < 8
            invariant
                0 <= pos <= 8,
                line@ == index_line(i as nat),
                line@.len() == 8,
                forall|p: int|
                    0 <= p < pos ==> (#[trigger] flip_infos@[p]) == flip_info_of(line@, color, p),
                forall|p: int|
                    pos <= p < 8 ==> (#[trigger] flip_infos@[p]) == (FlipInfo { lower: 0, higher: 0 }),
            decreases 8 - pos,
        {
            if line[pos as usize] == Square::Empty {
                let lower = scan_line(&line, color, pos, -1);
                let higher = scan_line(&line, color, pos, 1);
                flip_infos[pos as usize] = FlipInfo { lower, higher };
            }
            pos += 1;
        }
        let ghost before = table@;
        table.push(MobilityInfo { flip_infos });
        assert forall|j: int, p: int| 0 <= j < i + 1 && 0 <= p < 8 implies (#[trigger] table@[j].flip_infos@[p])
            == flip_info_of(index_line(j as nat), color, p) by {
            if j < i {
                assert(table@[j] == before[j]);
            }
        }
        i += 1;
    }
    table
}

impl Indexer {
    /// Both tables are complete.
    pub closed spec fn wf(&self) -> bool {
        &&& self.black_mobility_table@.len() == 6561
        &&& self.white_mobility_table@.len() == 6561
        &&& table_complete(self.black_mobility_table@, PlayerColor::Black, 6561)
        &&& table_complete(self.white_mobility_table@, PlayerColor::White, 6561)
    }

    /// Builds both tables.
    pub fn new() -> (indexer: Indexer)
        ensures
            indexer.wf(),
    {
        Indexer {
            black_mobility_table: create_mobility_table(PlayerColor::Black),
            white_mobility_table: create_mobility_table(PlayerColor::White),
        }
    }

    /// What `color` captures along `line` by placing on its cell `pos`.
    pub fn get_flip_info(&self, color: PlayerColor, line: &[Square], pos: usize) -> (info: &FlipInfo)
        requires
            self.wf(),
            line@.len() == 8,
            pos < 8,
        ensures
            *info == flip_info_of(line@, color, pos as int),
            info.lower == line_flips(line@, color, pos as int, -1),
            info.higher == line_flips(line@, color, pos as int, 1),
            info.lower <= 6,
            info.higher <= 6,
    {
        let index = line_to_index(line);
        proof {
            lemma_index_line_of_line_index(line@);
            lemma_line_flips_bound(line@, color, pos as int - 1, -1);
            lemma_line_flips_bound(line@, color, pos as int + 1, 1);
        }
        let table = match color {
            PlayerColor::Black => &self.black_mobility_table,
            PlayerColor::White => &self.white_mobility_table,
        };
        &table[index].flip_infos[pos]
    }
}

impl Default for Indexer {
    fn default() -> (indexer: Self)
        ensures
            indexer.wf(),
    {
        Self::new()
    }
}

} // verus!
