//! NegaMax over a tree that is kept: every node that the search enters
//! remembers its value, and the evaluator may carry state from one leaf to
//! the next.

use vstd::prelude::*;
use crate::common::{PlayerColor, Action};
use crate::board::Board;
use crate::bit_board::BitBoard;
use crate::evaluator::{simple_evaluate, simple_value};
use crate::game_tree::is_leaf_at;
use crate::game_tree_node::moves_or_pass;
use crate::node::{Node, succeeds};

verus! {

/// A node of a NegaMax tree.
pub struct NegaMaxNode {
    pub board: BitBoard,
    pub color: PlayerColor,
    pub move_count: u8,
    pub last_move: Action,
    pub value: Option<i32>,
    pub children: Vec<NegaMaxNode>,
}

impl Node for NegaMaxNode {
    open spec fn board_of(&self) -> BitBoard {
        self.board
    }

    open spec fn color_of(&self) -> PlayerColor {
        self.color
    }

    open spec fn move_count_of(&self) -> u8 {
        self.move_count
    }

    open spec fn children_of(&self) -> Seq<Self> {
        self.children@
    }

    open spec fn value_of(&self) -> Option<i32> {
        self.value
    }

    open spec fn last_move_of(&self) -> Action {
        self.last_move
    }

    fn new(board: BitBoard, color: PlayerColor, move_count: u8, last_move: Action) -> (node: Self) {
        NegaMaxNode { board, color, move_count, last_move, value: None, children: Vec::new() }
    }

    fn board(&self) -> (board: &BitBoard) {
        &self.board
    }

    fn color(&self) -> (color: &PlayerColor) {
        &self.color
    }

    fn move_count(&self) -> (move_count: &u8) {
        &self.move_count
    }

    fn children(&self) -> (children: &[Self]) {
        self.children.as_slice()
    }

    fn children_mut(&mut self) -> (children: &mut Vec<Self>) {
        &mut self.children
    }

    fn set_children(&mut self, children: Vec<Self>) {
        self.children = children;
    }

    fn value(&self) -> (value: &Option<i32>) {
        &self.value
    }

    fn value_mut(&mut self) -> (value: &mut Option<i32>) {
        &mut self.value
    }

    fn last_move(&self) -> (last_move: &Action) {
        &self.last_move
    }
}

/// A judge of the leaves of a NegaMax tree. It may change with every leaf it
/// sees. The search negates its values, so none may be `i32::MIN`.
pub trait NegaMaxEvaluationFunction {
    fn evaluate(&mut self, node: &NegaMaxNode) -> (v: i32)
        ensures
            v > i32::MIN,
    ;
}

/// The judge that weighs each stone by the cell it stands on.
pub struct SimpleNegaMaxEvaluationFunction {}

impl SimpleNegaMaxEvaluationFunction {
    pub fn new() -> Self {
        SimpleNegaMaxEvaluationFunction {  }
    }
}

impl NegaMaxEvaluationFunction for SimpleNegaMaxEvaluationFunction {
    fn evaluate(&mut self, node: &NegaMaxNode) -> (v: i32)
        ensures
            v == simple_value(node.board.cells(), node.color),
    {
        simple_evaluate(node.board.squares(), &node.color).value
    }
}

/// `v` is the largest negated value among the children, all of which have a
/// value.
pub open spec fn best_reply(children: Seq<NegaMaxNode>, v: int) -> bool {
    &&& exists|i: int| 0 <= i < children.len() && (#[trigger] children[i]).value == Some((-v) as i32)
    &&& forall|i: int|
        0 <= i < children.len() ==> (#[trigger] children[i]).value is Some && -(children[i].value->0) <= v
}

/// The node is the root of a NegaMax tree of the given depth: a node where
/// the search stops has the value that the evaluator gave it; any other has
/// one child for each of its moves, each the root of a NegaMax tree of one
/// ply less, and its value is the largest negated value of a child.
pub open spec fn nega_max_tree(node: NegaMaxNode, depth: nat) -> bool
    decreases depth,
{
    &&& node.board.wf()
    &&& node.value is Some
    &&& node.value->0 > i32::MIN
    &&& !is_leaf_at(node.board.cells(), depth) ==> {
        &&& node.children@.len() == moves_or_pass(node.board.cells(), node.color).len()
        &&& forall|i: int|
            0 <= i < node.children@.len() ==> {
                let child = #[trigger] node.children@[i];
                &&& succeeds(
                    child.board,
                    child.color,
                    child.move_count,
                    child.last_move,
                    node.board,
                    node.color,
                    node.move_count,
                    moves_or_pass(node.board.cells(), node.color)[i],
                )
                &&& nega_max_tree(child, (depth - 1) as nat)
            }
        &&& best_reply(node.children@, node.value->0 as int)
    }
}

/// The NegaMax search with an evaluator of its own.
pub struct NegaMax<E> where E: NegaMaxEvaluationFunction {
    eval: E,
}

impl<E> NegaMax<E> where E: NegaMaxEvaluationFunction {
    /// The evaluator that the search asks.
    pub closed spec fn evaluator(&self) -> E {
        self.eval
    }

    /// The search that asks `eval`.
    pub fn new(eval: E) -> (search: Self)
        ensures
            search.evaluator() == eval,
    {
        NegaMax { eval }
    }

    /// Searches the tree below `node` to `depth` plies and returns the value
    /// of `node` for the side to move there.
    pub fn search(&mut self, node: &mut NegaMaxNode, depth: usize) -> (r: i32)
        requires
            old(node).board.wf(),
            old(node).board.ply() + depth <= u32::MAX,
            old(node).move_count + depth <= u8::MAX,
        ensures
            nega_max_tree(*final(node), depth as nat),
            final(node).value == Some(r),
            final(node).board == old(node).board,
            final(node).color == old(node).color,
            final(node).move_count == old(node).move_count,
            final(node).last_move == old(node).last_move,
    {
        Self::nega_max(node, depth, &mut self.eval)
    }

    /// NegaMax below `node`: evaluates the nodes where the search stops,
    /// expands the others, and gives each the largest negated value of its
    /// children.
    pub fn nega_max(node: &mut NegaMaxNode, depth: usize, eval: &mut E) -> (r: i32)
        requires
            old(node).board.wf(),
            old(node).board.ply() + depth <= u32::MAX,
            old(node).move_count + depth <= u8::MAX,
        ensures
            nega_max_tree(*final(node), depth as nat),
            final(node).value == Some(r),
            final(node).board == old(node).board,
            final(node).color == old(node).color,
            final(node).move_count == old(node).move_count,
            final(node).last_move == old(node).last_move,
        decreases depth,
    {
        if node.board.is_game_over() || depth == 0 {
            let value = eval.evaluate(node);
            node.value = Some(value);
            value
        } else {
            node.expand();
            let n = node.children.len();
            let ghost moves = moves_or_pass(node.board.cells(), node.color);
            let mut best: i32 = i32::MIN + 1;
            let ghost mut witness: int = 0;
            let mut i: usize = 0;
            while i < n
                invariant
                    i <= n,
                    n == node.children@.len(),
                    n == moves.len(),
                    n > 0,
                    depth > 0,
                    moves == moves_or_pass(node.board.cells(), node.color),
                    node.board == old(node).board,
                    node.color == old(node).color,
                    node.move_count == old(node).move_count,
                    node.last_move == old(node).last_move,
                    node.board.wf(),
                    node.board.ply() + depth <= u32::MAX,
                    node.move_count + depth <= u8::MAX,
                    best > i32::MIN,
                    forall|j: int|
                        0 <= j < n ==> {
                            let child = #[trigger] node.children@[j];
                            succeeds(
                                child.board,
                                child.color,
                                child.move_count,
                                child.last_move,
                                node.board,
                                node.color,
                                node.move_count,
                                moves[j],
                            )
                        },
                    forall|j: int|
                        0 <= j < i ==> {
                            let child = #[trigger] node.children@[j];
                            &&& nega_max_tree(child, (depth - 1) as nat)
                            &&& -(child.value->0) <= best
                        },
                    i > 0 ==> 0 <= witness < i && node.children@[witness].value == Some((-best) as i32),
                decreases n - i,
            {
                let child = &mut node.children[i];
                let v = -Self::nega_max(child, depth - 1, eval);
                if i == 0 || v > best {
                    best = v;
                    proof {
                        witness = i as int;
                    }
                }
                i += 1;
            }
            node.value = Some(best);
            proof {
                assert(node.children@[witness].value == Some((-best) as i32));
            }
            best
        }
    }
}

} // verus!

verus! {

/// The number of nodes of the tree below and including `node`.
pub open spec fn tree_size(node: NegaMaxNode) -> nat
    decreases node,
{
    1 + tree_size_upto(node, node.children@.len())
}

/// The number of nodes of the trees below the first `k` children of `node`.
pub open spec fn tree_size_upto(node: NegaMaxNode, k: nat) -> nat
    decreases node, k,
    when k <= node.children@.len()
{
    if k == 0 {
        0
    } else {
        tree_size_upto(node, (k - 1) as nat) + tree_size(node.children@[k - 1])
    }
}

/// The number of nodes that a search has entered below and including
/// `node`: the node itself, and what it has entered below each child that
/// has a value.
pub open spec fn searched_size(node: NegaMaxNode) -> nat
    decreases node,
{
    1 + searched_size_upto(node, node.children@.len())
}

/// The number of nodes that a search has entered below those of the first
/// `k` children of `node` that have a value.
pub open spec fn searched_size_upto(node: NegaMaxNode, k: nat) -> nat
    decreases node, k,
    when k <= node.children@.len()
{
    if k == 0 {
        0
    } else {
        searched_size_upto(node, (k - 1) as nat) + if node.children@[k - 1].value is Some {
            searched_size(node.children@[k - 1])
        } else {
            0
        }
    }
}

/// The first children of a node hold no more nodes than all of them.
pub proof fn lemma_tree_size_grows(node: NegaMaxNode, k: nat, n: nat)
    requires
        k <= n <= node.children@.len(),
    ensures
        tree_size_upto(node, k) <= tree_size_upto(node, n),
        searched_size_upto(node, k) <= searched_size_upto(node, n),
    decreases n,
{
    if k < n {
        lemma_tree_size_grows(node, k, (n - 1) as nat);
    }
}

impl NegaMaxNode {
    /// The number of nodes of the tree below and including this node.
    pub fn node_count(&self) -> (n: usize)
        requires
            tree_size(*self) <= usize::MAX,
        ensures
            n == tree_size(*self),
        decreases self,
    {
        let mut n: usize = 1;
        let mut i: usize = 0;
        while i < self.children.len()
            invariant
                i <= self.children@.len(),
                n == 1 + tree_size_upto(*self, i as nat),
                tree_size(*self) <= usize::MAX,
            decreases self.children@.len() - i,
        {
            proof {
                lemma_tree_size_grows(*self, (i + 1) as nat, self.children@.len());
            }
            n = n + self.children[i].node_count();
            i += 1;
        }
        n
    }

    /// The number of nodes that a search has entered below and including
    /// this node.
    pub fn searched_nodes(&self) -> (n: usize)
        requires
            searched_size(*self) <= usize::MAX,
        ensures
            n == searched_size(*self),
        decreases self,
    {
        let mut n: usize = 1;
        let mut i: usize = 0;
        while i < self.children.len()
            invariant
                i <= self.children@.len(),
                n == 1 + searched_size_upto(*self, i as nat),
                searched_size(*self) <= usize::MAX,
            decreases self.children@.len() - i,
        {
            proof {
                lemma_tree_size_grows(*self, (i + 1) as nat, self.children@.len());
            }
            if self.children[i].value.is_some() {
                n = n + self.children[i].searched_nodes();
            }
            i += 1;
        }
        n
    }
}

} // verus!

verus! {

/// The character of a decimal digit.
pub open spec fn digit_text(d: int) -> Seq<char> {
    if d == 0 {
        "0"@
    } else if d == 1 {
        "1"@
    } else if d == 2 {
        "2"@
    } else if d == 3 {
        "3"@
    } else if d == 4 {
        "4"@
    } else if d == 5 {
        "5"@
    } else if d == 6 {
        "6"@
    } else if d == 7 {
        "7"@
    } else if d == 8 {
        "8"@
    } else {
        "9"@
    }
}

/// A natural number in decimal digits.
pub open spec fn nat_text(n: nat) -> Seq<char>
    decreases n,
{
    if n < 10 {
        digit_text(n as int)
    } else {
        nat_text(n / 10) + digit_text((n % 10) as int)
    }
}

/// An integer in decimal digits, with a minus sign where it is negative.
pub open spec fn int_text(v: int) -> Seq<char> {
    if v < 0 {
        "-"@ + nat_text((-v) as nat)
    } else {
        nat_text(v as nat)
    }
}

/// The value of a node as text: `None`, or `Some(..)` around the number.
pub open spec fn value_text(value: Option<i32>) -> Seq<char> {
    match value {
        None => "None"@,
        Some(v) => "Some("@ + int_text(v as int) + ")"@,
    }
}

/// Two spaces for each level of depth.
pub open spec fn indent_text(depth: nat) -> Seq<char>
    decreases depth,
{
    if depth == 0 {
        Seq::empty()
    } else {
        indent_text((depth - 1) as nat) + "  "@
    }
}

/// The line of a node at the given depth of the tree.
pub open spec fn node_line(depth: nat, move_count: u8, value: Option<i32>) -> Seq<char> {
    indent_text(depth) + "move_count: "@ + nat_text(move_count as nat) + ", value: "@ + value_text(value)
        + "\n"@
}

/// The tree below `node` as text: the line of the node, and under it the
/// text of each child, one level deeper.
pub open spec fn tree_text(node: NegaMaxNode, depth: nat) -> Seq<char>
    decreases node,
{
    node_line(depth, node.move_count, node.value) + children_text(node, depth + 1, node.children@.len())
}

/// The text of the first `k` children of `node`, each at the given depth.
pub open spec fn children_text(node: NegaMaxNode, depth: nat, k: nat) -> Seq<char>
    decreases node, k,
    when k <= node.children@.len()
{
    if k == 0 {
        Seq::empty()
    } else {
        children_text(node, depth, (k - 1) as nat) + tree_text(node.children@[k - 1], depth)
    }
}

/// Appends a natural number in decimal digits.
fn push_nat(text: &mut String, n: u64)
    ensures
        final(text)@ == old(text)@ + nat_text(n as nat),
    decreases n,
{
    if n >= 10 {
        push_nat(text, n / 10);
    }
    let d = n % 10;
    let digit = if d == 0 {
        "0"
    } else if d == 1 {
        "1"
    } else if d == 2 {
        "2"
    } else if d == 3 {
        "3"
    } else if d == 4 {
        "4"
    } else if d == 5 {
        "5"
    } else if d == 6 {
        "6"
    } else if d == 7 {
        "7"
    } else if d == 8 {
        "8"
    } else {
        "9"
    };
    crate::common::push_text(text, digit);
    assert(text@ =~= old(text)@ + nat_text(n as nat));
}

/// Appends the value of a node.
fn push_value(text: &mut String, value: &Option<i32>)
    ensures
        final(text)@ == old(text)@ + value_text(*value),
{
    match value {
        None => {
            crate::common::push_text(text, "None");
        },
        Some(v) => {
            crate::common::push_text(text, "Some(");
            let wide: i64 = *v as i64;
            if wide < 0 {
                crate::common::push_text(text, "-");
                push_nat(text, (-wide) as u64);
            } else {
                push_nat(text, wide as u64);
            }
            crate::common::push_text(text, ")");
            assert(text@ =~= old(text)@ + value_text(*value));
        },
    }
}

impl NegaMaxNode {
    /// Appends the text of the tree below this node, which stands `depth`
    /// levels below the root.
    pub fn to_string_impl(&self, str: &mut String, depth: usize)
        requires
            depth + tree_size(*self) <= usize::MAX,
        ensures
            final(str)@ == old(str)@ + tree_text(*self, depth as nat),
        decreases self,
    {
        let mut level: usize = 0;
        while level < depth
            invariant
                level <= depth,
                str@ == old(str)@ + indent_text(level as nat),
            decreases depth - level,
        {
            crate::common::push_text(str, "  ");
            assert(str@ =~= old(str)@ + indent_text((level + 1) as nat));
            level += 1;
        }
        crate::common::push_text(str, "move_count: ");
        push_nat(str, self.move_count as u64);
        crate::common::push_text(str, ", value: ");
        push_value(str, &self.value);
        crate::common::push_text(str, "\n");
        assert(str@ =~= old(str)@ + node_line(depth as nat, self.move_count, self.value));
        let mut i: usize = 0;
        while i < self.children.len()
            invariant
                i <= self.children@.len(),
                depth + tree_size(*self) <= usize::MAX,
                str@ == old(str)@ + node_line(depth as nat, self.move_count, self.value) + children_text(
                    *self,
                    (depth + 1) as nat,
                    i as nat,
                ),
            decreases self.children@.len() - i,
        {
            proof {
                lemma_tree_size_grows(*self, (i + 1) as nat, self.children@.len());
            }
            let ghost before = str@;
            self.children[i].to_string_impl(str, depth + 1);
            assert(str@ =~= old(str)@ + node_line(depth as nat, self.move_count, self.value) + children_text(
                *self,
                (depth + 1) as nat,
                (i + 1) as nat,
            ));
            i += 1;
        }
        assert(str@ =~= old(str)@ + tree_text(*self, depth as nat));
    }

    /// The tree below this node as text, one line for each node and the
    /// children indented under their parent.
    pub fn to_string(&self) -> (text: String)
        requires
            tree_size(*self) <= usize::MAX,
        ensures
            text@ == tree_text(*self, 0),
    {
        let mut str = String::new();
        self.to_string_impl(&mut str, 0);
        assert(str@ =~= tree_text(*self, 0));
        str
    }
}

} // verus!
