//! NegaAlpha over a tree that is kept: every node that the search enters
//! remembers its value, the nodes behind a cut-off stay as they were
//! expanded, and the evaluator may carry state from one leaf to the next.

use vstd::prelude::*;
use crate::common::{PlayerColor, Action, ActionType};
use crate::board::Board;
use crate::bit_board::BitBoard;
use crate::evaluator::{simple_evaluate, simple_value};
use crate::game_tree::is_leaf_at;
use crate::game_tree_node::moves_or_pass;
use crate::rules::legal_positions;
use crate::node::{Node, succeeds};

verus! {

/// A node of a NegaAlpha tree.
pub struct NegaAlphaNode {
    pub board: BitBoard,
    pub color: PlayerColor,
    pub move_count: u8,
    pub last_move: Action,
    pub value: Option<i32>,
    pub children: Vec<NegaAlphaNode>,
}

impl Node for NegaAlphaNode {
    open spec fn board_of(&self) -> BitBoard {
        self.board
    }

    open spec fn color_of(&self) -> PlayerColor {
        self.color
    }

    open spec fn move_count_of(&self) -> u8 {
        self.move_count
    }

    open spec fn children_of(&self) -> Seq<Self> {
        self.children@
    }

    open spec fn value_of(&self) -> Option<i32> {
        self.value
    }

    open spec fn last_move_of(&self) -> Action {
        self.last_move
    }

    fn new(board: BitBoard, color: PlayerColor, move_count: u8, last_move: Action) -> (node: Self) {
        NegaAlphaNode { board, color, move_count, last_move, value: None, children: Vec::new() }
    }

    fn board(&self) -> (board: &BitBoard) {
        &self.board
    }

    fn color(&self) -> (color: &PlayerColor) {
        &self.color
    }

    fn move_count(&self) -> (move_count: &u8) {
        &self.move_count
    }

    fn children(&self) -> (children: &[Self]) {
        self.children.as_slice()
    }

    fn children_mut(&mut self) -> (children: &mut Vec<Self>) {
        &mut self.children
    }

    fn set_children(&mut self, children: Vec<Self>) {
        self.children = children;
    }

    fn value(&self) -> (value: &Option<i32>) {
        &self.value
    }

    fn value_mut(&mut self) -> (value: &mut Option<i32>) {
        &mut self.value
    }

    fn last_move(&self) -> (last_move: &Action) {
        &self.last_move
    }
}

/// A judge of the leaves of a NegaAlpha tree. It may change with every leaf
/// it sees. The search negates its values, so none may be `i32::MIN`.
pub trait NegaAlphaEvaluationFunction {
    fn evaluate(&mut self, node: &NegaAlphaNode) -> (v: i32)
        ensures
            v > i32::MIN,
    ;
}

/// The judge that weighs each stone by the cell it stands on.
pub struct SimpleNegaAlphaEvaluationFunction {}

impl SimpleNegaAlphaEvaluationFunction {
    pub fn new() -> Self {
        SimpleNegaAlphaEvaluationFunction {  }
    }
}

impl NegaAlphaEvaluationFunction for SimpleNegaAlphaEvaluationFunction {
    fn evaluate(&mut self, node: &NegaAlphaNode) -> (v: i32)
        ensures
            v == simple_value(node.board.cells(), node.color),
    {
        simple_evaluate(node.board.squares(), &node.color).value
    }
}

/// The lower bound of a node after it has looked at its first `k` children,
/// and whether a cut-off has ended the look: a child whose negated value
/// reaches `beta` ends it and changes nothing, any other raises the bound to
/// its negated value if that is larger.
pub open spec fn window_after(children: Seq<NegaAlphaNode>, alpha: int, beta: int, k: nat) -> (int, bool)
    decreases k,
{
    if k == 0 {
        (alpha, false)
    } else {
        let before = window_after(children, alpha, beta, (k - 1) as nat);
        let v = -(children[k - 1].value->0);
        if before.1 {
            before
        } else if v >= beta {
            (before.0, true)
        } else if v > before.0 {
            (v as int, false)
        } else {
            before
        }
    }
}

/// The window after `k` children depends on the values of those children
/// only.
pub proof fn lemma_window_prefix(
    a: Seq<NegaAlphaNode>,
    b: Seq<NegaAlphaNode>,
    alpha: int,
    beta: int,
    k: nat,
)
    requires
        forall|j: int| 0 <= j < k ==> (#[trigger] a[j]).value == b[j].value,
    ensures
        window_after(a, alpha, beta, k) == window_after(b, alpha, beta, k),
    decreases k,
{
    if k > 0 {
        lemma_window_prefix(a, b, alpha, beta, (k - 1) as nat);
        assert(a[k - 1].value == b[k - 1].value);
    }
}

/// After a cut-off the window stays as it is.
pub proof fn lemma_window_cut(children: Seq<NegaAlphaNode>, alpha: int, beta: int, k: nat, n: nat)
    requires
        k <= n,
        window_after(children, alpha, beta, k).1,
    ensures
        window_after(children, alpha, beta, n) == window_after(children, alpha, beta, k),
    decreases n,
{
    if k < n {
        lemma_window_cut(children, alpha, beta, k, (n - 1) as nat);
    }
}

/// The node is the root of a NegaAlpha tree of the given depth for the
/// window `(alpha, beta)`. A node where the search stops has the value that
/// the evaluator gave it. A node that passes has one child, searched with
/// the window negated and swapped, and the negated value of that child. Any
/// other node has one child for each placement: up to a cut-off each is the
/// root of a NegaAlpha tree for the window as it stood when its turn came,
/// behind a cut-off each is as it was expanded, and the value of the node is
/// its lower bound at the end.
pub open spec fn nega_alpha_tree(node: NegaAlphaNode, depth: nat, alpha: int, beta: int) -> bool
    decreases depth,
{
    &&& node.board.wf()
    &&& node.value is Some
    &&& node.value->0 > i32::MIN
    &&& !is_leaf_at(node.board.cells(), depth) ==> {
        &&& node.children@.len() == moves_or_pass(node.board.cells(), node.color).len()
        &&& forall|i: int|
            0 <= i < node.children@.len() ==> {
                let child = #[trigger] node.children@[i];
                succeeds(
                    child.board,
                    child.color,
                    child.move_count,
                    child.last_move,
                    node.board,
                    node.color,
                    node.move_count,
                    moves_or_pass(node.board.cells(), node.color)[i],
                )
            }
        &&& if legal_positions(node.board.cells(), node.color).len() > 0 {
            &&& forall|i: int|
                0 <= i < node.children@.len() ==> {
                    let child = #[trigger] node.children@[i];
                    let before = window_after(node.children@, alpha, beta, i as nat);
                    if before.1 {
                        child.value is None && child.children@.len() == 0
                    } else {
                        nega_alpha_tree(child, (depth - 1) as nat, -beta, -before.0)
                    }
                }
            &&& node.value->0 == window_after(node.children@, alpha, beta, node.children@.len()).0
        } else {
            &&& nega_alpha_tree(node.children@[0], (depth - 1) as nat, -beta, -alpha)
            &&& node.value->0 == -(node.children@[0].value->0)
        }
    }
}

/// The NegaAlpha search with an evaluator of its own.
pub struct NegaAlpha<E> where E: NegaAlphaEvaluationFunction {
    eval: E,
}

impl<E> NegaAlpha<E> where E: NegaAlphaEvaluationFunction {
    /// The evaluator that the search asks.
    pub closed spec fn evaluator(&self) -> E {
        self.eval
    }

    /// The search that asks `eval`.
    pub fn new(eval: E) -> (search: Self)
        ensures
            search.evaluator() == eval,
    {
        NegaAlpha { eval }
    }

    /// Searches the tree below `node` to `depth` plies with the widest
    /// window whose bounds can both be negated, and returns the value of
    /// `node` for the side to move there.
    pub fn search(&mut self, node: &mut NegaAlphaNode, depth: usize) -> (r: i32)
        requires
            old(node).board.wf(),
            old(node).board.ply() + depth <= u32::MAX,
            old(node).move_count + depth <= u8::MAX,
        ensures
            nega_alpha_tree(*final(node), depth as nat, i32::MIN + 1, i32::MAX as int),
            final(node).value == Some(r),
            final(node).board == old(node).board,
            final(node).color == old(node).color,
            final(node).move_count == old(node).move_count,
            final(node).last_move == old(node).last_move,
    {
        Self::nega_alpha(node, depth, i32::MIN + 1, i32::MAX, &mut self.eval)
    }

    /// NegaAlpha below `node` with the window `(alpha, beta)`.
    pub fn nega_alpha(node: &mut NegaAlphaNode, depth: usize, alpha: i32, beta: i32, eval: &mut E) -> (r: i32)
        requires
            old(node).board.wf(),
            old(node).board.ply() + depth <= u32::MAX,
            old(node).move_count + depth <= u8::MAX,
            alpha > i32::MIN,
            beta > i32::MIN,
        ensures
            nega_alpha_tree(*final(node), depth as nat, alpha as int, beta as int),
            final(node).value == Some(r),
            final(node).board == old(node).board,
            final(node).color == old(node).color,
            final(node).move_count == old(node).move_count,
            final(node).last_move == old(node).last_move,
        decreases depth,
    {
        if node.board.is_game_over() || depth == 0 {
            let value = eval.evaluate(node);
            node.value = Some(value);
            value
        } else {
            node.expand();
            let ghost moves = moves_or_pass(node.board.cells(), node.color);
            let passing = match node.children[0].last_move.action {
                ActionType::Pass => true,
                ActionType::Move(_) => false,
            };
            if passing {
                let child = &mut node.children[0];
                let value = -Self::nega_alpha(child, depth - 1, -beta, -alpha, eval);
                node.value = Some(value);
                value
            } else {
                let n = node.children.len();
                let ghost alpha0 = alpha as int;
                let mut alpha = alpha;
                let mut cut = false;
                let mut i: usize = 0;
                while i < n && !cut
                    invariant
                        i <= n,
                        n == node.children@.len(),
                        n == moves.len(),
                        depth > 0,
                        moves == moves_or_pass(node.board.cells(), node.color),
                        legal_positions(node.board.cells(), node.color).len() > 0,
                        node.board == old(node).board,
                        node.color == old(node).color,
                        node.move_count == old(node).move_count,
                        node.last_move == old(node).last_move,
                        node.board.wf(),
                        node.board.ply() + depth <= u32::MAX,
                        node.move_count + depth <= u8::MAX,
                        alpha > i32::MIN,
                        beta > i32::MIN,
                        alpha0 > i32::MIN,
                        window_after(node.children@, alpha0, beta as int, i as nat) == (alpha as int, cut),
                        forall|j: int|
                            0 <= j < n ==> {
                                let child = #[trigger] node.children@[j];
                                succeeds(
                                    child.board,
                                    child.color,
                                    child.move_count,
                                    child.last_move,
                                    node.board,
                                    node.color,
                                    node.move_count,
                                    moves[j],
                                )
                            },
                        forall|j: int|
                            0 <= j < i ==> {
                                let child = #[trigger] node.children@[j];
                                let before = window_after(node.children@, alpha0, beta as int, j as nat);
                                !before.1 && nega_alpha_tree(child, (depth - 1) as nat, -beta, -before.0)
                            },
                        forall|j: int|
                            i <= j < n ==> {
                                let child = #[trigger] node.children@[j];
                                child.value is None && child.children@.len() == 0
                            },
                    decreases n - i,
                {
                    let ghost before = node.children@;
                    let child = &mut node.children[i];
                    let found = Self::nega_alpha(child, depth - 1, -beta, -alpha, eval);
                    let v = -found;
                    proof {
                        lemma_window_prefix(node.children@, before, alpha0, beta as int, i as nat);
                        assert(node.children@[i as int].value == Some(found));
                        assert(window_after(node.children@, alpha0, beta as int, i as nat) == (
                            alpha as int,
                            false,
                        ));
                        assert forall|k: nat| k <= i implies #[trigger] window_after(
                            node.children@,
                            alpha0,
                            beta as int,
                            k,
                        ) == window_after(before, alpha0, beta as int, k) by {
                            lemma_window_prefix(node.children@, before, alpha0, beta as int, k);
                        }
                    }
                    if v >= beta {
                        cut = true;
                    } else if v > alpha {
                        alpha = v;
                    }
                    i += 1;
                }
                proof {
                    let children = node.children@;
                    if cut {
                        lemma_window_cut(children, alpha0, beta as int, i as nat, n as nat);
                        assert forall|k: nat| i <= k <= n implies (#[trigger] window_after(
                            children,
                            alpha0,
                            beta as int,
                            k,
                        )).1 by {
                            lemma_window_cut(children, alpha0, beta as int, i as nat, k);
                        }
                    }
                }
                node.value = Some(alpha);
                alpha
            }
        }
    }
}

} // verus!

verus! {

/// The number of nodes of the tree below and including `node`.
pub open spec fn tree_size(node: NegaAlphaNode) -> nat
    decreases node,
{
    1 + tree_size_upto(node, node.children@.len())
}

/// The number of nodes of the trees below the first `k` children of `node`.
pub open spec fn tree_size_upto(node: NegaAlphaNode, k: nat) -> nat
    decreases node, k,
    when k <= node.children@.len()
{
    if k == 0 {
        0
    } else {
        tree_size_upto(node, (k - 1) as nat) + tree_size(node.children@[k - 1])
    }
}

/// The number of nodes that a search has entered below and including
/// `node`: the node itself, and what it has entered below each child that
/// has a value.
pub open spec fn searched_size(node: NegaAlphaNode) -> nat
    decreases node,
{
    1 + searched_size_upto(node, node.children@.len())
}

/// The number of nodes that a search has entered below those of the first
/// `k` children of `node` that have a value.
pub open spec fn searched_size_upto(node: NegaAlphaNode, k: nat) -> nat
    decreases node, k,
    when k <= node.children@.len()
{
    if k == 0 {
        0
    } else {
        searched_size_upto(node, (k - 1) as nat) + if node.children@[k - 1].value is Some {
            searched_size(node.children@[k - 1])
        } else {
            0
        }
    }
}

/// The first children of a node hold no more nodes than all of them.
pub proof fn lemma_tree_size_grows(node: NegaAlphaNode, k: nat, n: nat)
    requires
        k <= n <= node.children@.len(),
    ensures
        tree_size_upto(node, k) <= tree_size_upto(node, n),
        searched_size_upto(node, k) <= searched_size_upto(node, n),
    decreases n,
{
    if k < n {
        lemma_tree_size_grows(node, k, (n - 1) as nat);
    }
}

impl NegaAlphaNode {
    /// The number of nodes of the tree below and including this node.
    pub fn node_count(&self) -> (n: usize)
        requires
            tree_size(*self) <= usize::MAX,
        ensures
            n == tree_size(*self),
        decreases self,
    {
        let mut n: usize = 1;
        let mut i: usize = 0;
        while i < self.children.len()
            invariant
                i <= self.children@.len(),
                n == 1 + tree_size_upto(*self, i as nat),
                tree_size(*self) <= usize::MAX,
            decreases self.children@.len() - i,
        {
            proof {
                lemma_tree_size_grows(*self, (i + 1) as nat, self.children@.len());
            }
            n = n + self.children[i].node_count();
            i += 1;
        }
        n
    }

    /// The number of nodes that a search has entered below and including
    /// this node.
    pub fn searched_nodes(&self) -> (n: usize)
        requires
            searched_size(*self) <= usize::MAX,
        ensures
            n == searched_size(*self),
        decreases self,
    {
        let mut n: usize = 1;
        let mut i: usize = 0;
        while i < self.children.len()
            invariant
                i <= self.children@.len(),
                n == 1 + searched_size_upto(*self, i as nat),
                searched_size(*self) <= usize::MAX,
            decreases self.children@.len() - i,
        {
            proof {
                lemma_tree_size_grows(*self, (i + 1) as nat, self.children@.len());
            }
            if self.children[i].value.is_some() {
                n = n + self.children[i].searched_nodes();
            }
            i += 1;
        }
        n
    }
}

} // verus!
