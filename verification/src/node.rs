//! What the tree nodes of the searches that keep their tree have in common.

use vstd::prelude::*;
use crate::common::{PlayerColor, Action};
use crate::board::Board;
use crate::bit_board::BitBoard;
use crate::rules::apply_spec;
use crate::game_tree_node::{moves_or_pass, lemma_moves_or_pass, actions_of};

verus! {

/// A node with the given board, side to move, count of moves and last move
/// is a successor by `action` of a node with the parent's board, side and
/// count.
pub open spec fn succeeds(
    board: BitBoard,
    color: PlayerColor,
    move_count: u8,
    last_move: Action,
    parent_board: BitBoard,
    parent_color: PlayerColor,
    parent_move_count: u8,
    action: Action,
) -> bool {
    &&& board.wf()
    &&& board.cells() == apply_spec(parent_board.cells(), action)
    &&& board.ply() == parent_board.ply() + 1
    &&& color == parent_color.other()
    &&& move_count == parent_move_count + 1
    &&& last_move == action
}

/// The rank of a value: a node without a value ranks below every value.
pub open spec fn rank_key(value: Option<i32>) -> int {
    match value {
        None => i32::MIN - 1,
        Some(v) => v as int,
    }
}

/// The entry `x` of `values` comes before the entry `y` in a ranking: it has
/// the larger value, or the same value and the smaller index.
pub open spec fn ranks_before(values: Seq<Option<i32>>, x: int, y: int) -> bool {
    rank_key(values[x]) > rank_key(values[y]) || (rank_key(values[x]) == rank_key(values[y]) && x < y)
}

/// `order` lists the indices of `values` by falling value, and the indices
/// of equal values in rising order.
pub open spec fn is_ranking(values: Seq<Option<i32>>, order: Seq<int>) -> bool {
    &&& order.len() == values.len()
    &&& forall|i: int| 0 <= i < order.len() ==> 0 <= #[trigger] order[i] < values.len()
    &&& forall|a: int, b: int|
        0 <= a < b < order.len() ==> ranks_before(values, #[trigger] order[a], #[trigger] order[b])
}

/// `ranked` lists `moves` in the order of a ranking of `values`.
pub open spec fn is_ranked(values: Seq<Option<i32>>, moves: Seq<Action>, ranked: Seq<Action>) -> bool {
    exists|order: Seq<int>|
        #[trigger] is_ranking(values, order) && ranked.len() == order.len() && forall|i: int|
            0 <= i < order.len() ==> (#[trigger] ranked[i]) == moves[order[i]]
}

/// The first value ranks below the second.
pub fn ranks_below(a: &Option<i32>, b: &Option<i32>) -> (r: bool)
    ensures
        r == (rank_key(*a) < rank_key(*b)),
{
    match a {
        None => b.is_some(),
        Some(x) => match b {
            None => false,
            Some(y) => *x < *y,
        },
    }
}

/// A node of a game tree on a bitboard: the position, the side to move, the
/// number of moves that the search has made to reach it, the last of those
/// moves, the value that the search has found, and the children.
pub trait Node: Sized {
    spec fn board_of(&self) -> BitBoard;

    spec fn color_of(&self) -> PlayerColor;

    spec fn move_count_of(&self) -> u8;

    spec fn children_of(&self) -> Seq<Self>;

    spec fn value_of(&self) -> Option<i32>;

    spec fn last_move_of(&self) -> Action;

    /// The node without a value and without children.
    fn new(board: BitBoard, color: PlayerColor, move_count: u8, last_move: Action) -> (node: Self)
        ensures
            node.board_of() == board,
            node.color_of() == color,
            node.move_count_of() == move_count,
            node.last_move_of() == last_move,
            node.value_of() is None,
            node.children_of().len() == 0,
    ;

    fn board(&self) -> (board: &BitBoard)
        ensures
            *board == self.board_of(),
    ;

    fn color(&self) -> (color: &PlayerColor)
        ensures
            *color == self.color_of(),
    ;

    fn move_count(&self) -> (move_count: &u8)
        ensures
            *move_count == self.move_count_of(),
    ;

    fn children(&self) -> (children: &[Self])
        ensures
            children@ == self.children_of(),
    ;

    fn children_mut(&mut self) -> (children: &mut Vec<Self>)
        ensures
            children@ == old(self).children_of(),
            final(self).children_of() == final(children)@,
            final(self).board_of() == old(self).board_of(),
            final(self).color_of() == old(self).color_of(),
            final(self).move_count_of() == old(self).move_count_of(),
            final(self).value_of() == old(self).value_of(),
            final(self).last_move_of() == old(self).last_move_of(),
    ;

    fn set_children(&mut self, children: Vec<Self>)
        ensures
            final(self).children_of() == children@,
            final(self).board_of() == old(self).board_of(),
            final(self).color_of() == old(self).color_of(),
            final(self).move_count_of() == old(self).move_count_of(),
            final(self).value_of() == old(self).value_of(),
            final(self).last_move_of() == old(self).last_move_of(),
    ;

    fn value(&self) -> (value: &Option<i32>)
        ensures
            *value == self.value_of(),
    ;

    fn value_mut(&mut self) -> (value: &mut Option<i32>)
        ensures
            *value == old(self).value_of(),
            final(self).value_of() == *final(value),
            final(self).board_of() == old(self).board_of(),
            final(self).color_of() == old(self).color_of(),
            final(self).move_count_of() == old(self).move_count_of(),
            final(self).children_of() == old(self).children_of(),
            final(self).last_move_of() == old(self).last_move_of(),
    ;

    fn last_move(&self) -> (last_move: &Action)
        ensures
            *last_move == self.last_move_of(),
    ;

    /// Replaces the children of the node by one fresh child for each legal
    /// placement of its side, in ascending order of the flat index, or by a
    /// single child for the pass where its side has no placement.
    fn expand(&mut self)
        requires
            old(self).board_of().wf(),
            old(self).board_of().ply() < u32::MAX,
            old(self).move_count_of() < u8::MAX,
        ensures
            final(self).board_of() == old(self).board_of(),
            final(self).color_of() == old(self).color_of(),
            final(self).move_count_of() == old(self).move_count_of(),
            final(self).value_of() == old(self).value_of(),
            final(self).last_move_of() == old(self).last_move_of(),
            final(self).children_of().len() == moves_or_pass(
                old(self).board_of().cells(),
                old(self).color_of(),
            ).len(),
            forall|i: int|
                0 <= i < final(self).children_of().len() ==> {
                    let child = #[trigger] final(self).children_of()[i];
                    &&& succeeds(
                        child.board_of(),
                        child.color_of(),
                        child.move_count_of(),
                        child.last_move_of(),
                        old(self).board_of(),
                        old(self).color_of(),
                        old(self).move_count_of(),
                        moves_or_pass(old(self).board_of().cells(), old(self).color_of())[i],
                    )
                    &&& child.value_of() is None
                    &&& child.children_of().len() == 0
                },
    {
        let actions = actions_of(self.board(), *self.color());
        let mut children: Vec<Self> = Vec::new();
        let mut i: usize = 0;
        while i < actions.len()
            invariant
                i <= actions.len(),
                *self == *old(self),
                self.board_of().wf(),
                self.board_of().ply() < u32::MAX,
                self.move_count_of() < u8::MAX,
                actions@ == moves_or_pass(self.board_of().cells(), self.color_of()),
                children@.len() == i,
                forall|j: int|
                    0 <= j < i ==> {
                        let child = #[trigger] children@[j];
                        &&& succeeds(
                            child.board_of(),
                            child.color_of(),
                            child.move_count_of(),
                            child.last_move_of(),
                            old(self).board_of(),
                            old(self).color_of(),
                            old(self).move_count_of(),
                            actions@[j],
                        )
                        &&& child.value_of() is None
                        &&& child.children_of().len() == 0
                    },
            decreases actions.len() - i,
        {
            let action = actions[i];
            proof {
                lemma_moves_or_pass(self.board_of().cells(), self.color_of(), i as int);
            }
            let next_board = self.board().apply_action(&action).unwrap();
            let child = Self::new(next_board, self.color().opponent(), *self.move_count() + 1, action);
            children.push(child);
            i += 1;
        }
        self.set_children(children);
    }

    /// The moves that lead to the children, best first: by falling value of
    /// the child, children of equal value in their own order, and children
    /// without a value last. `None` where the node has no children.
    fn candidate(&self) -> (r: Option<Vec<Action>>)
        ensures
            self.children_of().len() == 0 ==> r is None,
            self.children_of().len() > 0 ==> r is Some && is_ranked(
                Seq::new(self.children_of().len(), |i: int| self.children_of()[i].value_of()),
                Seq::new(self.children_of().len(), |i: int| self.children_of()[i].last_move_of()),
                r->0@,
            ),
    {
        let children = self.children();
        let n = children.len();
        if n == 0 {
            return None;
        }
        let ghost values = Seq::new(self.children_of().len(), |i: int| self.children_of()[i].value_of());
        let mut order: Vec<usize> = Vec::new();
        let mut k: usize = 0;
        while k < n
            invariant
                k <= n,
                n == children@.len(),
                children@ == self.children_of(),
                values == Seq::new(self.children_of().len(), |i: int| self.children_of()[i].value_of()),
                order@.len() == k,
                forall|i: int| 0 <= i < k ==> 0 <= #[trigger] order@[i] < k,
                forall|a: int, b: int|
                    0 <= a < b < k ==> ranks_before(values, (#[trigger] order@[a]) as int, (#[trigger] order@[b]) as int),
            decreases n - k,
        {
            let mut p: usize = 0;
            while p < k && !ranks_below(children[order[p]].value(), children[k].value())
                invariant
                    p <= k,
                    k < n,
                    n == children@.len(),
                    children@ == self.children_of(),
                    values == Seq::new(self.children_of().len(), |i: int| self.children_of()[i].value_of()),
                    order@.len() == k,
                    forall|i: int| 0 <= i < k ==> 0 <= #[trigger] order@[i] < k,
                    forall|i: int|
                        0 <= i < p ==> rank_key(values[(#[trigger] order@[i]) as int]) >= rank_key(
                            values[k as int],
                        ),
                decreases k - p,
            {
                p += 1;
            }
            let ghost before = order@;
            order.insert(p, k);
            proof {
                assert forall|a: int, b: int| 0 <= a < b < k + 1 implies ranks_before(
                    values,
                    (#[trigger] order@[a]) as int,
                    (#[trigger] order@[b]) as int,
                ) by {
                    if a < p && b > p {
                        assert(order@[a] == before[a] && order@[b] == before[b - 1]);
                    } else if a < p && b < p {
                        assert(order@[a] == before[a] && order@[b] == before[b]);
                    } else if a > p {
                        assert(order@[a] == before[a - 1] && order@[b] == before[b - 1]);
                    } else if a == p {
                        assert(order@[b] == before[b - 1]);
                        assert(ranks_before(values, before[p as int] as int, before[b - 1] as int) || b - 1 == p);
                    } else {
                        assert(order@[a] == before[a]);
                    }
                }
                assert forall|i: int| 0 <= i < k + 1 implies 0 <= #[trigger] order@[i] < k + 1 by {
                    if i < p {
                        assert(order@[i] == before[i]);
                    } else if i > p {
                        assert(order@[i] == before[i - 1]);
                    }
                }
            }
            k += 1;
        }
        let mut moves: Vec<Action> = Vec::new();
        let mut i: usize = 0;
        while i < n
            invariant
                i <= n,
                n == children@.len(),
                children@ == self.children_of(),
                order@.len() == n,
                forall|j: int| 0 <= j < n ==> 0 <= #[trigger] order@[j] < n,
                moves@.len() == i,
                forall|j: int|
                    0 <= j < i ==> (#[trigger] moves@[j]) == self.children_of()[order@[j] as int].last_move_of(),
            decreases n - i,
        {
            moves.push(*children[order[i]].last_move());
            i += 1;
        }
        proof {
            let ranking = Seq::new(n as nat, |j: int| order@[j] as int);
            let child_moves = Seq::new(self.children_of().len(), |i: int| self.children_of()[i].last_move_of());
            assert(is_ranking(values, ranking));
            assert forall|j: int| 0 <= j < ranking.len() implies (#[trigger] moves@[j]) == child_moves[ranking[j]] by {
            }
            assert(is_ranked(values, child_moves, moves@));
        }
        Some(moves)
    }
}

} // verus!
