//! Game-tree nodes that keep their children, and the states and nodes that a
//! search can be written against.

use vstd::prelude::*;
use crate::common::{Square, PlayerColor, Action, ActionType};
use crate::board::Board;
use crate::bit_board::BitBoard;
use crate::rules::{action_legal, apply_spec, legal_positions, lemma_legal_upto};

verus! {

/// The moves that a search looks at for `color`: its legal placements in
/// ascending order of their flat index, or the pass where it has none.
pub open spec fn moves_or_pass(cells: Seq<Square>, color: PlayerColor) -> Seq<Action> {
    if legal_positions(cells, color).len() == 0 {
        seq![Action { color, action: ActionType::Pass }]
    } else {
        Seq::new(
            legal_positions(cells, color).len(),
            |i: int| Action { color, action: ActionType::Move(legal_positions(cells, color)[i]) },
        )
    }
}

/// Every move that a search looks at is well formed and legal.
pub proof fn lemma_moves_or_pass(cells: Seq<Square>, color: PlayerColor, i: int)
    requires
        0 <= i < moves_or_pass(cells, color).len(),
    ensures
        moves_or_pass(cells, color)[i].valid(),
        action_legal(cells, moves_or_pass(cells, color)[i]),
        moves_or_pass(cells, color)[i].color == color,
{
    lemma_legal_upto(cells, color, 64);
}

/// The moves that a search looks at for `color` on `board`.
pub fn actions_of<T: Board>(board: &T, color: PlayerColor) -> (actions: Vec<Action>)
    requires
        board.wf(),
    ensures
        actions@ == moves_or_pass(board.cells(), color),
{
    let positions = board.get_movable_positions(&color);
    let mut actions: Vec<Action> = Vec::new();
    if positions.len() == 0 {
        actions.push(Action::new(color, ActionType::Pass));
        assert(actions@ =~= moves_or_pass(board.cells(), color));
    } else {
        let mut i: usize = 0;
        while i < positions.len()
            invariant
                i <= positions.len(),
                positions@ == legal_positions(board.cells(), color),
                actions@.len() == i,
                forall|j: int|
                    0 <= j < i ==> actions@[j] == (Action {
                        color,
                        action: ActionType::Move(#[trigger] positions@[j]),
                    }),
            decreases positions.len() - i,
        {
            actions.push(Action::new(color, ActionType::Move(positions[i])));
            i += 1;
        }
        assert(actions@ =~= moves_or_pass(board.cells(), color));
    }
    actions
}

/// A node of a game tree on a bitboard that keeps its children.
pub struct Node {
    pub board: BitBoard,
    pub color: PlayerColor,
    pub move_count: u8,
    pub last_action: Action,
    pub value: Option<i32>,
    pub children: Vec<Node>,
}

impl Node {
    /// This node is the fresh successor of `parent` by `action`.
    pub open spec fn is_child_of(&self, parent: &Node, action: Action) -> bool {
        &&& self.board.wf()
        &&& self.board.cells() == apply_spec(parent.board.cells(), action)
        &&& self.board.ply() == parent.board.ply() + 1
        &&& self.color == parent.color.other()
        &&& self.move_count == parent.move_count + 1
        &&& self.last_action == action
        &&& self.value is None
        &&& self.children@.len() == 0
    }

    /// Gives the node one child for each legal placement of its side, in
    /// ascending order of the flat index, or a single child for the pass
    /// where its side has no placement.
    pub fn expand(&mut self)
        requires
            old(self).board.wf(),
            old(self).board.ply() < u32::MAX,
            old(self).move_count < u8::MAX,
        ensures
            final(self).board == old(self).board,
            final(self).color == old(self).color,
            final(self).move_count == old(self).move_count,
            final(self).last_action == old(self).last_action,
            final(self).value == old(self).value,
            final(self).children@.len() == moves_or_pass(old(self).board.cells(), old(self).color).len(),
            forall|i: int|
                0 <= i < final(self).children@.len() ==> (#[trigger] final(self).children@[i]).is_child_of(
                    old(self),
                    moves_or_pass(old(self).board.cells(), old(self).color)[i],
                ),
    {
        let actions = actions_of(&self.board, self.color);
        let mut children: Vec<Node> = Vec::new();
        let mut i: usize = 0;
        while i < actions.len()
            invariant
                i <= actions.len(),
                *self == *old(self),
                self.board.wf(),
                self.board.ply() < u32::MAX,
                self.move_count < u8::MAX,
                actions@ == moves_or_pass(self.board.cells(), self.color),
                children@.len() == i,
                forall|j: int| 0 <= j < i ==> (#[trigger] children@[j]).is_child_of(old(self), actions@[j]),
            decreases actions.len() - i,
        {
            let act = actions[i];
            proof {
                lemma_moves_or_pass(self.board.cells(), self.color, i as int);
            }
            let next = self.board.apply_action(&act).unwrap();
            children.push(
                Node {
                    board: next,
                    color: self.color.opponent(),
                    move_count: self.move_count + 1,
                    last_action: act,
                    value: None,
                    children: Vec::new(),
                },
            );
            i += 1;
        }
        self.children = children;
    }
}

/// A state of a game for two that a search can walk: it knows its moves and
/// what each of them leads to.
pub trait State: Sized {
    /// The state is consistent and a move can still be made from it.
    spec fn wf(&self) -> bool;

    /// The moves that a search looks at in this state.
    spec fn moves(&self) -> Seq<Action>;

    /// The move can be made in this state.
    spec fn allows(&self, action: Action) -> bool;

    /// `next` is what `action` leads to from this state.
    spec fn follows(&self, action: Action, next: &Self) -> bool;

    /// Every move that a search looks at is well formed and can be made.
    proof fn lemma_moves_allowed(&self, i: int)
        requires
            self.wf(),
            0 <= i < self.moves().len(),
        ensures
            self.moves()[i].valid(),
            self.allows(self.moves()[i]),
    ;

    /// The state after `action`, or `None` where the move cannot be made.
    fn apply_action(&self, action: &Action) -> (r: Option<Self>)
        requires
            self.wf(),
            action.valid(),
        ensures
            r is Some <==> self.allows(*action),
            r matches Some(next) ==> self.follows(*action, &next),
    ;

    /// The moves that a search looks at in this state.
    fn leagal_actions(&self) -> (actions: Vec<Action>)
        requires
            self.wf(),
        ensures
            actions@ == self.moves(),
    ;

    /// Each move of this state with the state that it leads to.
    fn next_states(&self) -> (states: Vec<(Self, Action)>)
        requires
            self.wf(),
        ensures
            states@.len() == self.moves().len(),
            forall|i: int|
                0 <= i < states@.len() ==> (#[trigger] states@[i]).1 == self.moves()[i] && self.follows(
                    self.moves()[i],
                    &states@[i].0,
                ),
    {
        let actions = self.leagal_actions();
        let mut states: Vec<(Self, Action)> = Vec::new();
        let mut i: usize = 0;
        while i < actions.len()
            invariant
                i <= actions.len(),
                self.wf(),
                actions@ == self.moves(),
                states@.len() == i,
                forall|j: int|
                    0 <= j < i ==> (#[trigger] states@[j]).1 == self.moves()[j] && self.follows(
                        self.moves()[j],
                        &states@[j].0,
                    ),
            decreases actions.len() - i,
        {
            let act = actions[i];
            proof {
                self.lemma_moves_allowed(i as int);
            }
            let next = self.apply_action(&act).unwrap();
            states.push((next, act));
            i += 1;
        }
        states
    }
}

/// A node of a game tree over the states of a game: it keeps its state, its
/// children with the moves that lead to them, and what a search has found.
pub trait GameTreeNode__: Sized {
    type S: State;

    /// The state of the node.
    spec fn state_of(&self) -> Self::S;

    /// The children of the node, each with the move that leads to it.
    spec fn children_of(&self) -> Seq<(Self, Action)>;

    /// The value that a search has found at the node.
    spec fn value_of(&self) -> Option<i32>;

    /// The move that a search has chosen at the node.
    spec fn action_of(&self) -> Option<Action>;

    /// On this state a search goes no deeper, whatever depth is left.
    spec fn leaf_state(state: Self::S) -> bool;

    /// The node of a state with no children, no value and no move.
    fn new(state: Self::S) -> (node: Self)
        ensures
            node.state_of() == state,
            node.children_of().len() == 0,
            node.value_of() is None,
            node.action_of() is None,
    ;

    fn state(&self) -> (state: &Self::S)
        ensures
            *state == self.state_of(),
    ;

    fn children(&self) -> (children: &[(Self, Action)])
        ensures
            children@ == self.children_of(),
    ;

    fn children_mut(&mut self) -> (children: &mut Vec<(Self, Action)>)
        ensures
            children@ == old(self).children_of(),
            final(self).children_of() == final(children)@,
            final(self).state_of() == old(self).state_of(),
            final(self).value_of() == old(self).value_of(),
            final(self).action_of() == old(self).action_of(),
    ;

    fn value(&self) -> (value: &Option<i32>)
        ensures
            *value == self.value_of(),
    ;

    fn action(&self) -> (action: &Option<Action>)
        ensures
            *action == self.action_of(),
    ;

    fn is_leaf(&self) -> (b: bool)
        requires
            self.state_of().wf(),
        ensures
            b == Self::leaf_state(self.state_of()),
    ;

    fn set_value(&mut self, value: i32)
        ensures
            final(self).value_of() == Some(value),
            final(self).state_of() == old(self).state_of(),
            final(self).children_of() == old(self).children_of(),
            final(self).action_of() == old(self).action_of(),
    ;

    fn set_action(&mut self, action: Action)
        ensures
            final(self).action_of() == Some(action),
            final(self).state_of() == old(self).state_of(),
            final(self).children_of() == old(self).children_of(),
            final(self).value_of() == old(self).value_of(),
    ;

    /// Adds one child for each move of the state of the node, in the order
    /// of the moves, behind the children that the node has.
    fn expand(&mut self)
        requires
            old(self).state_of().wf(),
        ensures
            final(self).state_of() == old(self).state_of(),
            final(self).value_of() == old(self).value_of(),
            final(self).action_of() == old(self).action_of(),
            final(self).children_of().len() == old(self).children_of().len() + old(
                self,
            ).state_of().moves().len(),
            forall|i: int|
                0 <= i < old(self).children_of().len() ==> final(self).children_of()[i] == old(
                    self,
                ).children_of()[i],
            forall|i: int|
                0 <= i < old(self).state_of().moves().len() ==> {
                    let child = #[trigger] final(self).children_of()[old(self).children_of().len() + i];
                    &&& child.1 == old(self).state_of().moves()[i]
                    &&& old(self).state_of().follows(child.1, &child.0.state_of())
                    &&& child.0.children_of().len() == 0
                    &&& child.0.value_of() is None
                    &&& child.0.action_of() is None
                },
    {
        let mut next_states = self.state().next_states();
        let ghost all = next_states@;
        let ghost first = self.children_of().len();
        let ghost moves = self.state_of().moves();
        let mut done: usize = 0;
        let total = next_states.len();
        while done < total
            invariant
                done <= total,
                total == all.len(),
                all.len() == moves.len(),
                moves == old(self).state_of().moves(),
                first == old(self).children_of().len(),
                next_states@ == all.subrange(done as int, total as int),
                forall|i: int|
                    0 <= i < all.len() ==> (#[trigger] all[i]).1 == moves[i] && old(self).state_of().follows(
                        moves[i],
                        &all[i].0,
                    ),
                self.state_of() == old(self).state_of(),
                self.value_of() == old(self).value_of(),
                self.action_of() == old(self).action_of(),
                self.children_of().len() == first + done,
                forall|i: int| 0 <= i < first ==> self.children_of()[i] == old(self).children_of()[i],
                forall|i: int|
                    0 <= i < done ==> {
                        let child = #[trigger] self.children_of()[first + i];
                        &&& child.1 == moves[i]
                        &&& old(self).state_of().follows(child.1, &child.0.state_of())
                        &&& child.0.children_of().len() == 0
                        &&& child.0.value_of() is None
                        &&& child.0.action_of() is None
                    },
            decreases total - done,
        {
            let (state, action) = next_states.remove(0);
            assert(state == all[done as int].0 && action == all[done as int].1);
            let node = Self::new(state);
            let ghost before = self.children_of();
            let children = self.children_mut();
            children.push((node, action));
            assert(self.children_of() == before.push((node, action)));
            assert(next_states@ =~= all.subrange(done + 1, total as int));
            done += 1;
        }
    }
}

} // verus!
