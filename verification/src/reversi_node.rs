//! The state of a Reversi game for a search, and the tree node that keeps
//! it.

use vstd::prelude::*;
use crate::common::{PlayerColor, Action};
use crate::board::Board;
use crate::bit_board::BitBoard;
use crate::rules::{action_legal, apply_spec, game_over};
use crate::game_tree_node::{State, GameTreeNode__, moves_or_pass, lemma_moves_or_pass, actions_of};

verus! {

/// A position, the side to move in it, and how many moves a search has made
/// to reach it.
pub struct ReversiState {
    pub board: BitBoard,
    pub color: PlayerColor,
    pub depth: u8,
}

impl State for ReversiState {
    open spec fn wf(&self) -> bool {
        self.board.wf() && self.board.ply() < u32::MAX && self.depth < u8::MAX
    }

    open spec fn moves(&self) -> Seq<Action> {
        moves_or_pass(self.board.cells(), self.color)
    }

    open spec fn allows(&self, action: Action) -> bool {
        action_legal(self.board.cells(), action)
    }

    open spec fn follows(&self, action: Action, next: &Self) -> bool {
        &&& next.board.wf()
        &&& next.board.cells() == apply_spec(self.board.cells(), action)
        &&& next.board.ply() == self.board.ply() + 1
        &&& next.color == self.color.other()
        &&& next.depth == self.depth + 1
    }

    proof fn lemma_moves_allowed(&self, i: int) {
        assert(self.moves() == moves_or_pass(self.board.cells(), self.color));
        lemma_moves_or_pass(self.board.cells(), self.color, i);
        assert(action_legal(self.board.cells(), self.moves()[i]));
        assert(self.allows(self.moves()[i]) == action_legal(self.board.cells(), self.moves()[i]));
    }

    fn apply_action(&self, action: &Action) -> (r: Option<Self>) {
        match self.board.apply_action(action) {
            Some(board) => {
                let color = self.color.opponent();
                let depth = self.depth + 1;
                Some(ReversiState { board, color, depth })
            },
            None => None,
        }
    }

    fn leagal_actions(&self) -> (actions: Vec<Action>) {
        actions_of(&self.board, self.color)
    }
}

/// A node of a game tree of Reversi.
pub struct ReversiNode {
    pub state: ReversiState,
    pub value: Option<i32>,
    pub action: Option<Action>,
    pub children: Vec<(ReversiNode, Action)>,
}

impl GameTreeNode__ for ReversiNode {
    type S = ReversiState;

    open spec fn state_of(&self) -> ReversiState {
        self.state
    }

    open spec fn children_of(&self) -> Seq<(Self, Action)> {
        self.children@
    }

    open spec fn value_of(&self) -> Option<i32> {
        self.value
    }

    open spec fn action_of(&self) -> Option<Action> {
        self.action
    }

    open spec fn leaf_state(state: ReversiState) -> bool {
        game_over(state.board.cells())
    }

    fn new(state: ReversiState) -> (node: Self) {
        ReversiNode { state, value: None, action: None, children: Vec::new() }
    }

    fn state(&self) -> (state: &ReversiState) {
        &self.state
    }

    fn children(&self) -> (children: &[(Self, Action)]) {
        self.children.as_slice()
    }

    fn children_mut(&mut self) -> (children: &mut Vec<(Self, Action)>) {
        &mut self.children
    }

    fn value(&self) -> (value: &Option<i32>) {
        &self.value
    }

    fn action(&self) -> (action: &Option<Action>) {
        &self.action
    }

    fn is_leaf(&self) -> (b: bool) {
        self.state.board.is_game_over()
    }

    fn set_value(&mut self, value: i32) {
        self.value = Some(value);
    }

    fn set_action(&mut self, action: Action) {
        self.action = Some(action);
    }
}

} // verus!
