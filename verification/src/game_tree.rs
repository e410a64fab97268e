//! The depth-bounded game-tree search: NegaMax, and NegaAlpha with its
//! cut-offs.

use vstd::prelude::*;
use crate::common::{Square, Squares, PlayerColor, Action, ActionType};
use crate::board::Board;
use crate::bit_board::BitBoard;
use crate::evaluator::Evaluator;
use crate::rules::{
    place_result, legal_positions, game_over, action_legal, apply_spec, lemma_legal_upto,
};

verus! {

/// The two ways to search.
#[derive(Debug)]
pub enum SearchType {
    NegaMax,
    NegaAlpha,
}

/// A node of the game tree: a position, the side to move in it, and what the
/// search has found there.
pub struct GameTreeNode<T> {
    board: T,
    player_color: PlayerColor,
    value: i32,
    action: Option<Action>,
    children: Vec<GameTreeNode<T>>,
}

/// What a search returns: the value of the root for the side to move, the
/// move it chose, and the number of nodes it entered.
pub struct SearchResult {
    pub value: i32,
    pub action: Option<Action>,
    pub searched_nodes: usize,
}

/// What a node knows after it has looked at some of its moves.
pub struct Scan {
    /// The best value so far; for NegaAlpha the current lower bound.
    pub value: int,
    /// The index of the move that gave `value`, or 0 where none has.
    pub index: int,
    /// The number of nodes entered below this node.
    pub nodes: nat,
    /// A cut-off has ended the scan.
    pub cut: bool,
}

/// The search stops at this node: no depth is left, or the game is over.
pub open spec fn is_leaf_at(cells: Seq<Square>, depth: nat) -> bool {
    depth == 0 || game_over(cells)
}

/// The cells after `color` has made the `j`-th of its legal placements.
pub open spec fn successor(cells: Seq<Square>, color: PlayerColor, j: int) -> Seq<Square> {
    let p = legal_positions(cells, color)[j];
    place_result(cells, color, p.0 as int, p.1 as int)
}

/// The NegaMax value of a node and the number of nodes that the search
/// enters at and below it.
pub open spec fn nega_max_spec<E: Evaluator>(cells: Seq<Square>, color: PlayerColor, depth: nat) -> (int, nat)
    decreases depth, 0nat,
{
    if is_leaf_at(cells, depth) {
        (E::value_of(cells, color), 1nat)
    } else if legal_positions(cells, color).len() > 0 {
        let s = nega_max_scan::<E>(cells, color, (depth - 1) as nat, legal_positions(cells, color).len());
        (s.value, 1 + s.nodes)
    } else {
        let c = nega_max_spec::<E>(cells, color.other(), (depth - 1) as nat);
        (-c.0, 1 + c.1)
    }
}

/// What NegaMax knows at a node after the first `k` of its placements, each
/// searched to `child_depth`: the largest negated value of a successor, and
/// the first placement that gives it.
pub open spec fn nega_max_scan<E: Evaluator>(
    cells: Seq<Square>,
    color: PlayerColor,
    child_depth: nat,
    k: nat,
) -> Scan
    decreases child_depth, 1 + k,
{
    if k == 0 {
        Scan { value: i32::MIN + 1, index: 0, nodes: 0, cut: false }
    } else {
        let before = nega_max_scan::<E>(cells, color, child_depth, (k - 1) as nat);
        let c = nega_max_spec::<E>(successor(cells, color, k - 1), color.other(), child_depth);
        if -c.0 > before.value {
            Scan { value: -c.0, index: k - 1, nodes: before.nodes + c.1, cut: false }
        } else {
            Scan { value: before.value, index: before.index, nodes: before.nodes + c.1, cut: false }
        }
    }
}

/// The NegaAlpha value of a node searched with the window `(alpha, beta)`,
/// and the number of nodes that the search enters at and below it.
pub open spec fn nega_alpha_spec<E: Evaluator>(
    cells: Seq<Square>,
    color: PlayerColor,
    depth: nat,
    alpha: int,
    beta: int,
) -> (int, nat)
    decreases depth, 0nat,
{
    if is_leaf_at(cells, depth) {
        (E::value_of(cells, color), 1nat)
    } else if legal_positions(cells, color).len() > 0 {
        let s = nega_alpha_scan::<E>(
            cells,
            color,
            (depth - 1) as nat,
            alpha,
            beta,
            legal_positions(cells, color).len(),
        );
        (s.value, 1 + s.nodes)
    } else {
        let c = nega_alpha_spec::<E>(cells, color.other(), (depth - 1) as nat, -beta, -alpha);
        (-c.0, 1 + c.1)
    }
}

/// What NegaAlpha knows at a node after the first `k` of its placements:
/// a successor whose negated value reaches `beta` ends the scan and changes
/// nothing; any other raises the lower bound to its negated value if that is
/// larger.
pub open spec fn nega_alpha_scan<E: Evaluator>(
    cells: Seq<Square>,
    color: PlayerColor,
    child_depth: nat,
    alpha: int,
    beta: int,
    k: nat,
) -> Scan
    decreases child_depth, 1 + k,
{
    if k == 0 {
        Scan { value: alpha, index: 0, nodes: 0, cut: false }
    } else {
        let before = nega_alpha_scan::<E>(cells, color, child_depth, alpha, beta, (k - 1) as nat);
        if before.cut {
            before
        } else {
            let c = nega_alpha_spec::<E>(
                successor(cells, color, k - 1),
                color.other(),
                child_depth,
                -beta,
                -before.value,
            );
            if -c.0 >= beta {
                Scan { value: before.value, index: before.index, nodes: before.nodes + c.1, cut: true }
            } else if -c.0 > before.value {
                Scan { value: -c.0, index: k - 1, nodes: before.nodes + c.1, cut: false }
            } else {
                Scan { value: before.value, index: before.index, nodes: before.nodes + c.1, cut: false }
            }
        }
    }
}

/// The move that a search reports at a node: the one it was given where the
/// node is a leaf, the placement with the index `index` where the side to
/// move has one, and the pass where it has none.
pub open spec fn chosen_action(
    cells: Seq<Square>,
    color: PlayerColor,
    depth: nat,
    given: Option<Action>,
    index: int,
) -> Option<Action> {
    if is_leaf_at(cells, depth) {
        given
    } else if legal_positions(cells, color).len() > 0 {
        Some(Action { color, action: ActionType::Move(legal_positions(cells, color)[index]) })
    } else {
        Some(Action { color, action: ActionType::Pass })
    }
}

/// The value, and the number of nodes, of a search of the given kind from
/// the root. NegaAlpha starts with the widest window whose bounds can both
/// be negated.
pub open spec fn search_spec<E: Evaluator>(
    cells: Seq<Square>,
    color: PlayerColor,
    search_type: SearchType,
    depth: nat,
) -> (int, nat) {
    match search_type {
        SearchType::NegaMax => nega_max_spec::<E>(cells, color, depth),
        SearchType::NegaAlpha => nega_alpha_spec::<E>(cells, color, depth, i32::MIN + 1, i32::MAX as int),
    }
}

/// The index of the placement that a search of the given kind chooses at
/// the root.
pub open spec fn search_index<E: Evaluator>(
    cells: Seq<Square>,
    color: PlayerColor,
    search_type: SearchType,
    depth: nat,
) -> int {
    match search_type {
        SearchType::NegaMax => nega_max_scan::<E>(
            cells,
            color,
            (depth - 1) as nat,
            legal_positions(cells, color).len(),
        ).index,
        SearchType::NegaAlpha => nega_alpha_scan::<E>(
            cells,
            color,
            (depth - 1) as nat,
            i32::MIN + 1,
            i32::MAX as int,
            legal_positions(cells, color).len(),
        ).index,
    }
}

/// A scan never enters fewer nodes by going on.
pub proof fn lemma_nega_max_nodes_grow<E: Evaluator>(
    cells: Seq<Square>,
    color: PlayerColor,
    child_depth: nat,
    k: nat,
    n: nat,
)
    requires
        k <= n,
    ensures
        nega_max_scan::<E>(cells, color, child_depth, k).nodes <= nega_max_scan::<E>(
            cells,
            color,
            child_depth,
            n,
        ).nodes,
    decreases n,
{
    if k < n {
        lemma_nega_max_nodes_grow::<E>(cells, color, child_depth, k, (n - 1) as nat);
    }
}

/// A scan never enters fewer nodes by going on.
pub proof fn lemma_nega_alpha_nodes_grow<E: Evaluator>(
    cells: Seq<Square>,
    color: PlayerColor,
    child_depth: nat,
    alpha: int,
    beta: int,
    k: nat,
    n: nat,
)
    requires
        k <= n,
    ensures
        nega_alpha_scan::<E>(cells, color, child_depth, alpha, beta, k).nodes <= nega_alpha_scan::<E>(
            cells,
            color,
            child_depth,
            alpha,
            beta,
            n,
        ).nodes,
        nega_alpha_scan::<E>(cells, color, child_depth, alpha, beta, k).cut ==> nega_alpha_scan::<E>(
            cells,
            color,
            child_depth,
            alpha,
            beta,
            n,
        ) == nega_alpha_scan::<E>(cells, color, child_depth, alpha, beta, k),
    decreases n,
{
    if k < n {
        lemma_nega_alpha_nodes_grow::<E>(cells, color, child_depth, alpha, beta, k, (n - 1) as nat);
    }
}

impl<T: Board> GameTreeNode<T> {
    /// The position of the node.
    pub closed spec fn cells(&self) -> Seq<Square> {
        self.board.cells()
    }

    /// The side to move at the node.
    pub closed spec fn color(&self) -> PlayerColor {
        self.player_color
    }

    /// The number of plies that led to the position of the node.
    pub closed spec fn ply(&self) -> u32 {
        self.board.ply()
    }

    /// The value that the search has found at the node.
    pub closed spec fn found_value(&self) -> i32 {
        self.value
    }

    /// The move that the search has chosen at the node.
    pub closed spec fn found_action(&self) -> Option<Action> {
        self.action
    }

    /// The board of the node is consistent.
    pub closed spec fn wf(&self) -> bool {
        self.board.wf()
    }

    /// The node for a position, with `color` to move. `action` is what the
    /// node reports as its move until a search has chosen one.
    pub fn new(board: &T, color: &PlayerColor, action: Option<Action>) -> (node: GameTreeNode<T>)
        requires
            board.wf(),
        ensures
            node.wf(),
            node.cells() == board.cells(),
            node.ply() == board.ply(),
            node.color() == *color,
            node.found_action() == action,
            node.found_value() == 0,
    {
        GameTreeNode {
            board: board.duplicate(),
            player_color: *color,
            value: 0,
            action,
            children: Vec::new(),
        }
    }

    /// Searches the tree below the node to `depth` plies and adds the number
    /// of nodes entered to `searched_nodes`.
    pub fn search<E>(&mut self, search_type: &SearchType, depth: usize, searched_nodes: &mut usize) -> (r: (
        i32,
        Option<Action>,
    )) where E: Evaluator
        requires
            old(self).wf(),
            old(self).ply() + depth <= u32::MAX,
            *old(searched_nodes) + search_spec::<E>(
                old(self).cells(),
                old(self).color(),
                *search_type,
                depth as nat,
            ).1 <= usize::MAX,
        ensures
            r.0 == search_spec::<E>(old(self).cells(), old(self).color(), *search_type, depth as nat).0,
            r.1 == chosen_action(
                old(self).cells(),
                old(self).color(),
                depth as nat,
                old(self).found_action(),
                search_index::<E>(old(self).cells(), old(self).color(), *search_type, depth as nat),
            ),
            *final(searched_nodes) == *old(searched_nodes) + search_spec::<E>(
                old(self).cells(),
                old(self).color(),
                *search_type,
                depth as nat,
            ).1,
            final(self).wf(),
            final(self).cells() == old(self).cells(),
            final(self).color() == old(self).color(),
            final(self).ply() == old(self).ply(),
            final(self).found_value() == r.0,
            final(self).found_action() == r.1,
    {
        match search_type {
            SearchType::NegaAlpha => self.nega_alpha::<E>(depth, i32::MIN + 1, i32::MAX, searched_nodes),
            SearchType::NegaMax => self.nega_max::<E>(depth, searched_nodes),
        }
    }

    /// The search stops at this node: no depth is left, or the game is over.
    pub fn is_leaf(&self, depth: usize) -> (b: bool)
        requires
            self.wf(),
        ensures
            b == is_leaf_at(self.cells(), depth as nat),
    {
        depth == 0 || self.board.is_game_over()
    }

    /// The node of the position after `act`, with the other side to move.
    fn child(&self, act: &Action) -> (node: GameTreeNode<T>)
        requires
            self.wf(),
            act.valid(),
            action_legal(self.cells(), *act),
            self.ply() < u32::MAX,
        ensures
            node.wf(),
            node.cells() == apply_spec(self.cells(), *act),
            node.ply() == self.ply() + 1,
            node.color() == self.color().other(),
            node.found_action() is None,
    {
        let next = self.board.apply_action(act);
        GameTreeNode::new(&next.unwrap(), &self.player_color.opponent(), None)
    }

    /// NegaAlpha with the window `(alpha, beta)`: the value of the node and
    /// the move chosen.
    pub fn nega_alpha<E>(&mut self, depth: usize, alpha: i32, beta: i32, searched_nodes: &mut usize) -> (r: (
        i32,
        Option<Action>,
    )) where E: Evaluator
        requires
            old(self).wf(),
            old(self).ply() + depth <= u32::MAX,
            alpha > i32::MIN,
            beta > i32::MIN,
            *old(searched_nodes) + nega_alpha_spec::<E>(
                old(self).cells(),
                old(self).color(),
                depth as nat,
                alpha as int,
                beta as int,
            ).1 <= usize::MAX,
        ensures
            r.0 == nega_alpha_spec::<E>(
                old(self).cells(),
                old(self).color(),
                depth as nat,
                alpha as int,
                beta as int,
            ).0,
            r.0 > i32::MIN,
            r.1 == chosen_action(
                old(self).cells(),
                old(self).color(),
                depth as nat,
                old(self).found_action(),
                nega_alpha_scan::<E>(
                    old(self).cells(),
                    old(self).color(),
                    (depth - 1) as nat,
                    alpha as int,
                    beta as int,
                    legal_positions(old(self).cells(), old(self).color()).len(),
                ).index,
            ),
            *final(searched_nodes) == *old(searched_nodes) + nega_alpha_spec::<E>(
                old(self).cells(),
                old(self).color(),
                depth as nat,
                alpha as int,
                beta as int,
            ).1,
            final(self).wf(),
            final(self).cells() == old(self).cells(),
            final(self).color() == old(self).color(),
            final(self).ply() == old(self).ply(),
            final(self).found_value() == r.0,
            final(self).found_action() == r.1,
        decreases depth,
    {
        let ghost cells = self.board.cells();
        let ghost color = self.player_color;
        let ghost start = *searched_nodes;
        self.children.clear();
        *searched_nodes += 1;
        if self.is_leaf(depth) {
            self.value = E::evaluate(self.board.squares(), &self.player_color).value;
        } else {
            let positions = self.board.get_movable_positions(&self.player_color);
            if positions.len() > 0 {
                let mut alpha = alpha;
                let ghost alpha0 = alpha as int;
                let mut index: usize = 0;
                let mut i: usize = 0;
                let mut cut = false;
                proof {
                    lemma_legal_upto(cells, color, 64);
                }
                while i < positions.len() && !cut
                    invariant
                        i <= positions.len(),
                        0 < positions.len() <= 64,
                        positions@ == legal_positions(cells, color),
                        self.wf(),
                        self.board.cells() == cells,
                        self.player_color == color,
                        self.board.ply() == old(self).board.ply(),
                        self.action == old(self).action,
                        self.board.ply() + depth <= u32::MAX,
                        depth > 0,
                        beta > i32::MIN,
                        alpha > i32::MIN,
                        index < positions.len(),
                        ({
                            let s = nega_alpha_scan::<E>(
                                cells,
                                color,
                                (depth - 1) as nat,
                                alpha0,
                                beta as int,
                                i as nat,
                            );
                            &&& s.value == alpha
                            &&& s.index == index
                            &&& s.cut == cut
                            &&& *searched_nodes == start + 1 + s.nodes
                        }),
                        start + 1 + nega_alpha_scan::<E>(
                            cells,
                            color,
                            (depth - 1) as nat,
                            alpha0,
                            beta as int,
                            positions.len() as nat,
                        ).nodes <= usize::MAX,
                    decreases positions.len() - i,
                {
                    let act = Action::new(self.player_color, ActionType::Move(positions[i]));
                    proof {
                        lemma_legal_upto(cells, color, 64);
                        lemma_nega_alpha_nodes_grow::<E>(
                            cells,
                            color,
                            (depth - 1) as nat,
                            alpha0,
                            beta as int,
                            (i + 1) as nat,
                            positions.len() as nat,
                        );
                    }
                    let mut child = self.child(&act);
                    let (cv, _) = child.nega_alpha::<E>(depth - 1, -beta, -alpha, searched_nodes);
                    let v = -cv;
                    self.children.push(child);
                    if v >= beta {
                        cut = true;
                    } else if v > alpha {
                        alpha = v;
                        index = i;
                    }
                    i += 1;
                }
                proof {
                    lemma_nega_alpha_nodes_grow::<E>(
                        cells,
                        color,
                        (depth - 1) as nat,
                        alpha0,
                        beta as int,
                        i as nat,
                        positions.len() as nat,
                    );
                }
                self.value = alpha;
                self.action = Some(Action::new(self.player_color, ActionType::Move(positions[index])));
            } else {
                let act = Action::new(self.player_color, ActionType::Pass);
                let mut child = self.child(&act);
                let (cv, _) = child.nega_alpha::<E>(depth - 1, -beta, -alpha, searched_nodes);
                self.children.push(child);
                self.value = -cv;
                self.action = Some(act);
            }
        }
        (self.value, self.action)
    }

    /// NegaMax: the value of the node and the move chosen.
    pub fn nega_max<E>(&mut self, depth: usize, searched_nodes: &mut usize) -> (r: (i32, Option<Action>)) where
        E: Evaluator,

        requires
            old(self).wf(),
            old(self).ply() + depth <= u32::MAX,
            *old(searched_nodes) + nega_max_spec::<E>(old(self).cells(), old(self).color(), depth as nat).1
                <= usize::MAX,
        ensures
            r.0 == nega_max_spec::<E>(old(self).cells(), old(self).color(), depth as nat).0,
            r.0 > i32::MIN,
            r.1 == chosen_action(
                old(self).cells(),
                old(self).color(),
                depth as nat,
                old(self).found_action(),
                nega_max_scan::<E>(
                    old(self).cells(),
                    old(self).color(),
                    (depth - 1) as nat,
                    legal_positions(old(self).cells(), old(self).color()).len(),
                ).index,
            ),
            *final(searched_nodes) == *old(searched_nodes) + nega_max_spec::<E>(
                old(self).cells(),
                old(self).color(),
                depth as nat,
            ).1,
            final(self).wf(),
            final(self).cells() == old(self).cells(),
            final(self).color() == old(self).color(),
            final(self).ply() == old(self).ply(),
            final(self).found_value() == r.0,
            final(self).found_action() == r.1,
        decreases depth,
    {
        let ghost cells = self.board.cells();
        let ghost color = self.player_color;
        let ghost start = *searched_nodes;
        *searched_nodes += 1;
        if self.is_leaf(depth) {
            self.value = E::evaluate(self.board.squares(), &self.player_color).value;
        } else {
            let positions = self.board.get_movable_positions(&self.player_color);
            if positions.len() > 0 {
                let mut value: i32 = i32::MIN + 1;
                let mut index: usize = 0;
                let mut i: usize = 0;
                proof {
                    lemma_legal_upto(cells, color, 64);
                }
                while i < positions.len()
                    invariant
                        i <= positions.len(),
                        0 < positions.len() <= 64,
                        positions@ == legal_positions(cells, color),
                        self.wf(),
                        self.board.cells() == cells,
                        self.player_color == color,
                        self.board.ply() == old(self).board.ply(),
                        self.action == old(self).action,
                        self.board.ply() + depth <= u32::MAX,
                        depth > 0,
                        value > i32::MIN,
                        index < positions.len(),
                        ({
                            let s = nega_max_scan::<E>(cells, color, (depth - 1) as nat, i as nat);
                            &&& s.value == value
                            &&& s.index == index
                            &&& *searched_nodes == start + 1 + s.nodes
                        }),
                        start + 1 + nega_max_scan::<E>(
                            cells,
                            color,
                            (depth - 1) as nat,
                            positions.len() as nat,
                        ).nodes <= usize::MAX,
                    decreases positions.len() - i,
                {
                    let act = Action::new(self.player_color, ActionType::Move(positions[i]));
                    proof {
                        lemma_legal_upto(cells, color, 64);
                        lemma_nega_max_nodes_grow::<E>(
                            cells,
                            color,
                            (depth - 1) as nat,
                            (i + 1) as nat,
                            positions.len() as nat,
                        );
                    }
                    let mut child = self.child(&act);
                    let (cv, _) = child.nega_max::<E>(depth - 1, searched_nodes);
                    let v = -cv;
                    self.children.push(child);
                    if v > value {
                        value = v;
                        index = i;
                    }
                    i += 1;
                }
                self.value = value;
                self.action = Some(Action::new(self.player_color, ActionType::Move(positions[index])));
            } else {
                let act = Action::new(self.player_color, ActionType::Pass);
                let mut child = self.child(&act);
                let (cv, _) = child.nega_max::<E>(depth - 1, searched_nodes);
                self.children.push(child);
                self.value = -cv;
                self.action = Some(act);
            }
        }
        (self.value, self.action)
    }
}

/// Searches the position with `color` to move to `depth` plies.
pub fn search_game_tree<E>(board: &Squares, color: &PlayerColor, search_type: &SearchType, depth: usize) -> (r:
    SearchResult) where E: Evaluator
    requires
        depth <= u32::MAX,
        search_spec::<E>(board@, *color, *search_type, depth as nat).1 <= usize::MAX,
    ensures
        r.value == search_spec::<E>(board@, *color, *search_type, depth as nat).0,
        r.action == chosen_action(
            board@,
            *color,
            depth as nat,
            None,
            search_index::<E>(board@, *color, *search_type, depth as nat),
        ),
        r.searched_nodes == search_spec::<E>(board@, *color, *search_type, depth as nat).1,
{
    let board = BitBoard::new(board, 0);
    let mut root = GameTreeNode::new(&board, color, None);
    let mut searched_nodes: usize = 0;
    let (value, action) = root.search::<E>(search_type, depth, &mut searched_nodes);
    SearchResult { value, action, searched_nodes }
}

} // verus!
