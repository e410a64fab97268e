//! What holds of every board and of every search, proved from the contracts
//! of the functions.

use vstd::prelude::*;
use crate::common::{Square, PlayerColor, Position, Action, ActionType};
use crate::board::Board;
use crate::evaluator::{Evaluator, SimpleEvaluator, simple_value};
use crate::rules::{
    place_legal, legal_positions, action_legal, apply_spec, game_over, count_upto, count_of,
    lemma_legal_upto,
};
use crate::game_tree::{
    is_leaf_at, successor, nega_max_spec, nega_max_scan, nega_alpha_spec, nega_alpha_scan,
};

verus! {

/// The legal placements that a board lists for a side are exactly the
/// positions on which that side may place a stone.
pub proof fn law_movable_iff_placeable(cells: Seq<Square>, color: PlayerColor, p: Position)
    ensures
        legal_positions(cells, color).contains(p) <==> p.valid() && action_legal(
            cells,
            Action { color, action: ActionType::Move(p) },
        ),
{
    lemma_legal_upto(cells, color, 64);
    let listed = legal_positions(cells, color);
    if listed.contains(p) {
        let i = choose|i: int| 0 <= i < listed.len() && listed[i] == p;
        assert(listed[i].valid());
    }
    if p.valid() && place_legal(cells, color, p.0 as int, p.1 as int) {
        assert(p == Position(p.0 as int as usize, p.1 as int as usize));
    }
}

/// No position is listed twice among the legal placements, and they come in
/// ascending order of their flat index.
pub proof fn law_movable_ascending(cells: Seq<Square>, color: PlayerColor, i: int, j: int)
    requires
        0 <= i < j < legal_positions(cells, color).len(),
    ensures
        legal_positions(cells, color)[i].index() < legal_positions(cells, color)[j].index(),
        legal_positions(cells, color).len() <= 64,
{
    lemma_legal_upto(cells, color, 64);
}

/// The game is over exactly when neither side has a legal placement.
pub proof fn law_game_over_iff_no_placement(cells: Seq<Square>)
    ensures
        game_over(cells) <==> forall|p: Position|
            !legal_positions(cells, PlayerColor::Black).contains(p) && !legal_positions(
                cells,
                PlayerColor::White,
            ).contains(p),
{
    let black = legal_positions(cells, PlayerColor::Black);
    let white = legal_positions(cells, PlayerColor::White);
    if black.len() > 0 {
        assert(black.contains(black[0]));
    }
    if white.len() > 0 {
        assert(white.contains(white[0]));
    }
}

/// Among the first `n` cells, the black, the white and the empty ones are
/// `n` cells.
pub proof fn lemma_counts_upto(cells: Seq<Square>, n: nat)
    ensures
        count_upto(cells, Square::Black, n) + count_upto(cells, Square::White, n) + count_upto(
            cells,
            Square::Empty,
            n,
        ) == n,
    decreases n,
{
    if n > 0 {
        lemma_counts_upto(cells, (n - 1) as nat);
    }
}

/// The black, the white and the empty cells of a board are 64 cells.
pub proof fn law_counts_total<B: Board>(board: &B)
    requires
        board.wf(),
    ensures
        count_of(board.cells(), Square::Black) + count_of(board.cells(), Square::White) + count_of(
            board.cells(),
            Square::Empty,
        ) == 64,
{
    lemma_counts_upto(board.cells(), 64);
}

/// The cells after a sequence of moves, or `None` where one of them is not
/// legal when its turn comes.
pub open spec fn play(cells: Seq<Square>, moves: Seq<Action>) -> Option<Seq<Square>>
    decreases moves.len(),
{
    if moves.len() == 0 {
        Some(cells)
    } else {
        match play(cells, moves.drop_last()) {
            Some(before) => if action_legal(before, moves.last()) {
                Some(apply_spec(before, moves.last()))
            } else {
                None
            },
            None => None,
        }
    }
}

/// Boards of any two representations that hold the same cells go through
/// every sequence of moves alike: the same moves are legal, they lead to the
/// same cells, and the same placements are legal afterwards.
pub proof fn law_representations_agree<A: Board, B: Board>(a: &A, b: &B, moves: Seq<Action>, color: PlayerColor)
    requires
        a.wf(),
        b.wf(),
        a.cells() == b.cells(),
    ensures
        play(a.cells(), moves) == play(b.cells(), moves),
        play(a.cells(), moves) matches Some(after) ==> legal_positions(after, color) == legal_positions(
            play(b.cells(), moves)->0,
            color,
        ),
{
}

/// The value of the `j`-th placement of a position for the side that makes
/// it, where the successor is searched `child_depth` plies deep: the negated
/// NegaMax value of the successor for the opponent.
pub open spec fn reply_value<E: Evaluator>(
    cells: Seq<Square>,
    color: PlayerColor,
    child_depth: nat,
    j: int,
) -> int {
    -nega_max_spec::<E>(successor(cells, color, j), color.other(), child_depth).0
}

/// After the first `k` placements NegaMax has seen the largest of their
/// values and stands on the first placement that has it.
pub proof fn lemma_scan_is_argmax<E: Evaluator>(cells: Seq<Square>, color: PlayerColor, child_depth: nat, k: nat)
    requires
        0 < k <= legal_positions(cells, color).len(),
    ensures
        ({
            let s = nega_max_scan::<E>(cells, color, child_depth, k);
            &&& 0 <= s.index < k
            &&& s.value == reply_value::<E>(cells, color, child_depth, s.index)
            &&& forall|j: int|
                0 <= j < k ==> #[trigger] reply_value::<E>(cells, color, child_depth, j) <= s.value
            &&& forall|j: int|
                0 <= j < s.index ==> #[trigger] reply_value::<E>(cells, color, child_depth, j) < s.value
        }),
    decreases k,
{
    let before = nega_max_scan::<E>(cells, color, child_depth, (k - 1) as nat);
    lemma_nega_max_range::<E>(successor(cells, color, k - 1), color.other(), child_depth);
    if k > 1 {
        lemma_scan_is_argmax::<E>(cells, color, child_depth, (k - 1) as nat);
    } else {
        assert(before.value == i32::MIN + 1);
        if !(reply_value::<E>(cells, color, child_depth, 0) > before.value) {
            assert(reply_value::<E>(cells, color, child_depth, 0) == i32::MIN + 1);
        }
    }
}

/// At a node where the side to move has a placement, NegaMax chooses the
/// placement with the largest value, among several such the first, and the
/// value of the node is the value of that placement.
pub proof fn law_nega_max_is_argmax<E: Evaluator>(cells: Seq<Square>, color: PlayerColor, depth: nat)
    requires
        !is_leaf_at(cells, depth),
        legal_positions(cells, color).len() > 0,
    ensures
        ({
            let n = legal_positions(cells, color).len();
            let d = (depth - 1) as nat;
            let s = nega_max_scan::<E>(cells, color, d, n);
            &&& 0 <= s.index < n
            &&& nega_max_spec::<E>(cells, color, depth).0 == reply_value::<E>(cells, color, d, s.index)
            &&& forall|j: int|
                0 <= j < n ==> #[trigger] reply_value::<E>(cells, color, d, j) <= reply_value::<E>(
                    cells,
                    color,
                    d,
                    s.index,
                )
            &&& forall|j: int|
                0 <= j < s.index ==> #[trigger] reply_value::<E>(cells, color, d, j) < reply_value::<E>(
                    cells,
                    color,
                    d,
                    s.index,
                )
        }),
{
    lemma_scan_is_argmax::<E>(cells, color, (depth - 1) as nat, legal_positions(cells, color).len());
}

/// Searching one ply deep with the simple evaluator, NegaMax chooses the
/// placement whose successor has the largest negated value for the opponent,
/// and among several such the first; that value is the value of the search.
pub proof fn law_depth_one_is_argmax(cells: Seq<Square>, color: PlayerColor)
    requires
        !game_over(cells),
        legal_positions(cells, color).len() > 0,
    ensures
        ({
            let n = legal_positions(cells, color).len();
            let s = nega_max_scan::<SimpleEvaluator>(cells, color, 0, n);
            &&& 0 <= s.index < n
            &&& nega_max_spec::<SimpleEvaluator>(cells, color, 1).0 == -simple_value(
                successor(cells, color, s.index),
                color.other(),
            )
            &&& forall|j: int|
                0 <= j < n ==> -simple_value(#[trigger] successor(cells, color, j), color.other())
                    <= -simple_value(successor(cells, color, s.index), color.other())
            &&& forall|j: int|
                0 <= j < s.index ==> -simple_value(#[trigger] successor(cells, color, j), color.other())
                    < -simple_value(successor(cells, color, s.index), color.other())
        }),
{
    law_nega_max_is_argmax::<SimpleEvaluator>(cells, color, 1);
    let n = legal_positions(cells, color).len();
    let s = nega_max_scan::<SimpleEvaluator>(cells, color, 0, n);
    assert forall|j: int| 0 <= j < n implies reply_value::<SimpleEvaluator>(cells, color, 0, j)
        == -simple_value(#[trigger] successor(cells, color, j), color.other()) by {
    }
    assert(reply_value::<SimpleEvaluator>(cells, color, 0, s.index) == -simple_value(
        successor(cells, color, s.index),
        color.other(),
    ));
}

} // verus!

verus! {

/// The larger of two numbers.
pub open spec fn larger(a: int, b: int) -> int {
    if a >= b {
        a
    } else {
        b
    }
}

/// The smaller of two numbers.
pub open spec fn smaller(a: int, b: int) -> int {
    if a <= b {
        a
    } else {
        b
    }
}

/// Every NegaMax value can be negated within `i32`.
pub proof fn lemma_nega_max_range<E: Evaluator>(cells: Seq<Square>, color: PlayerColor, depth: nat)
    ensures
        i32::MIN < nega_max_spec::<E>(cells, color, depth).0 <= i32::MAX,
    decreases depth, 0nat,
{
    if is_leaf_at(cells, depth) {
        E::lemma_value_range(cells, color);
    } else if legal_positions(cells, color).len() > 0 {
        lemma_nega_max_scan_range::<E>(cells, color, (depth - 1) as nat, legal_positions(cells, color).len());
    } else {
        lemma_nega_max_range::<E>(cells, color.other(), (depth - 1) as nat);
    }
}

/// What NegaMax has seen at a node can be negated within `i32`, and until it
/// has seen a value above the least one it stands on the first placement.
pub proof fn lemma_nega_max_scan_range<E: Evaluator>(
    cells: Seq<Square>,
    color: PlayerColor,
    child_depth: nat,
    k: nat,
)
    ensures
        i32::MIN < nega_max_scan::<E>(cells, color, child_depth, k).value <= i32::MAX,
        nega_max_scan::<E>(cells, color, child_depth, k).value == i32::MIN + 1 ==> nega_max_scan::<E>(
            cells,
            color,
            child_depth,
            k,
        ).index == 0,
    decreases child_depth, 1 + k,
{
    if k > 0 {
        lemma_nega_max_scan_range::<E>(cells, color, child_depth, (k - 1) as nat);
        lemma_nega_max_range::<E>(successor(cells, color, k - 1), color.other(), child_depth);
    }
}

/// No cut-off happens anywhere in the NegaAlpha search of the node with the
/// window `(alpha, beta)`.
pub open spec fn cut_free<E: Evaluator>(
    cells: Seq<Square>,
    color: PlayerColor,
    depth: nat,
    alpha: int,
    beta: int,
) -> bool
    decreases depth, 0nat,
{
    if is_leaf_at(cells, depth) {
        true
    } else if legal_positions(cells, color).len() > 0 {
        cut_free_scan::<E>(cells, color, (depth - 1) as nat, alpha, beta, legal_positions(cells, color).len())
    } else {
        cut_free::<E>(cells, color.other(), (depth - 1) as nat, -beta, -alpha)
    }
}

/// No cut-off happens at the node while it looks at its first `k`
/// placements, nor anywhere below them.
pub open spec fn cut_free_scan<E: Evaluator>(
    cells: Seq<Square>,
    color: PlayerColor,
    child_depth: nat,
    alpha: int,
    beta: int,
    k: nat,
) -> bool
    decreases child_depth, 1 + k,
{
    k == 0 || (cut_free_scan::<E>(cells, color, child_depth, alpha, beta, (k - 1) as nat) && cut_free::<E>(
        successor(cells, color, k - 1),
        color.other(),
        child_depth,
        -beta,
        -nega_alpha_scan::<E>(cells, color, child_depth, alpha, beta, (k - 1) as nat).value,
    ) && !nega_alpha_scan::<E>(cells, color, child_depth, alpha, beta, k).cut)
}

/// Without a cut-off, NegaAlpha enters the nodes that NegaMax enters, and
/// its value is the NegaMax value as far as the window lets it show: a node
/// with placements reports no less than `alpha`, and a node that passes no
/// more than `beta`.
pub proof fn lemma_cut_free_value<E: Evaluator>(
    cells: Seq<Square>,
    color: PlayerColor,
    depth: nat,
    alpha: int,
    beta: int,
)
    requires
        cut_free::<E>(cells, color, depth, alpha, beta),
        i32::MIN < alpha,
        beta <= i32::MAX,
    ensures
        nega_alpha_spec::<E>(cells, color, depth, alpha, beta).1 == nega_max_spec::<E>(cells, color, depth).1,
        is_leaf_at(cells, depth) ==> nega_alpha_spec::<E>(cells, color, depth, alpha, beta).0
            == nega_max_spec::<E>(cells, color, depth).0,
        !is_leaf_at(cells, depth) && legal_positions(cells, color).len() > 0 ==> nega_alpha_spec::<E>(
            cells,
            color,
            depth,
            alpha,
            beta,
        ).0 == larger(alpha, nega_max_spec::<E>(cells, color, depth).0),
        !is_leaf_at(cells, depth) && legal_positions(cells, color).len() == 0 ==> nega_alpha_spec::<E>(
            cells,
            color,
            depth,
            alpha,
            beta,
        ).0 == nega_max_spec::<E>(cells, color, depth).0 || nega_alpha_spec::<E>(
            cells,
            color,
            depth,
            alpha,
            beta,
        ).0 == smaller(beta, nega_max_spec::<E>(cells, color, depth).0),
    decreases depth, 0nat,
{
    if is_leaf_at(cells, depth) {
    } else if legal_positions(cells, color).len() > 0 {
        lemma_cut_free_scan::<E>(
            cells,
            color,
            (depth - 1) as nat,
            alpha,
            beta,
            legal_positions(cells, color).len(),
        );
    } else {
        let d = (depth - 1) as nat;
        lemma_cut_free_value::<E>(cells, color.other(), d, -beta, -alpha);
        lemma_nega_max_range::<E>(cells, color.other(), d);
    }
}

/// Without a cut-off, what NegaAlpha knows after `k` placements is what
/// NegaMax knows, raised to `alpha`; both stand on the same placement once a
/// value above `alpha` has been seen, and NegaAlpha stands on the first
/// placement until then.
pub proof fn lemma_cut_free_scan<E: Evaluator>(
    cells: Seq<Square>,
    color: PlayerColor,
    child_depth: nat,
    alpha: int,
    beta: int,
    k: nat,
)
    requires
        cut_free_scan::<E>(cells, color, child_depth, alpha, beta, k),
        i32::MIN < alpha,
        beta <= i32::MAX,
    ensures
        ({
            let a = nega_alpha_scan::<E>(cells, color, child_depth, alpha, beta, k);
            let m = nega_max_scan::<E>(cells, color, child_depth, k);
            &&& !a.cut
            &&& a.value == larger(alpha, m.value)
            &&& a.nodes == m.nodes
            &&& m.value > alpha ==> a.index == m.index
            &&& m.value <= alpha ==> a.index == 0
        }),
    decreases child_depth, 1 + k,
{
    if k > 0 {
        let j = (k - 1) as nat;
        lemma_cut_free_scan::<E>(cells, color, child_depth, alpha, beta, j);
        let before = nega_alpha_scan::<E>(cells, color, child_depth, alpha, beta, j);
        let seen = nega_max_scan::<E>(cells, color, child_depth, j);
        let next = successor(cells, color, k - 1);
        lemma_nega_max_scan_range::<E>(cells, color, child_depth, j);
        lemma_nega_max_range::<E>(next, color.other(), child_depth);
        lemma_cut_free_value::<E>(next, color.other(), child_depth, -beta, -before.value);
        let r = nega_alpha_spec::<E>(next, color.other(), child_depth, -beta, -before.value);
        let n = nega_max_spec::<E>(next, color.other(), child_depth);
        assert(r.1 == n.1);
        assert(-r.0 < beta);
        assert((-r.0 > before.value) == (-n.0 > before.value));
        assert(-r.0 > before.value ==> r.0 == n.0);
    }
}

/// Where no cut-off happens, NegaAlpha from the root returns the value that
/// NegaMax returns, chooses the placement that NegaMax chooses, and enters
/// as many nodes.
pub proof fn law_pruning_sound_without_cutoff<E: Evaluator>(cells: Seq<Square>, color: PlayerColor, depth: nat)
    requires
        cut_free::<E>(cells, color, depth, i32::MIN + 1, i32::MAX as int),
    ensures
        nega_alpha_spec::<E>(cells, color, depth, i32::MIN + 1, i32::MAX as int) == nega_max_spec::<E>(
            cells,
            color,
            depth,
        ),
        !is_leaf_at(cells, depth) ==> nega_alpha_scan::<E>(
            cells,
            color,
            (depth - 1) as nat,
            i32::MIN + 1,
            i32::MAX as int,
            legal_positions(cells, color).len(),
        ).index == nega_max_scan::<E>(
            cells,
            color,
            (depth - 1) as nat,
            legal_positions(cells, color).len(),
        ).index,
{
    let alpha = i32::MIN + 1;
    let beta = i32::MAX as int;
    lemma_cut_free_value::<E>(cells, color, depth, alpha, beta);
    lemma_nega_max_range::<E>(cells, color, depth);
    if !is_leaf_at(cells, depth) {
        let n = legal_positions(cells, color).len();
        if n > 0 {
            lemma_cut_free_scan::<E>(cells, color, (depth - 1) as nat, alpha, beta, n);
            lemma_nega_max_scan_range::<E>(cells, color, (depth - 1) as nat, n);
        }
    }
}

/// One ply deep, and with the simple evaluator, no cut-off can happen from
/// the root, so NegaAlpha and NegaMax agree there on every position.
pub proof fn law_pruning_sound_at_depth_one(cells: Seq<Square>, color: PlayerColor)
    ensures
        nega_alpha_spec::<SimpleEvaluator>(cells, color, 1, i32::MIN + 1, i32::MAX as int)
            == nega_max_spec::<SimpleEvaluator>(cells, color, 1),
{
    let alpha = i32::MIN + 1;
    let beta = i32::MAX as int;
    if !is_leaf_at(cells, 1) {
        let n = legal_positions(cells, color).len();
        if n > 0 {
            lemma_depth_one_cut_free(cells, color, n);
        } else {
            assert(cut_free::<SimpleEvaluator>(cells, color.other(), 0, -beta, -alpha));
        }
    }
    law_pruning_sound_without_cutoff::<SimpleEvaluator>(cells, color, 1);
}

/// One ply deep, and with the simple evaluator, the widest window is never
/// cut.
pub proof fn lemma_depth_one_cut_free(cells: Seq<Square>, color: PlayerColor, k: nat)
    ensures
        cut_free_scan::<SimpleEvaluator>(cells, color, 0, i32::MIN + 1, i32::MAX as int, k),
    decreases k,
{
    if k > 0 {
        lemma_depth_one_cut_free(cells, color, (k - 1) as nat);
        let alpha = i32::MIN + 1;
        let beta = i32::MAX as int;
        let before = nega_alpha_scan::<SimpleEvaluator>(cells, color, 0, alpha, beta, (k - 1) as nat);
        let next = successor(cells, color, k - 1);
        crate::evaluator::lemma_weighted_sum_bound(next, color.other(), 64);
        assert(nega_alpha_spec::<SimpleEvaluator>(next, color.other(), 0, -beta, -before.value).0
            == simple_value(next, color.other()));
        assert(cut_free::<SimpleEvaluator>(next, color.other(), 0, -beta, -before.value));
    }
}

} // verus!

verus! {

/// An upper bound on the number of nodes of a search of the given depth: a
/// node has at most 64 children.
pub open spec fn node_limit(depth: nat) -> nat
    decreases depth,
{
    if depth == 0 {
        1
    } else {
        1 + 64 * node_limit((depth - 1) as nat)
    }
}

/// NegaMax enters no more nodes than the limit of its depth.
pub proof fn lemma_nega_max_nodes<E: Evaluator>(cells: Seq<Square>, color: PlayerColor, depth: nat)
    ensures
        1 <= nega_max_spec::<E>(cells, color, depth).1 <= node_limit(depth),
    decreases depth, 0nat,
{
    if is_leaf_at(cells, depth) {
    } else if legal_positions(cells, color).len() > 0 {
        lemma_legal_upto(cells, color, 64);
        lemma_nega_max_scan_nodes::<E>(cells, color, (depth - 1) as nat, legal_positions(cells, color).len());
        let limit = node_limit((depth - 1) as nat);
        let n = legal_positions(cells, color).len();
        assert(n * limit <= 64 * limit) by (nonlinear_arith)
            requires
                n <= 64,
                limit >= 0,
        ;
    } else {
        lemma_nega_max_nodes::<E>(cells, color.other(), (depth - 1) as nat);
    }
}

/// Below its first `k` children NegaMax enters no more than `k` times the
/// limit of their depth.
pub proof fn lemma_nega_max_scan_nodes<E: Evaluator>(
    cells: Seq<Square>,
    color: PlayerColor,
    child_depth: nat,
    k: nat,
)
    ensures
        nega_max_scan::<E>(cells, color, child_depth, k).nodes <= k * node_limit(child_depth),
    decreases child_depth, 1 + k,
{
    if k > 0 {
        lemma_nega_max_scan_nodes::<E>(cells, color, child_depth, (k - 1) as nat);
        lemma_nega_max_nodes::<E>(successor(cells, color, k - 1), color.other(), child_depth);
        let limit = node_limit(child_depth);
        assert((k - 1) * limit + limit == k * limit) by (nonlinear_arith);
    }
}

/// NegaAlpha enters no more nodes than the limit of its depth.
pub proof fn lemma_nega_alpha_nodes<E: Evaluator>(
    cells: Seq<Square>,
    color: PlayerColor,
    depth: nat,
    alpha: int,
    beta: int,
)
    ensures
        1 <= nega_alpha_spec::<E>(cells, color, depth, alpha, beta).1 <= node_limit(depth),
    decreases depth, 0nat,
{
    if is_leaf_at(cells, depth) {
    } else if legal_positions(cells, color).len() > 0 {
        lemma_legal_upto(cells, color, 64);
        lemma_nega_alpha_scan_nodes::<E>(
            cells,
            color,
            (depth - 1) as nat,
            alpha,
            beta,
            legal_positions(cells, color).len(),
        );
        let limit = node_limit((depth - 1) as nat);
        let n = legal_positions(cells, color).len();
        assert(n * limit <= 64 * limit) by (nonlinear_arith)
            requires
                n <= 64,
                limit >= 0,
        ;
    } else {
        lemma_nega_alpha_nodes::<E>(cells, color.other(), (depth - 1) as nat, -beta, -alpha);
    }
}

/// Below its first `k` children NegaAlpha enters no more than `k` times the
/// limit of their depth.
pub proof fn lemma_nega_alpha_scan_nodes<E: Evaluator>(
    cells: Seq<Square>,
    color: PlayerColor,
    child_depth: nat,
    alpha: int,
    beta: int,
    k: nat,
)
    ensures
        nega_alpha_scan::<E>(cells, color, child_depth, alpha, beta, k).nodes <= k * node_limit(child_depth),
    decreases child_depth, 1 + k,
{
    if k > 0 {
        let before = nega_alpha_scan::<E>(cells, color, child_depth, alpha, beta, (k - 1) as nat);
        lemma_nega_alpha_scan_nodes::<E>(cells, color, child_depth, alpha, beta, (k - 1) as nat);
        lemma_nega_alpha_nodes::<E>(
            successor(cells, color, k - 1),
            color.other(),
            child_depth,
            -beta,
            -before.value,
        );
        let limit = node_limit(child_depth);
        assert((k - 1) * limit + limit == k * limit) by (nonlinear_arith);
        assert((k - 1) * limit <= k * limit) by (nonlinear_arith)
            requires
                limit >= 0,
        ;
    }
}

/// A search of at most five plies enters fewer nodes than any `usize` can
/// count, so its counter cannot overflow from zero.
pub proof fn law_shallow_search_fits<E: Evaluator>(
    cells: Seq<Square>,
    color: PlayerColor,
    search_type: crate::game_tree::SearchType,
    depth: nat,
)
    requires
        depth <= 5,
    ensures
        crate::game_tree::search_spec::<E>(cells, color, search_type, depth).1 <= node_limit(5),
        node_limit(5) == 1090785345,
        node_limit(5) <= usize::MAX,
{
    lemma_nega_max_nodes::<E>(cells, color, depth);
    lemma_nega_alpha_nodes::<E>(cells, color, depth, i32::MIN + 1, i32::MAX as int);
    reveal_with_fuel(node_limit, 6);
    assert(node_limit(0) == 1);
    assert(node_limit(1) == 65);
    assert(node_limit(2) == 4161);
    assert(node_limit(3) == 266305);
    assert(node_limit(4) == 17043521);
    assert(node_limit(5) == 1090785345);
}

} // verus!
