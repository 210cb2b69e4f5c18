use vstd::prelude::*;
use crate::board::board::BoardView;
use crate::board::color::Color;
use crate::engine::analysis::in_check;
use crate::engine::moves::legal_moves;
use crate::engine::score::{lemma_material_bound, material};
use crate::engine::score_deep::{
    beats,
    depth_ok,
    depths_wf,
    lemma_ranked,
    lemma_ranked_first,
    link_ok,
    links_wf,
    propagated,
    ranked,
    terminal_score,
    NodeView,
    ScoreView,
    SearchView,
    WorkerView,
    CHECKMATE_SCORE,
};

verus! {

/// Whether the side to move is checkmated: it is in check and has no
/// legal move.
pub open spec fn is_mated(b: BoardView, mover: Color) -> bool {
    legal_moves(b, mover).len() == 0 && in_check(b, mover)
}

/// The score of a position in which the given side has won.
pub open spec fn mate_score(winner: Color) -> int {
    match winner {
        Color::White => CHECKMATE_SCORE as int,
        Color::Black => -CHECKMATE_SCORE,
    }
}

/// Whether a node's score can be relied on as far as this: it is no
/// more than a mate either way, it was found at the node's depth or
/// below, and if it was found at the node's own depth, it is the node's
/// material balance or says how the game has ended there.
pub open spec fn node_sound(n: NodeView) -> bool {
    &&& -CHECKMATE_SCORE <= n.score.score <= CHECKMATE_SCORE
    &&& n.score.depth >= n.depth
    &&& n.score.depth == n.depth ==> (n.score.score == material(n.board) || (legal_moves(
        n.board,
        n.mover,
    ).len() == 0 && n.score.score == terminal_score(n.board, n.mover)))
}

/// Whether every node of a tree is sound.
pub open spec fn nodes_sound(nodes: Seq<NodeView>) -> bool {
    forall|i: int| 0 <= i < nodes.len() ==> node_sound(#[trigger] nodes[i])
}

/// Whether two trees differ in nothing but their nodes' scores.
pub open spec fn same_but_scores(a: Seq<NodeView>, b: Seq<NodeView>) -> bool {
    &&& a.len() == b.len()
    &&& forall|i: int|
        0 <= i < a.len() ==> (#[trigger] a[i]).board == b[i].board && a[i].mover == b[i].mover
            && a[i].parent == b[i].parent && a[i].depth == b[i].depth
}

/// A fresh node is sound.
pub proof fn lemma_fresh_sound(board: BoardView, mover: Color, parent: Option<int>, depth: int)
    ensures
        node_sound(NodeView::fresh(board, mover, parent, depth)),
        NodeView::fresh(board, mover, parent, depth).score.score == material(board),
{
    lemma_material_bound(board.squares, 64);
}

/// Carrying a sound score upward through a sound tree leaves the tree
/// sound and well shaped, and changes nothing but scores.
pub proof fn lemma_propagated_sound(nodes: Seq<NodeView>, parent: Option<int>, score: ScoreView)
    requires
        links_wf(nodes),
        depths_wf(nodes),
        nodes_sound(nodes),
        -CHECKMATE_SCORE <= score.score <= CHECKMATE_SCORE,
        parent matches Some(p) ==> 0 <= p < nodes.len() && score.depth > nodes[p].depth,
    ensures
        links_wf(propagated(nodes, parent, score).0),
        depths_wf(propagated(nodes, parent, score).0),
        nodes_sound(propagated(nodes, parent, score).0),
        same_but_scores(propagated(nodes, parent, score).0, nodes),
    decreases
            (match parent {
                Some(p) => p + 1,
                None => 0,
            }),
{
    if let Some(p) = parent {
        let node = nodes[p];
        let adopted = node.adopted(score);
        assert(link_ok(nodes, p));
        assert(depth_ok(nodes, p));
        if adopted != node.score {
            let next = nodes.update(p, node.with_score(adopted));
            assert forall|i: int| 0 <= i < next.len() implies #[trigger] link_ok(next, i) by {
                assert(link_ok(nodes, i));
            }
            assert forall|i: int| 0 <= i < next.len() implies #[trigger] depth_ok(next, i) by {
                assert(depth_ok(nodes, i));
                assert(link_ok(nodes, i));
            }
            assert forall|i: int| 0 <= i < next.len() implies node_sound(#[trigger] next[i]) by {
                assert(node_sound(nodes[i]));
            }
            lemma_propagated_sound(next, node.parent, adopted);
            let result = propagated(next, node.parent, adopted).0;
            assert forall|i: int| 0 <= i < result.len() implies (#[trigger] result[i]).board
                == nodes[i].board && result[i].mover == nodes[i].mover && result[i].parent
                == nodes[i].parent && result[i].depth == nodes[i].depth by {
                assert(result[i].board == next[i].board);
            }
        }
    }
}

/// Whether a worker's tree is well shaped and sound.
pub open spec fn sound(w: WorkerView) -> bool {
    w.wf() && nodes_sound(w.nodes)
}

/// A worker that starts at a position is sound.
pub proof fn lemma_root_sound(board: BoardView, mover: Color)
    ensures
        sound(WorkerView::root(board, mover)),
{
    let w = WorkerView::root(board, mover);
    lemma_fresh_sound(board, mover, None, 0);
    assert forall|i: int| 0 <= i < w.nodes.len() implies #[trigger] link_ok(w.nodes, i) by {}
    assert forall|i: int| 0 <= i < w.nodes.len() implies #[trigger] depth_ok(w.nodes, i) by {}
}

/// Expanding a node of a sound worker leaves its tree sound and well
/// shaped, and the nodes that were there change in nothing but scores.
pub proof fn lemma_expanded_sound(w: WorkerView)
    requires
        sound(w),
        !w.exhausted(),
    ensures
        links_wf(w.expanded()),
        depths_wf(w.expanded()),
        nodes_sound(w.expanded()),
        w.expanded().len() >= w.nodes.len(),
        same_but_scores(w.expanded().take(w.nodes.len() as int), w.nodes),
        node_sound(w.expanded()[w.cursor]),
{
    let node = w.nodes[w.cursor];
    let grown = w.expanded();
    assert(depth_ok(w.nodes, w.cursor));
    if legal_moves(node.board, node.mover).len() == 0 {
        assert forall|i: int| 0 <= i < grown.len() implies #[trigger] link_ok(grown, i) by {
            assert(link_ok(w.nodes, i));
        }
        assert forall|i: int| 0 <= i < grown.len() implies #[trigger] depth_ok(grown, i) by {
            assert(depth_ok(w.nodes, i));
            assert(link_ok(w.nodes, i));
        }
        assert forall|i: int| 0 <= i < grown.len() implies node_sound(#[trigger] grown[i]) by {
            assert(node_sound(w.nodes[i]));
        }
    } else {
        let children = w.children();
        assert forall|k: int| 0 <= k < children.len() implies node_sound(
            #[trigger] children[k],
        ) && children[k].parent == Some(w.cursor) && children[k].depth == node.depth + 1 by {
            lemma_fresh_sound(
                legal_moves(node.board, node.mover)[k],
                node.mover.other(),
                Some(w.cursor),
                node.depth + 1,
            );
        }
        assert forall|i: int| 0 <= i < grown.len() implies #[trigger] link_ok(grown, i) by {
            if i < w.nodes.len() {
                assert(link_ok(w.nodes, i));
            } else {
                assert(grown[i] == children[i - w.nodes.len()]);
            }
        }
        assert forall|i: int| 0 <= i < grown.len() implies #[trigger] depth_ok(grown, i) by {
            if i < w.nodes.len() {
                assert(depth_ok(w.nodes, i));
                assert(link_ok(w.nodes, i));
            } else {
                assert(grown[i] == children[i - w.nodes.len()]);
            }
        }
        assert forall|i: int| 0 <= i < grown.len() implies node_sound(#[trigger] grown[i]) by {
            if i < w.nodes.len() {
                assert(node_sound(w.nodes[i]));
            } else {
                assert(grown[i] == children[i - w.nodes.len()]);
            }
        }
    }
}

/// A step leaves a sound worker sound. It removes no node, and changes
/// nothing of the nodes that were there but their scores: the tree only
/// grows.
pub proof fn lemma_stepped_sound(w: WorkerView)
    requires
        sound(w),
    ensures
        sound(w.stepped()),
        w.stepped().nodes.len() >= w.nodes.len(),
        same_but_scores(w.stepped().nodes.take(w.nodes.len() as int), w.nodes),
        w.stepped().nodes[0].board == w.nodes[0].board,
        w.stepped().nodes[0].mover == w.nodes[0].mover,
        w.stepped().nodes[0].depth == w.nodes[0].depth,
{
    if !w.exhausted() {
        lemma_expanded_sound(w);
        let grown = w.expanded();
        let node = grown[w.cursor];
        assert(link_ok(grown, w.cursor));
        assert(depth_ok(grown, w.cursor));
        lemma_propagated_sound(grown, node.parent, node.score);
        let nodes = propagated(grown, node.parent, node.score).0;
        let kept = nodes.take(w.nodes.len() as int);
        assert forall|i: int| 0 <= i < kept.len() implies (#[trigger] kept[i]).board
            == w.nodes[i].board && kept[i].mover == w.nodes[i].mover && kept[i].parent
            == w.nodes[i].parent && kept[i].depth == w.nodes[i].depth by {}
    } else {
        assert(w.nodes.take(w.nodes.len() as int) =~= w.nodes);
    }
}

/// A worker whose position is a checkmate finds that out in its first
/// step, and is exhausted from then on.
pub proof fn lemma_mated_root(board: BoardView, mover: Color)
    requires
        is_mated(board, mover),
    ensures
        WorkerView::root(board, mover).stepped().verdict() == (ScoreView {
            score: mate_score(mover.other()),
            depth: 0,
        }),
        WorkerView::root(board, mover).stepped().exhausted(),
{
    let w = WorkerView::root(board, mover);
    lemma_root_sound(board, mover);
    let grown = w.expanded();
    assert forall|i: int| 0 <= i < grown.len() implies #[trigger] link_ok(grown, i) by {}
}

/// Once a worker is exhausted, further steps change nothing.
pub proof fn lemma_exhausted_stays(w: WorkerView, steps: nat)
    requires
        w.exhausted(),
    ensures
        w.after_steps(steps) == w,
    decreases steps,
{
    if steps > 0 {
        lemma_exhausted_stays(w, (steps - 1) as nat);
    }
}

/// Taking one step and then some is taking some steps and then one.
pub proof fn lemma_steps_from_first(w: WorkerView, steps: nat)
    ensures
        w.stepped().after_steps(steps) == w.after_steps(steps + 1),
    decreases steps,
{
    reveal_with_fuel(WorkerView::after_steps, 2);
    if steps > 0 {
        lemma_steps_from_first(w, (steps - 1) as nat);
    }
}

/// Any number of steps leaves a sound worker sound, and its root where
/// and what it was.
pub proof fn lemma_steps_sound(w: WorkerView, steps: nat)
    requires
        sound(w),
    ensures
        sound(w.after_steps(steps)),
        w.after_steps(steps).nodes[0].board == w.nodes[0].board,
        w.after_steps(steps).nodes[0].mover == w.nodes[0].mover,
        w.after_steps(steps).nodes[0].depth == w.nodes[0].depth,
    decreases steps,
{
    if steps > 0 {
        lemma_steps_sound(w, (steps - 1) as nat);
        lemma_stepped_sound(w.after_steps((steps - 1) as nat));
    }
}

/// After a number of rounds every worker of a search has taken that
/// number of steps; the candidates and the side stay as they were.
pub proof fn lemma_rounds(s: SearchView, rounds: nat)
    ensures
        s.after_rounds(rounds).color == s.color,
        s.after_rounds(rounds).boards == s.boards,
        s.after_rounds(rounds).workers.len() == s.workers.len(),
        forall|k: int|
            0 <= k < s.workers.len() ==> #[trigger] s.after_rounds(rounds).workers[k]
                == s.workers[k].after_steps(rounds),
    decreases rounds,
{
    if rounds > 0 {
        lemma_rounds(s, (rounds - 1) as nat);
    }
}

/// A mate in one is found by any search of at least one round.
///
/// If one of a side's legal moves checkmates the other side, then after
/// any number of rounds but none the search ranks first a position in
/// which the other side is checkmated, with the score of a won game.
pub proof fn lemma_mate_in_one_ranks_first(b: BoardView, color: Color, rounds: nat, mating: int)
    requires
        rounds >= 1,
        0 <= mating < legal_moves(b, color).len(),
        is_mated(legal_moves(b, color)[mating], color.other()),
    ensures
        SearchView::start(b, color).after_rounds(rounds).ranking().len() == legal_moves(
            b,
            color,
        ).len(),
        SearchView::start(b, color).after_rounds(rounds).ranking()[0].0 == mate_score(color),
        is_mated(SearchView::start(b, color).after_rounds(rounds).ranking()[0].1, color.other()),
{
    broadcast use vstd::seq_lib::group_to_multiset_ensures;

    let start = SearchView::start(b, color);
    let search = start.after_rounds(rounds);
    let candidates = legal_moves(b, color);
    let other = color.other();
    lemma_rounds(start, rounds);
    let verdicts = search.verdicts();
    let order = ranked(color, verdicts);
    lemma_ranked(color, verdicts);

    // The worker of the mating move says mate, found at its root.
    let mated = WorkerView::root(candidates[mating], other);
    lemma_mated_root(candidates[mating], other);
    lemma_steps_from_first(mated, (rounds - 1) as nat);
    lemma_exhausted_stays(mated.stepped(), (rounds - 1) as nat);

    // The entry ranked first is some worker's verdict, and is not beaten
    // by that of the mating move.
    lemma_ranked_first(color, verdicts, mating);
    let first = order[0];
    assert(order.to_multiset().count(first) > 0);
    let k = choose|k: int| 0 <= k < verdicts.len() && verdicts[k] == first;
    let worker = WorkerView::root(candidates[k], other);
    lemma_root_sound(candidates[k], other);
    lemma_steps_sound(worker, rounds);
    let root = search.workers[k].nodes[0];
    lemma_material_bound(root.board.squares, 64);
}

} // verus!
