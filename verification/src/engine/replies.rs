use vstd::prelude::*;
use crate::board::board::BoardView;
use crate::board::color::Color;
use crate::engine::mate::{
    lemma_expanded_sound,
    lemma_fresh_sound,
    lemma_propagated_sound,
    lemma_root_sound,
    lemma_rounds,
    lemma_stepped_sound,
    mate_score,
    node_sound,
    nodes_sound,
    same_but_scores,
    sound,
};
use crate::engine::moves::legal_moves;
use crate::engine::score::{lemma_material_bound, material};
use crate::engine::score_deep::{
    beats,
    depth_ok,
    depths_wf,
    is_mate,
    lemma_beats_is_an_order,
    link_ok,
    links_wf,
    propagated,
    terminal_score,
    NodeView,
    ScoreView,
    SearchView,
    WorkerView,
};

verus! {

/// The score that a reply has as soon as it has been looked at: how the
/// game has ended if the side to move has no move in the position it
/// leads to, and the material balance of that position otherwise. It is
/// found one ply below the position replied to.
pub open spec fn reply_score(reply: BoardView, mover: Color) -> ScoreView {
    ScoreView {
        score: if legal_moves(reply, mover).len() == 0 {
            terminal_score(reply, mover)
        } else {
            material(reply)
        },
        depth: 1,
    }
}

/// Whether a worker's verdict on a position accounts for the first
/// `count` replies of the side to move in it: none of them has a score of
/// its own that is better for that side than the verdict.
pub open spec fn accounts_for(w: WorkerView, position: BoardView, mover: Color, count: int) -> bool {
    forall|j: int|
        0 <= j < count ==> !beats(
            mover,
            reply_score(#[trigger] legal_moves(position, mover)[j], mover.other()),
            w.nodes[0].score,
        )
}

/// Whether a worker's root is the given position with the given side to
/// move.
pub open spec fn rooted_at(w: WorkerView, position: BoardView, mover: Color) -> bool {
    &&& w.nodes[0].board == position
    &&& w.nodes[0].mover == mover
    &&& w.nodes[0].depth == 0
}

/// The state of a worker while it looks at the replies to its position
/// one by one: the root has been expanded, the first `seen` replies too,
/// and the others wait in their places behind the root, untouched.
pub open spec fn looking(w: WorkerView, position: BoardView, mover: Color, seen: int) -> bool {
    let replies = legal_moves(position, mover);
    &&& sound(w)
    &&& rooted_at(w, position, mover)
    &&& 0 <= seen <= replies.len()
    &&& w.nodes.len() >= replies.len() + 1
    &&& w.cursor == seen + 1
    &&& (seen == 0 ==> w.nodes[0].score == ScoreView { score: material(position), depth: 0 })
    &&& (seen > 0 ==> w.nodes[0].score.depth >= 1)
    &&& forall|i: int|
        seen < i <= replies.len() ==> #[trigger] w.nodes[i] == NodeView::fresh(
            replies[i - 1],
            mover.other(),
            Some(0),
            1,
        )
    &&& accounts_for(w, position, mover, seen)
}

/// The state of a worker once its verdict accounts for every reply to
/// its position.
pub open spec fn informed(w: WorkerView, position: BoardView, mover: Color) -> bool {
    &&& sound(w)
    &&& rooted_at(w, position, mover)
    &&& w.cursor >= 1
    &&& w.nodes[0].score.depth >= 1
    &&& accounts_for(w, position, mover, legal_moves(position, mover).len() as int)
}

/// The score of a reply is no more than a mate either way.
pub proof fn lemma_reply_score(reply: BoardView, mover: Color)
    ensures
        -1000 <= reply_score(reply, mover).score <= 1000,
        reply_score(reply, mover).depth == 1,
        is_mate(reply_score(reply, mover).score) ==> reply_score(reply, mover).score == mate_score(
            mover.other(),
        ),
{
    lemma_material_bound(reply.squares, 64);
}

/// Carrying a score upward gives the root no other score than the one it
/// had, or one that is better for the side to move at the root, if the
/// root has been given a score from below before. Nothing else about the
/// root changes.
pub proof fn lemma_propagated_root(nodes: Seq<NodeView>, parent: Option<int>, score: ScoreView)
    requires
        nodes.len() >= 1,
        links_wf(nodes),
        depths_wf(nodes),
        nodes_sound(nodes),
        -1000 <= score.score <= 1000,
        parent matches Some(p) ==> 0 <= p < nodes.len() && score.depth > nodes[p].depth,
        nodes[0].score.depth > nodes[0].depth,
    ensures
        propagated(nodes, parent, score).0[0].score == nodes[0].score || beats(
            nodes[0].mover,
            propagated(nodes, parent, score).0[0].score,
            nodes[0].score,
        ),
        propagated(nodes, parent, score).0[0].score.depth > nodes[0].depth,
    decreases
            (match parent {
                Some(p) => p + 1,
                None => 0,
            }),
{
    if let Some(p) = parent {
        let node = nodes[p];
        let adopted = node.adopted(score);
        assert(link_ok(nodes, p));
        assert(depth_ok(nodes, p));
        if adopted != node.score {
            let next = nodes.update(p, node.with_score(adopted));
            assert forall|i: int| 0 <= i < next.len() implies #[trigger] link_ok(next, i) by {
                assert(link_ok(nodes, i));
            }
            assert forall|i: int| 0 <= i < next.len() implies #[trigger] depth_ok(next, i) by {
                assert(depth_ok(nodes, i));
                assert(link_ok(nodes, i));
            }
            assert forall|i: int| 0 <= i < next.len() implies node_sound(#[trigger] next[i]) by {
                assert(node_sound(nodes[i]));
            }
            if p == 0 {
                lemma_beats_is_an_order(node.mover, score, node.score, node.score);
                assert(propagated(next, node.parent, adopted) == (next, true));
            } else {
                lemma_propagated_root(next, node.parent, adopted);
            }
        }
    }
}

/// The first step of a worker at a position in which the side to move
/// has a move puts the replies behind the root and leaves the root's
/// score as it was.
pub proof fn lemma_first_step(position: BoardView, mover: Color)
    requires
        legal_moves(position, mover).len() > 0,
    ensures
        looking(WorkerView::root(position, mover).stepped(), position, mover, 0),
{
    let w = WorkerView::root(position, mover);
    let replies = legal_moves(position, mover);
    lemma_root_sound(position, mover);
    lemma_stepped_sound(w);
    lemma_material_bound(position.squares, 64);
    let grown = w.expanded();
    lemma_expanded_sound(w);
    let after = w.stepped();
    assert forall|i: int| 0 < i <= replies.len() implies #[trigger] after.nodes[i]
        == NodeView::fresh(replies[i - 1], mover.other(), Some(0), 1) by {
        assert(grown[i] == w.children()[i - 1]);
    }
}

/// Looking at the next reply: afterwards the worker's verdict accounts
/// for that reply too, and the worker goes on to the reply after it, or
/// has stopped at a mate.
pub proof fn lemma_next_reply(w: WorkerView, position: BoardView, mover: Color, seen: int)
    requires
        looking(w, position, mover, seen),
        seen < legal_moves(position, mover).len(),
    ensures
        looking(w.stepped(), position, mover, seen + 1) || informed(w.stepped(), position, mover),
{
    let replies = legal_moves(position, mover);
    let reply = replies[seen];
    let other = mover.other();
    let at = seen + 1;
    lemma_stepped_sound(w);
    lemma_expanded_sound(w);
    lemma_reply_score(reply, other);
    let grown = w.expanded();
    let score = reply_score(reply, other);
    assert forall|i: int| 0 <= i <= replies.len() && i != at implies grown[i] == w.nodes[i] by {}
    let root = grown[0];
    let adopted = root.adopted(score);
    assert(link_ok(grown, 0));
    lemma_beats_is_an_order(mover, score, root.score, root.score);
    let after = w.stepped();
    if adopted == root.score {
        assert forall|i: int| seen + 1 < i <= replies.len() implies #[trigger] after.nodes[i]
            == NodeView::fresh(replies[i - 1], other, Some(0), 1) by {
            assert(w.nodes[i] == NodeView::fresh(replies[i - 1], other, Some(0), 1));
        }
    } else {
        let next = grown.update(0, root.with_score(adopted));
        assert forall|i: int| 0 <= i < next.len() implies #[trigger] link_ok(next, i) by {
            assert(link_ok(grown, i));
        }
        assert(propagated(next, None, adopted) == (next, true));
        assert forall|j: int| 0 <= j < seen + 1 implies !beats(
            mover,
            reply_score(#[trigger] replies[j], other),
            adopted,
        ) by {
            if j < seen {
                lemma_beats_is_an_order(mover, reply_score(replies[j], other), adopted, root.score);
                lemma_beats_is_an_order(mover, adopted, root.score, root.score);
            }
        }
        if is_mate(adopted.score) {
            assert forall|j: int| 0 <= j < replies.len() implies !beats(
                mover,
                reply_score(#[trigger] replies[j], other),
                adopted,
            ) by {
                lemma_reply_score(replies[j], other);
            }
        } else {
            assert forall|i: int| seen + 1 < i <= replies.len() implies #[trigger] after.nodes[i]
                == NodeView::fresh(replies[i - 1], other, Some(0), 1) by {
                assert(w.nodes[i] == NodeView::fresh(replies[i - 1], other, Some(0), 1));
            }
        }
    }
}

/// Once a worker's verdict accounts for every reply, it does so after
/// every further step.
pub proof fn lemma_stays_informed(w: WorkerView, position: BoardView, mover: Color)
    requires
        informed(w, position, mover),
    ensures
        informed(w.stepped(), position, mover),
{
    let replies = legal_moves(position, mover);
    let other = mover.other();
    lemma_stepped_sound(w);
    if !w.exhausted() {
        lemma_expanded_sound(w);
        let grown = w.expanded();
        let node = grown[w.cursor];
        assert(grown[0] == w.nodes[0]);
        assert(link_ok(grown, w.cursor));
        assert(depth_ok(grown, w.cursor));
        lemma_propagated_root(grown, node.parent, node.score);
        let after = w.stepped();
        let verdict = after.nodes[0].score;
        assert forall|j: int| 0 <= j < replies.len() implies !beats(
            mover,
            reply_score(#[trigger] replies[j], other),
            verdict,
        ) by {
            lemma_beats_is_an_order(
                mover,
                reply_score(replies[j], other),
                verdict,
                w.nodes[0].score,
            );
        }
    }
}

/// After its first step and one more for each reply it has looked at, a
/// worker is looking at the replies still, or is informed.
pub proof fn lemma_looking(position: BoardView, mover: Color, seen: nat)
    requires
        0 < legal_moves(position, mover).len(),
        seen <= legal_moves(position, mover).len(),
    ensures
        looking(WorkerView::root(position, mover).after_steps(seen + 1), position, mover, seen as int)
            || informed(WorkerView::root(position, mover).after_steps(seen + 1), position, mover),
    decreases seen,
{
    let start = WorkerView::root(position, mover);
    if seen == 0 {
        reveal_with_fuel(WorkerView::after_steps, 2);
        lemma_first_step(position, mover);
    } else {
        lemma_looking(position, mover, (seen - 1) as nat);
        let w = start.after_steps(seen);
        if looking(w, position, mover, seen - 1) {
            lemma_next_reply(w, position, mover, seen - 1);
        } else {
            lemma_stays_informed(w, position, mover);
        }
    }
}

/// A refutation one ply deeper is not overlooked.
///
/// Once a worker has taken a step for its position and one for each reply
/// of the side to move there, its verdict is at least as good for that
/// side as the score that any of the replies has of its own. So the move
/// that led to the position is given no better score than the best reply
/// leaves it.
pub proof fn lemma_replies_bound_verdict(position: BoardView, mover: Color, steps: nat, reply: int)
    requires
        0 <= reply < legal_moves(position, mover).len(),
        steps >= legal_moves(position, mover).len() + 1,
    ensures
        !beats(
            mover,
            reply_score(legal_moves(position, mover)[reply], mover.other()),
            WorkerView::root(position, mover).after_steps(steps).verdict(),
        ),
{
    lemma_informed(position, mover, steps);
}

/// A worker that has taken a step for its position and one for each
/// reply is informed, and stays so.
pub proof fn lemma_informed(position: BoardView, mover: Color, steps: nat)
    requires
        0 < legal_moves(position, mover).len(),
        steps >= legal_moves(position, mover).len() + 1,
    ensures
        informed(WorkerView::root(position, mover).after_steps(steps), position, mover),
    decreases steps,
{
    let replies = legal_moves(position, mover);
    let start = WorkerView::root(position, mover);
    if steps == replies.len() + 1 {
        lemma_looking(position, mover, replies.len());
    } else {
        lemma_informed(position, mover, (steps - 1) as nat);
        lemma_stays_informed(start.after_steps((steps - 1) as nat), position, mover);
    }
}

/// In a search, a candidate move is given no better score for the side
/// that makes it than the best reply leaves it, once the search has run a
/// round for the candidate and one for each reply to it.
pub proof fn lemma_search_heeds_replies(
    b: BoardView,
    color: Color,
    rounds: nat,
    candidate: int,
    reply: int,
)
    requires
        0 <= candidate < legal_moves(b, color).len(),
        0 <= reply < legal_moves(legal_moves(b, color)[candidate], color.other()).len(),
        rounds >= legal_moves(legal_moves(b, color)[candidate], color.other()).len() + 1,
    ensures
        !beats(
            color.other(),
            reply_score(
                legal_moves(legal_moves(b, color)[candidate], color.other())[reply],
                color,
            ),
            SearchView::start(b, color).after_rounds(rounds).verdicts()[candidate].0,
        ),
{
    let start = SearchView::start(b, color);
    lemma_rounds(start, rounds);
    lemma_replies_bound_verdict(legal_moves(b, color)[candidate], color.other(), rounds, reply);
}

} // verus!
