use vstd::prelude::*;
use crate::board::board::{Board, BoardView};
use crate::board::color::Color;
use crate::engine::analysis::{in_check, is_checked};
use crate::engine::moves::{legal_moves, next_boards};
use crate::engine::score::{material, score_board};

verus! {

/// The score of a position in which the side to move is checkmated, seen
/// from the winner's side. No material balance comes near it.
pub const CHECKMATE_SCORE: i32 = 1000;

/// The score of a position in which the side to move has no move and is
/// not in check.
pub const STALEMATE_SCORE: i32 = 0;

/// A score together with the depth of the position it was taken from.
#[derive(Debug, Copy, Clone, PartialEq, Eq, Hash, Structural)]
pub struct DeepScore {
    pub score: i32,
    pub depth: usize,
}

/// The model of a score: the score and the depth it was found at, as
/// numbers without bounds.
pub struct ScoreView {
    pub score: int,
    pub depth: int,
}

impl View for DeepScore {
    type V = ScoreView;

    open spec fn view(&self) -> ScoreView {
        ScoreView { score: self.score as int, depth: self.depth as int }
    }
}

/// Of two equal scores, the one that is preferred: the one reached at the
/// smaller depth, and the second where the depths are equal too.
pub open spec fn closest(a: ScoreView, b: ScoreView) -> ScoreView {
    if a.depth < b.depth {
        a
    } else {
        b
    }
}

/// The better of two scores for the given side: the higher for White, the
/// lower for Black, and of two equal scores the one reached sooner.
pub open spec fn better(color: Color, a: ScoreView, b: ScoreView) -> ScoreView {
    match color {
        Color::White => if a.score > b.score {
            a
        } else if a.score < b.score {
            b
        } else {
            closest(a, b)
        },
        Color::Black => if a.score < b.score {
            a
        } else if a.score > b.score {
            b
        } else {
            closest(a, b)
        },
    }
}

/// Whether the first score is strictly better than the second for the
/// given side.
pub open spec fn beats(color: Color, a: ScoreView, b: ScoreView) -> bool {
    (match color {
        Color::White => a.score > b.score,
        Color::Black => a.score < b.score,
    }) || (a.score == b.score && a.depth < b.depth)
}

/// Whether a score says that one side is checkmated.
pub open spec fn is_mate(score: int) -> bool {
    score == CHECKMATE_SCORE || score == -CHECKMATE_SCORE
}

/// The score of a position in which the side to move has no legal move:
/// lost for that side if it is in check, drawn if not.
pub open spec fn terminal_score(b: BoardView, mover: Color) -> int {
    if in_check(b, mover) {
        match mover {
            Color::White => -CHECKMATE_SCORE,
            Color::Black => CHECKMATE_SCORE as int,
        }
    } else {
        STALEMATE_SCORE as int
    }
}

/// The model of one node of a search tree.
pub struct NodeView {
    /// The position.
    pub board: BoardView,
    /// The side to move in it.
    pub mover: Color,
    /// The best score known for it, with the depth it was found at.
    pub score: ScoreView,
    /// The index of the node it was reached from; none for the root.
    pub parent: Option<int>,
    /// Its distance from the root.
    pub depth: int,
}

impl NodeView {
    /// The node with another score.
    pub open spec fn with_score(self, score: ScoreView) -> NodeView {
        NodeView { score, ..self }
    }

    /// A node that was not searched yet: its score is its own material
    /// balance, taken at its own depth.
    pub open spec fn fresh(
        board: BoardView,
        mover: Color,
        parent: Option<int>,
        depth: int,
    ) -> NodeView {
        NodeView { board, mover, score: ScoreView { score: material(board), depth }, parent, depth }
    }

    /// The score that a node takes when a child reports a score: the
    /// child's if the node has not been searched before, otherwise the
    /// better of the two for the side to move in the node.
    pub open spec fn adopted(self, reported: ScoreView) -> ScoreView {
        if self.score.depth == self.depth {
            reported
        } else {
            better(self.mover, reported, self.score)
        }
    }
}

/// Whether the node with the given index comes after its parent, if it
/// has one.
pub open spec fn link_ok(nodes: Seq<NodeView>, i: int) -> bool {
    nodes[i].parent matches Some(p) ==> 0 <= p < i
}

/// Whether every node's parent comes before it in the list.
pub open spec fn links_wf(nodes: Seq<NodeView>) -> bool {
    forall|i: int| 0 <= i < nodes.len() ==> #[trigger] link_ok(nodes, i)
}

/// Whether the node with the given index is no deeper than its index, and
/// one deeper than its parent, if it has one.
pub open spec fn depth_ok(nodes: Seq<NodeView>, i: int) -> bool {
    &&& 0 <= nodes[i].depth <= i
    &&& nodes[i].parent matches Some(p) ==> nodes[i].depth == nodes[p].depth + 1
}

/// Whether every node's depth fits its place in the tree.
pub open spec fn depths_wf(nodes: Seq<NodeView>) -> bool {
    forall|i: int| 0 <= i < nodes.len() ==> #[trigger] depth_ok(nodes, i)
}

/// The tree after a score was reported to the node `parent` and carried
/// upward from there, and whether it was carried through the root.
///
/// Each node on the way takes the score it adopts and reports it on. The
/// way ends at the first node whose score does not change, or behind the
/// root.
pub open spec fn propagated(nodes: Seq<NodeView>, parent: Option<int>, score: ScoreView) -> (
    Seq<NodeView>,
    bool,
)
    decreases
            (match parent {
                Some(p) => p + 1,
                None => 0,
            }),
    when links_wf(nodes) && (parent matches Some(p) ==> 0 <= p < nodes.len())
{
    match parent {
        None => (nodes, true),
        Some(p) => {
            let node = nodes[p];
            let adopted = node.adopted(score);
            if adopted == node.score {
                (nodes, false)
            } else {
                proof {
                    assert(link_ok(nodes, p));
                }
                propagated(nodes.update(p, node.with_score(adopted)), node.parent, adopted)
            }
        },
    }
}

/// The model of a worker: the tree it has built, as a list in which every
/// node comes after its parent, and the index of the next node to expand.
pub struct WorkerView {
    pub nodes: Seq<NodeView>,
    pub cursor: int,
}

impl WorkerView {
    /// The tree's shape: it has a root, the cursor is within the list or at
    /// its end, every node but the root comes after its parent and is one
    /// deeper, and no node is deeper than its index.
    pub open spec fn wf(self) -> bool {
        &&& self.nodes.len() >= 1
        &&& 0 <= self.cursor <= self.nodes.len()
        &&& links_wf(self.nodes)
        &&& depths_wf(self.nodes)
    }

    /// The worker that starts at a position: the root alone, not yet
    /// expanded.
    pub open spec fn root(board: BoardView, mover: Color) -> WorkerView {
        WorkerView { nodes: seq![NodeView::fresh(board, mover, None, 0)], cursor: 0 }
    }

    /// Whether every node has been expanded.
    pub open spec fn exhausted(self) -> bool {
        self.cursor >= self.nodes.len()
    }

    /// The children of the node under the cursor: one fresh node for each
    /// legal move, the other side to move.
    pub open spec fn children(self) -> Seq<NodeView> {
        let node = self.nodes[self.cursor];
        legal_moves(node.board, node.mover).map_values(
            |next: BoardView|
                NodeView::fresh(next, node.mover.other(), Some(self.cursor), node.depth + 1),
        )
    }

    /// The tree after the node under the cursor was expanded: its children
    /// are appended, or, where it has none, its score becomes that of a lost
    /// or drawn game.
    pub open spec fn expanded(self) -> Seq<NodeView> {
        let node = self.nodes[self.cursor];
        if legal_moves(node.board, node.mover).len() == 0 {
            self.nodes.update(
                self.cursor,
                node.with_score(
                    ScoreView { score: terminal_score(node.board, node.mover), depth: node.depth },
                ),
            )
        } else {
            self.nodes + self.children()
        }
    }

    /// The worker after one step: nothing changes once it is exhausted;
    /// otherwise the node under the cursor is expanded and its score
    /// carried upward, and the cursor moves on by one, or to the end
    /// where the score went through the root and the root's score says mate.
    pub open spec fn stepped(self) -> WorkerView {
        if self.exhausted() {
            self
        } else {
            let grown = self.expanded();
            let node = grown[self.cursor];
            let (nodes, through_root) = propagated(grown, node.parent, node.score);
            WorkerView {
                nodes,
                cursor: if through_root && is_mate(nodes[0].score.score) {
                    nodes.len() as int
                } else {
                    self.cursor + 1
                },
            }
        }
    }

    /// The worker after a number of steps.
    pub open spec fn after_steps(self, steps: nat) -> WorkerView
        decreases steps,
    {
        if steps == 0 {
            self
        } else {
            self.after_steps((steps - 1) as nat).stepped()
        }
    }

    /// The score of the root: the worker's verdict on its position.
    pub open spec fn verdict(self) -> ScoreView {
        self.nodes[0].score
    }
}

/// Giving a node another score leaves the shape of the tree as it is.
pub proof fn lemma_rescored_shape(nodes: Seq<NodeView>, at: int, score: ScoreView)
    requires
        0 <= at < nodes.len(),
    ensures
        links_wf(nodes) ==> links_wf(nodes.update(at, nodes[at].with_score(score))),
        links_wf(nodes) && depths_wf(nodes) ==> depths_wf(
            nodes.update(at, nodes[at].with_score(score)),
        ),
{
    let after = nodes.update(at, nodes[at].with_score(score));
    if links_wf(nodes) {
        assert forall|i: int| 0 <= i < after.len() implies #[trigger] link_ok(after, i) by {
            assert(link_ok(nodes, i));
        }
    }
    if links_wf(nodes) && depths_wf(nodes) {
        assert forall|i: int| 0 <= i < after.len() implies #[trigger] depth_ok(after, i) by {
            assert(depth_ok(nodes, i));
            assert(link_ok(nodes, i));
        }
    }
}

/// Appending a node below one of the tree, one deeper than it, leaves the
/// tree well shaped.
pub proof fn lemma_grown_shape(nodes: Seq<NodeView>, child: NodeView)
    requires
        links_wf(nodes),
        depths_wf(nodes),
        child.parent matches Some(p) && 0 <= p < nodes.len() && child.depth == nodes[p].depth + 1,
    ensures
        links_wf(nodes.push(child)),
        depths_wf(nodes.push(child)),
{
    let after = nodes.push(child);
    let p = child.parent->0;
    assert(depth_ok(nodes, p));
    assert forall|i: int| 0 <= i < after.len() implies #[trigger] link_ok(after, i) by {
        if i < nodes.len() {
            assert(link_ok(nodes, i));
        }
    }
    assert forall|i: int| 0 <= i < after.len() implies #[trigger] depth_ok(after, i) by {
        if i < nodes.len() {
            assert(depth_ok(nodes, i));
            assert(link_ok(nodes, i));
        }
    }
}

/// One node of a search tree.
#[derive(Debug, Copy, Clone, PartialEq, Eq, Hash)]
pub struct WorkItem {
    board: Board,
    active_player: Color,
    score: DeepScore,
    parent_index: Option<usize>,
    depth: usize,
}

impl View for WorkItem {
    type V = NodeView;

    closed spec fn view(&self) -> NodeView {
        NodeView {
            board: self.board@,
            mover: self.active_player,
            score: self.score@,
            parent: match self.parent_index {
                Some(p) => Some(p as int),
                None => None,
            },
            depth: self.depth as int,
        }
    }
}

/// A search tree that grows one node at a time, breadth first, below one
/// position.
#[derive(Debug)]
pub struct Worker {
    work_items: Vec<WorkItem>,
    work_index: usize,
}

impl View for Worker {
    type V = WorkerView;

    closed spec fn view(&self) -> WorkerView {
        WorkerView {
            nodes: Seq::new(self.work_items@.len(), |i: int| self.work_items@[i]@),
            cursor: self.work_index as int,
        }
    }
}

/// Of two equal scores, the one reached at the smaller depth.
fn closest_score(score1: DeepScore, score2: DeepScore) -> (r: DeepScore)
    ensures
        r@ == closest(score1@, score2@),
        r == score1 || r == score2,
{
    if score1.depth < score2.depth {
        score1
    } else {
        score2
    }
}

/// The better of two scores for Black: the lower one.
fn deep_score_min(score1: DeepScore, score2: DeepScore) -> (r: DeepScore)
    ensures
        r@ == better(Color::Black, score1@, score2@),
        r == score1 || r == score2,
{
    if score1.score < score2.score {
        score1
    } else if score1.score > score2.score {
        score2
    } else {
        closest_score(score1, score2)
    }
}

/// The better of two scores for White: the higher one.
fn deep_score_max(score1: DeepScore, score2: DeepScore) -> (r: DeepScore)
    ensures
        r@ == better(Color::White, score1@, score2@),
        r == score1 || r == score2,
{
    if score1.score > score2.score {
        score1
    } else if score1.score < score2.score {
        score2
    } else {
        closest_score(score1, score2)
    }
}

impl WorkItem {
    /// A node that was not searched yet.
    fn new(board: Board, active_player: Color, parent_index: Option<usize>, depth: usize) -> (r:
        WorkItem)
        ensures
            r@ == NodeView::fresh(
                board@,
                active_player,
                match parent_index {
                    Some(p) => Some(p as int),
                    None => None,
                },
                depth as int,
            ),
    {
        WorkItem {
            board,
            active_player,
            score: DeepScore { score: score_board(&board), depth },
            parent_index,
            depth,
        }
    }
}

impl Worker {
    /// A worker that starts at the given position with the given side to
    /// move.
    pub fn new(board: &Board, active_player: Color) -> (r: Worker)
        ensures
            r@ == WorkerView::root(board@, active_player),
            r@.wf(),
    {
        let mut work_items: Vec<WorkItem> = Vec::new();
        work_items.push(WorkItem::new(*board, active_player, None, 0));
        let worker = Worker { work_items, work_index: 0 };
        assert(worker@.nodes =~= WorkerView::root(board@, active_player).nodes);
        worker
    }

    /// Expands the node under the cursor: appends its children, or, where
    /// it has none, scores it as a lost or drawn game.
    fn expand(&mut self)
        requires
            old(self)@.wf(),
            !old(self)@.exhausted(),
        ensures
            final(self)@.nodes == old(self)@.expanded(),
            final(self)@.cursor == old(self)@.cursor,
            final(self)@.wf(),
            final(self)@.nodes.len() >= old(self)@.nodes.len(),
    {
        let work_item = self.work_items[self.work_index];
        let boards = next_boards(&work_item.board, work_item.active_player);
        if boards.len() == 0 {
            let score = if is_checked(&work_item.board, work_item.active_player) {
                match work_item.active_player {
                    Color::White => -CHECKMATE_SCORE,
                    Color::Black => CHECKMATE_SCORE,
                }
            } else {
                STALEMATE_SCORE
            };
            let mut scored = work_item;
            scored.score = DeepScore { score, depth: work_item.depth };
            self.work_items.set(self.work_index, scored);
            proof {
                lemma_rescored_shape(old(self)@.nodes, self.work_index as int, scored.score@);
                assert(self@.nodes =~= old(self)@.expanded());
            }
        } else {
            assert(depth_ok(self@.nodes, self.work_index as int));
            assert(work_item.depth <= self.work_index < self.work_items.len());
            let depth = work_item.depth + 1;
            let ghost children = old(self)@.children();
            let mut i: usize = 0;
            while i < boards.len()
                invariant
                    i <= boards.len(),
                    self.work_index == old(self).work_index,
                    old(self)@.wf(),
                    !old(self)@.exhausted(),
                    work_item@ == old(self)@.nodes[old(self)@.cursor],
                    depth == work_item@.depth + 1,
                    boards.deep_view() == legal_moves(work_item@.board, work_item@.mover),
                    children == old(self)@.children(),
                    self@.nodes == old(self)@.nodes + children.take(i as int),
                    self@.wf(),
                decreases boards.len() - i,
            {
                let new_work_item = WorkItem::new(
                    boards[i],
                    work_item.active_player.opposite(),
                    Some(self.work_index),
                    depth,
                );
                let ghost before = self@;
                self.work_items.push(new_work_item);
                proof {
                    assert(self@.nodes =~= before.nodes.push(new_work_item@));
                    lemma_grown_shape(before.nodes, new_work_item@);
                }
                i = i + 1;
            }
        }
    }

    /// Carries the score of the node under the cursor upward, and tells
    /// whether it went through the root.
    fn propagate(&mut self) -> (through_root: bool)
        requires
            old(self)@.wf(),
            !old(self)@.exhausted(),
        ensures
            (final(self)@.nodes, through_root) == propagated(
                old(self)@.nodes,
                old(self)@.nodes[old(self)@.cursor].parent,
                old(self)@.nodes[old(self)@.cursor].score,
            ),
            final(self)@.cursor == old(self)@.cursor,
            final(self)@.wf(),
            final(self)@.nodes.len() == old(self)@.nodes.len(),
    {
        let start = self.work_items[self.work_index];
        let mut pending = start.parent_index;
        let mut score = start.score;
        let mut settled = false;
        assert(link_ok(self@.nodes, self.work_index as int));
        while pending.is_some() && !settled
            invariant
                self@.wf(),
                self@.cursor == old(self)@.cursor,
                self@.nodes.len() == old(self)@.nodes.len(),
                pending matches Some(p) ==> p < self@.nodes.len(),
                propagated(old(self)@.nodes, start@.parent, start@.score) == (if settled {
                    (self@.nodes, false)
                } else {
                    propagated(
                        self@.nodes,
                        match pending {
                            Some(p) => Some(p as int),
                            None => None,
                        },
                        score@,
                    )
                }),
            decreases
                    (if settled {
                        0
                    } else {
                        match pending {
                            Some(p) => p + 1,
                            None => 0,
                        }
                    }),
        {
            let parent_index = pending.unwrap();
            let parent = self.work_items[parent_index];
            assert(link_ok(self@.nodes, parent_index as int));
            let old_parent_score = parent.score;
            let new_parent_score = if parent.score.depth == parent.depth {
                score
            } else if parent.active_player == Color::Black {
                deep_score_min(score, old_parent_score)
            } else {
                deep_score_max(score, old_parent_score)
            };
            if old_parent_score == new_parent_score {
                settled = true;
            } else {
                let mut updated = parent;
                updated.score = new_parent_score;
                let ghost before = self@;
                self.work_items.set(parent_index, updated);
                proof {
                    assert(self@.nodes =~= before.nodes.update(
                        parent_index as int,
                        parent@.with_score(new_parent_score@),
                    ));
                    lemma_rescored_shape(before.nodes, parent_index as int, new_parent_score@);
                }
                score = new_parent_score;
                pending = parent.parent_index;
            }
        }
        !settled
    }

    /// Takes one step of the search: expands the next node, carries its
    /// score upward, and moves on. A worker whose root turns out to be a
    /// forced mate stops for good.
    pub fn step(&mut self)
        requires
            old(self)@.wf(),
        ensures
            final(self)@ == old(self)@.stepped(),
            final(self)@.wf(),
    {
        if self.work_items.len() <= self.work_index {
            return ;
        }
        self.expand();
        let through_root = self.propagate();
        self.work_index = self.work_index + 1;
        if through_root {
            let root_score = self.work_items[0].score.score;
            if root_score == CHECKMATE_SCORE || root_score == -CHECKMATE_SCORE {
                self.work_index = self.work_items.len();
            }
        }
    }

    /// The score of the worker's position as far as it has been searched.
    pub fn score(&self) -> (r: DeepScore)
        requires
            self@.wf(),
        ensures
            r@ == self@.verdict(),
    {
        self.work_items[0].score
    }
}

/// The list that results when an entry is placed into a ranked list: it
/// goes in front of the entries at the end of the list whose score it
/// beats, and behind all others.
pub open spec fn placed<T>(color: Color, sorted: Seq<(ScoreView, T)>, item: (ScoreView, T)) -> Seq<
    (ScoreView, T),
>
    decreases sorted.len(),
{
    if sorted.len() > 0 && beats(color, item.0, sorted.last().0) {
        placed(color, sorted.drop_last(), item).push(sorted.last())
    } else {
        sorted.push(item)
    }
}

/// The entries ranked for the given side, best first: each entry in turn
/// is placed into the ranking of those before it, so that of two entries
/// neither of which beats the other, the earlier stays first.
pub open spec fn ranked<T>(color: Color, items: Seq<(ScoreView, T)>) -> Seq<(ScoreView, T)>
    decreases items.len(),
{
    if items.len() == 0 {
        Seq::empty()
    } else {
        placed(color, ranked(color, items.drop_last()), items.last())
    }
}

/// Whether no entry of a list is beaten by one behind it.
pub open spec fn is_ranked<T>(color: Color, items: Seq<(ScoreView, T)>) -> bool {
    forall|i: int, j: int|
        0 <= i < j < items.len() ==> !beats(color, (#[trigger] items[j]).0, (#[trigger] items[i]).0)
}

/// Of two different scores one beats the other, and never both: for each
/// side the scores are in a strict order.
pub proof fn lemma_beats_is_an_order(color: Color, a: ScoreView, b: ScoreView, c: ScoreView)
    ensures
        !beats(color, a, a),
        beats(color, a, b) ==> !beats(color, b, a),
        beats(color, a, b) && beats(color, b, c) ==> beats(color, a, c),
        !beats(color, a, b) && !beats(color, b, c) ==> !beats(color, a, c),
        a != b ==> beats(color, a, b) || beats(color, b, a),
        better(color, a, b) == (if beats(color, a, b) {
            a
        } else {
            b
        }),
{
}

/// Placing an entry into a ranked list gives a ranked list that holds
/// the entry and the list's entries, and nothing else.
pub proof fn lemma_placed<T>(color: Color, sorted: Seq<(ScoreView, T)>, item: (ScoreView, T))
    requires
        is_ranked(color, sorted),
    ensures
        is_ranked(color, placed(color, sorted, item)),
        placed(color, sorted, item).len() == sorted.len() + 1,
        placed(color, sorted, item).to_multiset() == sorted.to_multiset().insert(item),
        forall|i: int|
            0 <= i < sorted.len() + 1 ==> (#[trigger] placed(color, sorted, item)[i]) == item
                || sorted.contains(placed(color, sorted, item)[i]),
    decreases sorted.len(),
{
    broadcast use vstd::seq_lib::group_to_multiset_ensures;

    let result = placed(color, sorted, item);
    if sorted.len() > 0 && beats(color, item.0, sorted.last().0) {
        let front = sorted.drop_last();
        let last = sorted.last();
        lemma_placed(color, front, item);
        let inner = placed(color, front, item);
        assert(front.push(last) =~= sorted);
        assert forall|i: int| 0 <= i < result.len() implies (#[trigger] result[i]) == item
            || sorted.contains(result[i]) by {
            if i >= inner.len() {
                assert(sorted[sorted.len() - 1] == last);
            }
        }
        assert forall|i: int, j: int| 0 <= i < j < result.len() implies !beats(
            color,
            (#[trigger] result[j]).0,
            (#[trigger] result[i]).0,
        ) by {
            if j < result.len() - 1 {
                assert(result[i] == inner[i] && result[j] == inner[j]);
            }
        }
    } else {
        assert forall|i: int| 0 <= i < result.len() implies (#[trigger] result[i]) == item
            || sorted.contains(result[i]) by {
            if i < sorted.len() {
                assert(sorted[i] == result[i]);
            }
        }
        assert forall|i: int, j: int| 0 <= i < j < result.len() implies !beats(
            color,
            (#[trigger] result[j]).0,
            (#[trigger] result[i]).0,
        ) by {
            if j == result.len() - 1 {
                if i < sorted.len() - 1 {
                    assert(!beats(color, sorted[sorted.len() - 1].0, sorted[i].0));
                }
                lemma_beats_is_an_order(color, item.0, sorted.last().0, sorted[i].0);
            } else {
                assert(result[i] == sorted[i] && result[j] == sorted[j]);
            }
        }
    }
}

/// Ranking arranges the entries anew, losing and adding none, so that no
/// entry is beaten by one behind it.
pub proof fn lemma_ranked<T>(color: Color, items: Seq<(ScoreView, T)>)
    ensures
        is_ranked(color, ranked(color, items)),
        ranked(color, items).len() == items.len(),
        ranked(color, items).to_multiset() == items.to_multiset(),
    decreases items.len(),
{
    broadcast use vstd::seq_lib::group_to_multiset_ensures;

    if items.len() == 0 {
        assert(items =~= Seq::empty());
    } else {
        lemma_ranked(color, items.drop_last());
        lemma_placed(color, ranked(color, items.drop_last()), items.last());
        assert(items.drop_last().push(items.last()) =~= items);
    }
}

/// The first entry of a ranking is beaten by no entry at all.
pub proof fn lemma_ranked_first<T>(color: Color, items: Seq<(ScoreView, T)>, i: int)
    requires
        0 <= i < items.len(),
    ensures
        !beats(color, items[i].0, ranked(color, items)[0].0),
{
    broadcast use vstd::seq_lib::group_to_multiset_ensures;

    lemma_ranked(color, items);
    let r = ranked(color, items);
    assert(r.to_multiset().count(items[i]) > 0);
    let k = choose|k: int| 0 <= k < r.len() && r[k] == items[i];
    if k > 0 {
        assert(!beats(color, r[k].0, r[0].0));
    } else {
        lemma_beats_is_an_order(color, r[0].0, r[0].0, r[0].0);
    }
}

/// The model of a search: the side that is to move, the positions its
/// legal moves lead to, and one worker for each of them.
pub struct SearchView {
    pub color: Color,
    pub boards: Seq<BoardView>,
    pub workers: Seq<WorkerView>,
}

impl SearchView {
    /// There is one well-shaped worker for each candidate position.
    pub open spec fn wf(self) -> bool {
        &&& self.boards.len() == self.workers.len()
        &&& forall|i: int| 0 <= i < self.workers.len() ==> (#[trigger] self.workers[i]).wf()
    }

    /// The search before its first round: the candidates are the legal
    /// moves of the given side, and each worker starts at its candidate
    /// with the other side to move.
    pub open spec fn start(board: BoardView, color: Color) -> SearchView {
        let boards = legal_moves(board, color);
        SearchView {
            color,
            boards,
            workers: Seq::new(boards.len(), |i: int| WorkerView::root(boards[i], color.other())),
        }
    }

    /// The search after one round: every worker has taken one step.
    pub open spec fn stepped(self) -> SearchView {
        SearchView {
            workers: Seq::new(self.workers.len(), |i: int| self.workers[i].stepped()),
            ..self
        }
    }

    /// The search after a number of rounds.
    pub open spec fn after_rounds(self, rounds: nat) -> SearchView
        decreases rounds,
    {
        if rounds == 0 {
            self
        } else {
            self.after_rounds((rounds - 1) as nat).stepped()
        }
    }

    /// Each worker's verdict with its candidate, in the candidates' order.
    pub open spec fn verdicts(self) -> Seq<(ScoreView, BoardView)> {
        Seq::new(self.boards.len(), |i: int| (self.workers[i].verdict(), self.boards[i]))
    }

    /// The candidates with their scores, best for the side to move first.
    pub open spec fn ranking(self) -> Seq<(int, BoardView)> {
        ranked(self.color, self.verdicts()).map_values(
            |entry: (ScoreView, BoardView)| (entry.0.score, entry.1),
        )
    }
}

/// A search for the best move of one side in one position. It is driven
/// from outside, one round at a time, for as long as the caller wishes.
#[derive(Debug)]
pub struct Search {
    active_player: Color,
    boards: Vec<Board>,
    workers: Vec<Worker>,
}

impl View for Search {
    type V = SearchView;

    closed spec fn view(&self) -> SearchView {
        SearchView {
            color: self.active_player,
            boards: self.boards.deep_view(),
            workers: Seq::new(self.workers@.len(), |i: int| self.workers@[i]@),
        }
    }
}

/// The models of a list of boards with their deep scores.
pub open spec fn entry_views(entries: Seq<(DeepScore, Board)>) -> Seq<(ScoreView, BoardView)> {
    entries.map_values(|entry: (DeepScore, Board)| (entry.0@, entry.1@))
}

/// The models of a list of boards with their scores.
pub open spec fn outcome_views(outcomes: Seq<(i32, Board)>) -> Seq<(int, BoardView)> {
    outcomes.map_values(|outcome: (i32, Board)| (outcome.0 as int, outcome.1@))
}

/// Whether the first score is strictly better than the second for the
/// given side.
fn is_better(color: Color, a: DeepScore, b: DeepScore) -> (r: bool)
    ensures
        r == beats(color, a@, b@),
{
    let ahead = match color {
        Color::White => a.score > b.score,
        Color::Black => a.score < b.score,
    };
    ahead || (a.score == b.score && a.depth < b.depth)
}

/// Places an entry into a ranked list.
fn place(color: Color, sorted: &mut Vec<(DeepScore, Board)>, item: (DeepScore, Board))
    ensures
        entry_views(final(sorted)@) == placed(
            color,
            entry_views(old(sorted)@),
            (item.0@, item.1@),
        ),
{
    let ghost views = entry_views(sorted@);
    let ghost entry = (item.0@, item.1@);
    let mut at: usize = sorted.len();
    assert(views.take(at as int) =~= views);
    while at > 0 && is_better(color, item.0, sorted[at - 1].0)
        invariant
            at <= sorted.len(),
            sorted@ == old(sorted)@,
            views == entry_views(sorted@),
            entry == (item.0@, item.1@),
            placed(color, views, entry) == placed(color, views.take(at as int), entry)
                + views.skip(at as int),
        decreases at,
    {
        proof {
            let head = views.take(at as int);
            assert(head.drop_last() =~= views.take(at - 1));
        }
        at = at - 1;
    }
    proof {
        let head = views.take(at as int);
        if at > 0 {
            assert(head.last() == views[at - 1]);
        }
    }
    sorted.insert(at, item);
}

impl Search {
    /// A search for the given side's best move in the given position.
    pub fn new(board: &Board, active_player: Color) -> (r: Search)
        ensures
            r@ == SearchView::start(board@, active_player),
            r@.wf(),
    {
        let boards = next_boards(board, active_player);
        let mover = active_player.opposite();
        let mut workers: Vec<Worker> = Vec::new();
        let mut i: usize = 0;
        while i < boards.len()
            invariant
                i <= boards.len(),
                mover == active_player.other(),
                workers@.len() == i,
                forall|k: int|
                    0 <= k < i ==> (#[trigger] workers@[k])@ == WorkerView::root(
                        boards@[k]@,
                        mover,
                    ) && workers@[k]@.wf(),
            decreases boards.len() - i,
        {
            workers.push(Worker::new(&boards[i], mover));
            i = i + 1;
        }
        let search = Search { active_player, boards, workers };
        assert(search@.workers =~= SearchView::start(board@, active_player).workers);
        search
    }

    /// Runs one round: every worker takes one step.
    pub fn step(&mut self)
        requires
            old(self)@.wf(),
        ensures
            final(self)@ == old(self)@.stepped(),
            final(self)@.wf(),
    {
        let mut i: usize = 0;
        while i < self.workers.len()
            invariant
                i <= self.workers.len(),
                self.workers@.len() == old(self).workers@.len(),
                self.boards == old(self).boards,
                self.active_player == old(self).active_player,
                old(self)@.wf(),
                forall|k: int|
                    0 <= k < i ==> (#[trigger] self.workers@[k])@ == old(self).workers@[k]@.stepped()
                        && self.workers@[k]@.wf(),
                forall|k: int|
                    i <= k < self.workers@.len() ==> (#[trigger] self.workers@[k])
                        == old(self).workers@[k],
            decreases self.workers.len() - i,
        {
            assert(old(self)@.workers[i as int].wf());
            self.workers[i].step();
            i = i + 1;
        }
        assert(self@.workers =~= old(self)@.stepped().workers);
    }

    /// The candidate positions with their scores, ranked for the side to
    /// move: the best first, and of equal scores the one found at the
    /// smaller depth.
    pub fn ranking(&self) -> (r: Vec<(i32, Board)>)
        requires
            self@.wf(),
        ensures
            outcome_views(r@) == self@.ranking(),
    {
        let mut sorted: Vec<(DeepScore, Board)> = Vec::new();
        let mut i: usize = 0;
        while i < self.boards.len()
            invariant
                i <= self.boards.len(),
                self@.wf(),
                entry_views(sorted@) == ranked(
                    self.active_player,
                    self@.verdicts().take(i as int),
                ),
            decreases self.boards.len() - i,
        {
            assert(self@.workers[i as int].wf());
            let item = (self.workers[i].score(), self.boards[i]);
            proof {
                let next = self@.verdicts().take(i + 1);
                assert(next.drop_last() =~= self@.verdicts().take(i as int));
            }
            place(self.active_player, &mut sorted, item);
            i = i + 1;
        }
        assert(self@.verdicts().take(i as int) =~= self@.verdicts());
        let mut scores: Vec<(i32, Board)> = Vec::new();
        let mut k: usize = 0;
        while k < sorted.len()
            invariant
                k <= sorted.len(),
                scores@.len() == k,
                forall|j: int|
                    0 <= j < k ==> (#[trigger] scores@[j]) == (sorted@[j].0.score, sorted@[j].1),
            decreases sorted.len() - k,
        {
            scores.push((sorted[k].0.score, sorted[k].1));
            k = k + 1;
        }
        scores
    }
}

/// The positions that the given side's legal moves lead to, each with the
/// score that a search of the given number of rounds finds for it, ranked
/// for that side, best first. With no round at all, the scores are the
/// positions' own material balances.
pub fn scored_next_boards(board: &Board, active_player: Color, rounds: usize) -> (r: Vec<
    (i32, Board),
>)
    ensures
        outcome_views(r@) == SearchView::start(board@, active_player).after_rounds(
            rounds as nat,
        ).ranking(),
{
    let mut search = Search::new(board, active_player);
    let mut done: usize = 0;
    while done < rounds
        invariant
            done <= rounds,
            search@.wf(),
            search@ == SearchView::start(board@, active_player).after_rounds(done as nat),
        decreases rounds - done,
    {
        search.step();
        done = done + 1;
    }
    search.ranking()
}

} // verus!
