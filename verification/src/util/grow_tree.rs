use vstd::prelude::*;

verus! {

/// The model of a tree that is kept in a list: the items in the order in
/// which they were added, and for each the index of its parent. The first
/// item is the root and has no parent.
pub struct TreeView<T> {
    pub items: Seq<T>,
    pub parents: Seq<Option<int>>,
}

/// The indices among the first `count` whose parent is `parent`, in
/// rising order.
pub open spec fn children_among(parents: Seq<Option<int>>, parent: int, count: nat) -> Seq<int>
    decreases count,
{
    if count == 0 {
        Seq::empty()
    } else {
        let before = children_among(parents, parent, (count - 1) as nat);
        if parents[count - 1] == Some(parent) {
            before.push(count - 1)
        } else {
            before
        }
    }
}

impl<T> TreeView<T> {
    /// The shape of a tree: there is a root, which has no parent, and
    /// every other item has a parent that was added before it.
    pub open spec fn wf(self) -> bool {
        &&& self.items.len() >= 1
        &&& self.parents.len() == self.items.len()
        &&& self.parents[0] is None
        &&& forall|i: int|
            1 <= i < self.parents.len() ==> ((#[trigger] self.parents[i]) matches Some(p) && 0
                <= p < i)
    }

    /// The number of items.
    pub open spec fn len(self) -> nat {
        self.items.len()
    }

    /// The indices of an item's children, in the order in which they were
    /// added.
    pub open spec fn children(self, parent: int) -> Seq<int> {
        children_among(self.parents, parent, self.parents.len())
    }

    /// The tree with one more item below the given parent.
    pub open spec fn with_child(self, item: T, parent: int) -> TreeView<T> {
        TreeView { items: self.items.push(item), parents: self.parents.push(Some(parent)) }
    }
}

/// Items beyond the first `count` have no part in the children among the
/// first `count`.
pub proof fn lemma_children_among_prefix(
    a: Seq<Option<int>>,
    b: Seq<Option<int>>,
    parent: int,
    count: nat,
)
    requires
        forall|i: int| 0 <= i < count ==> a[i] == b[i],
    ensures
        children_among(a, parent, count) == children_among(b, parent, count),
    decreases count,
{
    if count > 0 {
        lemma_children_among_prefix(a, b, parent, (count - 1) as nat);
    }
}

/// The children of an item are items of the tree, each added after the
/// item's earlier children, and each has the item as its parent.
pub proof fn lemma_children_among(parents: Seq<Option<int>>, parent: int, count: nat)
    requires
        count <= parents.len(),
    ensures
        children_among(parents, parent, count).len() <= count,
        forall|k: int|
            0 <= k < children_among(parents, parent, count).len() ==> 0 <= (
            #[trigger] children_among(parents, parent, count)[k]) < count
                && parents[children_among(parents, parent, count)[k]] == Some(parent),
        forall|i: int|
            0 <= i < count && parents[i] == Some(parent) ==> children_among(
                parents,
                parent,
                count,
            ).contains(i),
    decreases count,
{
    if count > 0 {
        lemma_children_among(parents, parent, (count - 1) as nat);
        let before = children_among(parents, parent, (count - 1) as nat);
        let all = children_among(parents, parent, count);
        assert forall|i: int| 0 <= i < count && parents[i] == Some(parent) implies all.contains(
            i,
        ) by {
            if i < count - 1 {
                let k = choose|k: int| 0 <= k < before.len() && before[k] == i;
                assert(all[k] == i);
            } else {
                assert(all[all.len() - 1] == i);
            }
        }
    }
}

/// Whether an item stands in the subtree below `root`: it is the root
/// of that subtree, or its parent stands in it.
pub open spec fn in_subtree(parents: Seq<Option<int>>, root: int, i: int) -> bool
    decreases i,
{
    i == root || (0 <= i < parents.len() && (parents[i] matches Some(p) && 0 <= p < i
        && in_subtree(parents, root, p)))
}

/// The tree `target` with a copy of a subtree of `source` added below one
/// of its items: the subtree's root `at` becomes a new child of `below`,
/// and the children of `at` follow below it in their order, each with its
/// own subtree, depth first.
pub open spec fn grafted<T>(
    target: TreeView<T>,
    source: TreeView<T>,
    at: int,
    below: int,
) -> TreeView<T>
    decreases source.len() - at, 1int, 0int,
    when source.wf() && 0 <= at < source.len()
{
    grafted_children(
        target.with_child(source.items[at], below),
        source,
        at,
        0,
        target.len() as int,
    )
}

/// The tree `target` with copies of the subtrees of the children of
/// `of`, from the child with the number `from` on, added below one of its
/// items.
pub open spec fn grafted_children<T>(
    target: TreeView<T>,
    source: TreeView<T>,
    of: int,
    from: nat,
    below: int,
) -> TreeView<T>
    decreases source.len() - of, 0int, source.children(of).len() - from,
    when source.wf() && 0 <= of < source.len()
{
    let children = source.children(of);
    if from >= children.len() {
        target
    } else {
        proof {
            lemma_children_among(source.parents, of, source.parents.len());
        }
        grafted_children(
            grafted(target, source, children[from as int], below),
            source,
            of,
            from + 1,
            below,
        )
    }
}

impl<T> TreeView<T> {
    /// The tree that holds one item and nothing else.
    pub open spec fn single(root: T) -> TreeView<T> {
        TreeView { items: seq![root], parents: seq![None::<int>] }
    }

    /// The subtree below the item with the given index, as a tree of its
    /// own: that item is its root, and its items follow depth first.
    pub open spec fn subtree(self, index: int) -> TreeView<T> {
        grafted_children(TreeView::single(self.items[index]), self, index, 0, 0)
    }

    /// The same tree with its items seen through references.
    pub open spec fn as_refs<'a>(&'a self) -> TreeView<&'a T> {
        TreeView { items: Seq::new(self.items.len(), |i: int| &self.items[i]), parents: self.parents }
    }
}

/// Every item of a subtree was added no earlier than the subtree's root.
pub proof fn lemma_subtree_after_root(parents: Seq<Option<int>>, root: int, i: int)
    requires
        in_subtree(parents, root, i),
    ensures
        i >= root,
    decreases i,
{
    if i != root {
        lemma_subtree_after_root(parents, root, parents[i]->0);
    }
}

/// The subtree of a child is part of the subtree of its parent.
pub proof fn lemma_subtree_of_child(parents: Seq<Option<int>>, parent: int, child: int, i: int)
    requires
        0 <= parent < child < parents.len(),
        parents[child] == Some(parent),
        in_subtree(parents, child, i),
    ensures
        in_subtree(parents, parent, i),
    decreases i,
{
    if i == child {
        assert(in_subtree(parents, parent, parent));
    } else {
        lemma_subtree_of_child(parents, parent, child, parents[i]->0);
    }
}

/// The subtrees of two children of one item have no item in common.
pub proof fn lemma_subtrees_apart(
    parents: Seq<Option<int>>,
    parent: int,
    one: int,
    other: int,
    i: int,
)
    requires
        0 <= parent < one < parents.len(),
        parent < other < parents.len(),
        parents[one] == Some(parent),
        parents[other] == Some(parent),
        one != other,
    ensures
        !(in_subtree(parents, one, i) && in_subtree(parents, other, i)),
    decreases i,
{
    if in_subtree(parents, one, i) && in_subtree(parents, other, i) {
        if i == one {
            lemma_subtree_after_root(parents, other, parent);
        } else if i == other {
            lemma_subtree_after_root(parents, one, parent);
        } else {
            lemma_subtrees_apart(parents, parent, one, other, parents[i]->0);
        }
    }
}

/// The model of a list of parent indices.
pub open spec fn parents_view(parents: Seq<Option<usize>>) -> Seq<Option<int>> {
    parents.map_values(
        |parent: Option<usize>|
            match parent {
                Some(p) => Some(p as int),
                None => None,
            },
    )
}

/// The model of a list of indices.
pub open spec fn indices_view(indices: Seq<usize>) -> Seq<int> {
    indices.map_values(|index: usize| index as int)
}

/// A tree that only grows. Its items are kept in a list in the order in
/// which they were added, and are addressed by their index in it.
#[derive(Debug)]
pub struct GrowTree<T> {
    all_items: Vec<T>,
    parent_indices: Vec<Option<usize>>,
    child_indices: Vec<Vec<usize>>,
}

impl<T> View for GrowTree<T> {
    type V = TreeView<T>;

    closed spec fn view(&self) -> TreeView<T> {
        TreeView { items: self.all_items@, parents: parents_view(self.parent_indices@) }
    }
}

impl<T> GrowTree<T> {
    /// Whether the tree is well shaped and its list of children agrees
    /// with its list of parents.
    pub closed spec fn wf(&self) -> bool {
        &&& self@.wf()
        &&& self.child_indices@.len() == self.all_items@.len()
        &&& forall|p: int|
            0 <= p < self.child_indices@.len() ==> indices_view(
                (#[trigger] self.child_indices@[p])@,
            ) == self@.children(p)
    }

    /// A well-kept tree is a well-shaped tree.
    pub proof fn lemma_wf(&self)
        requires
            self.wf(),
        ensures
            self@.wf(),
    {
    }

    /// A tree that holds its root and nothing else.
    pub fn new(root: T) -> (r: GrowTree<T>)
        ensures
            r.wf(),
            r@ == TreeView::single(root),
    {
        let mut all_items: Vec<T> = Vec::new();
        all_items.push(root);
        let mut child_indices: Vec<Vec<usize>> = Vec::new();
        child_indices.push(Vec::new());
        let mut parent_indices: Vec<Option<usize>> = Vec::new();
        parent_indices.push(None);
        let tree = GrowTree { all_items, parent_indices, child_indices };
        proof {
            assert(tree@.parents =~= seq![None::<int>]);
            reveal_with_fuel(children_among, 2);
            assert(indices_view(tree.child_indices@[0]@) =~= tree@.children(0));
        }
        tree
    }

    /// Adds an item below the item with the given index, which must be in
    /// the tree, and returns the new item's index.
    pub fn add_child(&mut self, item: T, parent_index: usize) -> (index: usize)
        requires
            old(self).wf(),
            parent_index < old(self)@.len(),
        ensures
            final(self).wf(),
            index == old(self)@.len(),
            final(self)@ == old(self)@.with_child(item, parent_index as int),
    {
        let index = self.all_items.len();
        self.all_items.push(item);
        self.child_indices.push(Vec::new());
        self.child_indices[parent_index].push(index);
        self.parent_indices.push(Some(parent_index));
        proof {
            let before = old(self)@.parents;
            let after = self@.parents;
            assert(after =~= before.push(Some(parent_index as int)));
            assert forall|p: int| 0 <= p < self.child_indices@.len() implies indices_view(
                (#[trigger] self.child_indices@[p])@,
            ) == self@.children(p) by {
                lemma_children_among_prefix(before, after, p, index as nat);
                if p == parent_index {
                    assert(indices_view(self.child_indices@[p]@) =~= indices_view(
                        old(self).child_indices@[p]@,
                    ).push(index as int));
                } else if p < index {
                    assert(self.child_indices@[p] == old(self).child_indices@[p]);
                } else {
                    lemma_children_among(after, p, (index + 1) as nat);
                    let found = children_among(after, p, (index + 1) as nat);
                    if found.len() > 0 {
                        if found[0] < index {
                            assert(before[found[0]] == Some(p));
                        }
                    }
                }
            }
        }
        index
    }

    /// The item with the given index, if there is one.
    pub fn item(&self, index: usize) -> (r: Option<&T>)
        ensures
            index < self@.len() ==> r == Some(&self@.items[index as int]),
            index >= self@.len() ==> r is None,
    {
        if index < self.all_items.len() {
            Some(&self.all_items[index])
        } else {
            None
        }
    }

    /// The item with the given index, to be changed in place, if there is
    /// one. The shape of the tree stays as it is.
    pub fn item_mut(&mut self, index: usize) -> (r: Option<&mut T>)
        requires
            old(self).wf(),
        ensures
            index >= old(self)@.len() ==> r is None && final(self)@ == old(self)@,
            index < old(self)@.len() ==> r is Some && *r->0 == old(self)@.items[index as int]
                && final(self)@.items == old(self)@.items.update(index as int, *final(r->0))
                && final(self)@.parents == old(self)@.parents,
            final(self).wf(),
    {
        if index < self.all_items.len() {
            Some(&mut self.all_items[index])
        } else {
            None
        }
    }

    /// The root of the tree.
    pub fn root(&self) -> (r: &T)
        requires
            self.wf(),
        ensures
            *r == self@.items[0],
    {
        &self.all_items[0]
    }

    /// The children of the item with the given index, each with its own
    /// index, in the order in which they were added. An index that is not in
    /// the tree has no children.
    pub fn children(&self, parent_index: usize) -> (r: Vec<(usize, &T)>)
        requires
            self.wf(),
        ensures
            r@.len() == (if parent_index < self@.len() {
                self@.children(parent_index as int).len()
            } else {
                0
            }),
            forall|k: int|
                0 <= k < r@.len() ==> (#[trigger] r@[k]).0 == self@.children(
                    parent_index as int,
                )[k] && r@[k].0 < self@.len() && *r@[k].1 == self@.items[r@[k].0 as int],
    {
        let mut found: Vec<(usize, &T)> = Vec::new();
        if parent_index >= self.child_indices.len() {
            return found;
        }
        let indices = &self.child_indices[parent_index];
        proof {
            lemma_children_among(self@.parents, parent_index as int, self@.parents.len());
            assert forall|j: int| 0 <= j < indices@.len() implies (#[trigger] indices@[j])
                == self@.children(parent_index as int)[j] by {
                assert(indices_view(indices@)[j] == indices@[j]);
            }
        }
        let mut k: usize = 0;
        while k < indices.len()
            invariant
                k <= indices.len(),
                self.wf(),
                parent_index < self@.len(),
                indices@.len() == self@.children(parent_index as int).len(),
                forall|j: int|
                    0 <= j < indices@.len() ==> (#[trigger] indices@[j]) == self@.children(
                        parent_index as int,
                    )[j] && indices@[j] < self@.len(),
                found@.len() == k,
                forall|j: int|
                    0 <= j < k ==> (#[trigger] found@[j]).0 == indices@[j] && found@[j].0
                        < self@.len() && *found@[j].1 == self@.items[found@[j].0 as int],
            decreases indices.len() - k,
        {
            let index = indices[k];
            found.push((index, &self.all_items[index]));
            k = k + 1;
        }
        found
    }

    /// The parent of the item with the given index, with the parent's own
    /// index. The root has none, nor has an index that is not in the tree.
    pub fn parent(&self, index: usize) -> (r: Option<(usize, &T)>)
        requires
            self.wf(),
        ensures
            match r {
                Some((p, item)) => index < self@.len() && self@.parents[index as int] == Some(
                    p as int,
                ) && p < index && *item == self@.items[p as int],
                None => index >= self@.len() || self@.parents[index as int] is None,
            },
    {
        if index >= self.parent_indices.len() {
            return None;
        }
        match self.parent_indices[index] {
            Some(p) => {
                Some((p, &self.all_items[p]))
            },
            None => {
                None
            },
        }
    }

    /// A tree of the same shape whose items are made from this tree's
    /// items by a function.
    pub fn map<F, O>(&self, f: F) -> (r: GrowTree<O>) where F: Fn(&T) -> O
        requires
            self.wf(),
            forall|i: int| 0 <= i < self@.len() ==> call_requires(f, (&#[trigger] self@.items[i],)),
        ensures
            r.wf(),
            r@.parents == self@.parents,
            r@.items.len() == self@.items.len(),
            forall|i: int|
                0 <= i < self@.len() ==> call_ensures(
                    f,
                    (&self@.items[i],),
                    #[trigger] r@.items[i],
                ),
    {
        let mut all_items: Vec<O> = Vec::new();
        let mut i: usize = 0;
        while i < self.all_items.len()
            invariant
                i <= self.all_items.len(),
                all_items@.len() == i,
                forall|k: int|
                    0 <= k < self@.len() ==> call_requires(f, (&#[trigger] self@.items[k],)),
                forall|k: int|
                    0 <= k < i ==> call_ensures(f, (&self@.items[k],), #[trigger] all_items@[k]),
            decreases self.all_items.len() - i,
        {
            assert(call_requires(f, (&self@.items[i as int],)));
            all_items.push(f(&self.all_items[i]));
            i = i + 1;
        }
        let tree = GrowTree {
            all_items,
            parent_indices: copy_parents(&self.parent_indices),
            child_indices: copy_children(&self.child_indices),
        };
        proof {
            assert forall|p: int| 0 <= p < tree.child_indices@.len() implies indices_view(
                (#[trigger] tree.child_indices@[p])@,
            ) == tree@.children(p) by {
                assert(indices_view(self.child_indices@[p]@) == self@.children(p));
            }
        }
        tree
    }

    /// A tree of the same shape whose items are references to this tree's
    /// items.
    pub fn as_refs(&self) -> (r: GrowTree<&T>)
        requires
            self.wf(),
        ensures
            r.wf(),
            r@ == self@.as_refs(),
    {
        let mut all_items: Vec<&T> = Vec::new();
        let mut i: usize = 0;
        while i < self.all_items.len()
            invariant
                i <= self.all_items.len(),
                all_items@.len() == i,
                forall|k: int| 0 <= k < i ==> *(#[trigger] all_items@[k]) == self@.items[k],
            decreases self.all_items.len() - i,
        {
            all_items.push(&self.all_items[i]);
            i = i + 1;
        }
        let tree = GrowTree {
            all_items,
            parent_indices: copy_parents(&self.parent_indices),
            child_indices: copy_children(&self.child_indices),
        };
        proof {
            assert(tree@.items =~= self@.as_refs().items);
            assert forall|p: int| 0 <= p < tree.child_indices@.len() implies indices_view(
                (#[trigger] tree.child_indices@[p])@,
            ) == tree@.children(p) by {
                assert(indices_view(self.child_indices@[p]@) == self@.children(p));
            }
        }
        tree
    }

    /// A tree of the same shape whose items are made from this tree's
    /// items by a function that takes them over.
    pub fn map_into<F, O>(self, f: F) -> (r: GrowTree<O>) where F: Fn(T) -> O
        requires
            self.wf(),
            forall|i: int| 0 <= i < self@.len() ==> call_requires(f, (#[trigger] self@.items[i],)),
        ensures
            r.wf(),
            r@.parents == self@.parents,
            r@.items.len() == self@.items.len(),
            forall|i: int|
                0 <= i < self@.len() ==> call_ensures(
                    f,
                    (self@.items[i],),
                    #[trigger] r@.items[i],
                ),
    {
        let ghost items = self@.items;
        let ghost parents = self@.parents;
        let GrowTree { all_items, parent_indices, child_indices } = self;
        let mut source = all_items;
        let mut reversed: Vec<O> = Vec::new();
        while source.len() > 0
            invariant
                source@.len() <= items.len(),
                source@ == items.take(source@.len() as int),
                reversed@.len() == items.len() - source@.len(),
                forall|k: int| 0 <= k < items.len() ==> call_requires(f, (#[trigger] items[k],)),
                forall|k: int|
                    0 <= k < reversed@.len() ==> call_ensures(
                        f,
                        (items[items.len() - 1 - k],),
                        #[trigger] reversed@[k],
                    ),
            decreases source@.len(),
        {
            let item = source.pop().unwrap();
            reversed.push(f(item));
        }
        let mut mapped: Vec<O> = Vec::new();
        let ghost made = reversed@;
        while reversed.len() > 0
            invariant
                made.len() == items.len(),
                reversed@ == made.take(reversed@.len() as int),
                mapped@.len() == made.len() - reversed@.len(),
                forall|k: int| 0 <= k < mapped@.len() ==> (#[trigger] mapped@[k]) == made[made.len()
                    - 1 - k],
            decreases reversed@.len(),
        {
            let item = reversed.pop().unwrap();
            mapped.push(item);
        }
        let tree = GrowTree { all_items: mapped, parent_indices, child_indices };
        proof {
            assert forall|i: int| 0 <= i < items.len() implies call_ensures(
                f,
                (items[i],),
                #[trigger] tree@.items[i],
            ) by {
                assert(tree@.items[i] == made[made.len() - 1 - i]);
            }
            assert forall|p: int| 0 <= p < tree.child_indices@.len() implies indices_view(
                (#[trigger] tree.child_indices@[p])@,
            ) == tree@.children(p) by {
                assert(indices_view(child_indices@[p]@) == children_among(
                    parents,
                    p,
                    parents.len(),
                ));
            }
        }
        tree
    }

    /// The subtree below the item with the given index, as a tree of
    /// references to this tree's items; nothing if the index is not in the
    /// tree.
    pub fn subtree<'a>(&'a self, index: usize) -> (r: Option<GrowTree<&'a T>>)
        requires
            self.wf(),
        ensures
            index >= self@.len() <==> r is None,
            r matches Some(tree) ==> tree.wf() && tree@ == self@.as_refs().subtree(index as int),
    {
        self.as_refs().into_subtree(index)
    }

    /// The subtree below the item with the given index, as a tree of its
    /// own that takes the items over; nothing if the index is not in the
    /// tree.
    pub fn into_subtree(self, index: usize) -> (r: Option<GrowTree<T>>)
        requires
            self.wf(),
        ensures
            index >= self@.len() <==> r is None,
            r matches Some(tree) ==> tree.wf() && tree@ == self@.subtree(index as int),
    {
        if self.all_items.len() <= index {
            return None;
        }
        let ghost model = self@;
        let mut source = self.map_into(in_slot);
        let root = source.all_items[index].take().unwrap();
        let mut subtree = GrowTree::new(root);
        let children = copy_indices(&source.child_indices[index]);
        proof {
            lemma_children_among(model.parents, index as int, model.parents.len());
            assert forall|p: int| 0 <= p < source.child_indices@.len() implies indices_view(
                (#[trigger] source.child_indices@[p])@,
            ) == source@.children(p) by {}
            assert forall|j: int| 0 <= j < children@.len() implies index < (
            #[trigger] children@[j]) < model.len() && model.parents[children@[j] as int] == Some(
                index as int,
            ) && children@[j] == model.children(index as int)[j] by {
                assert(indices_view(children@)[j] == children@[j]);
            }
            assert forall|i: int, j: int|
                0 <= j < children@.len() && 0 <= i < model.len() && in_subtree(
                    model.parents,
                    (#[trigger] children@[j]) as int,
                    i,
                ) implies #[trigger] source@.items[i] == Some(model.items[i]) by {
                lemma_subtree_after_root(model.parents, children@[j] as int, i);
            }
        }
        let mut k: usize = 0;
        while k < children.len()
            invariant
                k <= children.len(),
                model.wf(),
                index < model.len(),
                subtree.wf(),
                source.wf(),
                source@.parents == model.parents,
                source@.items.len() == model.items.len(),
                children@.len() == model.children(index as int).len(),
                forall|j: int|
                    0 <= j < children@.len() ==> index < (#[trigger] children@[j]) < model.len()
                        && model.parents[children@[j] as int] == Some(index as int) && children@[j]
                        == model.children(index as int)[j],
                grafted_children(subtree@, model, index as int, k as nat, 0) == model.subtree(
                    index as int,
                ),
                forall|i: int, j: int|
                    k <= j < children@.len() && 0 <= i < model.len() && in_subtree(
                        model.parents,
                        (#[trigger] children@[j]) as int,
                        i,
                    ) ==> #[trigger] source@.items[i] == Some(model.items[i]),
            decreases children.len() - k,
        {
            let child = children[k];
            subtree.import_tree(&mut source, child, 0, Ghost(model.items));
            proof {
                assert forall|i: int, j: int|
                    k + 1 <= j < children@.len() && 0 <= i < model.len() && in_subtree(
                        model.parents,
                        (#[trigger] children@[j]) as int,
                        i,
                    ) implies #[trigger] source@.items[i] == Some(model.items[i]) by {
                    lemma_children_rising(
                        model.parents,
                        index as int,
                        model.parents.len(),
                        k as int,
                        j,
                    );
                    lemma_subtrees_apart(
                        model.parents,
                        index as int,
                        child as int,
                        children@[j] as int,
                        i,
                    );
                }
            }
            k = k + 1;
        }
        Some(subtree)
    }

    /// Adds a whole tree below the item with the given index, which must
    /// be in this tree: the other tree's root becomes a new child of that
    /// item.
    pub fn add_tree_into(&mut self, parent_index: usize, tree: GrowTree<T>)
        requires
            old(self).wf(),
            tree.wf(),
            parent_index < old(self)@.len(),
        ensures
            final(self).wf(),
            final(self)@ == grafted(old(self)@, tree@, 0, parent_index as int),
    {
        let ghost model = tree@;
        let mut source = tree.map_into(in_slot);
        self.import_tree(&mut source, 0, parent_index, Ghost(model.items));
    }

    /// Moves the subtree below one item of `source` over into this tree,
    /// below the item with the index `target_parent_index`. The items of
    /// that subtree must still be in their slots; they are `items`, by
    /// index.
    fn import_tree(
        &mut self,
        source: &mut GrowTree<Option<T>>,
        source_index: usize,
        target_parent_index: usize,
        Ghost(items): Ghost<Seq<T>>,
    )
        requires
            old(self).wf(),
            old(source).wf(),
            source_index < old(source)@.len(),
            target_parent_index < old(self)@.len(),
            items.len() == old(source)@.len(),
            forall|i: int|
                0 <= i < items.len() && in_subtree(old(source)@.parents, source_index as int, i)
                    ==> #[trigger] old(source)@.items[i] == Some(items[i]),
        ensures
            final(self).wf(),
            final(source).wf(),
            final(self)@ == grafted(
                old(self)@,
                (TreeView { items, parents: old(source)@.parents }),
                source_index as int,
                target_parent_index as int,
            ),
            final(self)@.len() > old(self)@.len(),
            final(source)@.parents == old(source)@.parents,
            final(source)@.items.len() == old(source)@.items.len(),
            forall|i: int|
                0 <= i < items.len() && !in_subtree(old(source)@.parents, source_index as int, i)
                    ==> #[trigger] final(source)@.items[i] == old(source)@.items[i],
        decreases old(source)@.len() - source_index,
    {
        let ghost model = TreeView { items, parents: source@.parents };
        let ghost start = source@;
        proof {
            assert(in_subtree(start.parents, source_index as int, source_index as int));
        }
        let item = source.all_items[source_index].take().unwrap();
        let target_index = self.add_child(item, target_parent_index);
        let children = copy_indices(&source.child_indices[source_index]);
        proof {
            lemma_children_among(model.parents, source_index as int, model.parents.len());
            assert forall|p: int| 0 <= p < source.child_indices@.len() implies indices_view(
                (#[trigger] source.child_indices@[p])@,
            ) == source@.children(p) by {}
            assert forall|j: int| 0 <= j < children@.len() implies source_index < (
            #[trigger] children@[j]) < model.len() && model.parents[children@[j] as int] == Some(
                source_index as int,
            ) && children@[j] == model.children(source_index as int)[j] by {
                assert(indices_view(children@)[j] == children@[j]);
            }
            assert forall|i: int, j: int|
                0 <= j < children@.len() && 0 <= i < model.len() && in_subtree(
                    model.parents,
                    (#[trigger] children@[j]) as int,
                    i,
                ) implies #[trigger] source@.items[i] == Some(items[i]) by {
                lemma_subtree_after_root(model.parents, children@[j] as int, i);
                lemma_subtree_of_child(
                    model.parents,
                    source_index as int,
                    children@[j] as int,
                    i,
                );
            }
        }
        let ghost goal = grafted(
            old(self)@,
            model,
            source_index as int,
            target_parent_index as int,
        );
        let mut k: usize = 0;
        while k < children.len()
            invariant
                k <= children.len(),
                start == old(source)@,
                model.wf(),
                model.parents == start.parents,
                model.items == items,
                items.len() == start.len(),
                source_index < model.len(),
                self.wf(),
                source.wf(),
                source@.parents == start.parents,
                source@.items.len() == start.items.len(),
                target_index < self@.len(),
                self@.len() > old(self)@.len(),
                children@.len() == model.children(source_index as int).len(),
                forall|j: int|
                    0 <= j < children@.len() ==> source_index < (#[trigger] children@[j])
                        < model.len() && model.parents[children@[j] as int] == Some(
                        source_index as int,
                    ) && children@[j] == model.children(source_index as int)[j],
                grafted_children(self@, model, source_index as int, k as nat, target_index as int)
                    == goal,
                forall|i: int, j: int|
                    k <= j < children@.len() && 0 <= i < model.len() && in_subtree(
                        model.parents,
                        (#[trigger] children@[j]) as int,
                        i,
                    ) ==> #[trigger] source@.items[i] == Some(items[i]),
                forall|i: int|
                    0 <= i < items.len() && !in_subtree(start.parents, source_index as int, i)
                        ==> #[trigger] source@.items[i] == start.items[i],
            decreases children.len() - k,
        {
            let child = children[k];
            self.import_tree(source, child, target_index, Ghost(items));
            proof {
                assert forall|i: int, j: int|
                    k + 1 <= j < children@.len() && 0 <= i < model.len() && in_subtree(
                        model.parents,
                        (#[trigger] children@[j]) as int,
                        i,
                    ) implies #[trigger] source@.items[i] == Some(items[i]) by {
                    lemma_children_rising(
                        model.parents,
                        source_index as int,
                        model.parents.len(),
                        k as int,
                        j,
                    );
                    lemma_subtrees_apart(
                        model.parents,
                        source_index as int,
                        child as int,
                        children@[j] as int,
                        i,
                    );
                }
                assert forall|i: int|
                    0 <= i < items.len() && !in_subtree(
                        start.parents,
                        source_index as int,
                        i,
                    ) implies #[trigger] source@.items[i] == start.items[i] by {
                    if in_subtree(start.parents, child as int, i) {
                        lemma_subtree_of_child(start.parents, source_index as int, child as int, i);
                    }
                }
            }
            k = k + 1;
        }
    }
}

/// The children of an item are listed in rising order.
pub proof fn lemma_children_rising(
    parents: Seq<Option<int>>,
    parent: int,
    count: nat,
    one: int,
    other: int,
)
    requires
        count <= parents.len(),
        0 <= one < other < children_among(parents, parent, count).len(),
    ensures
        children_among(parents, parent, count)[one] < children_among(parents, parent, count)[other],
    decreases count,
{
    if count > 0 {
        let before = children_among(parents, parent, (count - 1) as nat);
        lemma_children_among(parents, parent, (count - 1) as nat);
        if other < before.len() {
            lemma_children_rising(parents, parent, (count - 1) as nat, one, other);
        }
    }
}

/// An item in a slot from which it can be taken.
fn in_slot<T>(item: T) -> (slot: Option<T>)
    ensures
        slot == Some(item),
{
    Some(item)
}

/// A copy of a list of parent indices.
fn copy_parents(parents: &Vec<Option<usize>>) -> (r: Vec<Option<usize>>)
    ensures
        r@ == parents@,
{
    let mut copy: Vec<Option<usize>> = Vec::new();
    let mut i: usize = 0;
    while i < parents.len()
        invariant
            i <= parents.len(),
            copy@ == parents@.take(i as int),
        decreases parents.len() - i,
    {
        copy.push(parents[i]);
        i = i + 1;
    }
    copy
}

/// A copy of a list of indices.
fn copy_indices(indices: &Vec<usize>) -> (r: Vec<usize>)
    ensures
        r@ == indices@,
{
    let mut copy: Vec<usize> = Vec::new();
    let mut i: usize = 0;
    while i < indices.len()
        invariant
            i <= indices.len(),
            copy@ == indices@.take(i as int),
        decreases indices.len() - i,
    {
        copy.push(indices[i]);
        i = i + 1;
    }
    copy
}

/// A copy of the lists of children of a tree.
fn copy_children(children: &Vec<Vec<usize>>) -> (r: Vec<Vec<usize>>)
    ensures
        r@.len() == children@.len(),
        forall|p: int| 0 <= p < r@.len() ==> (#[trigger] r@[p])@ == children@[p]@,
{
    let mut copy: Vec<Vec<usize>> = Vec::new();
    let mut i: usize = 0;
    while i < children.len()
        invariant
            i <= children.len(),
            copy@.len() == i,
            forall|p: int| 0 <= p < i ==> (#[trigger] copy@[p])@ == children@[p]@,
        decreases children.len() - i,
    {
        copy.push(copy_indices(&children[i]));
        i = i + 1;
    }
    copy
}

} // verus!
