use vstd::prelude::*;
use vstd::std_specs::hash::obeys_key_model;
use core::hash::Hash;
use std::collections::HashMap;

verus! {

/// One entry of a tree's hierarchy: an item's index, the index of its
/// parent if it has one, and the item.
pub open spec fn entries_below<I, T>(hierarchy: Seq<(I, Option<I>, T)>, parent: Option<I>) -> Seq<
    (I, Option<I>, T),
> {
    hierarchy.filter(|entry: (I, Option<I>, T)| entry.1 == parent)
}

/// A tree, or a forest, whose items are addressed by an index.
pub trait Tree: Sized {
    type TreeItem;

    type Index: Copy + Eq + Hash;

    /// The model of the tree: every item with its index and with the index
    /// of its parent, in the order in which the tree hands them out. An
    /// item without a parent is a root.
    spec fn hierarchy(&self) -> Seq<(Self::Index, Option<Self::Index>, Self::TreeItem)>;

    /// Whether an index addresses an item of the tree.
    spec fn has(&self, index: Self::Index) -> bool;

    /// Whether the tree is in a state that its operations keep up.
    spec fn wf(&self) -> bool;

    /// The children of an item, or the roots where no parent is given, each
    /// with its index, in the order of the hierarchy.
    fn children<'a>(&'a self, parent: Option<Self::Index>) -> (r: Vec<
        (Self::Index, &'a Self::TreeItem),
    >)
        requires
            self.wf(),
            parent matches Some(p) ==> self.has(p),
        ensures
            r@.len() == entries_below(self.hierarchy(), parent).len(),
            forall|k: int|
                0 <= k < r@.len() ==> (#[trigger] r@[k]).0 == entries_below(
                    self.hierarchy(),
                    parent,
                )[k].0 && *r@[k].1 == entries_below(self.hierarchy(), parent)[k].2,
    ;

    /// The parent of an item with the parent's index; nothing for a root
    /// and for an index that addresses no item.
    fn parent<'a>(&'a self, index: Self::Index) -> (r: Option<(Self::Index, &'a Self::TreeItem)>)
        requires
            self.wf(),
        ensures
            match r {
                Some((p, item)) => exists|i: int, j: int|
                    0 <= i < self.hierarchy().len() && 0 <= j < self.hierarchy().len()
                        && #[trigger] self.hierarchy()[i].0 == index && self.hierarchy()[i].1
                        == Some(p) && #[trigger] self.hierarchy()[j].0 == p
                        && self.hierarchy()[j].2 == *item,
                None => forall|i: int|
                    0 <= i < self.hierarchy().len() && #[trigger] self.hierarchy()[i].0 == index
                        ==> self.hierarchy()[i].1 is None,
            },
    ;

    /// Every item with its index and with the index of its parent.
    fn into_hierarchy(self) -> (r: Vec<(Self::Index, Option<Self::Index>, Self::TreeItem)>)
        requires
            self.wf(),
        ensures
            r@ == self.hierarchy(),
    ;
}

/// How far a tree has been added to another: the entries added so far,
/// the index that each added item of the source has got, and the number
/// of items added.
#[verifier::reject_recursive_types(J)]
pub struct Grafting<I, J, T> {
    pub entries: Seq<(I, Option<I>, T)>,
    pub mapping: Map<J, I>,
    pub count: nat,
}

/// What adding the first `n` entries of a source hierarchy to a tree
/// comes to, when the items added get the given indices in turn.
///
/// A root of the source goes below `parent`. Any other entry goes below
/// the item that its parent has become, and is left out where its parent
/// has not been added.
pub open spec fn grafting<I, J, T>(
    source: Seq<(J, Option<J>, T)>,
    parent: Option<I>,
    indices: Seq<I>,
    n: nat,
) -> Grafting<I, J, T>
    decreases n,
{
    if n == 0 {
        Grafting { entries: Seq::empty(), mapping: Map::empty(), count: 0 }
    } else {
        let before = grafting(source, parent, indices, (n - 1) as nat);
        let entry = source[n - 1];
        let target = match entry.1 {
            None => Some(parent),
            Some(source_parent) => if before.mapping.contains_key(source_parent) {
                Some(Some(before.mapping[source_parent]))
            } else {
                None
            },
        };
        match target {
            Some(target_parent) => Grafting {
                entries: before.entries.push(
                    (indices[before.count as int], target_parent, entry.2),
                ),
                mapping: before.mapping.insert(entry.0, indices[before.count as int]),
                count: before.count + 1,
            },
            None => before,
        }
    }
}

/// What has been added depends on the indices given so far and on no
/// others.
pub proof fn lemma_grafting_prefix<I, J, T>(
    source: Seq<(J, Option<J>, T)>,
    parent: Option<I>,
    given: Seq<I>,
    more: Seq<I>,
    n: nat,
)
    requires
        given.len() <= more.len(),
        forall|k: int| 0 <= k < given.len() ==> given[k] == more[k],
        grafting(source, parent, given, n).count <= given.len(),
    ensures
        grafting(source, parent, more, n) == grafting(source, parent, given, n),
    decreases n,
{
    if n > 0 {
        lemma_grafting_count(source, parent, given, n);
        lemma_grafting_prefix(source, parent, given, more, (n - 1) as nat);
    }
}

/// The number of items added never falls.
pub proof fn lemma_grafting_count<I, J, T>(
    source: Seq<(J, Option<J>, T)>,
    parent: Option<I>,
    indices: Seq<I>,
    n: nat,
)
    requires
        n > 0,
    ensures
        grafting(source, parent, indices, (n - 1) as nat).count <= grafting(
            source,
            parent,
            indices,
            n,
        ).count <= grafting(source, parent, indices, (n - 1) as nat).count + 1,
{
}

/// A tree that can take on items.
pub trait TreeInsert: Tree {
    /// Adds an item below the item with the given index, or as a root
    /// where no parent is given, and returns the new item's index, which
    /// addressed no item before. The parent must be in the tree.
    fn add(&mut self, item: Self::TreeItem, parent: Option<Self::Index>) -> (index: Self::Index)
        requires
            old(self).wf(),
            parent matches Some(p) ==> old(self).has(p),
        ensures
            final(self).wf(),
            !old(self).has(index),
            final(self).has(index),
            forall|other: Self::Index| old(self).has(other) ==> final(self).has(other),
            final(self).hierarchy() == old(self).hierarchy().push((index, parent, item)),
    ;

    /// Adds a whole tree: its roots go below the item with the given
    /// index, or become roots where no parent is given, and its other items
    /// follow, each below what its parent has become. Returns the indices of
    /// the items added, in the order of the other tree's hierarchy. The
    /// other tree's indices must be fit to be the keys of a hash map.
    fn add_tree<U: Tree<TreeItem = Self::TreeItem>>(
        &mut self,
        tree: U,
        parent: Option<Self::Index>,
    ) -> (indices: Vec<Self::Index>)
        requires
            old(self).wf(),
            tree.wf(),
            parent matches Some(p) ==> old(self).has(p),
            obeys_key_model::<U::Index>(),
        ensures
            final(self).wf(),
            indices@.len() == grafting(
                tree.hierarchy(),
                parent,
                indices@,
                tree.hierarchy().len(),
            ).count,
            final(self).hierarchy() == old(self).hierarchy() + grafting(
                tree.hierarchy(),
                parent,
                indices@,
                tree.hierarchy().len(),
            ).entries,
    {
        broadcast use vstd::std_specs::hash::group_hash_axioms;

        let ghost source = tree.hierarchy();
        let mut stack = reversed(tree.into_hierarchy());
        let mut indices: Vec<Self::Index> = Vec::new();
        let mut index_mapping: HashMap<U::Index, Self::Index> = HashMap::new();
        let ghost mut n: nat = 0;
        while stack.len() > 0
            invariant
                obeys_key_model::<U::Index>(),
                n + stack@.len() == source.len(),
                forall|k: int| 0 <= k < stack@.len() ==> #[trigger] stack@[k] == source[source.len()
                    - 1 - k],
                self.wf(),
                parent matches Some(p) ==> self.has(p),
                indices@.len() == grafting(source, parent, indices@, n).count,
                index_mapping@ == grafting(source, parent, indices@, n).mapping,
                forall|key: U::Index| #[trigger]
                    index_mapping@.contains_key(key) ==> self.has(index_mapping@[key]),
                self.hierarchy() == old(self).hierarchy() + grafting(
                    source,
                    parent,
                    indices@,
                    n,
                ).entries,
            decreases stack@.len(),
        {
            let ghost before = grafting(source, parent, indices@, n);
            let ghost given = indices@;
            let (index, opt_parent_index, item) = stack.pop().unwrap();
            let target: Option<Option<Self::Index>> = match opt_parent_index {
                Some(parent_index) => match index_mapping.get(&parent_index) {
                    Some(target_parent_index) => Some(Some(*target_parent_index)),
                    None => None,
                },
                None => Some(parent),
            };
            match target {
                Some(target_parent) => {
                    let target_index = self.add(item, target_parent);
                    index_mapping.insert(index, target_index);
                    indices.push(target_index);
                    proof {
                        lemma_grafting_prefix(source, parent, given, indices@, n);
                    }
                },
                None => {
                    proof {
                        assert(grafting(source, parent, indices@, n + 1) == before);
                    }
                },
            }
            proof {
                n = n + 1;
            }
        }
        indices
    }
}

/// A list in the opposite order.
fn reversed<T>(list: Vec<T>) -> (r: Vec<T>)
    ensures
        r@.len() == list@.len(),
        forall|k: int| 0 <= k < r@.len() ==> #[trigger] r@[k] == list@[list@.len() - 1 - k],
{
    let ghost goal = list@;
    let mut source = list;
    let mut result: Vec<T> = Vec::new();
    while source.len() > 0
        invariant
            source@.len() <= goal.len(),
            source@ == goal.take(source@.len() as int),
            result@.len() == goal.len() - source@.len(),
            forall|k: int| 0 <= k < result@.len() ==> #[trigger] result@[k] == goal[goal.len() - 1
                - k],
        decreases source@.len(),
    {
        let item = source.pop().unwrap();
        result.push(item);
    }
    result
}

/// A forest kept in lists: the items in the order in which they were
/// added, each addressed by its place in that order.
pub struct VecTree<T> {
    items: Vec<T>,
    parent_indices: Vec<Option<usize>>,
    children_indices: Vec<Vec<usize>>,
    root_indices: Vec<usize>,
}

/// The indices among the first `count` whose parent is `parent`, in
/// rising order.
pub open spec fn indices_below(parents: Seq<Option<usize>>, parent: Option<usize>, count: nat) -> Seq<
    usize,
>
    decreases count,
{
    if count == 0 {
        Seq::empty()
    } else {
        let before = indices_below(parents, parent, (count - 1) as nat);
        if parents[count - 1] == parent {
            before.push((count - 1) as usize)
        } else {
            before
        }
    }
}

impl<T> VecTree<T> {
    /// The items in the order in which they were added.
    pub closed spec fn items(&self) -> Seq<T> {
        self.items@
    }

    /// For each item the index of its parent, if it has one.
    pub closed spec fn parents(&self) -> Seq<Option<usize>> {
        self.parent_indices@
    }

    /// The hierarchy that goes with lists of items and parents.
    pub open spec fn hierarchy_of(items: Seq<T>, parents: Seq<Option<usize>>) -> Seq<
        (usize, Option<usize>, T),
    > {
        Seq::new(items.len(), |i: int| (i as usize, parents[i], items[i]))
    }

    /// An empty forest.
    pub fn new() -> (r: VecTree<T>)
        ensures
            r.wf(),
            r.hierarchy() == Seq::<(usize, Option<usize>, T)>::empty(),
    {
        let tree = VecTree {
            items: Vec::new(),
            parent_indices: Vec::new(),
            children_indices: Vec::new(),
            root_indices: Vec::new(),
        };
        tree
    }
}

impl<T> Tree for VecTree<T> {
    type TreeItem = T;

    type Index = usize;

    closed spec fn hierarchy(&self) -> Seq<(usize, Option<usize>, T)> {
        VecTree::<T>::hierarchy_of(self.items@, self.parent_indices@)
    }

    closed spec fn has(&self, index: usize) -> bool {
        index < self.items@.len()
    }

    closed spec fn wf(&self) -> bool {
        &&& self.parent_indices@.len() == self.items@.len()
        &&& self.children_indices@.len() == self.items@.len()
        &&& forall|i: int|
            0 <= i < self.parent_indices@.len() ==> ((#[trigger] self.parent_indices@[i]) matches Some(
                p,
            ) ==> p < i)
        &&& self.root_indices@ == indices_below(
            self.parent_indices@,
            None,
            self.parent_indices@.len(),
        )
        &&& forall|p: int|
            0 <= p < self.children_indices@.len() ==> (#[trigger] self.children_indices@[p])@
                == indices_below(
                self.parent_indices@,
                Some(p as usize),
                self.parent_indices@.len(),
            )
    }

    fn children<'a>(&'a self, parent: Option<usize>) -> (r: Vec<(usize, &'a T)>) {
        let indices = match parent {
            Some(parent_index) => &self.children_indices[parent_index],
            None => &self.root_indices,
        };
        let total = self.items.len();
        proof {
            lemma_indices_below(self.parent_indices@, parent, total as nat);
            lemma_entries_below(self.items@, self.parent_indices@, parent, total as nat);
            assert(self.hierarchy().take(total as int) =~= self.hierarchy());
        }
        let mut found: Vec<(usize, &T)> = Vec::new();
        let mut k: usize = 0;
        while k < indices.len()
            invariant
                k <= indices.len(),
                self.wf(),
                indices@ == indices_below(self.parent_indices@, parent, self.parent_indices@.len()),
                forall|j: int| 0 <= j < indices@.len() ==> (#[trigger] indices@[j]) < self.items@.len(),
                found@.len() == k,
                forall|j: int|
                    0 <= j < k ==> (#[trigger] found@[j]).0 == indices@[j] && *found@[j].1
                        == self.items@[indices@[j] as int],
            decreases indices.len() - k,
        {
            let child_index = indices[k];
            found.push((child_index, &self.items[child_index]));
            k = k + 1;
        }
        found
    }

    fn parent<'a>(&'a self, index: usize) -> (r: Option<(usize, &'a T)>) {
        if index >= self.parent_indices.len() {
            return None;
        }
        match self.parent_indices[index] {
            Some(p) => {
                assert(self.hierarchy()[index as int].0 == index);
                assert(self.hierarchy()[p as int].0 == p);
                Some((p, &self.items[p]))
            },
            None => None,
        }
    }

    fn into_hierarchy(self) -> (r: Vec<(usize, Option<usize>, T)>) {
        let ghost goal = self.hierarchy();
        let VecTree { items, parent_indices, children_indices, root_indices } = self;
        let mut source = items;
        let mut reversed: Vec<(usize, Option<usize>, T)> = Vec::new();
        while source.len() > 0
            invariant
                source@.len() <= goal.len(),
                goal.len() == parent_indices@.len(),
                forall|i: int| 0 <= i < source@.len() ==> (i as usize, parent_indices@[i], source@[i])
                    == #[trigger] goal[i],
                reversed@.len() == goal.len() - source@.len(),
                forall|k: int| 0 <= k < reversed@.len() ==> (#[trigger] reversed@[k]) == goal[goal.len()
                    - 1 - k],
            decreases source@.len(),
        {
            let index = source.len() - 1;
            let item = source.pop().unwrap();
            reversed.push((index, parent_indices[index], item));
        }
        let mut hierarchy: Vec<(usize, Option<usize>, T)> = Vec::new();
        let ghost made = reversed@;
        while reversed.len() > 0
            invariant
                made.len() == goal.len(),
                reversed@ == made.take(reversed@.len() as int),
                hierarchy@.len() == made.len() - reversed@.len(),
                forall|k: int| 0 <= k < hierarchy@.len() ==> (#[trigger] hierarchy@[k]) == made[made.len()
                    - 1 - k],
            decreases reversed@.len(),
        {
            let entry = reversed.pop().unwrap();
            hierarchy.push(entry);
        }
        hierarchy
    }
}

impl<T> TreeInsert for VecTree<T> {
    fn add(&mut self, item: T, parent: Option<usize>) -> (index: usize) {
        let index = self.items.len();
        self.items.push(item);
        self.parent_indices.push(parent);
        self.children_indices.push(Vec::new());
        if let Some(parent_index) = parent {
            self.children_indices[parent_index].push(index);
        } else {
            self.root_indices.push(index);
        }
        let total = self.items.len();
        proof {
            let before = old(self).parent_indices@;
            let after = self.parent_indices@;
            lemma_indices_below_prefix(before, after, None, index as nat);
            assert forall|p: int| 0 <= p < self.children_indices@.len() implies (
            #[trigger] self.children_indices@[p])@ == indices_below(
                after,
                Some(p as usize),
                after.len(),
            ) by {
                lemma_indices_below_prefix(before, after, Some(p as usize), index as nat);
                if p >= index {
                    lemma_indices_below(after, Some(p as usize), total as nat);
                    let found = indices_below(after, Some(p as usize), total as nat);
                    if found.len() > 0 {
                        assert(after[found[0] as int] == Some(p as usize));
                    }
                }
            }
        }
        index
    }
}

/// Entries beyond the first `count` have no part in the indices among the
/// first `count`.
pub proof fn lemma_indices_below_prefix(
    a: Seq<Option<usize>>,
    b: Seq<Option<usize>>,
    parent: Option<usize>,
    count: nat,
)
    requires
        forall|i: int| 0 <= i < count ==> a[i] == b[i],
    ensures
        indices_below(a, parent, count) == indices_below(b, parent, count),
    decreases count,
{
    if count > 0 {
        lemma_indices_below_prefix(a, b, parent, (count - 1) as nat);
    }
}

/// The indices below a parent are below `count`, and their parent is that
/// parent.
pub proof fn lemma_indices_below(parents: Seq<Option<usize>>, parent: Option<usize>, count: nat)
    requires
        count <= parents.len(),
        count <= usize::MAX,
    ensures
        forall|k: int|
            0 <= k < indices_below(parents, parent, count).len() ==> (#[trigger] indices_below(
                parents,
                parent,
                count,
            )[k]) < count && parents[indices_below(parents, parent, count)[k] as int] == parent,
    decreases count,
{
    if count > 0 {
        lemma_indices_below(parents, parent, (count - 1) as nat);
    }
}

/// The entries of a hierarchy below a parent are the entries of the
/// indices below that parent.
pub proof fn lemma_entries_below<T>(
    items: Seq<T>,
    parents: Seq<Option<usize>>,
    parent: Option<usize>,
    count: nat,
)
    requires
        count <= items.len(),
        items.len() == parents.len(),
        items.len() <= usize::MAX,
    ensures
        entries_below(VecTree::<T>::hierarchy_of(items, parents).take(count as int), parent).len()
            == indices_below(parents, parent, count).len(),
        forall|k: int|
            0 <= k < indices_below(parents, parent, count).len() ==> (#[trigger] entries_below(
                VecTree::<T>::hierarchy_of(items, parents).take(count as int),
                parent,
            )[k]) == (
                indices_below(parents, parent, count)[k],
                parent,
                items[indices_below(parents, parent, count)[k] as int],
            ),
    decreases count,
{
    reveal(Seq::filter);
    let hierarchy = VecTree::<T>::hierarchy_of(items, parents);
    if count > 0 {
        lemma_entries_below(items, parents, parent, (count - 1) as nat);
        lemma_indices_below(parents, parent, count);
        assert(hierarchy.take(count as int).drop_last() =~= hierarchy.take(count - 1));
    } else {
        assert(hierarchy.take(0) =~= Seq::empty());
    }
}

} // verus!
