use chess_rules::util::{GrowTree, Tree, TreeInsert, VecTree};

fn sample() -> GrowTree<&'static str> {
    // root
    //   a
    //     c
    //     d
    //   b
    //     e
    let mut tree = GrowTree::new("root");
    let a = tree.add_child("a", 0);
    let b = tree.add_child("b", 0);
    tree.add_child("c", a);
    tree.add_child("d", a);
    tree.add_child("e", b);
    tree
}

fn items_in_order<T: Clone>(tree: &GrowTree<T>) -> Vec<T> {
    let mut items = vec![];
    let mut index = 0;
    while let Some(item) = tree.item(index) {
        items.push(item.clone());
        index += 1;
    }
    items
}

#[test]
fn grow_tree_starts_with_its_root() {
    let tree = GrowTree::new(7);
    assert_eq!(7, *tree.root());
    assert_eq!(Some(&7), tree.item(0));
    assert_eq!(None, tree.item(1));
    assert!(tree.children(0).is_empty());
    assert!(tree.parent(0).is_none());
}

#[test]
fn grow_tree_add_child_returns_rising_indices() {
    let mut tree = GrowTree::new("root");
    assert_eq!(1, tree.add_child("a", 0));
    assert_eq!(2, tree.add_child("b", 0));
    assert_eq!(3, tree.add_child("c", 1));
    assert_eq!(vec![(1, &"a"), (2, &"b")], tree.children(0));
    assert_eq!(vec![(3, &"c")], tree.children(1));
    assert!(tree.children(2).is_empty());
    assert!(tree.children(17).is_empty());
    assert_eq!(Some((1, &"c").0), tree.parent(3).map(|(index, _)| index));
    assert_eq!(Some(&"a"), tree.parent(3).map(|(_, item)| item));
    assert_eq!(Some((0, &"root")), tree.parent(2));
    assert_eq!(None, tree.parent(0));
    assert_eq!(None, tree.parent(4));
}

#[test]
fn grow_tree_item_mut_changes_one_item() {
    let mut tree = sample();
    *tree.item_mut(3).unwrap() = "changed";
    assert!(tree.item_mut(6).is_none());
    assert_eq!(vec!["root", "a", "b", "changed", "d", "e"], items_in_order(&tree));
    assert_eq!(vec![(3, &"changed"), (4, &"d")], tree.children(1));
}

#[test]
fn grow_tree_map_keeps_the_shape() {
    let tree = sample();
    let lengths = tree.map(|item| item.len());
    assert_eq!(vec![4, 1, 1, 1, 1, 1], items_in_order(&lengths));
    assert_eq!(vec![(1, &1), (2, &1)], lengths.children(0));
    assert_eq!(vec![(5, &1)], lengths.children(2));
    let shouted = tree.map_into(|item| item.to_uppercase());
    assert_eq!(vec!["ROOT", "A", "B", "C", "D", "E"], items_in_order(&shouted));
    assert_eq!(Some(1), shouted.parent(4).map(|(index, _)| index));
}

#[test]
fn grow_tree_as_refs_points_to_the_items() {
    let tree = sample();
    let refs = tree.as_refs();
    assert_eq!(vec![&"root", &"a", &"b", &"c", &"d", &"e"], items_in_order(&refs));
    assert_eq!(Some(2), refs.parent(5).map(|(index, _)| index));
}

#[test]
fn grow_tree_subtree_is_depth_first() {
    let tree = sample();
    let whole = tree.subtree(0).unwrap();
    assert_eq!(vec![&"root", &"a", &"c", &"d", &"b", &"e"], items_in_order(&whole));
    assert_eq!(Some(1), whole.parent(2).map(|(index, _)| index));
    assert_eq!(Some(1), whole.parent(3).map(|(index, _)| index));
    assert_eq!(Some(0), whole.parent(4).map(|(index, _)| index));
    assert_eq!(Some(4), whole.parent(5).map(|(index, _)| index));

    let below_a = tree.subtree(1).unwrap();
    assert_eq!(vec![&"a", &"c", &"d"], items_in_order(&below_a));
    assert_eq!(2, below_a.children(0).len());

    let leaf = tree.subtree(5).unwrap();
    assert_eq!(vec![&"e"], items_in_order(&leaf));
    assert!(tree.subtree(6).is_none());

    let owned = tree.into_subtree(2).unwrap();
    assert_eq!(vec!["b", "e"], items_in_order(&owned));
    assert_eq!(vec![(1, &"e")], owned.children(0));
    assert!(sample().into_subtree(9).is_none());
}

#[test]
fn grow_tree_add_tree_into_grafts_a_whole_tree() {
    let mut tree = GrowTree::new("top");
    let x = tree.add_child("x", 0);
    tree.add_tree_into(x, sample());
    assert_eq!(
        vec!["top", "x", "root", "a", "c", "d", "b", "e"],
        items_in_order(&tree)
    );
    assert_eq!(vec![(2, &"root")], tree.children(1));
    assert_eq!(vec![(3, &"a"), (6, &"b")], tree.children(2));
    assert_eq!(vec![(4, &"c"), (5, &"d")], tree.children(3));
    assert_eq!(vec![(7, &"e")], tree.children(6));
}

fn forest() -> VecTree<&'static str> {
    // r1        r2
    //   a         c
    //     b
    let mut tree = VecTree::new();
    let r1 = tree.add("r1", None);
    let a = tree.add("a", Some(r1));
    let r2 = tree.add("r2", None);
    tree.add("b", Some(a));
    tree.add("c", Some(r2));
    tree
}

#[test]
fn vec_tree_starts_empty() {
    let tree: VecTree<u8> = VecTree::new();
    assert!(tree.children(None).is_empty());
    assert!(tree.parent(0).is_none());
    assert!(tree.into_hierarchy().is_empty());
}

#[test]
fn vec_tree_add_returns_rising_indices() {
    let mut tree = VecTree::new();
    assert_eq!(0, tree.add('x', None));
    assert_eq!(1, tree.add('y', Some(0)));
    assert_eq!(2, tree.add('z', None));
    assert_eq!(vec![(0, &'x'), (2, &'z')], tree.children(None));
    assert_eq!(vec![(1, &'y')], tree.children(Some(0)));
    assert!(tree.children(Some(1)).is_empty());
}

#[test]
fn vec_tree_children_and_parents() {
    let tree = forest();
    assert_eq!(vec![(0, &"r1"), (2, &"r2")], tree.children(None));
    assert_eq!(vec![(1, &"a")], tree.children(Some(0)));
    assert_eq!(vec![(3, &"b")], tree.children(Some(1)));
    assert_eq!(vec![(4, &"c")], tree.children(Some(2)));
    assert!(tree.children(Some(4)).is_empty());
    assert_eq!(None, tree.parent(0));
    assert_eq!(Some((0, &"r1")), tree.parent(1));
    assert_eq!(None, tree.parent(2));
    assert_eq!(Some((1, &"a")), tree.parent(3));
    assert_eq!(Some((2, &"r2")), tree.parent(4));
    assert_eq!(None, tree.parent(5));
}

#[test]
fn vec_tree_hierarchy_lists_every_item() {
    assert_eq!(
        vec![
            (0, None, "r1"),
            (1, Some(0), "a"),
            (2, None, "r2"),
            (3, Some(1), "b"),
            (4, Some(2), "c")
        ],
        forest().into_hierarchy()
    );
}

#[test]
fn vec_tree_add_tree_grafts_a_forest() {
    let mut tree = VecTree::new();
    let top = tree.add("top", None);
    let side = tree.add("side", Some(top));
    let added = tree.add_tree(forest(), Some(side));
    assert_eq!(vec![2, 3, 4, 5, 6], added);
    assert_eq!(
        vec![
            (0, None, "top"),
            (1, Some(0), "side"),
            (2, Some(1), "r1"),
            (3, Some(2), "a"),
            (4, Some(1), "r2"),
            (5, Some(3), "b"),
            (6, Some(4), "c")
        ],
        tree.into_hierarchy()
    );

    let mut roots = VecTree::new();
    roots.add("first", None);
    let added = roots.add_tree(forest(), None);
    assert_eq!(vec![1, 2, 3, 4, 5], added);
    assert_eq!(vec![(0, &"first"), (1, &"r1"), (3, &"r2")], roots.children(None));
}
