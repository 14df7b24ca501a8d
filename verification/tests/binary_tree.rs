use lru_cache::binary_tree::BinaryTree;

#[test]
fn add_root() {
    let mut btree = BinaryTree::<u16>::default();
    btree.add(10);

    assert_eq!(btree.get_root(), Some(10))
}

#[test]
fn push_and_get() {
    let mut btree = BinaryTree::<u16>::default();
    btree.add(10);
    btree.add(5);
    assert_eq!(btree.get_root(), Some(10));
    assert_eq!(btree.get(5), Some(5));

    btree.add(7);
    assert_eq!(btree.get(7), Some(7));
    assert_eq!(btree.get_root(), Some(10));
}

#[test]
fn get_missing_value() {
    let mut btree = BinaryTree::<u16>::default();
    assert_eq!(btree.get(3), None);

    btree.add(10);
    btree.add(5);
    assert_eq!(btree.get(3), None);
    assert_eq!(btree.get(11), None);
}

#[test]
fn duplicate_values_are_kept() {
    let mut btree = BinaryTree::<u16>::default();
    btree.add(10);
    btree.add(10);
    btree.add(10);
    assert_eq!(btree.get(10), Some(10));
    assert_eq!(btree.get_root(), Some(10));
}

#[test]
fn empty_tree_has_no_root() {
    let btree = BinaryTree::<u16>::default();
    assert_eq!(btree.get_root(), None);
}
