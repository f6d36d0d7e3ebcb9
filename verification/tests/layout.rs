use grin_terminal::layout::{PaneId, PaneTree, SplitAxis, SplitHandle};

#[test]
fn swaps_panes_without_changing_tree_shape() {
    let mut tree = PaneTree::leaf(PaneId(1));
    tree.split(PaneId(1), PaneId(2), SplitAxis::Vertical);
    tree.split(PaneId(2), PaneId(3), SplitAxis::Horizontal);

    assert_eq!(tree.panes(), vec![PaneId(1), PaneId(2), PaneId(3)]);

    assert!(tree.swap_panes(PaneId(1), PaneId(3)));

    assert_eq!(tree.panes(), vec![PaneId(3), PaneId(2), PaneId(1)]);

    assert!(!tree.swap_panes(PaneId(1), PaneId(99)));
}

#[test]
fn close_collapses_nested_parent_and_preserves_remaining_panes() {
    let mut tree = PaneTree::leaf(PaneId(1));
    tree.split(PaneId(1), PaneId(2), SplitAxis::Vertical);
    tree.split(PaneId(2), PaneId(3), SplitAxis::Horizontal);
    assert_eq!(tree.close(PaneId(2)), Some(PaneId(3)));
    assert_eq!(tree.panes(), vec![PaneId(1), PaneId(3)]);
    assert_eq!(tree.close(PaneId(1)), Some(PaneId(3)));
    assert_eq!(tree, PaneTree::leaf(PaneId(3)));
    assert_eq!(tree.close(PaneId(3)), None);
}

#[test]
fn split_of_a_missing_pane_changes_nothing() {
    let mut tree = PaneTree::leaf(PaneId(4));
    assert!(!tree.split(PaneId(5), PaneId(6), SplitAxis::Horizontal));
    assert_eq!(tree, PaneTree::leaf(PaneId(4)));
    assert!(tree.contains(PaneId(4)));
    assert!(!tree.contains(PaneId(5)));
}

#[test]
fn split_puts_the_new_pane_after_its_target() {
    let mut tree = PaneTree::leaf(PaneId(1));
    tree.split(PaneId(1), PaneId(2), SplitAxis::Vertical);
    tree.split(PaneId(1), PaneId(3), SplitAxis::Vertical);
    assert_eq!(tree.panes(), vec![PaneId(1), PaneId(3), PaneId(2)]);
    let copy = tree.duplicate();
    assert_eq!(copy, tree);
}

#[test]
fn split_handles_keep_their_path() {
    let handle = SplitHandle::from_path(vec![true, false]);
    assert_eq!(handle.path(), &[true, false]);
}
