use cookbook::trees::{example_tree, BtNode};

#[test]
fn check_depth_first_search() {
    let root = example_tree();
    let res = root.depth_first_search();
    assert_eq!(res, vec![5, 4, 2, 1, 7, 6, 8]);
}

#[test]
fn check_breadth_depth_search() {
    let root = example_tree();
    let res = root.breadth_first_search();
    assert_eq!(res, vec![5, 4, 7, 2, 6, 8, 1]);
}

#[test]
fn single_node_traversals() {
    let root = BtNode::from(3);
    assert_eq!(root.depth_first_search(), vec![3]);
    assert_eq!(root.breadth_first_search(), vec![3]);
}

#[test]
fn equal_values_go_left() {
    let mut root = BtNode::from(3);
    root.insert(3);
    root.insert(4);
    root.insert(3);
    assert!(root.r.as_ref().unwrap().val == 4);
    assert_eq!(root.depth_first_search(), vec![3, 3, 3, 4]);
    assert_eq!(root.breadth_first_search(), vec![3, 3, 4, 3]);
}

#[test]
fn insertion_keeps_every_value() {
    let mut root = BtNode::from(0);
    let values = [7, -3, 12, 5, -3, 0, i32::MAX, i32::MIN];
    for v in values {
        root.insert(v);
    }
    let mut expected = vec![0, 7, -3, 12, 5, -3, 0, i32::MAX, i32::MIN];
    expected.sort();
    let mut dfs = root.depth_first_search();
    dfs.sort();
    let mut bfs = root.breadth_first_search();
    bfs.sort();
    assert_eq!(dfs, expected);
    assert_eq!(bfs, expected);
}
