use zawgl::repository::index::b_tree::{
    insert_into_leaf_root, split_interior,
    attach_split, binary_search_keys, compare_bytes, drop_step, get_node_ptr, insert_step, merge_sibling, search_step,
    split_leaf, split_node_cells, tree_insert, tree_keys, tree_search, DropStep, InsertStep, SearchStep, TreeInsert,
};
use zawgl::repository::index::model::{BTreeNode, Cell};
use zawgl::repository::index::store::BTreeNodePool;

fn leaf(keys: &[(&str, u64)]) -> BTreeNode {
    let cells = keys.iter().map(|(k, p)| Cell::new_leaf(k, *p)).collect();
    BTreeNode::new(true, false, cells)
}

fn interior(first_child: u64, keys: &[(&str, u64)]) -> BTreeNode {
    let cells = keys.iter().map(|(k, p)| Cell::new_ptr(k, Some(*p))).collect();
    let mut n = BTreeNode::new(false, false, cells);
    n.set_node_ptr(Some(first_child));
    n
}

#[test]
fn test_compare_bytes() {
    assert!(compare_bytes(b"abc", b"abd") < 0);
    assert!(compare_bytes(b"abd", b"abc") > 0);
    assert_eq!(compare_bytes(b"abc", b"abc"), 0);
    assert!(compare_bytes(b"ab", b"abc") < 0);
    assert!(compare_bytes(b"", b"a") < 0);
    assert!(compare_bytes(b"b", b"abc") > 0);
}

#[test]
fn test_binary_search_keys() {
    let keys = ["b", "d", "f", "h"];
    assert_eq!(binary_search_keys(&keys, "d"), Ok(1));
    assert_eq!(binary_search_keys(&keys, "h"), Ok(3));
    assert_eq!(binary_search_keys(&keys, "a"), Err(0));
    assert_eq!(binary_search_keys(&keys, "e"), Err(2));
    assert_eq!(binary_search_keys(&keys, "z"), Err(4));
    assert_eq!(binary_search_keys(&[], "a"), Err(0));
    for k in ["a", "b", "c", "d", "e", "f", "g", "h", "i"] {
        assert_eq!(binary_search_keys(&keys, k), keys.binary_search_by(|p| p.cmp(&k)));
    }
}

#[test]
fn test_get_node_ptr() {
    let n = interior(10, &[("c", 11), ("m", 12)]);
    assert_eq!(get_node_ptr(0, &n), Some(10));
    assert_eq!(get_node_ptr(1, &n), Some(11));
    assert_eq!(get_node_ptr(2, &n), Some(12));
    let l = leaf(&[("a", 1)]);
    assert_eq!(get_node_ptr(0, &l), None);
    assert_eq!(get_node_ptr(1, &l), None);
}

#[test]
fn test_search_step() {
    let l = leaf(&[("apple", 1), ("kiwi", 2)]);
    assert!(matches!(search_step(&l, "kiwi"), SearchStep::Found(p) if p == vec![2]));
    assert!(matches!(search_step(&l, "fig"), SearchStep::Missing));
    let n = interior(10, &[("c", 11), ("m", 12)]);
    assert!(matches!(search_step(&n, "a"), SearchStep::Descend(10)));
    assert!(matches!(search_step(&n, "c"), SearchStep::Descend(11)));
    assert!(matches!(search_step(&n, "d"), SearchStep::Descend(11)));
    assert!(matches!(search_step(&n, "z"), SearchStep::Descend(12)));
}

#[test]
fn test_insert_step_then_search() {
    let mut l = leaf(&[("b", 1), ("d", 2)]);
    assert!(matches!(insert_step(&mut l, "c", 7), InsertStep::Done));
    assert_eq!(l.get_keys(), vec!["b", "c", "d"]);
    assert!(matches!(search_step(&l, "c"), SearchStep::Found(p) if p == vec![7]));
    assert!(matches!(insert_step(&mut l, "c", 8), InsertStep::Done));
    assert!(matches!(search_step(&l, "c"), SearchStep::Found(p) if p == vec![7, 8]));
    assert!(l.get_cell_ref(1).get_change_state().is_added());
    let n = interior(10, &[("c", 11)]);
    let mut n2 = n;
    assert!(matches!(insert_step(&mut n2, "a", 1), InsertStep::Descend(10)));
    assert!(matches!(insert_step(&mut n2, "x", 1), InsertStep::Descend(11)));
}

#[test]
fn test_insert_step_full_leaf() {
    let keys: Vec<String> = (0..10).map(|i| format!("k{}", i)).collect();
    let pairs: Vec<(&str, u64)> = keys.iter().map(|k| (k.as_str(), 1)).collect();
    let mut l = leaf(&pairs);
    assert!(l.is_full());
    assert!(matches!(insert_step(&mut l, "k45", 3), InsertStep::SplitLeaf(5)));
    assert_eq!(l.get_cells_ref().len(), 10);
}

#[test]
fn test_attach_split() {
    let mut n = interior(10, &[("c", 11), ("m", 12)]);
    assert_eq!(attach_split(&mut n, "f", Some(20)), None);
    assert_eq!(n.get_keys(), vec!["c", "f", "m"]);
    assert_eq!(n.get_cell_ref(1).get_node_ptr(), Some(20));
    assert_eq!(attach_split(&mut n, "m", Some(30)), None);
    assert_eq!(n.get_cell_ref(2).get_node_ptr(), Some(30));
    let keys: Vec<String> = (0..10).map(|i| format!("k{}", i)).collect();
    let pairs: Vec<(&str, u64)> = keys.iter().map(|k| (k.as_str(), 1)).collect();
    let mut full = interior(1, &pairs);
    assert_eq!(attach_split(&mut full, "k99", Some(5)), Some(10));
}

#[test]
fn test_split_node_cells() {
    let keys: Vec<String> = (0..10).map(|i| format!("k{}", i)).collect();
    let pairs: Vec<(&str, u64)> = keys.iter().map(|k| (k.as_str(), 1)).collect();
    let mut l = leaf(&pairs);
    let upper = split_node_cells(&mut l, 3, Cell::new_leaf("k25", 9));
    assert_eq!(l.get_keys(), vec!["k0", "k1", "k2", "k25", "k3"]);
    let upper_keys: Vec<&str> = upper.iter().map(|c| c.get_key().as_str()).collect();
    assert_eq!(upper_keys, vec!["k4", "k5", "k6", "k7", "k8", "k9"]);
    assert!(upper.iter().all(|c| c.get_change_state().is_removed()));
    let log = l.get_node_changes_state().get_list_change_log();
    assert_eq!(log.len(), 7);
    assert!(log[0].is_add() && log[0].index() == 3);
    assert!(log[1].is_remove() && log[1].index() == 10);
    assert!(log[6].is_remove() && log[6].index() == 5);
}

#[test]
fn test_drop_step() {
    let mut l = leaf(&[("b", 1), ("d", 2)]);
    assert!(matches!(drop_step(&mut l, "c"), DropStep::Absent));
    assert!(matches!(drop_step(&mut l, "d"), DropStep::Removed));
    assert!(l.get_cell_ref(1).get_change_state().is_removed());
    let log = l.get_node_changes_state().get_list_change_log();
    assert_eq!(log.len(), 1);
    assert!(log[0].is_remove() && log[0].index() == 1);
    let mut n = interior(10, &[("c", 11), ("m", 12)]);
    assert!(matches!(drop_step(&mut n, "m"), DropStep::Descend { index: 1, found: true, child: Some(12) }));
    assert!(matches!(drop_step(&mut n, "a"), DropStep::Descend { index: 0, found: false, child: Some(10) }));
    assert!(matches!(drop_step(&mut n, "e"), DropStep::Descend { index: 1, found: false, child: Some(11) }));
    assert!(n.get_node_changes_state().get_list_change_log().is_empty());
}

#[test]
fn test_merge_sibling() {
    let n = interior(10, &[("c", 11), ("m", 12)]);
    assert_eq!(merge_sibling(&n, 0, true), Some(10));
    assert_eq!(merge_sibling(&n, 1, true), Some(11));
    assert_eq!(merge_sibling(&n, 0, false), None);
    assert_eq!(merge_sibling(&n, 1, false), Some(10));
    assert_eq!(merge_sibling(&n, 2, false), Some(11));
}

fn small_tree() -> BTreeNodePool {
    let mut pool = BTreeNodePool::new();
    let root = BTreeNode::new_with_id(Some(1), Some(2), false, true, vec![Cell::new_ptr("m", Some(3))]);
    let left = BTreeNode::new_with_id(Some(2), None, true, false, vec![Cell::new_leaf("a", 10), Cell::new_leaf("c", 11)]);
    let right = BTreeNode::new_with_id(Some(3), None, true, false, vec![Cell::new_leaf("m", 12), Cell::new_leaf("x", 13)]);
    pool.put(root);
    pool.put(left);
    pool.put(right);
    pool
}

#[test]
fn test_tree_search() {
    let pool = small_tree();
    assert_eq!(tree_search(&pool, "c", 1), Some(vec![11]));
    assert_eq!(tree_search(&pool, "a", 1), Some(vec![10]));
    assert_eq!(tree_search(&pool, "m", 1), Some(vec![12]));
    assert_eq!(tree_search(&pool, "x", 1), Some(vec![13]));
    assert_eq!(tree_search(&pool, "b", 1), None);
    assert_eq!(tree_search(&pool, "z", 1), None);
    assert_eq!(tree_search(&pool, "a", 99), None);
}

#[test]
fn test_tree_insert_then_search() {
    let mut pool = small_tree();
    assert!(matches!(tree_insert(&mut pool, "b", 20, 1), TreeInsert::Done));
    assert_eq!(tree_search(&pool, "b", 1), Some(vec![20]));
    assert!(matches!(tree_insert(&mut pool, "c", 21, 1), TreeInsert::Done));
    assert_eq!(tree_search(&pool, "c", 1), Some(vec![11, 21]));
    assert!(matches!(tree_insert(&mut pool, "q", 22, 1), TreeInsert::Done));
    assert_eq!(tree_search(&pool, "q", 1), Some(vec![22]));
    assert_eq!(tree_search(&pool, "a", 1), Some(vec![10]));
    assert!(matches!(tree_insert(&mut pool, "a", 1, 42), TreeInsert::Missing));
}

#[test]
fn test_tree_insert_full_leaf() {
    let mut pool = BTreeNodePool::new();
    let keys: Vec<String> = (0..10).map(|i| format!("k{}", i)).collect();
    let cells = keys.iter().map(|k| Cell::new_leaf(k, 1)).collect();
    pool.put(BTreeNode::new_with_id(Some(7), None, true, true, cells));
    assert!(matches!(tree_insert(&mut pool, "k45", 2, 7), TreeInsert::SplitLeaf(7, 5)));
    assert_eq!(tree_search(&pool, "k45", 7), None);
}

#[test]
fn test_tree_keys() {
    let pool = small_tree();
    assert_eq!(tree_keys(&pool, 3), Some(vec!["m".to_string(), "x".to_string()]));
    assert_eq!(tree_keys(&pool, 1), Some(vec!["m".to_string(), "x".to_string()]));
    assert_eq!(tree_keys(&pool, 2), Some(vec!["a".to_string(), "c".to_string()]));
    assert_eq!(tree_keys(&pool, 42), None);
    let mut broken = BTreeNodePool::new();
    broken.put(BTreeNode::new_with_id(Some(1), None, false, true, vec![Cell::new_ptr("k", Some(5))]));
    assert_eq!(tree_keys(&broken, 1), None);
}

#[test]
fn test_split_root_leaf_then_search() {
    let mut pool = BTreeNodePool::new();
    let keys: Vec<String> = (0..10).map(|i| format!("k{}", i)).collect();
    let cells = keys.iter().enumerate().map(|(i, k)| Cell::new_leaf(k, i as u64)).collect();
    pool.put(BTreeNode::new_with_id(Some(7), None, true, true, cells));
    let i = match tree_insert(&mut pool, "k45", 99, 7) {
        TreeInsert::SplitLeaf(7, i) => i,
        _ => panic!("expected a split"),
    };
    assert_eq!(split_leaf(&mut pool, 7, i, "k45", 99, 8, 9), None);
    assert_eq!(tree_keys(&pool, 7), Some(vec!["k0", "k1", "k2", "k3", "k4"].into_iter().map(String::from).collect()));
    assert_eq!(tree_search(&pool, "k45", 9), Some(vec![99]));
    assert_eq!(tree_search(&pool, "k1", 9), Some(vec![1]));
    assert_eq!(tree_search(&pool, "k9", 9), Some(vec![9]));
    assert_eq!(tree_search(&pool, "k5", 9), Some(vec![5]));
    assert_eq!(tree_search(&pool, "k55", 9), None);
    assert_eq!(tree_keys(&pool, 9), Some(vec!["k45", "k5", "k6", "k7", "k8", "k9"].into_iter().map(String::from).collect()));
}

#[test]
fn test_split_inner_leaf_answers_new_leaf() {
    let mut pool = BTreeNodePool::new();
    let keys: Vec<String> = (0..10).map(|i| format!("k{}", i)).collect();
    let cells = keys.iter().map(|k| Cell::new_leaf(k, 1)).collect();
    pool.put(BTreeNode::new_with_id(Some(3), Some(4), true, false, cells));
    assert_eq!(split_leaf(&mut pool, 3, 10, "kz", 2, 5, 6), Some(5));
    assert_eq!(tree_search(&pool, "kz", 5), Some(vec![2]));
    assert_eq!(tree_search(&pool, "k0", 3), Some(vec![1]));
    assert_eq!(tree_search(&pool, "k9", 3), None);
}

#[test]
fn test_insert_into_leaf_root_grows_the_tree() {
    let mut pool = BTreeNodePool::new();
    pool.put(BTreeNode::new_with_id(Some(1), None, true, true, vec![]));
    let mut root = 1;
    for i in 0..10u64 {
        root = insert_into_leaf_root(&mut pool, &format!("k{}", i), i, root, 100, 101);
        assert_eq!(root, 1);
    }
    root = insert_into_leaf_root(&mut pool, "k3", 33, root, 100, 101);
    assert_eq!(root, 1);
    root = insert_into_leaf_root(&mut pool, "k35", 35, root, 100, 101);
    assert_eq!(root, 101);
    for i in 0..10u64 {
        let expected = if i == 3 { vec![3, 33] } else { vec![i] };
        assert_eq!(tree_search(&pool, &format!("k{}", i), root), Some(expected));
    }
    assert_eq!(tree_search(&pool, "k35", root), Some(vec![35]));
    assert_eq!(tree_search(&pool, "k99", root), None);
}

#[test]
fn test_split_interior_root() {
    let mut pool = BTreeNodePool::new();
    let keys: Vec<String> = (0..10).map(|i| format!("k{}", i)).collect();
    let cells = keys.iter().enumerate().map(|(i, k)| Cell::new_ptr(k, Some(100 + i as u64))).collect();
    pool.put(BTreeNode::new_with_id(Some(1), Some(50), false, true, cells));
    assert_eq!(split_interior(&mut pool, 1, 4, "k35", Some(103), Some(200), 2, 3), None);
    let root = pool.get_ref(&3).unwrap();
    assert!(root.is_root() && !root.is_leaf());
    assert_eq!(root.get_keys(), vec!["k4"]);
    assert_eq!(root.get_node_ptr(), Some(1));
    let left = pool.get_ref(&1).unwrap();
    assert_eq!(left.get_keys(), vec!["k0", "k1", "k2", "k3", "k35"]);
    assert!(!left.is_root());
    let right = pool.get_ref(&2).unwrap();
    assert_eq!(right.get_keys(), vec!["k4", "k5", "k6", "k7", "k8", "k9"]);
    assert_eq!(right.get_node_ptr(), Some(103));
}
