use dheap::{Dheap, HeapError};

fn is_heap(nodes: &[i32], d: usize) -> bool {
    let mut ok = true;
    for (i, key) in nodes.iter().enumerate() {
        if i > 0 && *key > nodes[(i - 1) / d] {
            ok = false;
        }
    }
    ok
}

fn sorted(nodes: &[i32]) -> Vec<i32> {
    let mut v = nodes.to_vec();
    v.sort();
    v
}

#[test]
fn index_math_for_three_children() {
    let heap = Dheap::new(3, vec![70, 60, 50, 40, 30, 20, 10]);
    assert_eq!(heap.parent_of(3), 0);
    assert_eq!(heap.parent_of(6), 1);
    assert_eq!(heap.nth_child_of(0, 0), 1);
    assert_eq!(heap.nth_child_of(2, 0), 3);
}

#[test]
fn index_math_parent_of_every_child() {
    let heap = Dheap::new(4, vec![1, 2, 3]);
    for i in 0..50usize {
        for n in 0..4usize {
            let c: usize = heap.nth_child_of(n, i);
            assert_eq!(c, 4 * i + n + 1);
            assert_eq!(heap.parent_of(c), i);
        }
    }
}

#[test]
fn build_binary_heap_then_extract() {
    let mut heap = Dheap::new(2, vec![3, 1, 6, 5, 2, 4]);
    assert!(is_heap(&heap.nodes, 2));
    assert_eq!(heap.nodes[0], 6);
    assert_eq!(heap.nodes, vec![6, 5, 4, 1, 2, 3]);
    assert_eq!(heap.extract_max(), Ok(6));
    assert_eq!(heap.nodes.len(), 5);
    assert!(is_heap(&heap.nodes, 2));
    assert_eq!(heap.nodes, vec![5, 3, 4, 1, 2]);
}

#[test]
fn build_ternary_heap_root() {
    let heap = Dheap::new(3, vec![5, 2, 8, 1, 9]);
    assert_eq!(heap.nodes[0], 9);
    assert_eq!(heap.nodes, vec![9, 5, 8, 1, 2]);
    assert!(is_heap(&heap.nodes, 3));
}

#[test]
fn build_reaches_the_last_parent() {
    // With four children per node and six nodes, node 1 has the one child 5.
    let heap = Dheap::new(4, vec![9, 1, 8, 7, 6, 5]);
    assert!(is_heap(&heap.nodes, 4));
    assert_eq!(heap.nodes, vec![9, 5, 8, 7, 6, 1]);
}

#[test]
fn increase_key_bubbles_to_root() {
    let mut heap = Dheap::new(2, vec![20, 15, 10, 12, 9]);
    assert_eq!(heap.nodes, vec![20, 15, 10, 12, 9]);
    assert_eq!(heap.increase_key(4, 100), Ok(()));
    assert_eq!(heap.nodes[0], 100);
    assert_eq!(heap.nodes, vec![100, 20, 10, 12, 15]);
    assert!(is_heap(&heap.nodes, 2));
}

#[test]
fn increase_key_refuses_smaller_key() {
    let mut heap = Dheap::new(2, vec![20, 15, 10, 12, 9]);
    assert_eq!(heap.increase_key(4, 1), Err(HeapError::KeyNotIncreasing));
    assert_eq!(heap.nodes, vec![20, 15, 10, 12, 9]);
}

#[test]
fn increase_key_accepts_equal_key() {
    let mut heap = Dheap::new(2, vec![20, 15, 10, 12, 9]);
    assert_eq!(heap.increase_key(4, 9), Ok(()));
    assert_eq!(heap.nodes, vec![20, 15, 10, 12, 9]);
}

#[test]
fn increase_key_stops_under_equal_parent() {
    let mut heap = Dheap::new(2, vec![20, 15, 10, 12, 9]);
    assert_eq!(heap.increase_key(4, 15), Ok(()));
    assert_eq!(heap.nodes, vec![20, 15, 10, 12, 15]);
}

#[test]
fn increase_key_refuses_missing_index() {
    let mut heap = Dheap::new(2, vec![20, 15, 10, 12, 9]);
    assert_eq!(heap.increase_key(5, 100), Err(HeapError::IndexNotFound));
    assert_eq!(heap.nodes, vec![20, 15, 10, 12, 9]);
    let mut empty = Dheap::new(2, Vec::new());
    assert_eq!(empty.increase_key(0, 1), Err(HeapError::IndexNotFound));
    assert!(empty.nodes.is_empty());
}

#[test]
fn delete_inner_node() {
    let mut heap = Dheap::new(2, vec![6, 5, 4, 1, 2, 3]);
    assert_eq!(heap.nodes, vec![6, 5, 4, 1, 2, 3]);
    let before: i32 = heap.nodes[2];
    assert_eq!(heap.delete(2), Ok(before));
    assert_eq!(heap.nodes.len(), 5);
    assert!(is_heap(&heap.nodes, 2));
    assert_eq!(heap.nodes, vec![6, 5, 3, 1, 2]);
}

#[test]
fn delete_refuses_missing_index() {
    let mut heap = Dheap::new(2, vec![6, 5, 4]);
    assert_eq!(heap.delete(3), Err(HeapError::IndexNotFound));
    assert_eq!(heap.nodes, vec![6, 5, 4]);
}

#[test]
fn delete_root_and_last() {
    let mut heap = Dheap::new(3, vec![9, 5, 8, 1, 2]);
    assert_eq!(heap.delete(0), Ok(9));
    assert_eq!(sorted(&heap.nodes), vec![1, 2, 5, 8]);
    assert!(is_heap(&heap.nodes, 3));
    let last: usize = heap.nodes.len() - 1;
    let key: i32 = heap.nodes[last];
    assert_eq!(heap.delete(last), Ok(key));
    assert_eq!(heap.nodes.len(), 3);
    assert!(is_heap(&heap.nodes, 3));
}

#[test]
fn delete_under_a_largest_possible_key() {
    let mut heap = Dheap::new(2, vec![i32::MAX, i32::MAX, 5]);
    assert_eq!(heap.delete(2), Ok(5));
    assert_eq!(heap.nodes, vec![i32::MAX, i32::MAX]);
}

#[test]
fn delete_only_node() {
    let mut heap = Dheap::new(2, vec![7]);
    assert_eq!(heap.delete(0), Ok(7));
    assert!(heap.nodes.is_empty());
}

#[test]
fn extract_from_empty_heap() {
    let mut heap = Dheap::new(2, Vec::new());
    assert_eq!(heap.extract_max(), Err(HeapError::EmptyHeap));
    assert!(heap.nodes.is_empty());
    assert_eq!(heap.d, 2);
}

#[test]
fn extract_returns_keys_in_descending_order() {
    let mut heap = Dheap::new(3, vec![4, -7, 19, 0, 4, 33, -2, 8, 15, 1]);
    let mut out: Vec<i32> = Vec::new();
    while !heap.nodes.is_empty() {
        let len: usize = heap.nodes.len();
        let top: i32 = heap.extract_max().unwrap();
        assert_eq!(heap.nodes.len(), len - 1);
        assert!(heap.nodes.iter().all(|k| *k <= top));
        assert!(is_heap(&heap.nodes, 3));
        out.push(top);
    }
    assert_eq!(out, vec![33, 19, 15, 8, 4, 4, 1, 0, -2, -7]);
}

#[test]
fn insert_grows_by_one_and_keeps_order() {
    let mut heap = Dheap::new(2, Vec::new());
    let keys: Vec<i32> = vec![5, 1, 9, i32::MIN, 9, i32::MAX, 0];
    for (n, key) in keys.iter().enumerate() {
        heap.insert(*key);
        assert_eq!(heap.nodes.len(), n + 1);
        assert!(is_heap(&heap.nodes, 2));
    }
    assert_eq!(sorted(&heap.nodes), sorted(&keys));
    assert_eq!(heap.nodes[0], i32::MAX);
}

#[test]
fn insert_places_key_by_sifting_up() {
    let mut heap = Dheap::new(2, vec![20, 15, 10, 12, 9]);
    heap.insert(17);
    assert_eq!(heap.nodes, vec![20, 15, 17, 12, 9, 10]);
}

#[test]
fn build_keeps_the_keys() {
    let keys: Vec<i32> = vec![3, 3, -1, 12, 7, 7, 7, 0, 25, -30, 4];
    for d in 2..6usize {
        let heap = Dheap::new(d, keys.clone());
        assert_eq!(heap.d, d);
        assert!(is_heap(&heap.nodes, d));
        assert_eq!(sorted(&heap.nodes), sorted(&keys));
    }
}

#[test]
fn build_moves_nothing_in_a_heap() {
    let mut heap = Dheap::new(3, vec![5, 2, 8, 1, 9, 4, 4, 6]);
    let first: Vec<i32> = heap.nodes.clone();
    heap.build_max_heap();
    assert_eq!(heap.nodes, first);
    let again = Dheap::new(3, first.clone());
    assert_eq!(again.nodes, first);
}

#[test]
fn build_of_nothing_and_of_one() {
    let empty = Dheap::new(5, Vec::new());
    assert!(empty.nodes.is_empty());
    let one = Dheap::new(5, vec![-4]);
    assert_eq!(one.nodes, vec![-4]);
}

#[test]
fn max_heapify_sifts_one_node_down() {
    let mut heap = Dheap { d: 2, nodes: vec![1, 9, 8, 7, 6, 5] };
    heap.max_heapify(0);
    assert_eq!(heap.nodes, vec![9, 7, 8, 1, 6, 5]);
}

#[test]
fn max_heapify_prefers_the_leftmost_largest_child() {
    let mut heap = Dheap { d: 3, nodes: vec![1, 5, 5, 5] };
    heap.max_heapify(0);
    assert_eq!(heap.nodes, vec![5, 1, 5, 5]);
}

#[test]
fn max_heapify_leaves_leaves_and_positions_outside() {
    let mut heap = Dheap { d: 2, nodes: vec![1, 9, 8] };
    heap.max_heapify(1);
    heap.max_heapify(2);
    heap.max_heapify(3);
    heap.max_heapify(usize::MAX);
    assert_eq!(heap.nodes, vec![1, 9, 8]);
}

#[test]
fn widest_branching_factor() {
    let mut heap = Dheap::new(usize::MAX, vec![1, 2, 3]);
    assert_eq!(heap.nodes, vec![3, 2, 1]);
    assert_eq!(heap.render(), "(3) (2,1)");
    assert_eq!(heap.height(), Some(1));
    heap.insert(10);
    assert_eq!(heap.nodes[0], 10);
    assert_eq!(heap.extract_max(), Ok(10));
    assert!(is_heap(&heap.nodes, usize::MAX));
}

#[test]
fn mixed_operations_keep_order_and_size() {
    let mut heap = Dheap::new(3, vec![10, 40, 30, 20]);
    assert!(is_heap(&heap.nodes, 3));
    heap.insert(35);
    assert_eq!(heap.nodes.len(), 5);
    assert!(is_heap(&heap.nodes, 3));
    assert_eq!(heap.increase_key(4, 50), Ok(()));
    assert_eq!(heap.nodes.len(), 5);
    assert!(is_heap(&heap.nodes, 3));
    assert_eq!(heap.increase_key(9, 50), Err(HeapError::IndexNotFound));
    assert_eq!(heap.nodes.len(), 5);
    assert_eq!(heap.extract_max(), Ok(50));
    assert_eq!(heap.nodes.len(), 4);
    assert!(is_heap(&heap.nodes, 3));
    assert_eq!(heap.delete(7), Err(HeapError::IndexNotFound));
    assert_eq!(heap.nodes.len(), 4);
    let key: i32 = heap.nodes[1];
    assert_eq!(heap.delete(1), Ok(key));
    assert_eq!(heap.nodes.len(), 3);
    assert!(is_heap(&heap.nodes, 3));
    assert_eq!(heap.d, 3);
}
