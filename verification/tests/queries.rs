use bst::tree::BST;

const SEED: [i32; 9] = [10, 12, 5, 4, 20, 8, 7, 15, 13];

fn seeded() -> BST<i32> {
    let mut tree: BST<i32> = BST::new();
    for &node in SEED.iter() {
        tree.insert(node);
    }
    tree
}

#[test]
fn seeded_tree_finds_inserted_value() {
    assert!(seeded().search(&8));
}

#[test]
fn seeded_tree_rejects_absent_value() {
    assert!(!seeded().search(&9));
}

#[test]
fn seeded_tree_minimum_is_four() {
    assert_eq!(seeded().minimum(), Some(&4));
}

#[test]
fn seeded_tree_maximum_is_twenty() {
    assert_eq!(seeded().maximum(), Some(&20));
}

#[test]
fn search_is_true_exactly_for_inserted_values() {
    let tree = seeded();
    for q in -5..30 {
        assert_eq!(tree.search(&q), SEED.contains(&q), "query {}", q);
    }
}

#[test]
fn empty_tree_finds_nothing() {
    let tree: BST<i32> = BST::new();
    for q in [i32::MIN, -1, 0, 1, 10, i32::MAX] {
        assert!(!tree.search(&q));
    }
}

#[test]
fn empty_tree_has_no_extremes() {
    let tree: BST<i32> = BST::new();
    assert_eq!(tree.minimum(), None);
    assert_eq!(tree.maximum(), None);
}

#[test]
fn empty_tree_has_no_edges() {
    let tree: BST<u8> = BST::new();
    assert!(tree.edges().is_empty());
}

#[test]
fn from_builds_a_single_node() {
    let tree = BST::from(42u64);
    assert!(tree.search(&42));
    assert!(!tree.search(&41));
    assert_eq!(tree.minimum(), Some(&42));
    assert_eq!(tree.maximum(), Some(&42));
    assert!(tree.edges().is_empty());
}

#[test]
fn first_insert_fills_the_empty_root() {
    let mut tree: BST<i32> = BST::new();
    tree.insert(3);
    assert!(tree.search(&3));
    assert_eq!(tree.minimum(), Some(&3));
    assert_eq!(tree.maximum(), Some(&3));
    assert!(tree.edges().is_empty());
}

#[test]
fn extremes_match_smallest_and_largest_inserted() {
    let batches: [&[i64]; 5] = [
        &[0],
        &[3, 1, 2],
        &[-7, 9, -7, 9, 0],
        &[5, 4, 3, 2, 1],
        &[i64::MIN, i64::MAX, 0],
    ];
    for batch in batches {
        let mut tree: BST<i64> = BST::new();
        for &v in batch.iter() {
            tree.insert(v);
        }
        assert_eq!(tree.minimum(), batch.iter().min());
        assert_eq!(tree.maximum(), batch.iter().max());
    }
}

#[test]
fn smaller_values_hang_left_and_larger_right() {
    let mut tree: BST<i32> = BST::new();
    for v in [2, 3, 1] {
        tree.insert(v);
    }
    assert_eq!(tree.edges(), vec![(2, 1), (2, 3)]);
}

#[test]
fn ascending_input_degenerates_to_a_right_chain() {
    let mut tree: BST<i32> = BST::new();
    for v in [1, 2, 3, 4] {
        tree.insert(v);
    }
    assert_eq!(tree.edges(), vec![(1, 2), (2, 3), (3, 4)]);
    assert_eq!(tree.minimum(), Some(&1));
    assert_eq!(tree.maximum(), Some(&4));
}

#[test]
fn descending_input_degenerates_to_a_left_chain() {
    let mut tree: BST<i32> = BST::new();
    for v in [4, 3, 2, 1] {
        tree.insert(v);
    }
    assert_eq!(tree.edges(), vec![(4, 3), (3, 2), (2, 1)]);
}

#[test]
fn duplicate_is_kept_as_a_second_node() {
    let mut tree: BST<i32> = BST::new();
    tree.insert(5);
    tree.insert(5);
    assert_eq!(tree.edges(), vec![(5, 5)]);
    assert!(tree.search(&5));
    assert_eq!(tree.minimum(), Some(&5));
    assert_eq!(tree.maximum(), Some(&5));
}

#[test]
fn duplicate_lands_left_of_its_first_occurrence() {
    let mut tree: BST<i32> = BST::new();
    for v in [5, 5, 6] {
        tree.insert(v);
    }
    // Links are listed left side first: had the duplicate gone right, the
    // 6 would hang below it instead of below the root.
    assert_eq!(tree.edges(), vec![(5, 5), (5, 6)]);
}

#[test]
fn duplicate_of_an_inner_value_descends_left_of_it() {
    let mut tree: BST<i32> = BST::new();
    for v in [10, 5, 3, 7, 5] {
        tree.insert(v);
    }
    assert_eq!(tree.edges(), vec![(10, 5), (5, 3), (3, 5), (5, 7)]);
}

#[test]
fn edges_are_one_fewer_than_values() {
    assert_eq!(seeded().edges().len(), SEED.len() - 1);
}

#[test]
fn seeded_tree_has_the_expected_edges() {
    assert_eq!(
        seeded().edges(),
        vec![(10, 5), (5, 4), (5, 8), (8, 7), (10, 12), (12, 20), (20, 15), (15, 13)]
    );
}

#[test]
fn tree_orders_tuples_lexicographically() {
    let mut tree: BST<(u8, u8)> = BST::new();
    for v in [(1, 9), (1, 2), (0, 200), (2, 0)] {
        tree.insert(v);
    }
    assert_eq!(tree.minimum(), Some(&(0, 200)));
    assert_eq!(tree.maximum(), Some(&(2, 0)));
    assert!(tree.search(&(1, 2)));
    assert!(!tree.search(&(1, 3)));
}
