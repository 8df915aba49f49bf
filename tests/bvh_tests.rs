use rustic::bvh::{BVHBuilder, BVHNode};

fn leaf(triangle_count: u32, payload: u32) -> BVHNode {
    BVHNode { triangle_count, payload }
}

#[test]
fn builder_starts_with_one_root_leaf() {
    let mut builder = BVHBuilder::new(3);
    assert_eq!(builder.node_count(), 1);
    assert_eq!(builder.node(0), leaf(3, 0));
    assert_eq!(builder.order(), &vec![0, 1, 2]);
    assert_eq!(builder.next_node(), Some(0));
    assert_eq!(builder.next_node(), None);
}

#[test]
fn split_partitions_and_emits_contiguous_children() {
    let mut builder = BVHBuilder::new(4);
    assert_eq!(builder.next_node(), Some(0));
    assert_eq!(builder.split(0, vec![true, false, true, false]), Some(1));
    assert_eq!(builder.order(), &vec![0, 2, 3, 1]);
    assert_eq!(builder.node(0), leaf(0, 1));
    assert_eq!(builder.node(1), leaf(2, 0));
    assert_eq!(builder.node(2), leaf(2, 2));
    // the left child is examined first
    assert_eq!(builder.next_node(), Some(1));
    // one side empty: the node stays a leaf
    assert_eq!(builder.split(1, vec![true, true]), None);
    assert_eq!(builder.node_count(), 3);
    assert_eq!(builder.next_node(), Some(2));
    assert_eq!(builder.split(2, vec![false, true]), Some(3));
    assert_eq!(builder.order(), &vec![0, 2, 1, 3]);
    assert_eq!(builder.next_node(), Some(3));
    assert_eq!(builder.next_node(), Some(4));
    assert_eq!(builder.next_node(), None);
    let (bvh, order) = builder.finish();
    assert_eq!(
        bvh.nodes,
        vec![leaf(0, 1), leaf(2, 0), leaf(0, 3), leaf(1, 2), leaf(1, 3)]
    );
    assert_eq!(order, vec![0, 2, 1, 3]);
    assert!(bvh.nodes.len() <= 2 * 4 - 1);
}

#[test]
fn all_right_split_keeps_leaf() {
    let mut builder = BVHBuilder::new(3);
    builder.next_node();
    assert_eq!(builder.split(0, vec![false, false, false]), None);
    let (bvh, order) = builder.finish();
    assert_eq!(bvh.nodes, vec![leaf(3, 0)]);
    let mut sorted = order.clone();
    sorted.sort();
    assert_eq!(sorted, vec![0, 1, 2]);
}

#[test]
fn single_triangle_is_a_leaf() {
    let builder = BVHBuilder::new(1);
    let (bvh, order) = builder.finish();
    assert_eq!(bvh.nodes, vec![leaf(1, 0)]);
    assert_eq!(order, vec![0]);
}

#[test]
fn node_lanes_accessors() {
    let mut node = leaf(0, 6);
    assert!(!node.is_leaf());
    assert_eq!(node.left_node_index(), 6);
    assert_eq!(node.right_node_index(), 7);
    node.set_triangle_count(2);
    node.set_first_triangle_index(9);
    assert!(node.is_leaf());
    assert_eq!(node.triangle_count(), 2);
    assert_eq!(node.first_triangle_index(), 9);
    node.set_left_node_index(4);
    assert_eq!(node.payload, 4);
}

#[test]
fn finished_tree_has_one_parent_per_node() {
    let mut builder = BVHBuilder::new(4);
    builder.next_node();
    builder.split(0, vec![true, false, true, false]);
    builder.next_node();
    builder.split(1, vec![false, true]);
    let (bvh, _) = builder.finish();
    let nodes = &bvh.nodes;
    for j in 1..nodes.len() {
        let parents = (0..nodes.len())
            .filter(|&i| {
                nodes[i].triangle_count == 0
                    && (nodes[i].payload as usize == j || nodes[i].payload as usize + 1 == j)
            })
            .count();
        assert_eq!(parents, 1);
    }
    let leaves = nodes.iter().filter(|n| n.triangle_count > 0).count();
    assert_eq!(2 * leaves, nodes.len() + 1);
}
