use std::sync::Arc;

use spritec::scene::node::{Node, NodeData};
use spritec::scene::node_tree::{NodeId, NodeTree};
use spritec::scene::skin::{Joint, Skin};
use spritec::scene::texture::{ImageId, MagFilter, MinFilter, TexImage, Texture, WrappingMode};

type TestNode = Node<i64, &'static str, &'static str, &'static str, &'static str>;

fn node(id: usize, transform: i64) -> TestNode {
    Node { id: NodeId(id), name: Some(format!("node{}", id)), data: None, transform }
}

fn ids(list: &[usize]) -> Vec<NodeId> {
    list.iter().map(|&i| NodeId(i)).collect()
}

/// 0 -> [1, 2], 1 -> [3], 2 -> [4, 5], 4 -> [6]
fn sample_tree() -> NodeTree<TestNode> {
    let children: Vec<Vec<usize>> = vec![vec![1, 2], vec![3], vec![4, 5], vec![], vec![6], vec![], vec![]];
    NodeTree::from_ordered_nodes(
        children.iter().enumerate().map(|(i, c)| (node(i, i as i64 + 1), ids(c))).collect(),
    )
}

#[test]
fn traverse_is_breadth_first_with_parent_positions() {
    let tree = sample_tree();
    let walk = tree.traverse(NodeId(0));
    assert_eq!(
        walk,
        vec![
            (None, NodeId(0)),
            (Some(0), NodeId(1)),
            (Some(0), NodeId(2)),
            (Some(1), NodeId(3)),
            (Some(2), NodeId(4)),
            (Some(2), NodeId(5)),
            (Some(4), NodeId(6)),
        ]
    );
}

#[test]
fn traverse_from_an_inner_node_visits_its_subtree() {
    let tree = sample_tree();
    let walk = tree.traverse(NodeId(2));
    assert_eq!(walk, vec![(None, NodeId(2)), (Some(0), NodeId(4)), (Some(0), NodeId(5)), (Some(1), NodeId(6))]);
}

#[test]
fn world_transforms_follow_parent_positions() {
    // With transforms combined by addition, each node's world value is the sum along its path
    let tree = sample_tree();
    let walk = tree.traverse(NodeId(0));
    let mut world: Vec<i64> = Vec::new();
    for (parent, id) in &walk {
        let parent_value = parent.map(|p| world[p]).unwrap_or(0);
        world.push(parent_value + tree.get(*id).transform);
    }
    // node 6: 1 (node 0) + 3 (node 2) + 5 (node 4) + 7 (node 6)
    assert_eq!(world[6], 16);
}

#[test]
fn traverse_visits_a_shared_child_once() {
    let tree = NodeTree::from_ordered_nodes(vec![(node(0, 0), ids(&[1, 1])), (node(1, 0), ids(&[0]))]);
    assert_eq!(tree.traverse(NodeId(0)), vec![(None, NodeId(0)), (Some(0), NodeId(1))]);
}

#[test]
fn get_and_children() {
    let tree = sample_tree();
    assert_eq!(tree.get(NodeId(4)).id, NodeId(4));
    let children: Vec<NodeId> = tree.children(NodeId(2)).iter().map(|n| n.id).collect();
    assert_eq!(children, ids(&[4, 5]));
    assert!(tree.children(NodeId(3)).is_empty());
}

#[test]
fn with_replacements_replaces_only_what_it_is_asked_to() {
    let tree = sample_tree();
    let replaced = tree.with_replacements(|n: &TestNode| {
        if n.id.0 % 2 == 0 { Some(node(n.id.0, 100)) } else { None }
    });
    for i in 0..7 {
        let expected = if i % 2 == 0 { 100 } else { i as i64 + 1 };
        assert_eq!(replaced.get(NodeId(i)).transform, expected);
    }
    let children: Vec<NodeId> = replaced.children(NodeId(0)).iter().map(|n| n.id).collect();
    assert_eq!(children, ids(&[1, 2]));
    // The tree the replacements were made from is unchanged
    assert_eq!(tree.get(NodeId(0)).transform, 1);
}

#[test]
fn node_data_from_indices() {
    let meshes = vec![Arc::new("mesh0"), Arc::new("mesh1")];
    let skins = vec![Arc::new("skin0")];
    let cameras = vec![Arc::new("cam0")];
    let lights = vec![Arc::new("light0")];
    let data = NodeData::from_indices(Some(1), Some(0), None, None, &meshes, &skins, &cameras, &lights);
    let n: TestNode = Node { id: NodeId(0), name: None, data, transform: 0 };
    let (mesh, skin) = n.mesh().unwrap();
    assert_eq!((**mesh, skin.map(|s| **s)), ("mesh1", Some("skin0")));
    assert!(n.camera().is_none() && n.light().is_none());

    let data = NodeData::from_indices(None, None, Some(0), None, &meshes, &skins, &cameras, &lights);
    let n: TestNode = Node { id: NodeId(1), name: None, data, transform: 0 };
    assert_eq!(n.camera().map(|c| **c), Some("cam0"));
    assert!(n.mesh().is_none());

    let data = NodeData::from_indices(None, None, None, Some(0), &meshes, &skins, &cameras, &lights);
    let n: TestNode = Node { id: NodeId(2), name: None, data, transform: 0 };
    assert_eq!(n.light().map(|l| **l), Some("light0"));

    let data = NodeData::from_indices(None, None, None, None, &meshes, &skins, &cameras, &lights);
    assert!(data.is_none());
}

#[test]
fn skin_joints_pair_nodes_with_matrices() {
    let skin = Skin::from_joints(ids(&[4, 5, 6]), Some(vec![10i64, 20]), 1);
    let joints: Vec<(NodeId, i64)> = skin.joints.iter().map(|j| (j.node_id, j.inverse_bind_matrix)).collect();
    assert_eq!(joints, vec![(NodeId(4), 10), (NodeId(5), 20)]);

    let skin = Skin::from_joints(ids(&[4, 5]), None, 1i64);
    let joints: Vec<(NodeId, i64)> = skin.joints.iter().map(|j| (j.node_id, j.inverse_bind_matrix)).collect();
    assert_eq!(joints, vec![(NodeId(4), 1), (NodeId(5), 1)]);
}

#[test]
fn joint_matrices_multiply_in_order() {
    let skin = Skin {
        joints: vec![
            Joint { node_id: NodeId(1), inverse_bind_matrix: 5i64 },
            Joint { node_id: NodeId(0), inverse_bind_matrix: 7 },
        ],
    };
    let world = [2i64, 3];
    assert_eq!(skin.joint_matrices(11, &world), vec![11 * 3 * 5, 11 * 2 * 7]);
}

#[test]
fn texture_from_sampler() {
    let images = vec![
        Arc::new(TexImage { id: ImageId(0), data: "a" }),
        Arc::new(TexImage { id: ImageId(1), data: "b" }),
    ];
    let texture = Texture::from_sampler(
        1,
        &images,
        Some(MagFilter::Nearest),
        Some(MinFilter::LinearMipmapNearest),
        WrappingMode::Repeat,
        WrappingMode::Repeat,
    );
    assert_eq!(texture.image.id, ImageId(1));
    assert_eq!(texture.magnify_filter, Some(MagFilter::Nearest));
    assert_eq!(texture.minify_filter, Some(MinFilter::LinearMipmapNearest));
    assert_eq!(texture.wrap_function, WrappingMode::Repeat);
}
