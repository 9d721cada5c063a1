//! The node hierarchy of a scene

use vstd::prelude::*;

use std::sync::Arc;

use vstd::set_lib::set_int_range;

verus! {

/// The ID of a node: its index among the nodes of its file. No other node has this ID.
#[derive(Debug, Clone, Copy, PartialEq, Eq, Hash, Structural)]
pub struct NodeId(pub usize);

/// A node of the tree together with its children
#[derive(Debug)]
struct NodeTreeEntry<N> {
    /// The data for this node
    node: Arc<N>,
    /// The children of this node
    ///
    /// Each child's global transform is dependent on the parent node's transform
    children: Arc<Vec<NodeId>>,
}

/// The nodes `N` of a file and the children of each, indexed by node ID
#[derive(Debug)]
pub struct NodeTree<N> {
    /// The nodes and their children, indexed by the node ID
    nodes: Vec<NodeTreeEntry<N>>,
}

/// A node and the IDs of its children in order
spec fn entry_view<N>(entry: NodeTreeEntry<N>) -> (N, Seq<NodeId>) {
    (*entry.node, entry.children@)
}

/// A node and its children once the node is replaced by the replacement, if any
pub open spec fn replaced<N>(entry: (N, Seq<NodeId>), replacement: Option<N>) -> (N, Seq<NodeId>) {
    (
        match replacement {
            Some(node) => node,
            None => entry.0,
        },
        entry.1,
    )
}

impl<N> NodeTree<N> {
    /// The nodes, by ID, each with the IDs of its children in order
    pub closed spec fn view(&self) -> Seq<(N, Seq<NodeId>)> {
        self.nodes@.map_values(|entry: NodeTreeEntry<N>| entry_view(entry))
    }

    /// Every child of every node is a node of the tree
    pub open spec fn children_in_tree(&self) -> bool {
        forall|i: int, j: int|
            0 <= i < self.view().len() && 0 <= j < self.view()[i].1.len() ==> (
            #[trigger] self.view()[i].1[j]).0 < self.view().len()
    }

    /// Creates a node tree from the nodes and their children, ordered by node ID
    pub fn from_ordered_nodes(nodes: Vec<(N, Vec<NodeId>)>) -> (tree: Self)
        ensures
            tree.view().len() == nodes@.len(),
            forall|i: int|
                0 <= i < nodes@.len() ==> #[trigger] tree.view()[i] == (nodes@[i].0, nodes@[i].1@),
    {
        let ghost input = nodes@;
        let mut entries: Vec<NodeTreeEntry<N>> = Vec::new();
        for item in item_iter: nodes.into_iter()
            invariant
                item_iter.seq() == input,
                entries@.len() == item_iter.index(),
                forall|i: int|
                    0 <= i < entries@.len() ==> (#[trigger] entries@[i]).node == input[i].0
                        && entries@[i].children@ == input[i].1@,
        {
            let (node, children) = item;
            entries.push(NodeTreeEntry { node: Arc::new(node), children: Arc::new(children) });
        }
        NodeTree { nodes: entries }
    }

    /// Returns a new copy of this tree with certain nodes replaced. Note that this does not
    /// change the structure of the node hierarchy. It only replaces certain nodes with other
    /// nodes.
    ///
    /// The `replace` function takes a node and returns either a new version of it or `None`.
    /// If `None` is returned, no replacement is performed.
    ///
    /// Note: Even if no replacements are actually performed, this function *always* makes a
    /// complete copy of the tree. The copy is relatively cheap since the nodes themselves are
    /// reference counted, but it still requires allocating memory to store the new copies of
    /// the nodes.
    pub fn with_replacements<R: Fn(&N) -> Option<N>>(&self, replace: R) -> (tree: Self)
        requires
            forall|i: int| 0 <= i < self.view().len() ==> replace.requires((&self.view()[i].0,)),
        ensures
            tree.view().len() == self.view().len(),
            exists|results: Seq<Option<N>>|
                #![trigger results.len()]
                results.len() == self.view().len() && forall|i: int|
                    0 <= i < self.view().len() ==> replace.ensures(
                        (&self.view()[i].0,),
                        #[trigger] results[i],
                    ) && tree.view()[i] == replaced(self.view()[i], results[i]),
    {
        let mut entries: Vec<NodeTreeEntry<N>> = Vec::new();
        let ghost mut results: Seq<Option<N>> = Seq::empty();
        let mut i: usize = 0;
        while i < self.nodes.len()
            invariant
                i <= self.nodes@.len(),
                self.view().len() == self.nodes@.len(),
                forall|k: int| 0 <= k < self.view().len() ==> replace.requires((&self.view()[k].0,)),
                entries@.len() == i,
                results.len() == i,
                forall|k: int|
                    0 <= k < i ==> replace.ensures((&self.view()[k].0,), #[trigger] results[k])
                        && entry_view(entries@[k]) == replaced(self.view()[k], results[k]),
            decreases self.nodes@.len() - i,
        {
            let entry = &self.nodes[i];
            assert(self.view()[i as int] == entry_view(*entry));
            let r = replace(&entry.node);
            let ghost rv = r;
            let new_entry = match r {
                Some(node) => NodeTreeEntry { node: Arc::new(node), children: entry.children.clone() },
                // This clone should be cheap because we use Arc in NodeTreeEntry
                None => NodeTreeEntry { node: entry.node.clone(), children: entry.children.clone() },
            };
            assert(entry_view(new_entry) == replaced(self.view()[i as int], rv));
            entries.push(new_entry);
            proof {
                results = results.push(rv);
            }
            i += 1;
        }
        let tree = NodeTree { nodes: entries };
        assert forall|k: int| 0 <= k < self.view().len() implies tree.view()[k] == replaced(
            self.view()[k],
            results[k],
        ) by {
            assert(tree.view()[k] == entry_view(entries@[k]));
        }
        tree
    }

    /// Get the node with the given ID
    pub fn get(&self, node_id: NodeId) -> (node: &N)
        requires
            node_id.0 < self.view().len(),
        ensures
            *node == self.view()[node_id.0 as int].0,
    {
        &self.nodes[node_id.0].node
    }

    /// The child nodes of the given node, in order
    pub fn children(&self, node_id: NodeId) -> (children: Vec<&N>)
        requires
            node_id.0 < self.view().len(),
            self.children_in_tree(),
        ensures
            children@.len() == self.view()[node_id.0 as int].1.len(),
            forall|j: int|
                0 <= j < children@.len() ==> *#[trigger] children@[j] == self.view()[self.view()[node_id.0 as int].1[j].0 as int].0,
    {
        let ids = &self.nodes[node_id.0].children;
        let ghost kids = self.view()[node_id.0 as int].1;
        assert(kids == ids@);
        let mut children: Vec<&N> = Vec::new();
        let mut j: usize = 0;
        while j < ids.len()
            invariant
                node_id.0 < self.view().len(),
                self.children_in_tree(),
                kids == self.view()[node_id.0 as int].1,
                kids == ids@,
                j <= ids@.len(),
                children@.len() == j,
                forall|k: int|
                    0 <= k < j ==> *#[trigger] children@[k] == self.view()[kids[k].0 as int].0,
            decreases ids@.len() - j,
        {
            assert(kids[j as int].0 < self.view().len());
            children.push(self.get(ids[j]));
            j += 1;
        }
        children
    }
}

/// The children of the node at position `k` of a walk
pub open spec fn walk_children<N>(
    tree: Seq<(N, Seq<NodeId>)>,
    walk: Seq<(Option<usize>, NodeId)>,
    k: int,
) -> Seq<NodeId> {
    tree[walk[k].1.0 as int].1
}

/// A breadth-first walk of the hierarchy under `root`. Each entry is the position in the walk of
/// the node's parent (none for the root) and the node's ID. The walk starts at the root; every
/// later node is a child of a node before it; the parents of the nodes come in the order of the
/// walk; and no node is visited twice.
pub open spec fn is_walk<N>(
    tree: Seq<(N, Seq<NodeId>)>,
    root: NodeId,
    walk: Seq<(Option<usize>, NodeId)>,
) -> bool {
    &&& walk.len() >= 1
    &&& walk[0] == (None::<usize>, root)
    &&& forall|k: int|
        1 <= k < walk.len() ==> ((#[trigger] walk[k]).0 matches Some(p) && p < k && walk_children(
            tree,
            walk,
            p as int,
        ).contains(walk[k].1))
    &&& forall|k1: int, k2: int|
        1 <= k1 <= k2 < walk.len() ==> (#[trigger] walk[k1]).0->0 <= (#[trigger] walk[k2]).0->0
    &&& forall|k1: int, k2: int|
        0 <= k1 < k2 < walk.len() ==> (#[trigger] walk[k1]).1 != (#[trigger] walk[k2]).1
}

/// Every child of every node of the walk is visited by the walk
pub open spec fn walk_complete<N>(tree: Seq<(N, Seq<NodeId>)>, walk: Seq<(Option<usize>, NodeId)>) -> bool {
    forall|k: int, j: int|
        0 <= k < walk.len() && 0 <= j < walk_children(tree, walk, k).len() ==> exists|k2: int|
            0 <= k2 < walk.len() && (#[trigger] walk[k2]).1 == #[trigger] walk_children(
                tree,
                walk,
                k,
            )[j]
}

/// `pos` gives, for each node of the walk but the root, its position among its parent's
/// children; nodes with the same parent come in the order of their positions
pub open spec fn siblings_in_order<N>(
    tree: Seq<(N, Seq<NodeId>)>,
    walk: Seq<(Option<usize>, NodeId)>,
    pos: Seq<int>,
) -> bool {
    &&& pos.len() == walk.len()
    &&& forall|k: int|
        1 <= k < walk.len() ==> {
            &&& 0 <= #[trigger] pos[k] < walk_children(tree, walk, walk[k].0->0 as int).len()
            &&& walk_children(tree, walk, walk[k].0->0 as int)[pos[k]] == walk[k].1
        }
    &&& forall|k1: int, k2: int|
        1 <= k1 < k2 < walk.len() && walk[k1].0 == walk[k2].0 ==> #[trigger] pos[k1]
            < #[trigger] pos[k2]
}

impl<N> NodeTree<N> {
    /// Traverse a node hierarchy breadth-first, treating the given node as a root node. Each
    /// node of the walk comes with the position of its parent in the walk (none for the root),
    /// which gives the chain of transforms up the entire hierarchy.
    ///
    /// In a forest, where every node has at most one parent and no node is its own ancestor (as
    /// the nodes of a glTF file are), every node under the root is reached exactly once, and the
    /// walk is the breadth-first one with each node's children in order. A node reached a second
    /// time, which only a hierarchy that is not a forest allows, is not visited again, so the
    /// walk also ends on a hierarchy with cycles.
    pub fn traverse(&self, node: NodeId) -> (walk: Vec<(Option<usize>, NodeId)>)
        requires
            node.0 < self.view().len(),
            self.children_in_tree(),
        ensures
            is_walk(self.view(), node, walk@),
            walk_complete(self.view(), walk@),
            exists|pos: Seq<int>| #[trigger] siblings_in_order(self.view(), walk@, pos),
    {
        let ghost tree = self.view();
        let n = self.nodes.len();
        let mut visited: Vec<bool> = Vec::new();
        let mut i: usize = 0;
        while i < n
            invariant
                i <= n,
                visited@.len() == i,
                forall|id: int| 0 <= id < i ==> !#[trigger] visited@[id],
            decreases n - i,
        {
            visited.push(false);
            i += 1;
        }
        visited.set(node.0, true);
        let mut walk: Vec<(Option<usize>, NodeId)> = Vec::new();
        walk.push((None, node));
        let ghost mut seen: Set<int> = set![node.0 as int];
        let ghost mut at: Map<int, int> = map![node.0 as int => 0int];
        let ghost mut pos: Seq<int> = seq![0int];
        proof {
            vstd::set_lib::lemma_int_range(0, n as int);
        }
        let mut head: usize = 0;
        while head < walk.len()
            invariant
                tree == self.view(),
                n == tree.len(),
                self.children_in_tree(),
                node.0 < n,
                visited@.len() == n,
                set_int_range(0, n as int).finite(),
                set_int_range(0, n as int).len() == n,
                seen.finite(),
                seen.len() == walk@.len(),
                forall|id: int| #[trigger] seen.contains(id) ==> 0 <= id < n,
                forall|id: int| 0 <= id < n ==> (#[trigger] visited@[id] <==> seen.contains(id)),
                forall|id: int|
                    #[trigger] seen.contains(id) ==> at.dom().contains(id) && 0 <= at[id]
                        < walk@.len() && walk@[at[id]].1.0 == id,
                forall|k: int| 0 <= k < walk@.len() ==> seen.contains((#[trigger] walk@[k]).1.0 as int),
                walk@.len() <= n,
                walk@.len() >= 1,
                head <= walk@.len(),
                walk@[0] == (None::<usize>, node),
                forall|k: int|
                    1 <= k < walk@.len() ==> ((#[trigger] walk@[k]).0 matches Some(p) && p < k && p
                        < head && walk_children(tree, walk@, p as int).contains(walk@[k].1)),
                forall|k1: int, k2: int|
                    1 <= k1 <= k2 < walk@.len() ==> (#[trigger] walk@[k1]).0->0 <= (#[trigger] walk@[k2]).0->0,
                forall|k1: int, k2: int|
                    0 <= k1 < k2 < walk@.len() ==> (#[trigger] walk@[k1]).1 != (#[trigger] walk@[k2]).1,
                siblings_in_order(tree, walk@, pos),
                forall|k: int, j: int|
                    0 <= k < head && 0 <= j < walk_children(tree, walk@, k).len() ==> seen.contains(
                        (#[trigger] walk_children(tree, walk@, k)[j]).0 as int,
                    ),
            decreases n - head,
        {
            let children = &self.nodes[walk[head].1.0].children;
            let ghost kids = walk_children(tree, walk@, head as int);
            assert(children@ == kids);
            let mut j: usize = 0;
            while j < children.len()
                invariant
                    tree == self.view(),
                    n == tree.len(),
                    self.children_in_tree(),
                    head < walk@.len(),
                    children@ == kids,
                    kids == walk_children(tree, walk@, head as int),
                    j <= kids.len(),
                    visited@.len() == n,
                    set_int_range(0, n as int).finite(),
                    set_int_range(0, n as int).len() == n,
                    seen.finite(),
                    seen.len() == walk@.len(),
                    forall|id: int| #[trigger] seen.contains(id) ==> 0 <= id < n,
                    forall|id: int| 0 <= id < n ==> (#[trigger] visited@[id] <==> seen.contains(id)),
                    forall|id: int|
                        #[trigger] seen.contains(id) ==> at.dom().contains(id) && 0 <= at[id]
                            < walk@.len() && walk@[at[id]].1.0 == id,
                    forall|k: int| 0 <= k < walk@.len() ==> seen.contains((#[trigger] walk@[k]).1.0 as int),
                    walk@.len() <= n,
                    walk@[0] == (None::<usize>, node),
                    forall|k: int|
                        1 <= k < walk@.len() ==> ((#[trigger] walk@[k]).0 matches Some(p) && p < k && p
                            <= head && walk_children(tree, walk@, p as int).contains(walk@[k].1)),
                    forall|k1: int, k2: int|
                        1 <= k1 <= k2 < walk@.len() ==> (#[trigger] walk@[k1]).0->0 <= (#[trigger] walk@[k2]).0->0,
                    forall|k1: int, k2: int|
                        0 <= k1 < k2 < walk@.len() ==> (#[trigger] walk@[k1]).1 != (#[trigger] walk@[k2]).1,
                    siblings_in_order(tree, walk@, pos),
                    forall|k: int|
                        1 <= k < walk@.len() && (#[trigger] walk@[k]).0 == Some(head) ==> pos[k] < j,
                    forall|k: int, jj: int|
                        0 <= k < head && 0 <= jj < walk_children(tree, walk@, k).len() ==> seen.contains(
                            (#[trigger] walk_children(tree, walk@, k)[jj]).0 as int,
                        ),
                    forall|jj: int| 0 <= jj < j ==> seen.contains((#[trigger] kids[jj]).0 as int),
                decreases kids.len() - j,
            {
                let child = children[j];
                assert(child == tree[walk@[head as int].1.0 as int].1[j as int]);
                assert(child.0 < n);
                if !visited[child.0] {
                    let ghost old_walk = walk@;
                    let ghost old_pos = pos;
                    visited.set(child.0, true);
                    walk.push((Some(head), child));
                    proof {
                        assert(!seen.contains(child.0 as int));
                        vstd::set_lib::lemma_len_subset(seen.insert(child.0 as int), set_int_range(0, n as int));
                        seen = seen.insert(child.0 as int);
                        at = at.insert(child.0 as int, old_walk.len() as int);
                        pos = pos.push(j as int);
                        assert forall|k: int| 0 <= k < old_walk.len() implies #[trigger] walk_children(
                            tree,
                            walk@,
                            k,
                        ) == walk_children(tree, old_walk, k) by {
                            assert(walk@[k] == old_walk[k]);
                        }
                        assert(kids.contains(child)) by {
                            assert(kids[j as int] == child);
                        }
                        assert(siblings_in_order(tree, walk@, pos)) by {
                            assert forall|k: int| 1 <= k < walk@.len() implies {
                                &&& 0 <= #[trigger] pos[k] < walk_children(tree, walk@, walk@[k].0->0 as int).len()
                                &&& walk_children(tree, walk@, walk@[k].0->0 as int)[pos[k]] == walk@[k].1
                            } by {
                                if k < old_walk.len() {
                                    assert(walk@[k] == old_walk[k]);
                                    assert(pos[k] == old_pos[k]);
                                }
                            }
                            assert forall|k1: int, k2: int|
                                1 <= k1 < k2 < walk@.len() && walk@[k1].0 == walk@[k2].0 implies #[trigger] pos[k1]
                                    < #[trigger] pos[k2] by {
                                assert(walk@[k1] == old_walk[k1]);
                                if k2 < old_walk.len() {
                                    assert(walk@[k2] == old_walk[k2]);
                                }
                            }
                        }
                    }
                }
                j += 1;
            }
            head += 1;
        }
        proof {
            assert forall|k: int, jj: int|
                0 <= k < walk@.len() && 0 <= jj < walk_children(tree, walk@, k).len() implies exists|k2: int|
                    0 <= k2 < walk@.len() && (#[trigger] walk@[k2]).1 == #[trigger] walk_children(
                        tree,
                        walk@,
                        k,
                    )[jj] by {
                let c = walk_children(tree, walk@, k)[jj];
                assert(seen.contains(c.0 as int));
                let k2 = at[c.0 as int];
                assert(walk@[k2].1 == c);
            }
            assert(siblings_in_order(tree, walk@, pos));
        }
        walk
    }
}

} // verus!
