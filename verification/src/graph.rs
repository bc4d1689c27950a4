//! The HNSW proximity graph: nodes with one neighbour list per level, and
//! the entry point from which every search starts.
//!
//! A node's id is its position among the nodes, which is the id of its
//! vector. Neighbours are ids, never references.

use vstd::prelude::*;

verus! {

/// The options that a graph is built with.
#[derive(Debug, Clone, Copy, PartialEq, Eq, Structural)]
pub struct HnswBuilderOptions {
    /// The largest number of neighbours of a node on one level.
    pub m: usize,
    /// The number of candidates that a search keeps while a node is inserted.
    pub ef_construction: usize,
    /// The highest level of a node.
    pub max_level: usize,
}

impl HnswBuilderOptions {
    /// The options lie in the ranges that an index accepts.
    pub open spec fn wf(&self) -> bool {
        &&& 2 <= self.m <= 128
        &&& self.m <= self.ef_construction <= 1024
        &&& 1 <= self.max_level <= 32
    }

    /// Whether the options lie in the ranges that an index accepts.
    pub fn is_valid(&self) -> (valid: bool)
        ensures
            valid == self.wf(),
    {
        2 <= self.m && self.m <= 128 && self.m <= self.ef_construction && self.ef_construction
            <= 1024 && 1 <= self.max_level && self.max_level <= 32
    }
}

/// The largest number of levels of a node: a level fits 32 bits.
pub const MAX_HEIGHT: usize = 0xffff_ffff;

/// Every id of `list` is a node that has the level `level`, where `heights`
/// gives the number of levels of every node.
pub open spec fn list_ok(heights: Seq<nat>, level: int, list: Seq<usize>) -> bool {
    forall|k: int|
        0 <= k < list.len() ==> (#[trigger] list[k]) < heights.len() && heights[list[k] as int]
            > level
}

/// A graph as contracts see it: the entry point, and for every node its
/// neighbour lists from level 0 up.
#[verifier::ext_equal]
pub struct GraphView {
    pub entry_point: usize,
    pub nodes: Seq<Seq<Seq<usize>>>,
}

impl GraphView {
    /// The number of levels of every node.
    pub open spec fn heights(self) -> Seq<nat> {
        Seq::new(self.nodes.len(), |n: int| self.nodes[n].len())
    }

    /// The level of the node `n`.
    pub open spec fn level(self, n: int) -> int {
        self.nodes[n].len() - 1
    }

    /// The graph has a node; every node has a level that fits 32 bits; every
    /// neighbour on a level is a node that has that level; and the entry point
    /// is the first of the nodes with the highest level.
    pub open spec fn wf(self) -> bool {
        &&& self.nodes.len() >= 1
        &&& self.entry_point < self.nodes.len()
        &&& forall|n: int| 0 <= n < self.nodes.len() ==> 1 <= (#[trigger] self.nodes[n]).len() <= MAX_HEIGHT
        &&& forall|n: int, l: int|
            0 <= n < self.nodes.len() && 0 <= l < self.nodes[n].len() ==> list_ok(
                self.heights(),
                l,
                #[trigger] self.nodes[n][l],
            )
        &&& forall|n: int|
            0 <= n < self.nodes.len() ==> (#[trigger] self.nodes[n]).len()
                <= self.nodes[self.entry_point as int].len()
        &&& forall|n: int|
            0 <= n < self.entry_point ==> (#[trigger] self.nodes[n]).len()
                < self.nodes[self.entry_point as int].len()
    }

    /// No node has more than `m` neighbours on a level.
    pub open spec fn capped(self, m: usize) -> bool {
        forall|n: int, l: int|
            0 <= n < self.nodes.len() && 0 <= l < self.nodes[n].len() ==> (
            #[trigger] self.nodes[n][l]).len() <= m
    }
}

/// `nodes` with `list` in place of the neighbours of the node `id` on `level`.
pub open spec fn with_list(
    nodes: Seq<Seq<Seq<usize>>>,
    id: int,
    level: int,
    list: Seq<usize>,
) -> Seq<Seq<Seq<usize>>> {
    nodes.update(id, nodes[id].update(level, list))
}

/// A well-formed graph stays well formed when the neighbours of a node on a
/// level are replaced by nodes that have the level, and stays capped when
/// they are no more than the cap.
pub proof fn lemma_with_list(
    graph: GraphView,
    id: int,
    level: int,
    list: Seq<usize>,
    m: usize,
)
    requires
        graph.wf(),
        0 <= id < graph.nodes.len(),
        0 <= level < graph.nodes[id].len(),
        list_ok(graph.heights(), level, list),
    ensures
        (GraphView { nodes: with_list(graph.nodes, id, level, list), ..graph }).wf(),
        (GraphView { nodes: with_list(graph.nodes, id, level, list), ..graph }).heights()
            == graph.heights(),
        graph.capped(m) && list.len() <= m ==> (GraphView {
            nodes: with_list(graph.nodes, id, level, list),
            ..graph
        }).capped(m),
{
    let nodes = with_list(graph.nodes, id, level, list);
    let after = GraphView { nodes, ..graph };
    assert(after.heights() =~= graph.heights());
    assert forall|n: int, l: int|
        0 <= n < after.nodes.len() && 0 <= l < after.nodes[n].len() implies list_ok(
        after.heights(),
        l,
        #[trigger] after.nodes[n][l],
    ) by {
        if n != id || l != level {
            assert(after.nodes[n][l] == graph.nodes[n][l]);
        }
    }
    assert forall|n: int| 0 <= n < after.nodes.len() implies 1 <= (#[trigger] after.nodes[n]).len()
        <= MAX_HEIGHT by {
        assert(after.nodes[n].len() == graph.nodes[n].len());
    }
    assert forall|n: int| 0 <= n < after.nodes.len() implies (#[trigger] after.nodes[n]).len()
        <= after.nodes[after.entry_point as int].len() by {
        assert(after.nodes[n].len() == graph.nodes[n].len());
        assert(after.nodes[after.entry_point as int].len()
            == graph.nodes[graph.entry_point as int].len());
    }
    assert forall|n: int| 0 <= n < after.entry_point implies (#[trigger] after.nodes[n]).len()
        < after.nodes[after.entry_point as int].len() by {
        assert(after.nodes[n].len() == graph.nodes[n].len());
        assert(after.nodes[after.entry_point as int].len()
            == graph.nodes[graph.entry_point as int].len());
    }
    if graph.capped(m) && list.len() <= m {
        assert forall|n: int, l: int|
            0 <= n < after.nodes.len() && 0 <= l < after.nodes[n].len() implies (
        #[trigger] after.nodes[n][l]).len() <= m by {
            if n != id || l != level {
                assert(after.nodes[n][l] == graph.nodes[n][l]);
            }
        }
    }
}

/// A node of the graph: one list of neighbours for each of its levels.
#[derive(Debug)]
pub struct HnswNode {
    level_neighbours: Vec<Vec<usize>>,
}

impl HnswNode {
    /// The neighbour lists of the node, from level 0 up.
    pub closed spec fn lists(&self) -> Seq<Seq<usize>> {
        Seq::new(self.level_neighbours@.len(), |l: int| self.level_neighbours@[l]@)
    }

    /// A node with the given neighbour lists, from level 0 up.
    pub fn from_lists(level_neighbours: Vec<Vec<usize>>) -> (node: Self)
        ensures
            node.lists() == Seq::new(level_neighbours@.len(), |l: int| level_neighbours@[l]@),
    {
        HnswNode { level_neighbours }
    }

    /// The neighbour lists of the node, from level 0 up.
    pub fn into_lists(self) -> (level_neighbours: Vec<Vec<usize>>)
        ensures
            self.lists() == Seq::new(level_neighbours@.len(), |l: int| level_neighbours@[l]@),
    {
        self.level_neighbours
    }

    /// The number of levels of the node.
    pub fn height(&self) -> (height: usize)
        ensures
            height == self.lists().len(),
    {
        self.level_neighbours.len()
    }

    /// The level of the node, which has one at least.
    pub fn level(&self) -> (level: usize)
        requires
            self.lists().len() >= 1,
        ensures
            level == self.lists().len() - 1,
    {
        self.level_neighbours.len() - 1
    }

    /// The neighbours of the node on `level`.
    pub fn neighbours(&self, level: usize) -> (list: &[usize])
        requires
            level < self.lists().len(),
        ensures
            list@ == self.lists()[level as int],
    {
        self.level_neighbours[level].as_slice()
    }
}

/// A node without neighbours whose level is `sampled_level`, or the highest
/// level of `options` if that is lower.
pub fn new_node(options: &HnswBuilderOptions, sampled_level: usize) -> (node: HnswNode)
    requires
        options.max_level < MAX_HEIGHT,
    ensures
        node.lists().len() == (if sampled_level < options.max_level {
            sampled_level
        } else {
            options.max_level
        }) + 1,
        forall|l: int| 0 <= l < node.lists().len() ==> (#[trigger] node.lists()[l]).len() == 0,
{
    let level: usize = if sampled_level < options.max_level {
        sampled_level
    } else {
        options.max_level
    };
    let mut level_neighbours: Vec<Vec<usize>> = Vec::new();
    let mut l: usize = 0;
    while l <= level
        invariant
            l <= level + 1,
            level < MAX_HEIGHT,
            level_neighbours@.len() == l,
            forall|i: int| 0 <= i < l ==> (#[trigger] level_neighbours@[i])@.len() == 0,
        decreases level + 1 - l,
    {
        level_neighbours.push(Vec::new());
        l = l + 1;
    }
    HnswNode { level_neighbours }
}

/// The neighbour lists of every node of `nodes`.
pub open spec fn node_lists(nodes: Seq<HnswNode>) -> Seq<Seq<Seq<usize>>> {
    Seq::new(nodes.len(), |n: int| nodes[n].lists())
}

/// The graph under construction.
#[derive(Debug)]
pub struct HnswGraphBuilder {
    entrypoint: usize,
    nodes: Vec<HnswNode>,
}

impl HnswGraphBuilder {
    /// The graph as contracts see it.
    pub closed spec fn view(&self) -> GraphView {
        GraphView { entry_point: self.entrypoint, nodes: node_lists(self.nodes@) }
    }

    /// The graph is well formed.
    pub open spec fn wf(&self) -> bool {
        self.view().wf()
    }

    /// The graph of one node, which is its entry point. The node has a level
    /// that fits 32 bits and no neighbours.
    pub fn first(node: HnswNode) -> (graph: Self)
        requires
            1 <= node.lists().len() <= MAX_HEIGHT,
            forall|l: int| 0 <= l < node.lists().len() ==> (#[trigger] node.lists()[l]).len() == 0,
        ensures
            graph.wf(),
            graph@ == (GraphView { entry_point: 0, nodes: seq![node.lists()] }),
    {
        let mut nodes: Vec<HnswNode> = Vec::new();
        nodes.push(node);
        let graph = HnswGraphBuilder { entrypoint: 0, nodes };
        assert(graph@.nodes =~= seq![node.lists()]);
        graph
    }

    /// The graph with the given entry point and nodes, which make a
    /// well-formed graph.
    pub fn from_parts(entrypoint: usize, nodes: Vec<HnswNode>) -> (graph: Self)
        requires
            (GraphView { entry_point: entrypoint, nodes: node_lists(nodes@) }).wf(),
        ensures
            graph.wf(),
            graph@ == (GraphView { entry_point: entrypoint, nodes: node_lists(nodes@) }),
    {
        HnswGraphBuilder { entrypoint, nodes }
    }

    /// The number of nodes.
    pub fn len(&self) -> (len: usize)
        ensures
            len == self@.nodes.len(),
    {
        self.nodes.len()
    }

    /// The id of the entry point.
    pub fn entrypoint(&self) -> (id: usize)
        ensures
            id == self@.entry_point,
    {
        self.entrypoint
    }

    /// The number of levels of the node `id`.
    pub fn height(&self, id: usize) -> (height: usize)
        requires
            id < self@.nodes.len(),
        ensures
            height == self@.nodes[id as int].len(),
    {
        self.nodes[id].height()
    }

    /// The neighbours of the node `id` on `level`.
    pub fn neighbours(&self, id: usize, level: usize) -> (list: &[usize])
        requires
            id < self@.nodes.len(),
            level < self@.nodes[id as int].len(),
        ensures
            list@ == self@.nodes[id as int][level as int],
    {
        self.nodes[id].neighbours(level)
    }

    /// Appends `node`, whose neighbours are nodes of the graph with the levels
    /// of the lists they stand in. It becomes the entry point if its level is
    /// higher than every other.
    pub fn push_node(&mut self, node: HnswNode)
        requires
            old(self).wf(),
            1 <= node.lists().len() <= MAX_HEIGHT,
            forall|l: int|
                0 <= l < node.lists().len() ==> list_ok(
                    old(self)@.heights(),
                    l,
                    #[trigger] node.lists()[l],
                ),
        ensures
            final(self).wf(),
            final(self)@.nodes == old(self)@.nodes.push(node.lists()),
            final(self)@.entry_point == (if node.lists().len() > old(self)@.nodes[old(
                self,
            )@.entry_point as int].len() {
                old(self)@.nodes.len() as usize
            } else {
                old(self)@.entry_point
            }),
    {
        let id: usize = self.nodes.len();
        let ghost lists = node.lists();
        let higher = node.height() > self.nodes[self.entrypoint].height();
        self.nodes.push(node);
        if higher {
            self.entrypoint = id;
        }
        proof {
            let old_view = old(self)@;
            let view = self@;
            assert(view.nodes =~= old_view.nodes.push(lists));
            assert forall|n: int, l: int|
                0 <= n < view.nodes.len() && 0 <= l < view.nodes[n].len() implies list_ok(
                view.heights(),
                l,
                #[trigger] view.nodes[n][l],
            ) by {
                let list = view.nodes[n][l];
                if n < id {
                    assert(list == old_view.nodes[n][l]);
                    assert(list_ok(old_view.heights(), l, list));
                } else {
                    assert(list == lists[l]);
                    assert(list_ok(old_view.heights(), l, list));
                }
                assert forall|k: int| 0 <= k < list.len() implies (#[trigger] list[k])
                    < view.heights().len() && view.heights()[list[k] as int] > l by {
                    assert(old_view.heights()[list[k] as int] == view.heights()[list[k] as int]);
                }
            }
            assert forall|n: int| 0 <= n < view.nodes.len() implies 1 <= (
            #[trigger] view.nodes[n]).len() <= MAX_HEIGHT by {
                if n < id {
                    assert(view.nodes[n] == old_view.nodes[n]);
                }
            }
            assert forall|n: int| 0 <= n < view.nodes.len() implies (#[trigger] view.nodes[n]).len()
                <= view.nodes[view.entry_point as int].len() by {
                if n < id {
                    assert(view.nodes[n] == old_view.nodes[n]);
                }
            }
            assert forall|n: int| 0 <= n < view.entry_point implies (#[trigger] view.nodes[n]).len()
                < view.nodes[view.entry_point as int].len() by {
                assert(view.nodes[n] == old_view.nodes[n]);
            }
        }
    }

    /// Whether no node has more than `m` neighbours on a level.
    pub fn is_capped(&self, m: usize) -> (capped: bool)
        ensures
            capped == self@.capped(m),
    {
        let count = self.nodes.len();
        let mut n: usize = 0;
        while n < count
            invariant
                n <= count,
                count == self@.nodes.len(),
                forall|i: int, l: int|
                    0 <= i < n && 0 <= l < self@.nodes[i].len() ==> (
                    #[trigger] self@.nodes[i][l]).len() <= m,
            decreases count - n,
        {
            let height = self.nodes[n].height();
            let mut l: usize = 0;
            while l < height
                invariant
                    l <= height,
                    n < self@.nodes.len(),
                    height == self@.nodes[n as int].len(),
                    forall|k: int| 0 <= k < l ==> (#[trigger] self@.nodes[n as int][k]).len() <= m,
                decreases height - l,
            {
                if self.nodes[n].neighbours(l).len() > m {
                    proof {
                        assert(self@.nodes[n as int][l as int].len() > m);
                    }
                    return false;
                }
                l = l + 1;
            }
            n = n + 1;
        }
        true
    }

    /// Replaces the neighbours of the node `id` on `level` by `list`, whose
    /// ids are nodes that have the level.
    pub fn set_neighbours(&mut self, id: usize, level: usize, list: Vec<usize>)
        requires
            old(self).wf(),
            id < old(self)@.nodes.len(),
            level < old(self)@.nodes[id as int].len(),
            list_ok(old(self)@.heights(), level as int, list@),
        ensures
            final(self).wf(),
            final(self)@ == (GraphView {
                nodes: with_list(old(self)@.nodes, id as int, level as int, list@),
                ..old(self)@
            }),
    {
        proof {
            lemma_with_list(self@, id as int, level as int, list@, 0);
        }
        self.nodes[id].level_neighbours[level] = list;
        proof {
            let expected = with_list(old(self)@.nodes, id as int, level as int, list@);
            assert(self@.nodes.len() == expected.len());
            assert forall|n: int| 0 <= n < expected.len() implies self@.nodes[n] == expected[n] by {
                if n == id {
                    assert(self@.nodes[n] =~= expected[n]);
                } else {
                    assert(self.nodes@[n] == old(self).nodes@[n]);
                }
            }
            assert(self@.nodes =~= expected);
        }
    }

    /// Adds `neighbour`, a node that has the level, to the neighbours of the
    /// node `id` on `level`.
    pub fn add_neighbour(&mut self, id: usize, level: usize, neighbour: usize)
        requires
            old(self).wf(),
            id < old(self)@.nodes.len(),
            level < old(self)@.nodes[id as int].len(),
            neighbour < old(self)@.nodes.len(),
            level < old(self)@.nodes[neighbour as int].len(),
        ensures
            final(self).wf(),
            final(self)@ == (GraphView {
                nodes: with_list(
                    old(self)@.nodes,
                    id as int,
                    level as int,
                    old(self)@.nodes[id as int][level as int].push(neighbour),
                ),
                ..old(self)@
            }),
    {
        let ghost list = self@.nodes[id as int][level as int].push(neighbour);
        proof {
            assert(list_ok(self@.heights(), level as int, self@.nodes[id as int][level as int]));
            assert forall|k: int| 0 <= k < list.len() implies (#[trigger] list[k])
                < self@.heights().len() && self@.heights()[list[k] as int] > level by {
                if k < list.len() - 1 {
                    assert(list[k] == self@.nodes[id as int][level as int][k]);
                }
            }
            lemma_with_list(self@, id as int, level as int, list, 0);
        }
        self.nodes[id].level_neighbours[level].push(neighbour);
        proof {
            let expected = with_list(old(self)@.nodes, id as int, level as int, list);
            assert(self@.nodes.len() == expected.len());
            assert forall|n: int| 0 <= n < expected.len() implies self@.nodes[n] == expected[n] by {
                if n == id {
                    assert(self@.nodes[n] =~= expected[n]);
                } else {
                    assert(self.nodes@[n] == old(self).nodes@[n]);
                }
            }
            assert(self@.nodes =~= expected);
        }
    }
}

} // verus!
