//! The persisted form of a graph, and the conversion between it and the
//! graph under construction.

use vstd::prelude::*;

use crate::error::VectorError;
use crate::graph::{list_ok, node_lists, GraphView, HnswGraphBuilder, HnswNode, MAX_HEIGHT};

verus! {

/// The neighbours of a node on one level, as they are persisted.
#[derive(Debug, PartialEq, Eq)]
pub struct PbHnswNeighbors {
    pub level: u32,
    pub ids: Vec<u64>,
}

/// A node, as it is persisted.
#[derive(Debug, PartialEq, Eq)]
pub struct PbHnswNode {
    pub level: u32,
    pub neighbors: Vec<PbHnswNeighbors>,
}

/// A graph, as it is persisted.
#[derive(Debug, PartialEq, Eq)]
pub struct PbHnswGraph {
    pub entry_point: Option<u64>,
    pub nodes: Vec<PbHnswNode>,
}

/// The ids of a persisted list.
pub open spec fn pb_list(ids: Seq<u64>) -> Seq<usize> {
    Seq::new(ids.len(), |k: int| ids[k] as usize)
}

/// The neighbour lists of a persisted node, from level 0 up.
pub open spec fn pb_node_lists(node: PbHnswNode) -> Seq<Seq<usize>> {
    Seq::new(node.neighbors@.len(), |l: int| pb_list(node.neighbors@[l].ids@))
}

/// The number of levels of every persisted node.
pub open spec fn pb_heights(nodes: Seq<PbHnswNode>) -> Seq<nat> {
    Seq::new(nodes.len(), |n: int| nodes[n].neighbors@.len())
}

/// The graph that `pb` persists, where it persists one.
pub open spec fn pb_decoded(pb: PbHnswGraph) -> GraphView {
    GraphView {
        entry_point: match pb.entry_point {
            Some(entry) => entry as usize,
            None => 0,
        },
        nodes: Seq::new(pb.nodes@.len(), |n: int| pb_node_lists(pb.nodes@[n])),
    }
}

/// The persisted list stands at the level it names, and its ids are nodes
/// that have that level.
pub open spec fn pb_level_ok(neighbors: PbHnswNeighbors, level: int, heights: Seq<nat>) -> bool {
    &&& neighbors.level == level
    &&& forall|k: int|
        0 <= k < neighbors.ids@.len() ==> (#[trigger] neighbors.ids@[k]) < heights.len()
            && heights[neighbors.ids@[k] as int] > level
}

/// The persisted node has one list for each level up to the level it names,
/// and every list is in order.
pub open spec fn pb_node_ok(node: PbHnswNode, heights: Seq<nat>) -> bool {
    &&& 1 <= node.neighbors@.len() <= MAX_HEIGHT
    &&& node.level + 1 == node.neighbors@.len()
    &&& forall|l: int|
        0 <= l < node.neighbors@.len() ==> pb_level_ok(#[trigger] node.neighbors@[l], l, heights)
}

/// `entry` is the first of the highest nodes.
pub open spec fn first_highest(heights: Seq<nat>, entry: int) -> bool {
    &&& 0 <= entry < heights.len()
    &&& forall|n: int| 0 <= n < heights.len() ==> #[trigger] heights[n] <= heights[entry]
    &&& forall|n: int| 0 <= n < entry ==> #[trigger] heights[n] < heights[entry]
}

/// `pb` persists a well-formed graph: it names an entry point, which is the
/// first of the highest nodes, and every node is in order.
pub open spec fn pb_valid(pb: PbHnswGraph) -> bool {
    &&& pb.nodes@.len() <= usize::MAX
    &&& pb.entry_point matches Some(entry)
    &&& first_highest(pb_heights(pb.nodes@), entry as int)
    &&& forall|n: int|
        0 <= n < pb.nodes@.len() ==> pb_node_ok(#[trigger] pb.nodes@[n], pb_heights(pb.nodes@))
}

/// What decoding `pb` gives: the graph it persists, or the finding that it is
/// corrupt.
pub open spec fn decode(pb: PbHnswGraph) -> Result<GraphView, VectorError> {
    if pb_valid(pb) {
        Ok(pb_decoded(pb))
    } else {
        Err(VectorError::Corruption)
    }
}

/// `pb` persists the graph `graph`.
pub open spec fn encodes(pb: PbHnswGraph, graph: GraphView) -> bool {
    pb_valid(pb) && pb_decoded(pb) == graph
}

/// What persists a graph decodes to that graph.
pub proof fn lemma_round_trip(pb: PbHnswGraph, graph: GraphView)
    requires
        encodes(pb, graph),
    ensures
        decode(pb) == Ok::<GraphView, VectorError>(graph),
{
}

/// A graph is persisted in one way only: what persists the same graph agrees
/// in the entry point, in the nodes' levels and in every list.
pub proof fn lemma_encoding_unique(a: PbHnswGraph, b: PbHnswGraph, graph: GraphView)
    requires
        encodes(a, graph),
        encodes(b, graph),
    ensures
        a.entry_point == b.entry_point,
        a.nodes@.len() == b.nodes@.len(),
        forall|n: int|
            0 <= n < a.nodes@.len() ==> (#[trigger] a.nodes@[n]).level == b.nodes@[n].level
                && a.nodes@[n].neighbors@.len() == b.nodes@[n].neighbors@.len(),
        forall|n: int, l: int|
            0 <= n < a.nodes@.len() && 0 <= l < a.nodes@[n].neighbors@.len() ==> (
            #[trigger] a.nodes@[n].neighbors@[l]).level == b.nodes@[n].neighbors@[l].level
                && a.nodes@[n].neighbors@[l].ids@ == b.nodes@[n].neighbors@[l].ids@,
{
    let da = pb_decoded(a);
    let db = pb_decoded(b);
    assert(da.nodes.len() == db.nodes.len());
    let ha = pb_heights(a.nodes@);
    let hb = pb_heights(b.nodes@);
    assert forall|n: int| 0 <= n < a.nodes@.len() implies (#[trigger] a.nodes@[n]).level
        == b.nodes@[n].level && a.nodes@[n].neighbors@.len() == b.nodes@[n].neighbors@.len() by {
        assert(da.nodes[n] == db.nodes[n]);
        assert(da.nodes[n].len() == a.nodes@[n].neighbors@.len());
        assert(db.nodes[n].len() == b.nodes@[n].neighbors@.len());
        assert(pb_node_ok(a.nodes@[n], ha));
        assert(pb_node_ok(b.nodes@[n], hb));
    }
    assert forall|n: int, l: int|
        0 <= n < a.nodes@.len() && 0 <= l < a.nodes@[n].neighbors@.len() implies (
    #[trigger] a.nodes@[n].neighbors@[l]).level == b.nodes@[n].neighbors@[l].level
        && a.nodes@[n].neighbors@[l].ids@ == b.nodes@[n].neighbors@[l].ids@ by {
        let la = a.nodes@[n].neighbors@[l];
        let lb = b.nodes@[n].neighbors@[l];
        assert(da.nodes[n] == db.nodes[n]);
        assert(da.nodes[n][l] == pb_list(la.ids@));
        assert(db.nodes[n][l] == pb_list(lb.ids@));
        assert(pb_node_ok(a.nodes@[n], ha));
        assert(pb_node_ok(b.nodes@[n], hb));
        assert(pb_level_ok(la, l, ha));
        assert(pb_level_ok(lb, l, hb));
        assert(la.ids@.len() == lb.ids@.len());
        assert forall|k: int| 0 <= k < la.ids@.len() implies la.ids@[k] == lb.ids@[k] by {
            assert(pb_list(la.ids@)[k] == pb_list(lb.ids@)[k]);
            assert(la.ids@[k] < ha.len());
            assert(lb.ids@[k] < hb.len());
        }
        assert(la.ids@ =~= lb.ids@);
    }
}

/// What a valid `pb` persists is a well-formed graph.
pub proof fn lemma_valid_is_wf(pb: PbHnswGraph)
    requires
        pb_valid(pb),
    ensures
        pb_decoded(pb).wf(),
        pb_decoded(pb).heights() == pb_heights(pb.nodes@),
{
    let g = pb_decoded(pb);
    let heights = pb_heights(pb.nodes@);
    assert(g.heights() =~= heights);
    let entry = pb.entry_point->Some_0;
    assert(heights[entry as int] == g.nodes[g.entry_point as int].len());
    assert forall|n: int| 0 <= n < g.nodes.len() implies 1 <= (#[trigger] g.nodes[n]).len()
        <= MAX_HEIGHT by {
        assert(pb_node_ok(pb.nodes@[n], heights));
    }
    assert forall|n: int, l: int|
        0 <= n < g.nodes.len() && 0 <= l < g.nodes[n].len() implies list_ok(
        g.heights(),
        l,
        #[trigger] g.nodes[n][l],
    ) by {
        assert(pb_node_ok(pb.nodes@[n], heights));
        let level = pb.nodes@[n].neighbors@[l];
        assert(pb_level_ok(level, l, heights));
        let list = g.nodes[n][l];
        assert forall|k: int| 0 <= k < list.len() implies (#[trigger] list[k]) < heights.len()
            && heights[list[k] as int] > l by {
            assert(level.ids@[k] < heights.len());
        }
    }
    assert forall|n: int| 0 <= n < g.nodes.len() implies (#[trigger] g.nodes[n]).len()
        <= g.nodes[g.entry_point as int].len() by {
        assert(heights[n] <= heights[entry as int]);
    }
    assert forall|n: int| 0 <= n < g.entry_point implies (#[trigger] g.nodes[n]).len()
        < g.nodes[g.entry_point as int].len() by {
        assert(heights[n] < heights[entry as int]);
    }
}

/// The persisted node `node` holds the neighbour lists `lists`.
pub open spec fn node_encodes(node: PbHnswNode, lists: Seq<Seq<usize>>) -> bool {
    &&& node.neighbors@.len() == lists.len()
    &&& node.level + 1 == lists.len()
    &&& forall|l: int|
        0 <= l < lists.len() ==> (#[trigger] node.neighbors@[l]).level == l
            && node.neighbors@[l].ids@.len() == lists[l].len()
    &&& forall|l: int, k: int|
        0 <= l < lists.len() && 0 <= k < lists[l].len() ==> (
        #[trigger] node.neighbors@[l].ids@[k]) == lists[l][k]
}

/// What holds the entry point and, node by node, the lists of a well-formed
/// graph persists that graph.
pub proof fn lemma_encodes(pb: PbHnswGraph, graph: GraphView)
    requires
        graph.wf(),
        pb.nodes@.len() <= usize::MAX,
        pb.entry_point == Some(graph.entry_point as u64),
        pb.nodes@.len() == graph.nodes.len(),
        forall|n: int|
            0 <= n < graph.nodes.len() ==> node_encodes(#[trigger] pb.nodes@[n], graph.nodes[n]),
    ensures
        encodes(pb, graph),
{
    let heights = pb_heights(pb.nodes@);
    assert(heights =~= graph.heights()) by {
        assert forall|n: int| 0 <= n < heights.len() implies heights[n] == graph.heights()[n] by {
            assert(node_encodes(pb.nodes@[n], graph.nodes[n]));
        }
    }
    assert forall|n: int| 0 <= n < heights.len() implies #[trigger] heights[n]
        <= heights[graph.entry_point as int] by {
        assert(graph.nodes[n].len() <= graph.nodes[graph.entry_point as int].len());
    }
    assert forall|n: int| 0 <= n < graph.entry_point implies #[trigger] heights[n]
        < heights[graph.entry_point as int] by {
        assert(graph.nodes[n].len() < graph.nodes[graph.entry_point as int].len());
    }
    assert forall|n: int| 0 <= n < pb.nodes@.len() implies pb_node_ok(
        #[trigger] pb.nodes@[n],
        heights,
    ) by {
        let node = pb.nodes@[n];
        assert(node_encodes(node, graph.nodes[n]));
        assert(1 <= graph.nodes[n].len() <= MAX_HEIGHT);
        assert forall|l: int| 0 <= l < node.neighbors@.len() implies pb_level_ok(
            #[trigger] node.neighbors@[l],
            l,
            heights,
        ) by {
            assert(list_ok(graph.heights(), l, graph.nodes[n][l]));
            assert forall|k: int| 0 <= k < node.neighbors@[l].ids@.len() implies (
            #[trigger] node.neighbors@[l].ids@[k]) < heights.len()
                && heights[node.neighbors@[l].ids@[k] as int] > l by {
                assert(node.neighbors@[l].ids@[k] == graph.nodes[n][l][k]);
            }
        }
    }
    let decoded = pb_decoded(pb);
    assert(decoded.nodes =~= graph.nodes) by {
        assert forall|n: int| 0 <= n < graph.nodes.len() implies decoded.nodes[n]
            == graph.nodes[n] by {
            let node = pb.nodes@[n];
            assert(node_encodes(node, graph.nodes[n]));
            assert forall|l: int| 0 <= l < graph.nodes[n].len() implies decoded.nodes[n][l]
                == graph.nodes[n][l] by {
                assert(node.neighbors@[l].ids@.len() == graph.nodes[n][l].len());
                assert forall|k: int| 0 <= k < graph.nodes[n][l].len() implies decoded.nodes[n][l][k]
                    == graph.nodes[n][l][k] by {
                    assert(node.neighbors@[l].ids@[k] == graph.nodes[n][l][k]);
                }
                assert(decoded.nodes[n][l] =~= graph.nodes[n][l]);
            }
            assert(decoded.nodes[n] =~= graph.nodes[n]);
        }
    }
}

/// The ids of `list`, as they are persisted.
pub fn encode_ids(list: &[usize]) -> (ids: Vec<u64>)
    ensures
        ids@.len() == list@.len(),
        forall|k: int| 0 <= k < list@.len() ==> #[trigger] ids@[k] == list@[k],
{
    let mut ids: Vec<u64> = Vec::new();
    let mut k: usize = 0;
    while k < list.len()
        invariant
            k <= list@.len(),
            ids@.len() == k,
            forall|i: int| 0 <= i < k ==> #[trigger] ids@[i] == list@[i],
        decreases list.len() - k,
    {
        ids.push(list[k] as u64);
        k = k + 1;
    }
    ids
}

/// The ids of the persisted list `neighbors`, if it stands at `level` and
/// its ids are nodes of `all` that have that level.
pub fn decode_ids(neighbors: &PbHnswNeighbors, level: usize, all: &[PbHnswNode]) -> (res: Option<
    Vec<usize>,
>)
    ensures
        res is Some <==> pb_level_ok(*neighbors, level as int, pb_heights(all@)),
        res matches Some(list) ==> list@ == pb_list(neighbors.ids@),
{
    let ghost heights = pb_heights(all@);
    if neighbors.level as u64 != level as u64 {
        return None;
    }
    let mut list: Vec<usize> = Vec::new();
    let mut k: usize = 0;
    while k < neighbors.ids.len()
        invariant
            k <= neighbors.ids@.len(),
            heights == pb_heights(all@),
            list@ == pb_list(neighbors.ids@).subrange(0, k as int),
            forall|i: int|
                0 <= i < k ==> (#[trigger] neighbors.ids@[i]) < heights.len()
                    && heights[neighbors.ids@[i] as int] > level,
        decreases neighbors.ids.len() - k,
    {
        let id = neighbors.ids[k];
        if id >= all.len() as u64 {
            return None;
        }
        let id = id as usize;
        if all[id].neighbors.len() <= level {
            proof {
                assert(heights[neighbors.ids@[k as int] as int] <= level);
            }
            return None;
        }
        list.push(id);
        k = k + 1;
        assert(list@ =~= pb_list(neighbors.ids@).subrange(0, k as int));
    }
    assert(list@ =~= pb_list(neighbors.ids@));
    Some(list)
}

/// The node that `node` persists, if it is in order among the nodes `all`.
pub fn decode_node(node: &PbHnswNode, all: &[PbHnswNode]) -> (res: Option<HnswNode>)
    ensures
        res is Some <==> pb_node_ok(*node, pb_heights(all@)),
        res matches Some(decoded) ==> decoded.lists() == pb_node_lists(*node),
{
    let ghost heights = pb_heights(all@);
    let height = node.neighbors.len();
    if height < 1 || height > MAX_HEIGHT || node.level as u64 + 1 != height as u64 {
        return None;
    }
    let mut lists: Vec<Vec<usize>> = Vec::new();
    let mut l: usize = 0;
    while l < height
        invariant
            l <= height,
            height == node.neighbors@.len(),
            heights == pb_heights(all@),
            lists@.len() == l,
            forall|i: int| 0 <= i < l ==> pb_level_ok(#[trigger] node.neighbors@[i], i, heights),
            forall|i: int| 0 <= i < l ==> (#[trigger] lists@[i])@ == pb_list(node.neighbors@[i].ids@),
        decreases height - l,
    {
        match decode_ids(&node.neighbors[l], l, all) {
            Some(list) => {
                lists.push(list);
            },
            None => {
                proof {
                    assert(!pb_level_ok(node.neighbors@[l as int], l as int, heights));
                }
                return None;
            },
        }
        l = l + 1;
    }
    let decoded = HnswNode::from_lists(lists);
    assert(decoded.lists() =~= pb_node_lists(*node));
    Some(decoded)
}

impl HnswGraphBuilder {
    /// The persisted form of the graph.
    pub fn to_protobuf(&self) -> (pb: PbHnswGraph)
        requires
            self.wf(),
        ensures
            encodes(pb, self@),
    {
        let mut nodes: Vec<PbHnswNode> = Vec::new();
        let count = self.len();
        let mut n: usize = 0;
        while n < count
            invariant
                n <= count,
                count == self@.nodes.len(),
                self.wf(),
                nodes@.len() == n,
                forall|i: int| 0 <= i < n ==> node_encodes(#[trigger] nodes@[i], self@.nodes[i]),
            decreases count - n,
        {
            let height = self.height(n);
            let ghost lists = self@.nodes[n as int];
            assert(1 <= lists.len() <= MAX_HEIGHT);
            let mut neighbors: Vec<PbHnswNeighbors> = Vec::new();
            let mut l: usize = 0;
            while l < height
                invariant
                    l <= height,
                    height == lists.len(),
                    height <= MAX_HEIGHT,
                    n < self@.nodes.len(),
                    lists == self@.nodes[n as int],
                    neighbors@.len() == l,
                    forall|i: int|
                        0 <= i < l ==> (#[trigger] neighbors@[i]).level == i
                            && neighbors@[i].ids@.len() == lists[i].len(),
                    forall|i: int, k: int|
                        0 <= i < l && 0 <= k < lists[i].len() ==> (
                        #[trigger] neighbors@[i].ids@[k]) == lists[i][k],
                decreases height - l,
            {
                let ids = encode_ids(self.neighbours(n, l));
                neighbors.push(PbHnswNeighbors { level: l as u32, ids });
                l = l + 1;
            }
            nodes.push(PbHnswNode { level: (height - 1) as u32, neighbors });
            n = n + 1;
        }
        let pb = PbHnswGraph { entry_point: Some(self.entrypoint() as u64), nodes };
        proof {
            lemma_encodes(pb, self@);
        }
        pb
    }

    /// The graph that `pb` persists, or the finding that `pb` is corrupt.
    pub fn from_protobuf(pb: &PbHnswGraph) -> (res: Result<Self, VectorError>)
        ensures
            match res {
                Ok(graph) => graph.wf() && decode(*pb) == Ok::<GraphView, VectorError>(graph@),
                Err(e) => decode(*pb) == Err::<GraphView, VectorError>(e),
            },
    {
        let ghost heights = pb_heights(pb.nodes@);
        let count = pb.nodes.len();
        let entry = match pb.entry_point {
            Some(entry) => entry,
            None => {
                return Err(VectorError::Corruption);
            },
        };
        if entry >= count as u64 {
            return Err(VectorError::Corruption);
        }
        let entry = entry as usize;
        let top = pb.nodes[entry].neighbors.len();
        let mut nodes: Vec<HnswNode> = Vec::new();
        let mut n: usize = 0;
        while n < count
            invariant
                n <= count,
                count == pb.nodes@.len(),
                entry < count,
                pb.entry_point == Some(entry as u64),
                heights == pb_heights(pb.nodes@),
                top == heights[entry as int],
                nodes@.len() == n,
                forall|i: int| 0 <= i < n ==> #[trigger] heights[i] <= top,
                forall|i: int| 0 <= i < n && i < entry ==> #[trigger] heights[i] < top,
                forall|i: int| 0 <= i < n ==> pb_node_ok(#[trigger] pb.nodes@[i], heights),
                forall|i: int|
                    0 <= i < n ==> (#[trigger] nodes@[i]).lists() == pb_node_lists(pb.nodes@[i]),
            decreases count - n,
        {
            let node = &pb.nodes[n];
            let height = node.neighbors.len();
            if height > top || (n < entry && height >= top) {
                proof {
                    if pb_valid(*pb) {
                        let e = pb.entry_point->Some_0;
                        assert(first_highest(heights, e as int));
                        assert(heights[n as int] <= heights[e as int]);
                        if n < entry {
                            assert(heights[n as int] < heights[e as int]);
                        }
                        assert(false);
                    }
                }
                return Err(VectorError::Corruption);
            }
            match decode_node(node, pb.nodes.as_slice()) {
                Some(decoded) => {
                    nodes.push(decoded);
                },
                None => {
                    proof {
                        assert(!pb_node_ok(pb.nodes@[n as int], heights));
                    }
                    return Err(VectorError::Corruption);
                },
            }
            n = n + 1;
        }
        proof {
            assert(pb_valid(*pb));
            lemma_valid_is_wf(*pb);
            assert(node_lists(nodes@) =~= pb_decoded(*pb).nodes);
        }
        Ok(HnswGraphBuilder::from_parts(entry, nodes))
    }
}

} // verus!
