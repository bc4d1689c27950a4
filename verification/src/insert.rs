//! Inserting a node into the graph, one step at a time.
//!
//! The graph never measures a distance itself: it asks for the distances from
//! one vector to a list of others and goes on when it is given their keys. An
//! insertion is therefore a machine that is stepped from outside: every step
//! takes the keys that the last request asked for and returns the next
//! request, until the node stands in the graph.

use vstd::prelude::*;

use crate::block::copy_of;
use crate::error::VectorError;
use crate::graph::{
    lemma_with_list, list_ok, with_list, GraphView, HnswBuilderOptions, HnswGraphBuilder,
    HnswNode, MAX_HEIGHT,
};
use crate::nearest::{
    ascending, closer, ids_of, insert_bounded, inserted, is_closer, lemma_nearest,
    nearest, nearest_ids, paired, Candidate,
};

verus! {

/// A request for the distances from the vector `anchor` to each vector of
/// `ids`.
#[derive(Debug)]
pub struct MeasureRequest {
    pub anchor: usize,
    pub ids: Vec<usize>,
}

/// What an insertion is doing.
#[derive(Debug, Clone, Copy, PartialEq, Eq, Structural)]
pub enum InsertPhase {
    /// Waiting for the distance to the entry point.
    Seed,
    /// Descending greedily through the levels above the node's own.
    Descend,
    /// Searching a level of the node for its neighbours.
    Search,
    /// Linking the node's neighbours back to the node.
    Link,
    /// The node stands in the graph.
    Done,
}

/// Every candidate of `list` is a node that has the level `level`.
pub open spec fn candidates_ok(heights: Seq<nat>, level: int, list: Seq<Candidate>) -> bool {
    forall|k: int|
        0 <= k < list.len() ==> (#[trigger] list[k]).1 < heights.len() && heights[list[k].1 as int]
            > level
}

/// Every id of `list` lies below `id`.
pub open spec fn below(list: Seq<usize>, id: usize) -> bool {
    forall|k: int| 0 <= k < list.len() ==> (#[trigger] list[k]) < id
}

/// Every id of `after` is `id` or stands in `before`.
pub open spec fn only_adds(before: Seq<usize>, after: Seq<usize>, id: usize) -> bool {
    forall|k: int| 0 <= k < after.len() ==> (#[trigger] after[k]) == id || before.contains(after[k])
}

/// `after` has the nodes of `before` with the levels they had, and their
/// neighbours are neighbours they had, or `id`.
pub open spec fn grown_by(before: GraphView, after: GraphView, id: usize) -> bool {
    &&& before.nodes.len() <= after.nodes.len()
    &&& forall|n: int|
        0 <= n < before.nodes.len() ==> (#[trigger] after.nodes[n]).len() == before.nodes[n].len()
    &&& forall|n: int, l: int|
        0 <= n < before.nodes.len() && 0 <= l < before.nodes[n].len() ==> only_adds(
            before.nodes[n][l],
            #[trigger] after.nodes[n][l],
            id,
        )
}

/// A graph is grown from itself.
pub proof fn lemma_grown_same(graph: GraphView, id: usize)
    ensures
        grown_by(graph, graph, id),
{
    assert forall|n: int, l: int|
        0 <= n < graph.nodes.len() && 0 <= l < graph.nodes[n].len() implies only_adds(
        graph.nodes[n][l],
        #[trigger] graph.nodes[n][l],
        id,
    ) by {
        let list = graph.nodes[n][l];
        assert forall|k: int| 0 <= k < list.len() implies (#[trigger] list[k]) == id
            || list.contains(list[k]) by {
            assert(list[k] == list[k]);
        }
    }
}

/// What is grown from a graph that is grown from another is grown from that
/// one.
pub proof fn lemma_grown_twice(before: GraphView, mid: GraphView, after: GraphView, id: usize)
    requires
        grown_by(before, mid, id),
        grown_by(mid, after, id),
    ensures
        grown_by(before, after, id),
{
    assert forall|n: int| 0 <= n < before.nodes.len() implies (#[trigger] after.nodes[n]).len()
        == before.nodes[n].len() by {
        assert(mid.nodes[n].len() == before.nodes[n].len());
    }
    assert forall|n: int, l: int|
        0 <= n < before.nodes.len() && 0 <= l < before.nodes[n].len() implies only_adds(
        before.nodes[n][l],
        #[trigger] after.nodes[n][l],
        id,
    ) by {
        assert(mid.nodes[n].len() == before.nodes[n].len());
        let a = before.nodes[n][l];
        let b = mid.nodes[n][l];
        let c = after.nodes[n][l];
        assert(only_adds(a, b, id));
        assert(only_adds(b, c, id));
        assert forall|k: int| 0 <= k < c.len() implies (#[trigger] c[k]) == id || a.contains(
            c[k],
        ) by {
            if c[k] != id {
                let j = choose|j: int| 0 <= j < b.len() && b[j] == c[k];
                assert(b[j] == id || a.contains(b[j]));
            }
        }
    }
}

/// A graph stays grown from another when the neighbours of one node on one
/// level are replaced by neighbours it had, or `id`.
pub proof fn lemma_grown_with_list(
    before: GraphView,
    mid: GraphView,
    node: int,
    level: int,
    list: Seq<usize>,
    id: usize,
)
    requires
        grown_by(before, mid, id),
        0 <= node < mid.nodes.len(),
        0 <= level < mid.nodes[node].len(),
        only_adds(mid.nodes[node][level], list, id),
    ensures
        grown_by(before, GraphView { nodes: with_list(mid.nodes, node, level, list), ..mid }, id),
{
    let after = GraphView { nodes: with_list(mid.nodes, node, level, list), ..mid };
    lemma_grown_same(mid, id);
    assert(grown_by(mid, after, id)) by {
        assert forall|n: int| 0 <= n < mid.nodes.len() implies (#[trigger] after.nodes[n]).len()
            == mid.nodes[n].len() by {}
        assert forall|n: int, l: int|
            0 <= n < mid.nodes.len() && 0 <= l < mid.nodes[n].len() implies only_adds(
            mid.nodes[n][l],
            #[trigger] after.nodes[n][l],
            id,
        ) by {
            if n != node || l != level {
                assert(after.nodes[n][l] == mid.nodes[n][l]);
                assert(only_adds(mid.nodes[n][l], mid.nodes[n][l], id));
            }
        }
    }
    lemma_grown_twice(before, mid, after, id);
}

/// The node `n` has the node `id` among its neighbours on `level`, or as
/// many neighbours as a node may have.
pub open spec fn linked_back(graph: GraphView, id: usize, m: usize, level: int, n: int) -> bool {
    graph.nodes[n][level].contains(id) || graph.nodes[n][level].len() == m
}

/// Every neighbour of the node `id` on a level below `level`, and every one
/// in front of the position `pos` on `level`, is linked back to it.
pub open spec fn linked_before(graph: GraphView, id: usize, m: usize, level: int, pos: int) -> bool {
    forall|l: int, k: int|
        0 <= l < graph.nodes[id as int].len() && 0 <= k < graph.nodes[id as int][l].len() && (l
            < level || (l == level && k < pos)) ==> linked_back(
            graph,
            id,
            m,
            l,
            #[trigger] graph.nodes[id as int][l][k] as int,
        )
}

/// The node `id` stands in `graph` as the last node, with `height` levels; it
/// has a neighbour on each of them up to the level `top`; and each of its
/// neighbours has it as a neighbour on the same level, unless that
/// neighbour has `m` neighbours there.
pub open spec fn stands_linked(graph: GraphView, id: usize, height: usize, top: usize, m: usize) -> bool {
    &&& graph.nodes.len() == id + 1
    &&& graph.nodes[id as int].len() == height
    &&& forall|l: int|
        0 <= l < height && l <= top ==> (#[trigger] graph.nodes[id as int][l]).len() >= 1
    &&& linked_before(graph, id, m, height as int, 0)
}

/// The neighbours of the node `id` stay linked back when another node gets,
/// on one level, neighbours that have `id` among them or are as many as a
/// node may have.
pub proof fn lemma_linked_with_list(
    graph: GraphView,
    id: usize,
    m: usize,
    level: int,
    pos: int,
    node: int,
    on: int,
    list: Seq<usize>,
)
    requires
        linked_before(graph, id, m, level, pos),
        0 <= id < graph.nodes.len(),
        0 <= node < graph.nodes.len(),
        node != id,
        0 <= on < graph.nodes[node].len(),
        list.contains(id) || list.len() == m,
        forall|l: int| 0 <= l < graph.nodes[id as int].len()
            ==> list_ok(graph.heights(), l, #[trigger] graph.nodes[id as int][l]),
    ensures
        linked_before(GraphView { nodes: with_list(graph.nodes, node, on, list), ..graph }, id, m,
            level, pos),
{
    let after = GraphView { nodes: with_list(graph.nodes, node, on, list), ..graph };
    assert(after.nodes[id as int] == graph.nodes[id as int]);
    assert forall|l: int, k: int|
        0 <= l < after.nodes[id as int].len() && 0 <= k < after.nodes[id as int][l].len() && (l
            < level || (l == level && k < pos)) implies linked_back(
        after,
        id,
        m,
        l,
        #[trigger] after.nodes[id as int][l][k] as int,
    ) by {
        let x = graph.nodes[id as int][l][k] as int;
        assert(list_ok(graph.heights(), l, graph.nodes[id as int][l]));
        assert(linked_back(graph, id, m, l, x));
        if x == node && l == on {
            assert(after.nodes[x][l] == list);
        } else {
            assert(after.nodes[x][l] == graph.nodes[x][l]);
        }
    }
}

/// An insertion as contracts see it.
#[verifier::ext_equal]
pub struct InsertionView {
    /// The largest number of neighbours of a node on one level.
    pub m: usize,
    /// The number of results that a search keeps.
    pub ef: usize,
    /// The id of the node that is inserted.
    pub id: usize,
    /// The number of levels of the node.
    pub height: usize,
    /// The level of the entry point when the insertion began.
    pub top: usize,
    /// What the insertion is doing.
    pub phase: InsertPhase,
    /// The level that is descended through, searched or linked.
    pub level: nat,
    /// The closest node found so far: where the next level starts.
    pub cur: Candidate,
    /// The candidates of the search that wait to be looked at.
    pub candidates: Seq<Candidate>,
    /// The results of the search, in ascending order.
    pub results: Seq<Candidate>,
    /// The nodes that the search has seen.
    pub visited: Seq<bool>,
    /// The vector from which the outstanding request measures.
    pub anchor: usize,
    /// The vectors to which the outstanding request measures.
    pub pending: Seq<usize>,
    /// The neighbours chosen for the node, while it is not in the graph.
    pub lists: Seq<Seq<usize>>,
    /// The position, among the node's neighbours on the level that is
    /// linked, of the neighbour that is linked next.
    pub link_pos: nat,
}

/// The nodes of `list` that are not marked in `visited`, each once and in
/// order, and the marks with those nodes marked.
pub open spec fn unvisited(list: Seq<usize>, visited: Seq<bool>) -> (Seq<usize>, Seq<bool>)
    decreases list.len(),
{
    if list.len() == 0 {
        (Seq::empty(), visited)
    } else {
        let (found, marks) = unvisited(list.drop_last(), visited);
        let node = list.last();
        if node < marks.len() && !marks[node as int] {
            (found.push(node), marks.update(node as int, true))
        } else {
            (found, marks)
        }
    }
}

/// The candidates and the results of a search that has taken in `items`: an
/// item becomes a candidate and a result while the results are fewer than
/// `ef`, or if it comes before the last of them.
pub open spec fn absorbed(
    candidates: Seq<Candidate>,
    results: Seq<Candidate>,
    items: Seq<Candidate>,
    ef: nat,
) -> (Seq<Candidate>, Seq<Candidate>)
    decreases items.len(),
{
    if items.len() == 0 {
        (candidates, results)
    } else {
        let (c, r) = absorbed(candidates, results, items.drop_last(), ef);
        let item = items.last();
        if r.len() < ef || closer(item, r.last()) {
            (c.push(item), inserted(r, item, ef))
        } else {
            (c, r)
        }
    }
}

/// The position of the first of the candidates that none comes before.
pub open spec fn closest_at(candidates: Seq<Candidate>) -> int
    decreases candidates.len(),
{
    if candidates.len() <= 1 {
        0
    } else {
        let at = closest_at(candidates.drop_last());
        if closer(candidates.last(), candidates[at]) {
            candidates.len() - 1
        } else {
            at
        }
    }
}

/// Where a descent goes from `cur`: to the first of the closest of `items`
/// that have a smaller key than `cur`, and nowhere where there is none.
pub open spec fn descent_target(cur: Candidate, items: Seq<Candidate>) -> Candidate
    decreases items.len(),
{
    if items.len() == 0 {
        cur
    } else {
        let best = descent_target(cur, items.drop_last());
        let item = items.last();
        if item.0 < cur.0 && closer(item, best) {
            item
        } else {
            best
        }
    }
}

/// The graph with one more node, which has the neighbours `lists` and is
/// the entry point if it has more levels than the entry point.
pub open spec fn pushed(graph: GraphView, lists: Seq<Seq<usize>>) -> GraphView {
    GraphView {
        nodes: graph.nodes.push(lists),
        entry_point: if lists.len() > graph.nodes[graph.entry_point as int].len() {
            graph.nodes.len() as usize
        } else {
            graph.entry_point
        },
    }
}

impl InsertionView {
    /// The insertion of a node with the neighbour lists `lists`, all empty,
    /// as the next node of `graph`: it asks for the distance to the entry
    /// point.
    pub open spec fn started(
        graph: GraphView,
        options: HnswBuilderOptions,
        lists: Seq<Seq<usize>>,
    ) -> InsertionView {
        InsertionView {
            m: options.m,
            ef: options.ef_construction,
            id: graph.nodes.len() as usize,
            height: lists.len() as usize,
            top: (graph.nodes[graph.entry_point as int].len() - 1) as usize,
            phase: InsertPhase::Seed,
            level: 0,
            cur: (0, 0),
            candidates: Seq::empty(),
            results: Seq::empty(),
            visited: Seq::empty(),
            anchor: graph.nodes.len() as usize,
            pending: seq![graph.entry_point],
            lists,
            link_pos: 0,
        }
    }

    /// The insertion asks for the distances to the neighbours of the current
    /// node on the current level, which lies above the node's own.
    pub open spec fn descending(self, graph: GraphView) -> InsertionView {
        InsertionView {
            phase: InsertPhase::Descend,
            pending: graph.nodes[self.cur.1 as int][self.level as int],
            ..self
        }
    }

    /// The insertion asks for the distances to the neighbours of `node` on
    /// the level that is searched, as far as the search has not seen them.
    pub open spec fn expanding(self, graph: GraphView, node: usize) -> InsertionView {
        let (pending, visited) = unvisited(graph.nodes[node as int][self.level as int], self.visited);
        InsertionView { pending, visited, ..self }
    }

    /// The insertion starts the search of the current level from the current
    /// node, which is the only node seen and the only result.
    pub open spec fn searching(self, graph: GraphView) -> InsertionView {
        (InsertionView {
            phase: InsertPhase::Search,
            visited: Seq::new(graph.nodes.len(), |n: int| n == self.cur.1),
            candidates: Seq::empty(),
            results: seq![self.cur],
            pending: Seq::empty(),
            ..self
        }).expanding(graph, self.cur.1)
    }

    /// What the distance to the entry point leads to: the descent from the
    /// entry point's level or, where the node is as high, the search of that
    /// level.
    pub open spec fn seeded(self, graph: GraphView, key: u64) -> InsertionView {
        let top = (graph.nodes[graph.entry_point as int].len() - 1) as nat;
        let from = InsertionView { cur: (key, graph.entry_point), level: top, ..self };
        if top >= self.lists.len() {
            from.descending(graph)
        } else {
            from.searching(graph)
        }
    }

    /// What the distances to the neighbours of the current node lead to: the
    /// descent goes on from the neighbour that [`descent_target`] names, or
    /// one level down, and turns into the search on the node's highest level.
    pub open spec fn descended(self, graph: GraphView, keys: Seq<u64>) -> InsertionView {
        let best = descent_target(self.cur, paired(keys, self.pending));
        if best.0 < self.cur.0 {
            (InsertionView { cur: best, ..self }).descending(graph)
        } else if self.level > self.lists.len() {
            (InsertionView { level: (self.level - 1) as nat, ..self }).descending(graph)
        } else {
            (InsertionView { level: (self.lists.len() - 1) as nat, ..self }).searching(graph)
        }
    }

    /// The neighbours of the node are linked back to it, from the current
    /// position on: a neighbour with room gets the node as a neighbour; at
    /// one without, the insertion asks for the distances from that neighbour
    /// to its own neighbours and to the node; behind the last, it is done.
    pub open spec fn linked(self, graph: GraphView) -> (InsertionView, GraphView)
        decreases graph.nodes[self.id as int].len() - self.level,
            graph.nodes[self.id as int][self.level as int].len() - self.link_pos,
    {
        let own = graph.nodes[self.id as int];
        if self.level >= own.len() {
            (InsertionView { phase: InsertPhase::Done, ..self }, graph)
        } else if self.link_pos >= own[self.level as int].len() {
            (InsertionView { level: self.level + 1, link_pos: 0, ..self }).linked(graph)
        } else {
            let neighbour = own[self.level as int][self.link_pos as int];
            let back = graph.nodes[neighbour as int][self.level as int];
            if neighbour != self.id && neighbour < graph.nodes.len() && self.id < graph.nodes.len()
                && back.len() < self.m {
                (InsertionView { link_pos: self.link_pos + 1, ..self }).linked(
                    GraphView {
                        nodes: with_list(
                            graph.nodes,
                            neighbour as int,
                            self.level as int,
                            back.push(self.id),
                        ),
                        ..graph
                    },
                )
            } else {
                (
                    InsertionView {
                        phase: InsertPhase::Link,
                        anchor: neighbour,
                        pending: back.push(self.id),
                        ..self
                    },
                    graph,
                )
            }
        }
    }

    /// The node is put into the graph with the neighbours that were chosen,
    /// and its neighbours are linked back to it from the first on.
    pub open spec fn linking(self, graph: GraphView) -> (InsertionView, GraphView) {
        (InsertionView {
            phase: InsertPhase::Link,
            level: 0,
            link_pos: 0,
            lists: Seq::empty(),
            ..self
        }).linked(pushed(graph, self.lists))
    }

    /// The search of the level ends: the first `m` of the results are the
    /// node's neighbours on the level, and the first is where the search of
    /// the next level down starts; behind level 0 the node is put into the
    /// graph.
    pub open spec fn level_finished(self, graph: GraphView) -> (InsertionView, GraphView) {
        let chosen = ids_of(self.results).take(
            if self.results.len() < self.m {
                self.results.len() as int
            } else {
                self.m as int
            },
        );
        let from = InsertionView {
            lists: self.lists.update(self.level as int, chosen),
            cur: self.results[0],
            ..self
        };
        if self.level == 0 {
            from.linking(graph)
        } else {
            ((InsertionView { level: (self.level - 1) as nat, ..from }).searching(graph), graph)
        }
    }

    /// The search goes on with the closest candidate: it asks for the
    /// distances to the neighbours of that candidate, or ends where no
    /// candidate is left or the closest comes behind a full list of results.
    pub open spec fn continued(self, graph: GraphView) -> (InsertionView, GraphView) {
        if self.candidates.len() == 0 {
            self.level_finished(graph)
        } else {
            let at = closest_at(self.candidates);
            let closest = self.candidates[at];
            let rest = InsertionView { candidates: self.candidates.remove(at), ..self };
            if self.results.len() >= self.ef && closer(self.results.last(), closest) {
                rest.level_finished(graph)
            } else {
                (rest.expanding(graph, closest.1), graph)
            }
        }
    }

    /// What the distances to the nodes that the search asked for lead to:
    /// the search takes them in and goes on.
    pub open spec fn searched(self, graph: GraphView, keys: Seq<u64>) -> (InsertionView, GraphView) {
        let (candidates, results) = absorbed(
            self.candidates,
            self.results,
            paired(keys, self.pending),
            self.ef as nat,
        );
        (InsertionView { candidates, results, pending: Seq::empty(), ..self }).continued(graph)
    }

    /// What the distances from a neighbour without room lead to: the nearest
    /// of its neighbours and the node are its neighbours, and the linking
    /// goes on behind it.
    pub open spec fn relinked(self, graph: GraphView, keys: Seq<u64>) -> (InsertionView, GraphView) {
        (InsertionView { link_pos: self.link_pos + 1, ..self }).linked(
            GraphView {
                nodes: with_list(
                    graph.nodes,
                    self.anchor as int,
                    self.level as int,
                    ids_of(nearest(paired(keys, self.pending), self.m as nat)),
                ),
                ..graph
            },
        )
    }

    /// What a step with the keys `keys` makes of the insertion and the
    /// graph.
    pub open spec fn stepped(self, graph: GraphView, keys: Seq<u64>) -> (InsertionView, GraphView) {
        match self.phase {
            InsertPhase::Seed => (self.seeded(graph, keys[0]), graph),
            InsertPhase::Descend => (self.descended(graph, keys), graph),
            InsertPhase::Search => self.searched(graph, keys),
            InsertPhase::Link => self.relinked(graph, keys),
            InsertPhase::Done => (self, graph),
        }
    }
}

/// The insertion of one node into a graph.
#[derive(Debug)]
pub struct GraphInsertion {
    m: usize,
    ef: usize,
    id: usize,
    height: usize,
    top: usize,
    lists: Vec<Vec<usize>>,
    phase: InsertPhase,
    level: usize,
    cur: Candidate,
    candidates: Vec<Candidate>,
    results: Vec<Candidate>,
    visited: Vec<bool>,
    anchor: usize,
    pending: Vec<usize>,
    link_pos: usize,
}

impl GraphInsertion {
    /// The lists chosen so far for the node name nodes of the graph that have
    /// the level of their list, no more than `m` each; and above the level
    /// `floor`, every list of a level that the entry point has holds a node.
    spec fn own_ok(&self, graph: GraphView, floor: int) -> bool {
        &&& self.id == graph.nodes.len()
        &&& self.id < usize::MAX
        &&& self.anchor == self.id
        &&& self.lists@.len() == self.height
        &&& 1 <= self.lists@.len() <= MAX_HEIGHT
        &&& self.top + 1 == graph.nodes[graph.entry_point as int].len()
        &&& forall|l: int|
            0 <= l < self.lists@.len() ==> list_ok(graph.heights(), l, (#[trigger] self.lists@[l])@)
                && self.lists@[l]@.len() <= self.m
        &&& forall|l: int|
            floor < l < self.lists@.len() && l <= self.top ==> (#[trigger] self.lists@[l])@.len()
                >= 1
    }

    /// The node that stands in the graph has a neighbour on every level that
    /// the entry point had.
    spec fn neighboured(&self, graph: GraphView) -> bool {
        forall|l: int|
            0 <= l < graph.nodes[self.id as int].len() && l <= self.top ==> (
            #[trigger] graph.nodes[self.id as int][l]).len() >= 1
    }

    /// The state of the insertion fits its phase and the graph.
    pub closed spec fn wf(&self, graph: &HnswGraphBuilder) -> bool {
        let g = graph@;
        &&& 1 <= self.m
        &&& 1 <= self.ef
        &&& self.id < usize::MAX
        &&& graph.wf()
        &&& g.capped(self.m)
        &&& match self.phase {
            InsertPhase::Seed => {
                &&& self.own_ok(g, self.height - 1)
                &&& self.pending@ == seq![g.entry_point]
            },
            InsertPhase::Descend => {
                &&& self.own_ok(g, self.height - 1)
                &&& self.level >= self.lists@.len()
                &&& self.cur.1 < g.nodes.len()
                &&& self.level < g.nodes[self.cur.1 as int].len()
                &&& self.pending@ == g.nodes[self.cur.1 as int][self.level as int]
            },
            InsertPhase::Search => {
                &&& self.own_ok(g, self.level as int)
                &&& self.level < self.lists@.len()
                &&& self.visited@.len() == g.nodes.len()
                &&& candidates_ok(g.heights(), self.level as int, self.candidates@)
                &&& candidates_ok(g.heights(), self.level as int, self.results@)
                &&& list_ok(g.heights(), self.level as int, self.pending@)
                &&& ascending(self.results@)
                &&& 1 <= self.results@.len() <= self.ef
            },
            InsertPhase::Link => {
                &&& g.nodes.len() == self.id + 1
                &&& g.nodes[self.id as int].len() == self.height
                &&& forall|l: int|
                    0 <= l < g.nodes[self.id as int].len() ==> below(
                        #[trigger] g.nodes[self.id as int][l],
                        self.id,
                    )
                &&& self.level < g.nodes[self.id as int].len()
                &&& self.link_pos < g.nodes[self.id as int][self.level as int].len()
                &&& self.anchor == g.nodes[self.id as int][self.level as int][self.link_pos as int]
                &&& self.pending@ == g.nodes[self.anchor as int][self.level as int].push(self.id)
                &&& self.pending@.len() == self.m + 1
                &&& self.neighboured(g)
                &&& linked_before(g, self.id, self.m, self.level as int, self.link_pos as int)
            },
            InsertPhase::Done => {
                &&& g.nodes.len() == self.id + 1
                &&& g.nodes[self.id as int].len() == self.height
                &&& self.neighboured(g)
                &&& linked_before(g, self.id, self.m, self.height as int, 0)
            },
        }
    }

    /// The insertion as contracts see it.
    pub closed spec fn view(&self) -> InsertionView {
        InsertionView {
            m: self.m,
            ef: self.ef,
            id: self.id,
            height: self.height,
            top: self.top,
            phase: self.phase,
            level: self.level as nat,
            cur: self.cur,
            candidates: self.candidates@,
            results: self.results@,
            visited: self.visited@,
            anchor: self.anchor,
            pending: self.pending@,
            lists: Seq::new(self.lists@.len(), |l: int| self.lists@[l]@),
            link_pos: self.link_pos as nat,
        }
    }

    /// In every state of an insertion the graph is well formed, and no node
    /// of it has more than `m` neighbours on a level. While the node is not
    /// linked yet, the graph has the nodes in front of it; from then on, the
    /// node as well, and when the insertion is done the node is linked with
    /// its neighbours. Every vector of a request is a node of the graph or
    /// the node itself.
    pub proof fn lemma_wf(&self, graph: &HnswGraphBuilder)
        requires
            self.wf(graph),
        ensures
            graph.wf(),
            graph@.capped(self@.m),
            self@.id < usize::MAX,
            graph@.nodes.len() == (if self@.phase is Link || self@.phase is Done {
                self@.id + 1
            } else {
                self@.id as int
            }),
            self@.phase is Link || self@.phase is Done ==> graph@.nodes[self@.id as int].len()
                == self@.height,
            self@.phase is Done ==> stands_linked(
                graph@,
                self@.id,
                self@.height,
                self@.top,
                self@.m,
            ),
            !(self@.phase is Link || self@.phase is Done) ==> self@.lists.len()
                == self@.height,
            !(self@.phase is Done) ==> self@.anchor <= self@.id && forall|
                k: int,
            |
                0 <= k < self@.pending.len() ==> (#[trigger] self@.pending[k])
                    <= self@.id,
    {
        let g = graph@;
        match self.phase {
            InsertPhase::Seed => {},
            InsertPhase::Descend => {
                assert(list_ok(g.heights(), self.level as int,
                    g.nodes[self.cur.1 as int][self.level as int]));
            },
            InsertPhase::Search => {},
            InsertPhase::Link => {
                let own = g.nodes[self.id as int][self.level as int];
                assert(below(own, self.id));
                assert(own[self.link_pos as int] < self.id);
                let list = g.nodes[self.anchor as int][self.level as int];
                assert(list_ok(g.heights(), self.level as int, list));
                assert forall|k: int| 0 <= k < self.pending@.len() implies (
                #[trigger] self.pending@[k]) <= self.id by {
                    if k < list.len() {
                        assert(self.pending@[k] == list[k]);
                    }
                }
            },
            InsertPhase::Done => {},
        }
    }

    /// What the insertion is doing.
    pub fn phase(&self) -> (phase: InsertPhase)
        ensures
            phase == self@.phase,
    {
        self.phase
    }

    /// The id of the node that is inserted.
    pub fn id(&self) -> (id: usize)
        ensures
            id == self@.id,
    {
        self.id
    }

    /// The outstanding request.
    fn request(&self) -> (req: MeasureRequest)
        ensures
            req.anchor == self.anchor,
            req.ids@ == self.pending@,
    {
        MeasureRequest { anchor: self.anchor, ids: copy_of(self.pending.as_slice()) }
    }

    /// The graph is well formed and capped, and the node that is inserted
    /// does not stand in it yet.
    spec fn base_ok(&self, graph: &HnswGraphBuilder, floor: int) -> bool {
        &&& 1 <= self.m
        &&& 1 <= self.ef
        &&& self.id < usize::MAX
        &&& graph.wf()
        &&& graph@.capped(self.m)
        &&& self.own_ok(graph@, floor)
    }

    /// Asks for the distances to the neighbours of the current node on the
    /// current level, which lies above the node's own.
    fn enter_descend(&mut self, graph: &HnswGraphBuilder) -> (req: MeasureRequest)
        requires
            old(self).base_ok(graph, old(self).height - 1),
            old(self).level >= old(self).lists@.len(),
            old(self).cur.1 < graph@.nodes.len(),
            old(self).level < graph@.nodes[old(self).cur.1 as int].len(),
        ensures
            final(self).wf(graph),
            final(self)@ == old(self)@.descending(graph@),
            final(self).phase is Descend,
            final(self).id == old(self).id,
            final(self).m == old(self).m,
            final(self).height == old(self).height,
            final(self).top == old(self).top,
            req.anchor == final(self).anchor,
            req.ids@ == final(self).pending@,
    {
        self.pending = copy_of(graph.neighbours(self.cur.1, self.level));
        self.phase = InsertPhase::Descend;
        proof {
            assert(self@ =~= old(self)@.descending(graph@));
        }
        self.request()
    }

    /// Starts the search of the current level, one of the node's own, from
    /// the current node, and asks for the distances to its neighbours.
    fn begin_search(&mut self, graph: &HnswGraphBuilder) -> (req: MeasureRequest)
        requires
            old(self).base_ok(graph, old(self).level as int),
            old(self).level < old(self).lists@.len(),
            old(self).cur.1 < graph@.nodes.len(),
            old(self).level < graph@.nodes[old(self).cur.1 as int].len(),
        ensures
            final(self).wf(graph),
            final(self)@ == old(self)@.searching(graph@),
            final(self).phase is Search,
            final(self).id == old(self).id,
            final(self).m == old(self).m,
            final(self).height == old(self).height,
            final(self).top == old(self).top,
            req.anchor == final(self).anchor,
            req.ids@ == final(self).pending@,
    {
        let n = graph.len();
        let mut visited: Vec<bool> = Vec::new();
        let mut i: usize = 0;
        while i < n
            invariant
                i <= n,
                visited@.len() == i,
                forall|j: int| 0 <= j < i ==> !visited@[j],
            decreases n - i,
        {
            visited.push(false);
            i = i + 1;
        }
        visited[self.cur.1] = true;
        self.visited = visited;
        self.candidates = Vec::new();
        let mut results: Vec<Candidate> = Vec::new();
        results.push(self.cur);
        self.results = results;
        self.pending = Vec::new();
        self.phase = InsertPhase::Search;
        proof {
            let before = old(self)@;
            assert(self@ =~= (InsertionView {
                phase: InsertPhase::Search,
                visited: Seq::new(graph@.nodes.len(), |n: int| n == before.cur.1),
                candidates: Seq::empty(),
                results: seq![before.cur],
                pending: Seq::empty(),
                ..before
            }));
        }
        self.expand(graph, self.cur.1)
    }

    /// Asks for the distances to the neighbours of `node` on the level that
    /// is searched, as far as the search has not seen them yet.
    fn expand(&mut self, graph: &HnswGraphBuilder, node: usize) -> (req: MeasureRequest)
        requires
            old(self).wf(graph),
            old(self).phase is Search,
            node < graph@.nodes.len(),
            old(self).level < graph@.nodes[node as int].len(),
        ensures
            final(self).wf(graph),
            final(self)@ == old(self)@.expanding(graph@, node),
            final(self).phase is Search,
            final(self).id == old(self).id,
            final(self).m == old(self).m,
            final(self).height == old(self).height,
            final(self).top == old(self).top,
            req.anchor == final(self).anchor,
            req.ids@ == final(self).pending@,
    {
        let list = graph.neighbours(node, self.level);
        let mut visited: Vec<bool> = Vec::new();
        std::mem::swap(&mut self.visited, &mut visited);
        let mut pending: Vec<usize> = Vec::new();
        let ghost heights = graph@.heights();
        let level = self.level;
        proof {
            assert(list_ok(heights, level as int, graph@.nodes[node as int][level as int]));
        }
        let ghost seen = visited@;
        let mut k: usize = 0;
        proof {
            assert(list@.take(0) =~= Seq::<usize>::empty());
        }
        while k < list.len()
            invariant
                k <= list@.len(),
                visited@.len() == heights.len(),
                list_ok(heights, level as int, list@),
                list_ok(heights, level as int, pending@),
                (pending@, visited@) == unvisited(list@.take(k as int), seen),
            decreases list.len() - k,
        {
            let y = list[k];
            proof {
                assert(list@.take(k + 1).drop_last() =~= list@.take(k as int));
                assert(list@.take(k + 1).last() == y);
            }
            if !visited[y] {
                visited[y] = true;
                pending.push(y);
            }
            k = k + 1;
        }
        proof {
            assert(list@.take(k as int) =~= list@);
        }
        self.visited = visited;
        self.pending = pending;
        proof {
            assert(self@ =~= old(self)@.expanding(graph@, node));
        }
        self.request()
    }

    /// Takes the distance to the entry point, and starts the descent from it
    /// or, where the node is as high as the entry point, the search.
    fn on_seed(&mut self, graph: &HnswGraphBuilder, distance: u64) -> (req: MeasureRequest)
        requires
            old(self).wf(graph),
            old(self).phase is Seed,
        ensures
            final(self).wf(graph),
            final(self)@ == old(self)@.seeded(graph@, distance),
            final(self).phase is Descend || final(self).phase is Search,
            final(self).id == old(self).id,
            final(self).m == old(self).m,
            final(self).height == old(self).height,
            final(self).top == old(self).top,
            req.anchor == final(self).anchor,
            req.ids@ == final(self).pending@,
    {
        let entry = graph.entrypoint();
        self.cur = (distance, entry);
        let top: usize = graph.height(entry) - 1;
        self.level = top;
        proof {
            assert(self@ =~= (InsertionView {
                cur: (distance, graph@.entry_point),
                level: top as nat,
                ..old(self)@
            }));
        }
        if top >= self.lists.len() {
            self.enter_descend(graph)
        } else {
            self.begin_search(graph)
        }
    }

    /// Takes the distances to the neighbours of the current node. Moves to
    /// the closest of them if it is closer than the current node, else goes
    /// down one level, and starts the search where that level is the node's
    /// own.
    fn on_descend(&mut self, graph: &HnswGraphBuilder, distances: &[u64]) -> (req: MeasureRequest)
        requires
            old(self).wf(graph),
            old(self).phase is Descend,
            distances@.len() == old(self).pending@.len(),
        ensures
            final(self).wf(graph),
            final(self)@ == old(self)@.descended(graph@, distances@),
            final(self).phase is Descend || final(self).phase is Search,
            final(self).id == old(self).id,
            final(self).m == old(self).m,
            final(self).height == old(self).height,
            final(self).top == old(self).top,
            req.anchor == final(self).anchor,
            req.ids@ == final(self).pending@,
    {
        let ghost heights = graph@.heights();
        let level = self.level;
        proof {
            assert(list_ok(
                heights,
                level as int,
                graph@.nodes[self.cur.1 as int][level as int],
            ));
        }
        let mut best: Candidate = self.cur;
        let mut k: usize = 0;
        let ghost items = paired(distances@, self.pending@);
        proof {
            assert(items.take(0) =~= Seq::<Candidate>::empty());
        }
        while k < self.pending.len()
            invariant
                k <= self.pending@.len(),
                distances@.len() == self.pending@.len(),
                list_ok(heights, level as int, self.pending@),
                best.1 < heights.len(),
                heights[best.1 as int] > level,
                *self == *old(self),
                items == paired(distances@, self.pending@),
                best == descent_target(self.cur, items.take(k as int)),
            decreases self.pending.len() - k,
        {
            let candidate: Candidate = (distances[k], self.pending[k]);
            proof {
                assert(items.take(k + 1).drop_last() =~= items.take(k as int));
                assert(items.take(k + 1).last() == candidate);
            }
            if candidate.0 < self.cur.0 && is_closer(candidate, best) {
                best = candidate;
            }
            k = k + 1;
        }
        proof {
            assert(items.take(k as int) =~= items);
        }
        if best.0 < self.cur.0 {
            self.cur = best;
            proof {
                assert(self@ =~= (InsertionView { cur: best, ..old(self)@ }));
            }
            self.enter_descend(graph)
        } else if self.level > self.lists.len() {
            self.level = self.level - 1;
            proof {
                assert(self@ =~= (InsertionView {
                    level: (old(self)@.level - 1) as nat,
                    ..old(self)@
                }));
            }
            self.enter_descend(graph)
        } else {
            self.level = self.lists.len() - 1;
            proof {
                assert(self@ =~= (InsertionView {
                    level: (old(self)@.lists.len() - 1) as nat,
                    ..old(self)@
                }));
            }
            self.begin_search(graph)
        }
    }

    /// Takes the distances to the nodes that the search asked for. Each that
    /// is closer than the farthest result, or for which there is room, becomes
    /// a candidate and a result.
    fn on_search(&mut self, graph: &mut HnswGraphBuilder, distances: &[u64]) -> (req: Option<
        MeasureRequest,
    >)
        requires
            old(self).wf(old(graph)),
            old(self).phase is Search,
            distances@.len() == old(self).pending@.len(),
        ensures
            final(self).wf(final(graph)),
            final(self).id == old(self).id,
            final(self).m == old(self).m,
            final(self).height == old(self).height,
            final(self).top == old(self).top,
            (final(self)@, final(graph)@) == old(self)@.searched(old(graph)@, distances@),
            final(graph)@.heights().take(old(graph)@.nodes.len() as int) == old(graph)@.heights(),
            grown_by(old(graph)@, final(graph)@, old(self).id),
            req is None <==> final(self).phase is Done,
            req matches Some(r) ==> r.anchor == final(self).anchor && r.ids@ == final(self).pending@,
    {
        let ghost heights = graph@.heights();
        let level = self.level;
        let ef = self.ef;
        let mut candidates: Vec<Candidate> = Vec::new();
        let mut results: Vec<Candidate> = Vec::new();
        std::mem::swap(&mut self.candidates, &mut candidates);
        std::mem::swap(&mut self.results, &mut results);
        let ghost given_candidates = candidates@;
        let ghost given_results = results@;
        let ghost items = paired(distances@, self.pending@);
        let mut k: usize = 0;
        proof {
            assert(items.take(0) =~= Seq::<Candidate>::empty());
        }
        while k < self.pending.len()
            invariant
                k <= self.pending@.len(),
                distances@.len() == self.pending@.len(),
                list_ok(heights, level as int, self.pending@),
                candidates_ok(heights, level as int, candidates@),
                candidates_ok(heights, level as int, results@),
                ascending(results@),
                1 <= results@.len() <= ef,
                items == paired(distances@, self.pending@),
                (candidates@, results@) == absorbed(
                    given_candidates,
                    given_results,
                    items.take(k as int),
                    ef as nat,
                ),
            decreases self.pending.len() - k,
        {
            let candidate: Candidate = (distances[k], self.pending[k]);
            proof {
                assert(items.take(k + 1).drop_last() =~= items.take(k as int));
                assert(items.take(k + 1).last() == candidate);
            }
            let worst = results[results.len() - 1];
            if results.len() < ef || is_closer(candidate, worst) {
                candidates.push(candidate);
                proof {
                    crate::nearest::lemma_inserted(results@, candidate, ef as nat);
                }
                let ghost before = results@;
                insert_bounded(&mut results, candidate, ef);
                proof {
                    assert forall|i: int| 0 <= i < results@.len() implies (#[trigger] results@[i]).1
                        < heights.len() && heights[results@[i].1 as int] > level by {
                        if results@[i] != candidate {
                            let w = choose|w: int| 0 <= w < before.len() && before[w] == results@[i];
                            assert(before[w].1 < heights.len());
                        }
                    }
                }
            }
            k = k + 1;
        }
        proof {
            assert(items.take(k as int) =~= items);
        }
        self.candidates = candidates;
        self.results = results;
        self.pending = Vec::new();
        proof {
            assert(self@ =~= (InsertionView {
                candidates: candidates@,
                results: results@,
                pending: Seq::empty(),
                ..old(self)@
            }));
        }
        self.next_candidate(graph)
    }

    /// Goes on with the closest candidate: asks for the distances to its
    /// neighbours, or ends the search of the level where no candidate is left
    /// or the closest is farther than a full list of results.
    fn next_candidate(&mut self, graph: &mut HnswGraphBuilder) -> (req: Option<MeasureRequest>)
        requires
            old(self).wf(old(graph)),
            old(self).phase is Search,
        ensures
            final(self).wf(final(graph)),
            final(self).id == old(self).id,
            final(self).m == old(self).m,
            final(self).height == old(self).height,
            final(self).top == old(self).top,
            (final(self)@, final(graph)@) == old(self)@.continued(old(graph)@),
            final(graph)@.heights().take(old(graph)@.nodes.len() as int) == old(graph)@.heights(),
            grown_by(old(graph)@, final(graph)@, old(self).id),
            req is None <==> final(self).phase is Done,
            req matches Some(r) ==> r.anchor == final(self).anchor && r.ids@ == final(self).pending@,
    {
        if self.candidates.len() == 0 {
            return self.finish_level(graph);
        }
        let ghost heights = graph@.heights();
        let ghost before = self.candidates@;
        let mut at: usize = 0;
        let mut k: usize = 1;
        while k < self.candidates.len()
            invariant
                at < k <= self.candidates@.len(),
                *self == *old(self),
                at == closest_at(self.candidates@.take(k as int)),
            decreases self.candidates.len() - k,
        {
            proof {
                assert(self.candidates@.take(k + 1).drop_last() =~= self.candidates@.take(k as int));
            }
            if is_closer(self.candidates[k], self.candidates[at]) {
                at = k;
            }
            k = k + 1;
        }
        proof {
            assert(self.candidates@.take(k as int) =~= self.candidates@);
        }
        let closest = self.candidates.remove(at);
        proof {
            assert(self@ =~= (InsertionView { candidates: before.remove(at as int), ..old(self)@ }));
        }
        proof {
            assert(closest == before[at as int]);
            assert forall|i: int| 0 <= i < self.candidates@.len() implies (
            #[trigger] self.candidates@[i]).1 < heights.len() && heights[self.candidates@[i].1 as int]
                > self.level by {
                if i < at {
                    assert(self.candidates@[i] == before[i]);
                } else {
                    assert(self.candidates@[i] == before[i + 1]);
                }
            }
        }
        let worst = self.results[self.results.len() - 1];
        if self.results.len() >= self.ef && is_closer(worst, closest) {
            self.finish_level(graph)
        } else {
            proof {
                assert(graph@.heights().take(graph@.nodes.len() as int) =~= graph@.heights());
                lemma_grown_same(graph@, self.id);
            }
            Some(self.expand(graph, closest.1))
        }
    }

    /// Ends the search of the level: the closest results, as many as a node
    /// may have neighbours, become the node's neighbours on the level. The
    /// search goes on one level down from the closest of them; behind level 0
    /// the node is put into the graph.
    fn finish_level(&mut self, graph: &mut HnswGraphBuilder) -> (req: Option<MeasureRequest>)
        requires
            old(self).wf(old(graph)),
            old(self).phase is Search,
        ensures
            final(self).wf(final(graph)),
            final(self).id == old(self).id,
            final(self).m == old(self).m,
            final(self).height == old(self).height,
            final(self).top == old(self).top,
            (final(self)@, final(graph)@) == old(self)@.level_finished(old(graph)@),
            final(graph)@.heights().take(old(graph)@.nodes.len() as int) == old(graph)@.heights(),
            grown_by(old(graph)@, final(graph)@, old(self).id),
            req is None <==> final(self).phase is Done,
            req matches Some(r) ==> r.anchor == final(self).anchor && r.ids@ == final(self).pending@,
    {
        let ghost heights = graph@.heights();
        let level = self.level;
        let mut selected: Vec<usize> = Vec::new();
        let mut k: usize = 0;
        while k < self.results.len() && k < self.m
            invariant
                k <= self.results@.len(),
                k <= self.m,
                selected@ == ids_of(self.results@).subrange(0, k as int),
                *self == *old(self),
            decreases self.results.len() - k,
        {
            selected.push(self.results[k].1);
            k = k + 1;
            assert(selected@ =~= ids_of(self.results@).subrange(0, k as int));
        }
        proof {
            assert forall|i: int| 0 <= i < selected@.len() implies (#[trigger] selected@[i])
                < heights.len() && heights[selected@[i] as int] > level by {
                assert(selected@[i] == self.results@[i].1);
            }
        }
        let ghost old_lists = self.lists@;
        let ghost chosen = selected@;
        self.lists[level] = selected;
        self.cur = self.results[0];
        proof {
            let before = old(self)@;
            assert(chosen =~= ids_of(before.results).take(
                if before.results.len() < before.m {
                    before.results.len() as int
                } else {
                    before.m as int
                },
            ));
            assert(self@.lists =~= before.lists.update(level as int, chosen)) by {
                assert forall|l: int| 0 <= l < self.lists@.len() implies self@.lists[l]
                    == before.lists.update(level as int, chosen)[l] by {
                    if l != level {
                        assert(self.lists@[l] == old_lists[l]);
                    }
                }
            }
            assert(self@ =~= (InsertionView {
                lists: before.lists.update(level as int, chosen),
                cur: before.results[0],
                ..before
            }));
        }
        proof {
            assert forall|l: int| 0 <= l < self.lists@.len() implies list_ok(
                heights,
                l,
                (#[trigger] self.lists@[l])@,
            ) && self.lists@[l]@.len() <= self.m by {
                if l != level {
                    assert(self.lists@[l] == old_lists[l]);
                }
            }
        }
        if level == 0 {
            self.begin_link(graph)
        } else {
            let ghost from = self@;
            self.level = level - 1;
            proof {
                assert(graph@.heights().take(graph@.nodes.len() as int) =~= graph@.heights());
                lemma_grown_same(graph@, self.id);
                assert(self@ =~= (InsertionView { level: (from.level - 1) as nat, ..from }));
            }
            Some(self.begin_search(graph))
        }
    }

    /// The node stands in the graph, and the insertion is linking its
    /// neighbours back to it.
    spec fn link_ok(&self, graph: &HnswGraphBuilder) -> bool {
        let g = graph@;
        &&& 1 <= self.m
        &&& 1 <= self.ef
        &&& self.id < usize::MAX
        &&& graph.wf()
        &&& g.capped(self.m)
        &&& g.nodes.len() == self.id + 1
        &&& g.nodes[self.id as int].len() == self.height
        &&& self.neighboured(g)
        &&& forall|l: int|
            0 <= l < g.nodes[self.id as int].len() ==> below(
                #[trigger] g.nodes[self.id as int][l],
                self.id,
            )
    }

    /// Puts the node with the neighbours that were chosen into the graph, and
    /// starts to link the neighbours back to it.
    fn begin_link(&mut self, graph: &mut HnswGraphBuilder) -> (req: Option<MeasureRequest>)
        requires
            old(self).base_ok(old(graph), -1),
        ensures
            final(self).wf(final(graph)),
            final(self).id == old(self).id,
            final(self).m == old(self).m,
            final(self).height == old(self).height,
            final(self).top == old(self).top,
            (final(self)@, final(graph)@) == old(self)@.linking(old(graph)@),
            final(graph)@.heights().take(old(graph)@.nodes.len() as int) == old(graph)@.heights(),
            grown_by(old(graph)@, final(graph)@, old(self).id),
            req is None <==> final(self).phase is Done,
            req matches Some(r) ==> r.anchor == final(self).anchor && r.ids@ == final(self).pending@,
    {
        let mut lists: Vec<Vec<usize>> = Vec::new();
        std::mem::swap(&mut self.lists, &mut lists);
        let node = HnswNode::from_lists(lists);
        let ghost old_view = graph@;
        proof {
            assert forall|l: int| 0 <= l < node.lists().len() implies list_ok(
                old_view.heights(),
                l,
                #[trigger] node.lists()[l],
            ) by {
                assert(node.lists()[l] == lists@[l]@);
            }
        }
        graph.push_node(node);
        proof {
            let g = graph@;
            assert(g.nodes[self.id as int] == node.lists());
            assert forall|n: int, l: int|
                0 <= n < g.nodes.len() && 0 <= l < g.nodes[n].len() implies (
            #[trigger] g.nodes[n][l]).len() <= self.m by {
                if n < self.id {
                    assert(g.nodes[n][l] == old_view.nodes[n][l]);
                } else {
                    assert(g.nodes[n][l] == lists@[l]@);
                }
            }
            assert forall|l: int| 0 <= l < g.nodes[self.id as int].len() implies below(
                #[trigger] g.nodes[self.id as int][l],
                self.id,
            ) by {
                assert(g.nodes[self.id as int][l] == lists@[l]@);
                assert(list_ok(old_view.heights(), l, lists@[l]@));
            }
            assert(g.heights().take(old_view.nodes.len() as int) =~= old_view.heights());
            lemma_grown_same(old_view, self.id);
            assert(grown_by(old_view, g, self.id)) by {
                assert forall|n: int, l: int|
                    0 <= n < old_view.nodes.len() && 0 <= l < old_view.nodes[n].len() implies only_adds(
                    old_view.nodes[n][l],
                    #[trigger] g.nodes[n][l],
                    self.id,
                ) by {
                    assert(g.nodes[n] == old_view.nodes[n]);
                    assert(only_adds(old_view.nodes[n][l], old_view.nodes[n][l], self.id));
                }
            }
        }
        proof {
            let g = graph@;
            assert forall|l: int| 0 <= l < g.nodes[self.id as int].len() && l <= self.top implies (
            #[trigger] g.nodes[self.id as int][l]).len() >= 1 by {
                assert(g.nodes[self.id as int][l] == lists@[l]@);
            }
        }
        self.phase = InsertPhase::Link;
        self.level = 0;
        self.link_pos = 0;
        let ghost pushed_graph = graph@;
        proof {
            let before = old(self)@;
            assert(before.lists =~= node.lists());
            assert(pushed_graph =~= pushed(old_view, before.lists));
            assert(self@ =~= (InsertionView {
                phase: InsertPhase::Link,
                level: 0,
                link_pos: 0,
                lists: Seq::empty(),
                ..before
            }));
        }
        let req = self.next_link(graph);
        proof {
            lemma_grown_twice(old_view, pushed_graph, graph@, self.id);
        }
        req
    }

    /// Links the neighbours of the node back to it, from the current position
    /// on, until one of them has no room left: the request then asks for the
    /// distances from that neighbour to its own neighbours and to the node.
    /// With every neighbour linked the insertion is done.
    fn next_link(&mut self, graph: &mut HnswGraphBuilder) -> (req: Option<MeasureRequest>)
        requires
            old(self).link_ok(old(graph)),
            old(self).level <= old(graph)@.nodes[old(self).id as int].len(),
            old(self).level < old(graph)@.nodes[old(self).id as int].len() ==> old(self).link_pos
                <= old(graph)@.nodes[old(self).id as int][old(self).level as int].len(),
            linked_before(
                old(graph)@,
                old(self).id,
                old(self).m,
                old(self).level as int,
                old(self).link_pos as int,
            ),
        ensures
            final(self).wf(final(graph)),
            final(self).id == old(self).id,
            final(self).m == old(self).m,
            final(self).height == old(self).height,
            final(self).top == old(self).top,
            (final(self)@, final(graph)@) == old(self)@.linked(old(graph)@),
            final(graph)@.heights() == old(graph)@.heights(),
            grown_by(old(graph)@, final(graph)@, old(self).id),
            req is None <==> final(self).phase is Done,
            req matches Some(r) ==> r.anchor == final(self).anchor && r.ids@ == final(self).pending@,
    {
        let id = self.id;
        let m = self.m;
        let height = graph.height(id);
        let mut level = self.level;
        let mut link_pos = self.link_pos;
        let ghost own = graph@.nodes[id as int];
        let ghost heights = graph@.heights();
        proof {
            lemma_grown_same(graph@, id);
            assert((InsertionView { level: level as nat, link_pos: link_pos as nat, ..self@ })
                =~= self@);
        }
        while level < height
            invariant
                self.link_ok(graph),
                *self == *old(self),
                id == self.id,
                m == self.m,
                own == graph@.nodes[id as int],
                heights == graph@.heights(),
                heights == old(graph)@.heights(),
                grown_by(old(graph)@, graph@, id),
                linked_before(graph@, id, m, level as int, link_pos as int),
                (InsertionView { level: level as nat, link_pos: link_pos as nat, ..old(self)@ }).linked(
                    graph@,
                ) == old(self)@.linked(old(graph)@),
                height == own.len(),
                level <= height,
                level < height ==> link_pos <= own[level as int].len(),
            decreases height - level, own[level as int].len() - link_pos,
        {
            let own_list = graph.neighbours(id, level);
            if link_pos >= own_list.len() {
                level = level + 1;
                link_pos = 0;
            } else {
                let neighbour = own_list[link_pos];
                proof {
                    assert(below(own[level as int], id));
                    assert(list_ok(heights, level as int, own[level as int]));
                    assert(own[level as int][link_pos as int] == neighbour);
                }
                let back = graph.neighbours(neighbour, level);
                if back.len() < m {
                    proof {
                        let list = graph@.nodes[neighbour as int][level as int].push(id);
                        assert(list_ok(heights, level as int, graph@.nodes[neighbour as int][level as int]));
                        assert forall|k: int| 0 <= k < list.len() implies (#[trigger] list[k])
                            < heights.len() && heights[list[k] as int] > level by {
                            if k < list.len() - 1 {
                                assert(list[k] == graph@.nodes[neighbour as int][level as int][k]);
                            }
                        }
                        lemma_with_list(graph@, neighbour as int, level as int, list, m);
                        let had = graph@.nodes[neighbour as int][level as int];
                        assert forall|k: int| 0 <= k < list.len() implies (#[trigger] list[k]) == id
                            || had.contains(list[k]) by {
                            if k < had.len() {
                                assert(had[k] == list[k]);
                            }
                        }
                        lemma_grown_with_list(
                            old(graph)@,
                            graph@,
                            neighbour as int,
                            level as int,
                            list,
                            id,
                        );
                        assert(list[list.len() - 1] == id);
                        assert forall|l: int| 0 <= l < own.len() implies list_ok(
                            heights,
                            l,
                            #[trigger] graph@.nodes[id as int][l],
                        ) by {}
                        lemma_linked_with_list(
                            graph@,
                            id,
                            m,
                            level as int,
                            link_pos as int,
                            neighbour as int,
                            level as int,
                            list,
                        );
                    }
                    let ghost before_add = graph@;
                    graph.add_neighbour(neighbour, level, id);
                    proof {
                        let g = graph@;
                        assert(g.nodes[id as int] == own);
                        assert(g.nodes[neighbour as int][level as int].contains(id)) by {
                            let list = g.nodes[neighbour as int][level as int];
                            assert(list[list.len() - 1] == id);
                        }
                        assert forall|l: int, k: int|
                            0 <= l < g.nodes[id as int].len() && 0 <= k < g.nodes[id as int][l].len()
                                && (l < level || (l == level && k < link_pos + 1)) implies linked_back(
                            g,
                            id,
                            m,
                            l,
                            #[trigger] g.nodes[id as int][l][k] as int,
                        ) by {
                            if l == level && k == link_pos {
                            } else {
                                assert(linked_back(g, id, m, l, g.nodes[id as int][l][k] as int));
                            }
                        }
                    }
                    link_pos = link_pos + 1;
                } else {
                    proof {
                        assert(graph@.nodes[neighbour as int][level as int].len() <= m);
                    }
                    let mut pending = copy_of(back);
                    pending.push(id);
                    let ghost at = InsertionView {
                        level: level as nat,
                        link_pos: link_pos as nat,
                        ..old(self)@
                    };
                    self.pending = pending;
                    self.anchor = neighbour;
                    self.level = level;
                    self.link_pos = link_pos;
                    self.phase = InsertPhase::Link;
                    proof {
                        assert(self@ =~= at.linked(graph@).0);
                        assert(graph@ == at.linked(graph@).1);
                    }
                    return Some(self.request());
                }
            }
        }
        let ghost at = InsertionView {
            level: level as nat,
            link_pos: link_pos as nat,
            ..old(self)@
        };
        self.level = level;
        self.link_pos = link_pos;
        self.phase = InsertPhase::Done;
        proof {
            assert(self@ =~= at.linked(graph@).0);
        }
        None
    }

    /// Takes the distances from a neighbour without room to its own
    /// neighbours and to the node, keeps the nearest of them as the
    /// neighbour's neighbours, and goes on linking.
    fn on_link(&mut self, graph: &mut HnswGraphBuilder, distances: &[u64]) -> (req: Option<
        MeasureRequest,
    >)
        requires
            old(self).wf(old(graph)),
            old(self).phase is Link,
            distances@.len() == old(self).pending@.len(),
        ensures
            final(self).wf(final(graph)),
            final(self).id == old(self).id,
            final(self).m == old(self).m,
            final(self).height == old(self).height,
            final(self).top == old(self).top,
            (final(self)@, final(graph)@) == old(self)@.relinked(old(graph)@, distances@),
            final(graph)@.heights() == old(graph)@.heights(),
            grown_by(old(graph)@, final(graph)@, old(self).id),
            req is None <==> final(self).phase is Done,
            req matches Some(r) ==> r.anchor == final(self).anchor && r.ids@ == final(self).pending@,
    {
        let ghost g = graph@;
        let ghost heights = g.heights();
        let level = self.level;
        let neighbour = self.anchor;
        proof {
            assert(below(g.nodes[self.id as int][level as int], self.id));
            assert(list_ok(heights, level as int, g.nodes[self.id as int][level as int]));
            assert(list_ok(heights, level as int, g.nodes[neighbour as int][level as int]));
        }
        let list = nearest_ids(distances, self.pending.as_slice(), self.m);
        proof {
            let items = paired(distances@, self.pending@);
            let kept = nearest(items, self.m as nat);
            lemma_nearest(items, self.m as nat);
            assert forall|k: int| 0 <= k < list@.len() implies (#[trigger] list@[k]) < heights.len()
                && heights[list@[k] as int] > level by {
                assert(items.contains(kept[k]));
                let w = choose|w: int| 0 <= w < items.len() && items[w] == kept[k];
                assert(list@[k] == self.pending@[w]);
                if w < self.pending@.len() - 1 {
                    assert(self.pending@[w] == g.nodes[neighbour as int][level as int][w]);
                }
            }
            lemma_with_list(g, neighbour as int, level as int, list@, self.m);
            let had = g.nodes[neighbour as int][level as int];
            assert forall|k: int| 0 <= k < list@.len() implies (#[trigger] list@[k]) == self.id
                || had.contains(list@[k]) by {
                assert(items.contains(kept[k]));
                let w = choose|w: int| 0 <= w < items.len() && items[w] == kept[k];
                assert(list@[k] == self.pending@[w]);
                if w < self.pending@.len() - 1 {
                    assert(self.pending@[w] == had[w]);
                }
            }
            lemma_grown_same(g, self.id);
            lemma_grown_with_list(g, g, neighbour as int, level as int, list@, self.id);
            assert(list@.len() == self.m);
            assert forall|l: int| 0 <= l < g.nodes[self.id as int].len() implies list_ok(
                heights,
                l,
                #[trigger] g.nodes[self.id as int][l],
            ) by {}
            lemma_linked_with_list(
                g,
                self.id,
                self.m,
                level as int,
                self.link_pos as int,
                neighbour as int,
                level as int,
                list@,
            );
        }
        graph.set_neighbours(neighbour, level, list);
        proof {
            let after = graph@;
            assert(after.nodes[self.id as int] == g.nodes[self.id as int]);
            assert forall|l: int, k: int|
                0 <= l < after.nodes[self.id as int].len() && 0 <= k
                    < after.nodes[self.id as int][l].len() && (l < level || (l == level && k
                    < self.link_pos + 1)) implies linked_back(
                after,
                self.id,
                self.m,
                l,
                #[trigger] after.nodes[self.id as int][l][k] as int,
            ) by {
                if l == level && k == self.link_pos {
                } else {
                    assert(linked_back(after, self.id, self.m, l, after.nodes[self.id as int][l][k] as int));
                }
            }
        }
        self.link_pos = self.link_pos + 1;
        let ghost replaced = graph@;
        proof {
            assert(self@ =~= (InsertionView {
                link_pos: old(self)@.link_pos + 1,
                ..old(self)@
            }));
        }
        let req = self.next_link(graph);
        proof {
            lemma_grown_twice(g, replaced, graph@, self.id);
        }
        req
    }

    /// Takes the keys of the distances that the outstanding request asked
    /// for, in the order of its ids, and goes on with the insertion: the
    /// result is the next request, or nothing when the node stands in the
    /// graph with its neighbours linked. Keys that are not as many as the ids
    /// of the request, and keys for an insertion that is done, are refused and
    /// change nothing.
    pub fn step(&mut self, graph: &mut HnswGraphBuilder, distances: &[u64]) -> (res: Result<
        Option<MeasureRequest>,
        VectorError,
    >)
        requires
            old(self).wf(old(graph)),
        ensures
            final(self).wf(final(graph)),
            final(self)@.id == old(self)@.id,
            final(self)@.m == old(self)@.m,
            final(self)@.height == old(self)@.height,
            final(self)@.top == old(self)@.top,
            grown_by(old(graph)@, final(graph)@, old(self)@.id),
            final(graph)@.heights().take(old(graph)@.nodes.len() as int) == old(graph)@.heights(),
            old(self)@.phase is Done || distances@.len() != old(self)@.pending.len()
                ==> res is Err && res->Err_0 == VectorError::ContractViolation && *final(self)
                == *old(self) && *final(graph) == *old(graph),
            !(old(self)@.phase is Done) && distances@.len() == old(self)@.pending.len()
                ==> res is Ok && (final(self)@, final(graph)@) == old(self)@.stepped(
                old(graph)@,
                distances@,
            ),
            res matches Ok(None) ==> final(self)@.phase is Done && stands_linked(
                final(graph)@,
                old(self)@.id,
                old(self)@.height,
                old(self)@.top,
                old(self)@.m,
            ),
            res matches Ok(Some(r)) ==> !(final(self)@.phase is Done) && r.anchor
                == final(self)@.anchor && r.ids@ == final(self)@.pending,
    {
        proof {
            assert(graph@.heights().take(graph@.nodes.len() as int) =~= graph@.heights());
            lemma_grown_same(graph@, self.id);
        }
        if distances.len() != self.pending.len() {
            return Err(VectorError::ContractViolation);
        }
        let res = match self.phase {
            InsertPhase::Seed => Ok(Some(self.on_seed(graph, distances[0]))),
            InsertPhase::Descend => Ok(Some(self.on_descend(graph, distances))),
            InsertPhase::Search => Ok(self.on_search(graph, distances)),
            InsertPhase::Link => Ok(self.on_link(graph, distances)),
            InsertPhase::Done => Err(VectorError::ContractViolation),
        };
        proof {
            self.lemma_wf(graph);
        }
        res
    }

    /// Begins the insertion of `node`, which has no neighbours yet, as the
    /// next node of `graph`. The first request asks for the distance from the
    /// node to the entry point.
    pub fn start(graph: &HnswGraphBuilder, options: &HnswBuilderOptions, node: HnswNode) -> (res: (
        Self,
        MeasureRequest,
    ))
        requires
            graph.wf(),
            graph@.capped(options.m),
            options.wf(),
            graph@.nodes.len() < usize::MAX,
            1 <= node.lists().len() <= MAX_HEIGHT,
            forall|l: int| 0 <= l < node.lists().len() ==> (#[trigger] node.lists()[l]).len() == 0,
        ensures
            res.0.wf(graph),
            res.0@ == InsertionView::started(graph@, *options, node.lists()),
            res.0@.phase is Seed,
            res.0@.id == graph@.nodes.len(),
            res.0@.m == options.m,
            res.0@.height == node.lists().len(),
            res.0@.top + 1 == graph@.nodes[graph@.entry_point as int].len(),
            res.0@.lists == node.lists(),
            res.1.anchor == graph@.nodes.len(),
            res.1.ids@ == seq![graph@.entry_point],
            res.0@.anchor == res.1.anchor,
            res.0@.pending == res.1.ids@,
    {
        let id = graph.len();
        let height = node.height();
        let top: usize = graph.height(graph.entrypoint()) - 1;
        let lists = node.into_lists();
        let mut pending: Vec<usize> = Vec::new();
        pending.push(graph.entrypoint());
        let insertion = GraphInsertion {
            m: options.m,
            ef: options.ef_construction,
            id,
            height,
            top,
            lists,
            phase: InsertPhase::Seed,
            level: 0,
            cur: (0, 0),
            candidates: Vec::new(),
            results: Vec::new(),
            visited: Vec::new(),
            anchor: id,
            pending,
            link_pos: 0,
        };
        proof {
            assert(insertion.pending@ =~= seq![graph@.entry_point]);
            assert(insertion@.lists =~= node.lists());
            assert(insertion@ =~= InsertionView::started(graph@, *options, node.lists()));
            assert forall|l: int| 0 <= l < insertion.lists@.len() implies list_ok(
                graph@.heights(),
                l,
                (#[trigger] insertion.lists@[l])@,
            ) && insertion.lists@[l]@.len() <= insertion.m by {
                assert(node.lists()[l].len() == 0);
                assert(node.lists()[l] == insertion.lists@[l]@);
            }
        }
        let request = insertion.request();
        (insertion, request)
    }
}

} // verus!
