use vector_index::error::VectorError;
use vector_index::graph::{new_node, HnswBuilderOptions, HnswGraphBuilder, HnswNode};
use vector_index::insert::{GraphInsertion, InsertPhase};
use vector_index::nearest::{candidate_ids, insert_bounded, is_closer, nearest_ids};
use vector_index::pb::{PbHnswGraph, PbHnswNeighbors, PbHnswNode};

fn options() -> HnswBuilderOptions {
    HnswBuilderOptions { m: 2, ef_construction: 4, max_level: 3 }
}

fn pb_node(lists: Vec<Vec<u64>>) -> PbHnswNode {
    PbHnswNode {
        level: lists.len() as u32 - 1,
        neighbors: lists
            .into_iter()
            .enumerate()
            .map(|(level, ids)| PbHnswNeighbors { level: level as u32, ids })
            .collect(),
    }
}

fn sample() -> PbHnswGraph {
    PbHnswGraph {
        entry_point: Some(1),
        nodes: vec![
            pb_node(vec![vec![1, 2]]),
            pb_node(vec![vec![0, 2], vec![2]]),
            pb_node(vec![vec![1], vec![1]]),
        ],
    }
}

/// Inserts the nodes of the given levels; the distance between two nodes is
/// the distance of their positions.
fn build(positions: &[u64], levels: &[usize], options: &HnswBuilderOptions) -> HnswGraphBuilder {
    let mut graph = HnswGraphBuilder::first(new_node(options, levels[0]));
    for id in 1..positions.len() {
        let node = new_node(options, levels[id]);
        let (mut insertion, mut request) = GraphInsertion::start(&graph, options, node);
        assert_eq!(insertion.id(), id);
        loop {
            let keys: Vec<u64> = request
                .ids
                .iter()
                .map(|other| positions[request.anchor].abs_diff(positions[*other]))
                .collect();
            match insertion.step(&mut graph, &keys).unwrap() {
                Some(next) => request = next,
                None => break,
            }
        }
        assert_eq!(insertion.phase(), InsertPhase::Done);
        assert_eq!(graph.len(), id + 1);
    }
    graph
}

#[test]
fn options_are_valid_in_their_ranges_only() {
    assert!(HnswBuilderOptions { m: 2, ef_construction: 2, max_level: 1 }.is_valid());
    assert!(HnswBuilderOptions { m: 128, ef_construction: 1024, max_level: 32 }.is_valid());
    assert!(!HnswBuilderOptions { m: 1, ef_construction: 2, max_level: 1 }.is_valid());
    assert!(!HnswBuilderOptions { m: 129, ef_construction: 200, max_level: 1 }.is_valid());
    assert!(!HnswBuilderOptions { m: 16, ef_construction: 15, max_level: 1 }.is_valid());
    assert!(!HnswBuilderOptions { m: 16, ef_construction: 1025, max_level: 1 }.is_valid());
    assert!(!HnswBuilderOptions { m: 16, ef_construction: 100, max_level: 0 }.is_valid());
    assert!(!HnswBuilderOptions { m: 16, ef_construction: 100, max_level: 33 }.is_valid());
}

#[test]
fn new_node_clamps_the_level_and_has_no_neighbours() {
    let node = new_node(&options(), 1);
    assert_eq!(node.level(), 1);
    assert_eq!(node.height(), 2);
    assert!(node.neighbours(0).is_empty());
    assert!(node.neighbours(1).is_empty());
    assert_eq!(new_node(&options(), 0).level(), 0);
    assert_eq!(new_node(&options(), 3).level(), 3);
    assert_eq!(new_node(&options(), 4).level(), 3);
    assert_eq!(new_node(&options(), usize::MAX).level(), 3);
}

#[test]
fn first_makes_a_graph_of_one_node() {
    let graph = HnswGraphBuilder::first(new_node(&options(), 2));
    assert_eq!(graph.len(), 1);
    assert_eq!(graph.entrypoint(), 0);
    assert_eq!(graph.height(0), 3);
    assert!(graph.is_capped(0));
}

#[test]
fn a_graph_survives_the_round_trip_through_its_persisted_form() {
    let pb = sample();
    let graph = HnswGraphBuilder::from_protobuf(&pb).unwrap();
    assert_eq!(graph.len(), 3);
    assert_eq!(graph.entrypoint(), 1);
    assert_eq!(graph.neighbours(0, 0), &[1, 2]);
    assert_eq!(graph.neighbours(1, 1), &[2]);
    assert_eq!(graph.to_protobuf(), pb);
    let again = HnswGraphBuilder::from_protobuf(&graph.to_protobuf()).unwrap();
    assert_eq!(again.to_protobuf(), pb);

    let built = build(&[10, 20, 30, 40, 15, 25, 5], &[0, 1, 0, 2, 0, 1, 0], &options());
    let persisted = built.to_protobuf();
    let decoded = HnswGraphBuilder::from_protobuf(&persisted).unwrap();
    assert_eq!(decoded.entrypoint(), built.entrypoint());
    assert_eq!(decoded.len(), built.len());
    for id in 0..built.len() {
        assert_eq!(decoded.height(id), built.height(id));
        for level in 0..built.height(id) {
            assert_eq!(decoded.neighbours(id, level), built.neighbours(id, level));
        }
    }
    assert_eq!(decoded.to_protobuf(), persisted);
}

#[test]
fn a_corrupt_persisted_graph_is_refused() {
    let corrupt = |change: fn(&mut PbHnswGraph)| {
        let mut pb = sample();
        change(&mut pb);
        matches!(HnswGraphBuilder::from_protobuf(&pb), Err(VectorError::Corruption))
    };
    assert!(!corrupt(|_| {}));
    // No entry point, and one that is no node.
    assert!(corrupt(|pb| pb.entry_point = None));
    assert!(corrupt(|pb| pb.entry_point = Some(3)));
    // An entry point that is not the highest, and one that is not the first.
    assert!(corrupt(|pb| pb.entry_point = Some(0)));
    assert!(corrupt(|pb| pb.entry_point = Some(2)));
    // A neighbour that is no node.
    assert!(corrupt(|pb| pb.nodes[0].neighbors[0].ids[0] = 3));
    // A neighbour that does not have the level.
    assert!(corrupt(|pb| pb.nodes[1].neighbors[1].ids[0] = 0));
    // Levels that do not fit the lists.
    assert!(corrupt(|pb| pb.nodes[1].level = 2));
    assert!(corrupt(|pb| pb.nodes[1].neighbors[1].level = 0));
    assert!(corrupt(|pb| pb.nodes[0].neighbors.clear()));
    // No node at all.
    assert!(corrupt(|pb| pb.nodes.clear()));
}

#[test]
fn candidates_are_ordered_by_key_and_then_by_id() {
    assert!(is_closer((1, 9), (2, 0)));
    assert!(is_closer((1, 3), (1, 4)));
    assert!(!is_closer((1, 4), (1, 4)));
    assert!(!is_closer((2, 0), (1, 9)));
}

#[test]
fn a_bounded_list_keeps_the_nearest_in_order() {
    let mut list: Vec<(u64, usize)> = Vec::new();
    insert_bounded(&mut list, (5, 1), 3);
    insert_bounded(&mut list, (3, 2), 3);
    insert_bounded(&mut list, (9, 3), 3);
    assert_eq!(list, vec![(3, 2), (5, 1), (9, 3)]);
    insert_bounded(&mut list, (5, 0), 3);
    assert_eq!(list, vec![(3, 2), (5, 0), (5, 1)]);
    insert_bounded(&mut list, (6, 4), 3);
    assert_eq!(list, vec![(3, 2), (5, 0), (5, 1)]);
    insert_bounded(&mut list, (0, 7), 3);
    assert_eq!(list, vec![(0, 7), (3, 2), (5, 0)]);
    assert_eq!(candidate_ids(&list), vec![7, 2, 0]);
    let mut none: Vec<(u64, usize)> = Vec::new();
    insert_bounded(&mut none, (1, 1), 0);
    assert!(none.is_empty());
}

#[test]
fn nearest_ids_are_the_smallest_keys_with_ties_to_the_smaller_id() {
    assert_eq!(nearest_ids(&[7, 3, 3, 9, 1], &[10, 12, 11, 13, 14], 3), vec![14, 11, 12]);
    assert_eq!(nearest_ids(&[7, 3], &[10, 12], 5), vec![12, 10]);
    assert_eq!(nearest_ids(&[], &[], 5), Vec::<usize>::new());
}

#[test]
fn inserting_the_second_node_links_it_with_the_first() {
    let graph = build(&[10, 20], &[0, 0], &options());
    assert_eq!(graph.entrypoint(), 0);
    assert_eq!(graph.neighbours(0, 0), &[1]);
    assert_eq!(graph.neighbours(1, 0), &[0]);
}

#[test]
fn a_higher_node_becomes_the_entry_point_and_an_equal_one_does_not() {
    let graph = build(&[10, 20, 30], &[0, 1, 1], &options());
    assert_eq!(graph.entrypoint(), 1);
    assert_eq!(graph.height(1), 2);
    assert_eq!(graph.height(2), 2);
    // The two nodes of level 1 are linked there.
    assert_eq!(graph.neighbours(1, 1), &[2]);
    assert_eq!(graph.neighbours(2, 1), &[1]);
}

#[test]
fn a_full_neighbour_keeps_its_nearest() {
    // m is 2: the node at 20 ends with its two nearest of 10, 30 and 21.
    let graph = build(&[20, 10, 30, 21], &[0, 0, 0, 0], &options());
    assert_eq!(graph.neighbours(3, 0), &[0, 2]);
    assert_eq!(graph.neighbours(0, 0), &[3, 1]);
    assert_eq!(graph.neighbours(1, 0), &[0, 2]);
    assert!(graph.is_capped(2));
    assert!(!graph.is_capped(1));
}

#[test]
fn the_neighbours_of_a_new_node_are_its_nearest_with_ties_to_the_smaller_id() {
    // 15 is as far from 10 as from 20: both are kept, the smaller id first.
    let graph = build(&[10, 20, 15], &[0, 0, 0], &options());
    assert_eq!(graph.neighbours(2, 0), &[0, 1]);
}

#[test]
fn keys_that_do_not_fit_the_request_are_refused() {
    let options = options();
    let mut graph = build(&[10, 20], &[0, 0], &options);
    let (mut insertion, request) = GraphInsertion::start(&graph, &options, new_node(&options, 0));
    assert_eq!(request.anchor, 2);
    assert_eq!(request.ids, vec![0]);
    assert!(matches!(insertion.step(&mut graph, &[]), Err(VectorError::ContractViolation)));
    assert!(matches!(insertion.step(&mut graph, &[1, 2]), Err(VectorError::ContractViolation)));
    assert_eq!(insertion.phase(), InsertPhase::Seed);
    let mut next = insertion.step(&mut graph, &[5]).unwrap();
    while let Some(request) = next {
        let keys = vec![1; request.ids.len()];
        next = insertion.step(&mut graph, &keys).unwrap();
    }
    assert!(matches!(insertion.step(&mut graph, &[]), Err(VectorError::ContractViolation)));
    assert_eq!(graph.len(), 3);
}

#[test]
fn nodes_are_made_from_their_lists() {
    let node = HnswNode::from_lists(vec![vec![1, 2], vec![3]]);
    assert_eq!(node.height(), 2);
    assert_eq!(node.neighbours(0), &[1, 2]);
    assert_eq!(node.into_lists(), vec![vec![1, 2], vec![3]]);
}
