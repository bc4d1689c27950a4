use vector_index::graph::{new_node, HnswBuilderOptions, HnswGraphBuilder};
use vector_index::insert::GraphInsertion;

struct Random(u64);

impl Random {
    fn next(&mut self) -> u64 {
        self.0 ^= self.0 << 13;
        self.0 ^= self.0 >> 7;
        self.0 ^= self.0 << 17;
        self.0
    }

    /// A number in (0, 1].
    fn unit(&mut self) -> f32 {
        (((self.next() >> 40) + 1) as f32) / (1u64 << 24) as f32
    }

    fn vector(&mut self, dimension: usize) -> Vec<f32> {
        (0..dimension).map(|_| self.unit()).collect()
    }
}

fn l2(a: &[f32], b: &[f32]) -> f32 {
    a.iter().zip(b).map(|(x, y)| (x - y) * (x - y)).sum()
}

fn key(distance: f32) -> u64 {
    vector_index::distance::distance_key(distance.to_bits())
}

fn build(vectors: &[Vec<f32>], options: &HnswBuilderOptions, random: &mut Random) -> HnswGraphBuilder {
    let m_l = 1.0 / (options.m as f32).ln();
    let mut level = || (-random.unit().ln() * m_l).floor() as usize;
    let mut graph = HnswGraphBuilder::first(new_node(options, level()));
    for _ in 1..vectors.len() {
        let (mut insertion, mut request) =
            GraphInsertion::start(&graph, options, new_node(options, level()));
        loop {
            let keys: Vec<u64> = request
                .ids
                .iter()
                .map(|id| key(l2(&vectors[request.anchor], &vectors[*id])))
                .collect();
            match insertion.step(&mut graph, &keys).unwrap() {
                Some(next) => request = next,
                None => break,
            }
        }
    }
    graph
}

/// The ids of the `k` vectors that a search of the graph from its entry
/// point finds nearest to `query`.
fn search(graph: &HnswGraphBuilder, vectors: &[Vec<f32>], query: &[f32], k: usize, ef: usize) -> Vec<usize> {
    let mut current = graph.entrypoint();
    let mut current_distance = l2(query, &vectors[current]);
    for level in (1..graph.height(current)).rev() {
        loop {
            let mut moved = false;
            for neighbour in graph.neighbours(current, level) {
                let d = l2(query, &vectors[*neighbour]);
                if d < current_distance {
                    current = *neighbour;
                    current_distance = d;
                    moved = true;
                }
            }
            if !moved {
                break;
            }
        }
    }
    let mut visited = vec![false; graph.len()];
    visited[current] = true;
    let mut candidates = vec![(current_distance, current)];
    let mut results = vec![(current_distance, current)];
    while !candidates.is_empty() {
        let at = (0..candidates.len())
            .min_by(|a, b| candidates[*a].partial_cmp(&candidates[*b]).unwrap())
            .unwrap();
        let (distance, node) = candidates.swap_remove(at);
        if results.len() >= ef && distance > results[results.len() - 1].0 {
            break;
        }
        for neighbour in graph.neighbours(node, 0) {
            if !visited[*neighbour] {
                visited[*neighbour] = true;
                let d = l2(query, &vectors[*neighbour]);
                if results.len() < ef || d < results[results.len() - 1].0 {
                    candidates.push((d, *neighbour));
                    results.push((d, *neighbour));
                    results.sort_by(|a, b| a.partial_cmp(b).unwrap());
                    results.truncate(ef);
                }
            }
        }
    }
    results.iter().take(k).map(|(_, id)| *id).collect()
}

#[test]
fn a_search_of_the_graph_finds_most_of_the_nearest_vectors() {
    let mut random = Random(0x9e37_79b9_7f4a_7c15);
    let dimension = 128;
    let vectors: Vec<Vec<f32>> = (0..10_000).map(|_| random.vector(dimension)).collect();
    let options = HnswBuilderOptions { m: 16, ef_construction: 100, max_level: 10 };
    let graph = build(&vectors, &options, &mut random);
    assert_eq!(graph.len(), vectors.len());
    assert!(graph.is_capped(16));
    let mut hits = 0;
    for _ in 0..100 {
        let query = random.vector(dimension);
        let found = search(&graph, &vectors, &query, 10, 100);
        let mut exact: Vec<(f32, usize)> =
            vectors.iter().enumerate().map(|(id, v)| (l2(&query, v), id)).collect();
        exact.sort_by(|a, b| a.partial_cmp(b).unwrap());
        hits += exact.iter().take(10).filter(|(_, id)| found.contains(id)).count();
    }
    // Of the ten nearest of a hundred queries, half are found at least.
    assert!(hits >= 500, "only {} of the 1000 nearest were found", hits);
}
