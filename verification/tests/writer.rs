use std::collections::HashMap;

use bytes::Bytes;
use vector_index::block::VectorBlock;
use vector_index::distance::DistanceMeasurement;
use vector_index::error::VectorError;
use vector_index::file::{VectorFileInfo, VectorFileMeta};
use vector_index::pb::{PbHnswGraph, PbHnswNeighbors, PbHnswNode};
use vector_index::search::search_blocks;
use vector_index::store::{Tier, VectorSource, VectorStoreInfo};
use vector_index::writer::{
    HnswFlatIndex, HnswFlatIndexConfig, HnswFlatIndexWriter, VectorIndexAdd, WriterAction,
    WriterEvent,
};

/// What stands for the outside of a writer: the stored files, the object ids
/// and the levels that are drawn.
struct Outside {
    files: HashMap<u64, (Vec<VectorBlock>, VectorFileMeta)>,
    stored: HashMap<u64, Vec<u8>>,
    graphs: u64,
    next_object_id: u64,
    seed: u64,
    m: usize,
}

impl Outside {
    fn new(m: usize) -> Self {
        Outside {
            files: HashMap::new(),
            stored: HashMap::new(),
            graphs: 0,
            next_object_id: 1,
            seed: 0x2545_f491_4f6c_dd1d,
            m,
        }
    }

    fn object_id(&mut self) -> u64 {
        let id = self.next_object_id;
        self.next_object_id += 1;
        id
    }

    fn level(&mut self) -> usize {
        self.seed ^= self.seed << 13;
        self.seed ^= self.seed >> 7;
        self.seed ^= self.seed << 17;
        let r = ((self.seed >> 11) as f64 + 1.0) / (1u64 << 53) as f64;
        (-r.ln() / (self.m as f64).ln()).floor() as usize
    }

    fn read(&self, writer: &HnswFlatIndexWriter, idx: usize) -> (Vec<f32>, Vec<u8>, Tier) {
        match writer.get_vector(idx).expect("the vector is served") {
            VectorSource::Building(accessor) => (
                accessor.vec_ref().iter().map(|w| f32::from_bits(*w)).collect(),
                accessor.info().to_vec(),
                Tier::Building,
            ),
            VectorSource::File { tier, file } => {
                let (blocks, meta) = &self.files[&file.object_id];
                let (_, block_idx, offset) = search_blocks(&meta.block_metas, idx).unwrap();
                (
                    blocks[block_idx].vec_ref(offset).iter().map(|w| f32::from_bits(*w)).collect(),
                    blocks[block_idx].info(offset).to_vec(),
                    tier,
                )
            }
        }
    }

    fn answer(&mut self, writer: &HnswFlatIndexWriter, action: WriterAction) -> Result<WriterEvent, usize> {
        match action {
            WriterAction::SampleLevel => Ok(WriterEvent::Level(self.level())),
            WriterAction::Measure(request) => {
                let (anchor, _, _) = self.read(writer, request.anchor);
                let keys = request
                    .ids
                    .iter()
                    .map(|id| {
                        let (other, _, _) = self.read(writer, *id);
                        let d: f32 = anchor.iter().zip(other.iter()).map(|(a, b)| (a - b) * (a - b)).sum();
                        vector_index::distance::distance_key(d.to_bits())
                    })
                    .collect();
                Ok(WriterEvent::Distances(keys))
            }
            WriterAction::StoreVectorFile(bytes) => {
                let id = self.object_id();
                self.stored.insert(id, bytes);
                Ok(WriterEvent::VectorFileStored(id))
            }
            WriterAction::CacheVectorFile((info, blocks, meta)) => {
                assert_eq!(self.stored[&info.object_id].len() as u64, info.file_size);
                self.files.insert(info.object_id, (blocks, meta));
                Ok(WriterEvent::Cached)
            }
            WriterAction::StoreGraph(graph) => {
                self.graphs += 1;
                let id = self.object_id();
                Ok(WriterEvent::GraphStored(vector_index::writer::HnswGraphFileInfo {
                    object_id: id,
                    file_size: graph.nodes.len() as u64,
                }))
            }
            WriterAction::Done(size) => Err(size),
        }
    }

    fn flush(&mut self, writer: &mut HnswFlatIndexWriter) -> usize {
        let mut event = WriterEvent::Start;
        loop {
            let action = writer.flush(event).expect("the flush goes on");
            match self.answer(writer, action) {
                Ok(next) => event = next,
                Err(size) => return size,
            }
        }
    }

    fn try_flush(&mut self, writer: &mut HnswFlatIndexWriter) {
        let mut event = WriterEvent::Start;
        loop {
            let action = writer.try_flush(event).expect("the flush goes on");
            match self.answer(writer, action) {
                Ok(next) => event = next,
                Err(_) => return,
            }
        }
    }
}

fn empty_index(m: u32, ef_construction: u32, max_level: u32) -> HnswFlatIndex {
    HnswFlatIndex {
        config: HnswFlatIndexConfig { m, ef_construction, max_level },
        vector_store_info: VectorStoreInfo { next_vector_id: 0, vector_files: vec![] },
        graph_file: None,
    }
}

fn new_writer(dimension: usize, block_cap: usize, file_cap: usize) -> HnswFlatIndexWriter {
    HnswFlatIndexWriter::new(
        &empty_index(4, 8, 4),
        dimension,
        DistanceMeasurement::L2,
        None,
        block_cap,
        file_cap,
    )
    .expect("the empty index opens")
}

fn words(vector: &[f32]) -> Vec<u32> {
    vector.iter().map(|x| x.to_bits()).collect()
}

fn check_graph(writer: &HnswFlatIndexWriter, m: usize) {
    let graph = writer.graph_builder().expect("the graph exists");
    let entry = graph.entrypoint();
    for id in 0..graph.len() {
        assert!(graph.height(id) <= graph.height(entry));
        if id < entry {
            assert!(graph.height(id) < graph.height(entry));
        }
        for level in 0..graph.height(id) {
            let list = graph.neighbours(id, level);
            assert!(list.len() <= m);
            for neighbour in list {
                assert!(*neighbour < graph.len());
                assert!(graph.height(*neighbour) > level);
                assert_ne!(*neighbour, id);
                // The neighbour is linked back, unless it has no room.
                let back = graph.neighbours(*neighbour, level);
                assert!(back.contains(&id) || back.len() == m);
            }
        }
    }
}

#[test]
fn empty_seal_returns_none_and_flush_returns_zero() {
    let mut outside = Outside::new(4);
    let mut writer = new_writer(4, 1 << 10, 1 << 12);
    assert!(matches!(writer.seal_current_epoch(), Ok(None)));
    assert_eq!(outside.flush(&mut writer), 0);
    assert!(writer.flushed_graph_file().is_none());
    assert_eq!(outside.graphs, 0);
    assert!(matches!(writer.seal_current_epoch(), Ok(None)));
}

#[test]
fn single_insert_and_flush_serves_the_vector_from_the_flushed_tier() {
    let mut outside = Outside::new(4);
    let mut writer = new_writer(4, 1 << 10, 1 << 12);
    writer.insert(words(&[1.0, 2.0, 3.0, 4.0]), Bytes::from(vec![0xAB])).unwrap();
    let size = outside.flush(&mut writer);
    // 16 bytes of components, two offsets, one byte of side information, one
    // footer entry and the footer's length.
    assert_eq!(size, 16 + 8 + 1 + 24 + 4);
    let (vector, info, tier) = outside.read(&writer, 0);
    assert_eq!(vector, vec![1.0, 2.0, 3.0, 4.0]);
    assert_eq!(info, vec![0xAB]);
    assert_eq!(tier, Tier::Flushed);
}

#[test]
fn reads_are_transparent_across_tiers() {
    let mut outside = Outside::new(4);
    let mut writer = new_writer(2, 64, 1 << 12);
    for i in 0..100usize {
        writer.insert(words(&[i as f32, (i * i) as f32]), Bytes::from(vec![i as u8])).unwrap();
        if i == 49 {
            assert!(outside.flush(&mut writer) > 0);
        }
    }
    for i in [0usize, 49, 50, 99] {
        let (vector, info, tier) = outside.read(&writer, i);
        assert_eq!(vector, vec![i as f32, (i * i) as f32]);
        assert_eq!(info, vec![i as u8]);
        assert_eq!(tier, if i < 50 { Tier::Flushed } else { Tier::Building });
    }
    assert!(matches!(
        writer.get_vector(100),
        Err(VectorError::IdOutOfBounds { idx: 100, next_vector_id: 100 })
    ));
}

#[test]
fn seal_hands_out_the_delta_once() {
    let mut outside = Outside::new(4);
    let mut writer = new_writer(2, 1 << 10, 1 << 12);
    writer.insert(words(&[1.0, 0.0]), Bytes::new()).unwrap();
    writer.insert(words(&[0.0, 1.0]), Bytes::new()).unwrap();
    assert!(outside.flush(&mut writer) > 0);
    match writer.seal_current_epoch() {
        Ok(Some(VectorIndexAdd::HnswFlat(add))) => {
            assert_eq!(add.vector_store_info_delta.added_vector_files.len(), 1);
            assert_eq!(add.vector_store_info_delta.next_vector_id, 2);
            assert_eq!(add.vector_store_info_delta.added_vector_files[0].start_vector_id, 0);
            assert_eq!(add.vector_store_info_delta.added_vector_files[0].vector_count, 2);
            assert_eq!(add.graph_file.file_size, 2);
        }
        other => panic!("no delta: {:?}", other),
    }
    assert!(matches!(writer.seal_current_epoch(), Ok(None)));
    let (_, _, tier) = outside.read(&writer, 1);
    assert_eq!(tier, Tier::Sealed);
    writer.commit_sealed();
    let (vector, _, tier) = outside.read(&writer, 1);
    assert_eq!(tier, Tier::Committed);
    assert_eq!(vector, vec![0.0, 1.0]);
}

#[test]
fn first_insert_and_flush_bootstraps_the_graph() {
    let mut outside = Outside::new(4);
    let mut writer = new_writer(2, 1 << 10, 1 << 12);
    writer.insert(words(&[1.0, 0.0]), Bytes::new()).unwrap();
    outside.flush(&mut writer);
    let graph = writer.graph_builder().unwrap();
    assert_eq!(graph.len(), 1);
    assert_eq!(graph.entrypoint(), 0);
    for level in 0..graph.height(0) {
        assert!(graph.neighbours(0, level).is_empty());
    }
}

#[test]
fn seal_with_a_partial_block_breaks_the_contract() {
    let mut writer = new_writer(2, 1 << 10, 1 << 12);
    writer.insert(words(&[1.0, 0.0]), Bytes::new()).unwrap();
    assert!(matches!(writer.seal_current_epoch(), Err(VectorError::ContractViolation)));
    assert_eq!(writer.vector_store().get_boundaries().building_next, 1);
}

#[test]
fn seal_with_flushed_files_but_no_graph_breaks_the_contract() {
    let mut outside = Outside::new(4);
    // Every vector fills a block, and every block fills a file.
    let mut writer = new_writer(2, 1, 1);
    writer.insert(words(&[1.0, 0.0]), Bytes::new()).unwrap();
    outside.try_flush(&mut writer);
    assert_eq!(writer.vector_store().flushed_vector_files().len(), 1);
    assert!(writer.flushed_graph_file().is_none());
    assert!(matches!(writer.seal_current_epoch(), Err(VectorError::ContractViolation)));
    assert!(outside.flush(&mut writer) == 0);
    assert!(writer.flushed_graph_file().is_some());
    assert!(matches!(writer.seal_current_epoch(), Ok(Some(_))));
}

#[test]
fn events_out_of_turn_break_the_contract_and_change_nothing() {
    let mut writer = new_writer(2, 1 << 10, 1 << 12);
    writer.insert(words(&[1.0, 0.0]), Bytes::new()).unwrap();
    assert!(matches!(writer.flush(WriterEvent::Cached), Err(VectorError::ContractViolation)));
    assert!(matches!(writer.flush(WriterEvent::Level(0)), Err(VectorError::ContractViolation)));
    assert!(matches!(writer.flush(WriterEvent::Start), Ok(WriterAction::SampleLevel)));
    assert!(matches!(writer.try_flush(WriterEvent::Level(0)), Err(VectorError::ContractViolation)));
    assert!(matches!(writer.flush(WriterEvent::Start), Err(VectorError::ContractViolation)));
    assert!(matches!(
        writer.insert(words(&[0.0, 1.0]), Bytes::new()),
        Err(VectorError::ContractViolation)
    ));
    assert!(matches!(writer.seal_current_epoch(), Err(VectorError::ContractViolation)));
    assert!(matches!(writer.flush(WriterEvent::Level(0)), Ok(WriterAction::StoreVectorFile(_))));
}

#[test]
fn boundaries_stay_ordered_and_ids_dense_under_interleaved_operations() {
    let mut outside = Outside::new(4);
    let mut writer = new_writer(3, 40, 100);
    let mut inserted = 0usize;
    for round in 0..60usize {
        for _ in 0..(round % 4) {
            let x = inserted as f32;
            writer.insert(words(&[x, x * 0.5, -x]), Bytes::from(vec![inserted as u8; inserted % 3])).unwrap();
            inserted += 1;
        }
        match round % 5 {
            0 => outside.try_flush(&mut writer),
            1 => {
                outside.flush(&mut writer);
            }
            2 => {
                outside.flush(&mut writer);
                writer.seal_current_epoch().unwrap();
            }
            3 => writer.commit_sealed(),
            _ => {}
        }
        let b = writer.vector_store().get_boundaries();
        assert!(b.committed_next <= b.sealed_next);
        assert!(b.sealed_next <= b.flushed_next);
        assert!(b.flushed_next <= b.building_next);
        assert_eq!(b.building_next, inserted);
        for id in 0..inserted {
            let (vector, info, _) = outside.read(&writer, id);
            assert_eq!(vector, vec![id as f32, id as f32 * 0.5, -(id as f32)]);
            assert_eq!(info, vec![id as u8; id % 3]);
        }
        assert!(writer.get_vector(inserted).is_err());
    }
    outside.flush(&mut writer);
    check_graph(&writer, 4);
    assert_eq!(writer.graph_builder().unwrap().len(), inserted);
}

#[test]
fn no_node_has_more_neighbours_than_the_cap() {
    let mut outside = Outside::new(4);
    let mut writer = new_writer(4, 1 << 10, 1 << 14);
    let mut seed: u32 = 12345;
    for i in 0..200usize {
        let mut vector = Vec::new();
        for _ in 0..4 {
            seed = seed.wrapping_mul(1664525).wrapping_add(1013904223);
            vector.push((seed >> 8) as f32 / (1u32 << 24) as f32);
        }
        writer.insert(words(&vector), Bytes::new()).unwrap();
        if i % 7 == 0 {
            outside.flush(&mut writer);
            check_graph(&writer, 4);
        }
    }
    outside.flush(&mut writer);
    check_graph(&writer, 4);
    let graph = writer.graph_builder().unwrap();
    assert_eq!(graph.len(), 200);
    // Every node but the first has a neighbour on level 0.
    for id in 1..graph.len() {
        assert!(!graph.neighbours(id, 0).is_empty());
    }
}

#[test]
fn a_writer_reopens_on_what_was_sealed() {
    let mut outside = Outside::new(4);
    let mut writer = new_writer(2, 1 << 10, 1 << 12);
    for i in 0..10usize {
        writer.insert(words(&[i as f32, 1.0]), Bytes::new()).unwrap();
    }
    outside.flush(&mut writer);
    let graph = writer.graph_builder().unwrap().to_protobuf();
    let add = match writer.seal_current_epoch() {
        Ok(Some(VectorIndexAdd::HnswFlat(add))) => add,
        other => panic!("no delta: {:?}", other),
    };
    let index = HnswFlatIndex {
        config: HnswFlatIndexConfig { m: 4, ef_construction: 8, max_level: 4 },
        vector_store_info: VectorStoreInfo {
            next_vector_id: add.vector_store_info_delta.next_vector_id,
            vector_files: add.vector_store_info_delta.added_vector_files,
        },
        graph_file: Some(add.graph_file),
    };
    let mut reopened =
        HnswFlatIndexWriter::new(&index, 2, DistanceMeasurement::L2, Some(&graph), 1 << 10, 1 << 12)
            .unwrap();
    assert_eq!(reopened.vector_store().get_boundaries().committed_next, 10);
    assert_eq!(reopened.graph_builder().unwrap().to_protobuf(), graph);
    reopened.insert(words(&[3.5, 1.0]), Bytes::new()).unwrap();
    outside.flush(&mut reopened);
    check_graph(&reopened, 4);
    assert_eq!(reopened.graph_builder().unwrap().len(), 11);
    let (vector, _, tier) = outside.read(&reopened, 3);
    assert_eq!((vector, tier), (vec![3.0, 1.0], Tier::Committed));

    assert!(matches!(
        HnswFlatIndexWriter::new(&index, 2, DistanceMeasurement::L2, None, 1 << 10, 1 << 12),
        Err(VectorError::ContractViolation)
    ));
    let short = HnswFlatIndex {
        config: index.config,
        vector_store_info: VectorStoreInfo { next_vector_id: 9, vector_files: vec![] },
        graph_file: index.graph_file,
    };
    assert!(matches!(
        HnswFlatIndexWriter::new(&short, 2, DistanceMeasurement::L2, Some(&graph), 1 << 10, 1 << 12),
        Err(VectorError::Corruption)
    ));
    for dimension in [0, 65537] {
        assert!(matches!(
            HnswFlatIndexWriter::new(&empty_index(4, 8, 4), dimension, DistanceMeasurement::L2, None, 1, 1),
            Err(VectorError::ContractViolation)
        ));
    }
    assert!(HnswFlatIndexWriter::new(&empty_index(4, 8, 4), 65536, DistanceMeasurement::L2, None, 1, 1).is_ok());
    let bad_options = HnswFlatIndex {
        config: HnswFlatIndexConfig { m: 1, ef_construction: 8, max_level: 4 },
        vector_store_info: VectorStoreInfo { next_vector_id: 0, vector_files: vec![] },
        graph_file: None,
    };
    assert!(matches!(
        HnswFlatIndexWriter::new(&bad_options, 2, DistanceMeasurement::L2, None, 1 << 10, 1 << 12),
        Err(VectorError::Corruption)
    ));
}

#[test]
fn a_graph_with_a_level_or_a_list_beyond_the_options_is_corrupt() {
    let graph_of = |lists: Vec<Vec<u64>>| PbHnswGraph {
        entry_point: Some(0),
        nodes: vec![
            PbHnswNode {
                level: lists.len() as u32 - 1,
                neighbors: lists
                    .iter()
                    .enumerate()
                    .map(|(level, ids)| PbHnswNeighbors { level: level as u32, ids: ids.clone() })
                    .collect(),
            },
            PbHnswNode {
                level: 0,
                neighbors: vec![PbHnswNeighbors { level: 0, ids: vec![0] }],
            },
        ],
    };
    let index = |max_level: u32| HnswFlatIndex {
        config: HnswFlatIndexConfig { m: 2, ef_construction: 8, max_level },
        vector_store_info: VectorStoreInfo {
            next_vector_id: 2,
            vector_files: vec![VectorFileInfo {
                object_id: 1,
                file_size: 64,
                start_vector_id: 0,
                vector_count: 2,
            }],
        },
        graph_file: Some(vector_index::writer::HnswGraphFileInfo { object_id: 2, file_size: 10 }),
    };
    let open = |config_level: u32, graph: &PbHnswGraph| {
        HnswFlatIndexWriter::new(&index(config_level), 2, DistanceMeasurement::L2, Some(graph), 64, 64)
            .map(|_| ())
    };
    let two_levels = graph_of(vec![vec![1], vec![]]);
    assert_eq!(open(1, &two_levels), Ok(()));
    let three_levels = graph_of(vec![vec![1], vec![], vec![]]);
    assert_eq!(open(1, &three_levels), Err(VectorError::Corruption));
    assert_eq!(open(2, &three_levels), Ok(()));
    let crowded = graph_of(vec![vec![1, 1, 1], vec![]]);
    assert_eq!(open(1, &crowded), Err(VectorError::Corruption));
}
