use vector_index::error::VectorError;
use vector_index::file::VectorFileInfo;
use vector_index::store::{check_covers, HnswVectorStore, Tier, VectorSource, VectorStoreInfo};

fn file(object_id: u64, start_vector_id: usize, vector_count: usize) -> VectorFileInfo {
    VectorFileInfo { object_id, file_size: 100, start_vector_id, vector_count }
}

#[test]
fn files_cover_a_range_when_they_follow_each_other_from_zero() {
    assert!(check_covers(&[], 0));
    assert!(!check_covers(&[], 1));
    assert!(check_covers(&[file(1, 0, 5)], 5));
    assert!(check_covers(&[file(1, 0, 5), file(2, 5, 3)], 8));
    assert!(!check_covers(&[file(1, 0, 5), file(2, 5, 3)], 9));
    assert!(!check_covers(&[file(1, 1, 5)], 6));
    assert!(!check_covers(&[file(1, 0, 5), file(2, 6, 3)], 9));
    assert!(!check_covers(&[file(1, 0, 5), file(2, 4, 3)], 7));
    assert!(!check_covers(&[file(1, 0, usize::MAX), file(2, 5, 3)], 8));
}

#[test]
fn a_store_opens_on_a_description_that_is_in_order_only() {
    let good = VectorStoreInfo { next_vector_id: 8, vector_files: vec![file(1, 0, 5), file(2, 5, 3)] };
    let store = HnswVectorStore::new(&good, 4, 100, 1000).unwrap();
    let b = store.get_boundaries();
    assert_eq!((b.committed_next, b.sealed_next, b.flushed_next, b.building_next), (8, 8, 8, 8));
    assert_eq!(store.committed_vector_files().len(), 2);
    let bad = VectorStoreInfo { next_vector_id: 9, vector_files: vec![file(1, 0, 5), file(2, 5, 3)] };
    assert!(matches!(HnswVectorStore::new(&bad, 4, 100, 1000), Err(VectorError::Corruption)));
}

fn tier_in(store: &HnswVectorStore, idx: usize) -> Option<(Tier, u64)> {
    match store.get_vector(idx) {
        Ok(VectorSource::File { tier, file }) => Some((tier, file.object_id)),
        Ok(VectorSource::Building(accessor)) => {
            assert_eq!(accessor.vec_ref(), &[(idx - 8) as u32]);
            Some((Tier::Building, 0))
        }
        Err(_) => None,
    }
}

#[test]
fn every_id_is_served_by_its_tier() {
    let info = VectorStoreInfo { next_vector_id: 8, vector_files: vec![file(1, 0, 5), file(2, 5, 3)] };
    // Two vectors of dimension 1 fill a block.
    let mut store = HnswVectorStore::new(&info, 1, 20, 1000).unwrap();
    for i in 0..6u32 {
        assert_eq!(store.add(&[i], b"i"), 8 + i as usize);
        if i == 1 {
            let (file, blocks, _) = store.flush(3).unwrap();
            assert_eq!((file.start_vector_id, file.vector_count), (8, 2));
            assert_eq!(blocks.len(), 1);
            assert_eq!(store.seal().len(), 1);
        }
        if i == 3 {
            assert!(store.try_flush(4).is_none());
            assert!(store.flush(4).is_some());
            assert!(store.flush(5).is_none());
        }
    }
    let tier_of = |idx: usize| tier_in(&store, idx);
    assert_eq!(tier_of(0), Some((Tier::Committed, 1)));
    assert_eq!(tier_of(4), Some((Tier::Committed, 1)));
    assert_eq!(tier_of(5), Some((Tier::Committed, 2)));
    assert_eq!(tier_of(7), Some((Tier::Committed, 2)));
    assert_eq!(tier_of(8), Some((Tier::Sealed, 3)));
    assert_eq!(tier_of(9), Some((Tier::Sealed, 3)));
    assert_eq!(tier_of(10), Some((Tier::Flushed, 4)));
    assert_eq!(tier_of(11), Some((Tier::Flushed, 4)));
    assert_eq!(tier_of(12), Some((Tier::Building, 0)));
    assert_eq!(tier_of(13), Some((Tier::Building, 0)));
    assert_eq!(tier_of(14), None);
    assert!(matches!(
        store.get_vector(14),
        Err(VectorError::IdOutOfBounds { idx: 14, next_vector_id: 14 })
    ));
    let b = store.get_boundaries();
    assert_eq!((b.committed_next, b.sealed_next, b.flushed_next, b.building_next), (8, 10, 12, 14));
    store.commit_sealed();
    assert_eq!(tier_in(&store, 9), Some((Tier::Committed, 3)));
    assert_eq!(store.get_boundaries().committed_next, 10);
    assert_eq!(store.sealed_vector_files().len(), 0);
    assert_eq!(store.committed_vector_files().len(), 3);
}
