use vector_index::block::VectorBlockMeta;
use vector_index::error::VectorError;
use vector_index::file::VectorFileInfo;
use vector_index::search::{search_blocks, search_vector, search_vector_files};

fn start(holder: &(usize, usize)) -> usize {
    holder.0
}

fn count(holder: &(usize, usize)) -> usize {
    holder.1
}

#[test]
fn search_vector_finds_the_holder_and_offset() {
    let holders: Vec<(usize, usize)> = vec![(0, 10), (10, 5), (15, 20)];
    assert_eq!(search_vector(&holders, 0, start, count), Ok((0, 0)));
    assert_eq!(search_vector(&holders, 9, start, count), Ok((0, 9)));
    assert_eq!(search_vector(&holders, 10, start, count), Ok((1, 0)));
    assert_eq!(search_vector(&holders, 14, start, count), Ok((1, 4)));
    assert_eq!(search_vector(&holders, 34, start, count), Ok((2, 19)));
}

#[test]
fn search_vector_on_contiguous_holders_adds_up_for_every_valid_id() {
    let counts = [3usize, 1, 7, 2, 2, 9, 1, 1, 4];
    let mut holders: Vec<(usize, usize)> = Vec::new();
    let mut next = 5usize;
    for c in counts {
        holders.push((next, c));
        next += c;
    }
    for id in 5..next {
        let (h, offset) = search_vector(&holders, id, start, count).unwrap();
        assert_eq!(holders[h].0 + offset, id);
        assert!(offset < holders[h].1);
    }
}

#[test]
fn search_vector_rejects_an_id_before_the_first_holder() {
    let holders: Vec<(usize, usize)> = vec![(5, 10), (15, 5)];
    assert_eq!(
        search_vector(&holders, 4, start, count),
        Err(VectorError::IdTooSmall { idx: 4, first_vector_id: 5 })
    );
    let none: Vec<(usize, usize)> = vec![];
    assert_eq!(
        search_vector(&none, 0, start, count),
        Err(VectorError::IdTooSmall { idx: 0, first_vector_id: 0 })
    );
}

#[test]
fn search_vector_rejects_an_id_behind_the_last_holder() {
    let holders: Vec<(usize, usize)> = vec![(5, 10), (15, 5)];
    assert_eq!(
        search_vector(&holders, 20, start, count),
        Err(VectorError::IdOutOfRange { idx: 20, holder_idx: 1 })
    );
    assert_eq!(search_vector(&holders, 19, start, count), Ok((1, 4)));
}

#[test]
fn search_vector_rejects_an_id_in_a_gap() {
    let holders: Vec<(usize, usize)> = vec![(0, 3), (10, 3)];
    assert_eq!(
        search_vector(&holders, 5, start, count),
        Err(VectorError::IdOutOfRange { idx: 5, holder_idx: 0 })
    );
}

#[test]
fn search_vector_skips_empty_holders() {
    let holders: Vec<(usize, usize)> = vec![(0, 5), (5, 0), (5, 3)];
    assert_eq!(search_vector(&holders, 5, start, count), Ok((2, 0)));
    assert_eq!(search_vector(&holders, 4, start, count), Ok((0, 4)));
}

#[test]
fn search_blocks_returns_the_meta_with_its_index() {
    let blocks = vec![
        VectorBlockMeta { start_vector_id: 100, vector_count: 4, offset: 0, size: 40 },
        VectorBlockMeta { start_vector_id: 104, vector_count: 2, offset: 40, size: 24 },
    ];
    let (meta, block_idx, offset) = search_blocks(&blocks, 105).unwrap();
    assert_eq!(*meta, blocks[1]);
    assert_eq!((block_idx, offset), (1, 1));
    assert_eq!(
        search_blocks(&blocks, 99),
        Err(VectorError::IdTooSmall { idx: 99, first_vector_id: 100 })
    );
    assert_eq!(
        search_blocks(&blocks, 106),
        Err(VectorError::IdOutOfRange { idx: 106, holder_idx: 1 })
    );
}

#[test]
fn search_vector_files_returns_the_file() {
    let files = vec![
        VectorFileInfo { object_id: 7, file_size: 100, start_vector_id: 0, vector_count: 10 },
        VectorFileInfo { object_id: 9, file_size: 50, start_vector_id: 10, vector_count: 5 },
    ];
    assert_eq!(search_vector_files(&files, 12).unwrap().object_id, 9);
    assert_eq!(search_vector_files(&files, 0).unwrap().object_id, 7);
    assert_eq!(
        search_vector_files(&files, 15),
        Err(VectorError::IdOutOfRange { idx: 15, holder_idx: 1 })
    );
}
