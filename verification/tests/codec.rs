use vector_index::block::{VectorBlock, VectorBlockBuilder, VectorBlockMeta};
use vector_index::codec::{decode_footer, decode_words, encode_footer, encode_words};
use vector_index::error::VectorError;
use vector_index::file::{VectorFileBuilder, VectorFileInfo, VectorFileMeta};

fn sample_block() -> (VectorBlock, Vec<u8>) {
    let mut builder = VectorBlockBuilder::new(2, 0);
    builder.add(&[1, 2], b"ab");
    builder.add(&[3, 0xdead_beef], b"");
    builder.add(&[5, 6], b"cde");
    let (block, _) = builder.finish();
    let mut bytes = Vec::new();
    block.encode(&mut bytes);
    (block, bytes)
}

#[test]
fn words_are_written_and_read_in_little_endian() {
    let mut bytes = vec![7];
    encode_words(&[1, 0x0a0b_0c0d], &mut bytes);
    assert_eq!(bytes, vec![7, 1, 0, 0, 0, 0x0d, 0x0c, 0x0b, 0x0a]);
    assert_eq!(decode_words(&bytes, 1, 2), vec![1, 0x0a0b_0c0d]);
    assert_eq!(decode_words(&bytes, 5, 1), vec![0x0a0b_0c0d]);
    assert_eq!(decode_words(&bytes, 9, 0), Vec::<u32>::new());
}

#[test]
fn a_block_survives_the_round_trip_through_its_bytes() {
    let (block, bytes) = sample_block();
    let decoded = VectorBlock::decode(&bytes, 2, 3).unwrap();
    assert_eq!(decoded.vector_count(), 3);
    assert_eq!(decoded.dimension(), 2);
    assert_eq!(decoded.encoded_size(), block.encoded_size());
    for i in 0..3 {
        assert_eq!(decoded.vec_ref(i), block.vec_ref(i));
        assert_eq!(decoded.info(i), block.info(i));
    }
    let mut again = Vec::new();
    decoded.encode(&mut again);
    assert_eq!(again, bytes);
}

#[test]
fn an_empty_block_is_one_offset() {
    let decoded = VectorBlock::decode(&[0, 0, 0, 0], 128, 0).unwrap();
    assert_eq!(decoded.vector_count(), 0);
    assert!(matches!(VectorBlock::decode(&[], 128, 0), Err(VectorError::Corruption)));
    assert!(matches!(VectorBlock::decode(&[1, 0, 0, 0], 128, 0), Err(VectorError::Corruption)));
    assert!(matches!(VectorBlock::decode(&[0, 0, 0, 0, 9], 128, 0), Err(VectorError::Corruption)));
}

#[test]
fn bytes_that_are_no_block_are_refused() {
    let (_, bytes) = sample_block();
    let refused = |bytes: &[u8], dimension: usize, count: usize| {
        matches!(VectorBlock::decode(bytes, dimension, count), Err(VectorError::Corruption))
    };
    assert!(!refused(&bytes, 2, 3));
    // Another shape.
    assert!(refused(&bytes, 3, 3));
    assert!(refused(&bytes, 2, 4));
    assert!(refused(&bytes, 2, usize::MAX));
    assert!(refused(&bytes, usize::MAX, 3));
    // Cut short, and too long.
    assert!(refused(&bytes[..bytes.len() - 1], 2, 3));
    let mut longer = bytes.clone();
    longer.push(0);
    assert!(refused(&longer, 2, 3));
    // The first offset is not 0.
    let mut shifted = bytes.clone();
    shifted[24] = 1;
    assert!(refused(&shifted, 2, 3));
    // The offsets decrease.
    let mut decreasing = bytes.clone();
    decreasing[28] = 3;
    assert!(refused(&decreasing, 2, 3));
    // The last offset is not the length of the side information.
    let mut open = bytes.clone();
    open[36] = 4;
    assert!(refused(&open, 2, 3));
}

#[test]
fn a_footer_survives_the_round_trip_through_its_bytes() {
    let metas = vec![
        VectorBlockMeta { start_vector_id: 10, vector_count: 2, offset: 0, size: 28 },
        VectorBlockMeta { start_vector_id: 12, vector_count: 1, offset: 28, size: 17 },
    ];
    let mut bytes = Vec::new();
    encode_footer(&metas, &mut bytes);
    assert_eq!(bytes.len(), 2 * 24 + 4);
    assert_eq!(&bytes[48..], &[48, 0, 0, 0]);
    assert_eq!(decode_footer(&bytes).unwrap(), metas);
    assert_eq!(VectorFileMeta::decode(&bytes).unwrap().block_metas, metas);
    assert_eq!(decode_footer(&[0, 0, 0, 0]).unwrap(), vec![]);
}

#[test]
fn bytes_that_are_no_footer_are_refused() {
    let refused = |bytes: &[u8]| matches!(decode_footer(bytes), Err(VectorError::Corruption));
    assert!(refused(&[]));
    assert!(refused(&[0, 0, 0]));
    assert!(refused(&[1, 0, 0, 0]));
    assert!(refused(&[0, 0, 0, 0, 0]));
    let mut bytes = vec![0; 24];
    bytes.extend_from_slice(&[24, 0, 0, 0]);
    assert!(!refused(&bytes));
    bytes[24] = 25;
    assert!(refused(&bytes));
}

#[test]
fn a_table_of_block_metas_is_checked_against_its_file() {
    let mut builder = VectorFileBuilder::new(2, 5, 28, 1000);
    for i in 0..5u32 {
        builder.add(&[i, i], b"");
    }
    let bytes = builder.encode_file(true);
    let (info, _, meta) = builder.finish(9).unwrap();
    assert!(meta.check(&info));
    // The footer is read back from the end of the file.
    let footer_len = 3 * 24 + 4;
    let decoded = VectorFileMeta::decode(&bytes[bytes.len() - footer_len..]).unwrap();
    assert_eq!(decoded.block_metas, meta.block_metas);
    assert!(decoded.check(&info));
    // The blocks are read back from where the table says.
    let first = &decoded.block_metas[0];
    let block = VectorBlock::decode(&bytes[first.offset..first.offset
        + first.size], 2, first.vector_count).unwrap();
    assert_eq!(block.vec_ref(1), &[1, 1]);
    let last = &decoded.block_metas[2];
    let block = VectorBlock::decode(&bytes[last.offset..last.offset
        + last.size], 2, last.vector_count).unwrap();
    assert_eq!(block.vec_ref(0), &[4, 4]);

    assert!(!meta.check(&VectorFileInfo { start_vector_id: 4, ..info }));
    assert!(!meta.check(&VectorFileInfo { vector_count: 4, ..info }));
    assert!(!meta.check(&VectorFileInfo { file_size: info.file_size + 1, ..info }));
    let mut gap = VectorFileMeta { block_metas: meta.block_metas.clone() };
    gap.block_metas[1].start_vector_id += 1;
    assert!(!gap.check(&info));
    let mut overlap = VectorFileMeta { block_metas: meta.block_metas.clone() };
    overlap.block_metas[2].offset -= 1;
    assert!(!overlap.check(&info));
    let empty = VectorFileMeta { block_metas: vec![] };
    assert!(empty.check(&VectorFileInfo { object_id: 1, file_size: 4, start_vector_id: 3, vector_count: 0 }));
    assert!(!empty.check(&info));
}
