use std::sync::Arc;

use vector_index::accessor::{EnumVectorAccessor, VectorBlockAccessor};
use vector_index::block::{VectorBlockBuilder, VectorBlockMeta};
use vector_index::error::VectorError;
use vector_index::file::{VectorFileBuilder, BLOCK_META_SIZE, FOOTER_TAIL_SIZE};

#[test]
fn block_builder_gives_consecutive_ids_from_its_start() {
    let mut builder = VectorBlockBuilder::new(2, 40);
    assert!(builder.is_empty());
    assert_eq!(builder.next_vector_id(), 40);
    assert_eq!(builder.add(&[1, 2], b"a"), 40);
    assert_eq!(builder.add(&[3, 4], b""), 41);
    assert_eq!(builder.add(&[5, 6], b"xyz"), 42);
    assert!(!builder.is_empty());
    assert_eq!(builder.next_vector_id(), 43);
    assert_eq!(builder.vec_ref(1), &[3, 4]);
    assert_eq!(builder.info(2), b"xyz");
    assert_eq!(builder.info(1), b"");
}

#[test]
fn block_size_counts_components_offsets_and_side_information() {
    let mut builder = VectorBlockBuilder::new(3, 0);
    // An empty block is one offset.
    assert_eq!(builder.encoded_size(), 4);
    builder.add(&[1, 2, 3], b"ab");
    assert_eq!(builder.encoded_size(), 4 * 3 + 4 * 2 + 2);
    builder.add(&[4, 5, 6], b"cde");
    assert_eq!(builder.encoded_size(), 4 * 3 * 2 + 4 * 3 + 5);
}

#[test]
fn finished_block_holds_what_was_added_and_the_builder_starts_behind_it() {
    let mut builder = VectorBlockBuilder::new(2, 7);
    builder.add(&[1, 2], b"a");
    builder.add(&[3, 4], b"bc");
    let size = builder.encoded_size();
    let (block, meta) = builder.finish();
    assert_eq!(meta, VectorBlockMeta { start_vector_id: 7, vector_count: 2, offset: 0, size });
    assert_eq!(block.vector_count(), 2);
    assert_eq!(block.dimension(), 2);
    assert_eq!(block.encoded_size(), size);
    assert_eq!(block.vec_ref(0), &[1, 2]);
    assert_eq!(block.info(1), b"bc");
    assert!(builder.is_empty());
    assert_eq!(builder.start_vector_id(), 9);
    assert_eq!(builder.next_vector_id(), 9);
    assert_eq!(builder.encoded_size(), 4);
    assert_eq!(builder.add(&[5, 6], b""), 9);
}

#[test]
fn block_bytes_are_components_then_offsets_then_side_information() {
    let mut builder = VectorBlockBuilder::new(2, 0);
    builder.add(&[0x0403_0201, 0x0807_0605], b"ab");
    builder.add(&[0xffff_fffe, 0], b"c");
    let mut bytes = vec![0xEE];
    builder.encode(&mut bytes);
    let (block, _) = builder.finish();
    let mut again = vec![0xEE];
    block.encode(&mut again);
    assert_eq!(bytes, again);
    assert_eq!(
        bytes,
        vec![
            0xEE, // what stood in the buffer
            1, 2, 3, 4, 5, 6, 7, 8, // first vector
            0xfe, 0xff, 0xff, 0xff, 0, 0, 0, 0, // second vector
            0, 0, 0, 0, 2, 0, 0, 0, 3, 0, 0, 0, // offsets 0, 2, 3
            b'a', b'b', b'c',
        ]
    );
    assert_eq!(bytes.len() - 1, block.encoded_size());
}

#[test]
fn accessors_read_the_same_vector_from_every_place() {
    let mut builder = VectorBlockBuilder::new(2, 0);
    builder.add(&[1, 2], b"a");
    builder.add(&[3, 4], b"bc");
    {
        let accessor = EnumVectorAccessor::Builder(&builder, 1);
        assert_eq!(accessor.vec_ref(), &[3, 4]);
        assert_eq!(accessor.info(), b"bc");
    }
    let (block, _) = builder.finish();
    {
        let accessor = EnumVectorAccessor::BlockRef(&block, 0);
        assert_eq!(accessor.vec_ref(), &[1, 2]);
        assert_eq!(accessor.info(), b"a");
    }
    let shared = Arc::new(block);
    let held = VectorBlockAccessor::new(shared.clone(), 1);
    assert_eq!(held.vec_ref(), &[3, 4]);
    assert_eq!(held.info(), b"bc");
    let accessor = EnumVectorAccessor::BloclHolder(held);
    assert_eq!(accessor.vec_ref(), &[3, 4]);
    assert_eq!(accessor.info(), b"bc");
}

#[test]
fn file_builder_finishes_a_block_at_the_block_threshold() {
    // A vector of dimension 2 without side information takes 12 bytes; with
    // the closing offset a block of two takes 28.
    let mut builder = VectorFileBuilder::new(2, 10, 28, 1000);
    assert!(builder.is_empty());
    assert!(!builder.has_pending_file(true));
    assert_eq!(builder.add(&[1, 2], b""), 10);
    assert!(builder.has_pending_file(true));
    assert!(matches!(builder.get_vector(10), Ok(EnumVectorAccessor::Builder(_, 0))));
    assert_eq!(builder.add(&[3, 4], b""), 11);
    // The block is finished: both vectors are read from it.
    assert!(matches!(builder.get_vector(10), Ok(EnumVectorAccessor::BlockRef(_, 0))));
    assert!(matches!(builder.get_vector(11), Ok(EnumVectorAccessor::BlockRef(_, 1))));
    assert_eq!(builder.add(&[5, 6], b""), 12);
    assert!(matches!(builder.get_vector(12), Ok(EnumVectorAccessor::Builder(_, 0))));
    assert_eq!(builder.get_vector(11).unwrap().vec_ref(), &[3, 4]);
    assert_eq!(builder.get_vector(12).unwrap().vec_ref(), &[5, 6]);
    assert_eq!(builder.next_vector_id(), 13);
    assert!(matches!(
        builder.get_vector(13),
        Err(VectorError::IdOutOfBounds { idx: 13, next_vector_id: 13 })
    ));
    assert!(matches!(
        builder.get_vector(9),
        Err(VectorError::IdTooSmall { idx: 9, first_vector_id: 10 })
    ));
    // The file threshold is not reached.
    assert!(!builder.has_pending_file(false));
    assert!(builder.try_flush(1).is_none());
}

#[test]
fn file_builder_takes_a_file_out_at_the_file_threshold() {
    let mut builder = VectorFileBuilder::new(2, 0, 28, 56);
    for i in 0..5u32 {
        builder.add(&[i, i], b"");
    }
    // Two blocks of 28 bytes are finished, one vector is in the open block.
    assert!(builder.has_pending_file(false));
    let bytes = builder.encode_file(false);
    let (info, blocks, meta) = builder.try_flush(77).unwrap();
    assert_eq!(info.object_id, 77);
    assert_eq!(info.start_vector_id, 0);
    assert_eq!(info.vector_count, 4);
    assert_eq!(info.file_size as usize, 56 + 2 * BLOCK_META_SIZE + FOOTER_TAIL_SIZE);
    assert_eq!(bytes.len() as u64, info.file_size);
    assert_eq!(blocks.len(), 2);
    assert_eq!(
        meta.block_metas,
        vec![
            VectorBlockMeta { start_vector_id: 0, vector_count: 2, offset: 0, size: 28 },
            VectorBlockMeta { start_vector_id: 2, vector_count: 2, offset: 28, size: 28 },
        ]
    );
    // The open block stays, and is the start of the next file.
    assert_eq!(builder.start_vector_id(), 4);
    assert_eq!(builder.next_vector_id(), 5);
    assert_eq!(builder.get_vector(4).unwrap().vec_ref(), &[4, 4]);
    assert!(builder.try_flush(78).is_none());
}

#[test]
fn file_builder_finish_takes_everything_or_nothing() {
    let mut builder = VectorFileBuilder::new(1, 3, 1000, 1000);
    assert!(builder.finish(1).is_none());
    builder.add(&[9], b"x");
    let bytes = builder.encode_file(true);
    let (info, blocks, meta) = builder.finish(2).unwrap();
    assert_eq!((info.object_id, info.start_vector_id, info.vector_count), (2, 3, 1));
    assert_eq!(blocks.len(), 1);
    assert_eq!(
        meta.block_metas,
        vec![VectorBlockMeta { start_vector_id: 3, vector_count: 1, offset: 0, size: 13 }]
    );
    assert_eq!(info.file_size, 13 + 24 + 4);
    assert_eq!(
        bytes,
        vec![
            9, 0, 0, 0, // the vector
            0, 0, 0, 0, 1, 0, 0, 0, // offsets 0, 1
            b'x', // side information
            3, 0, 0, 0, 0, 0, 0, 0, // start id
            1, 0, 0, 0, // count
            0, 0, 0, 0, 0, 0, 0, 0, // offset
            13, 0, 0, 0, // size
            24, 0, 0, 0, // length of the footer's entries
        ]
    );
    assert!(builder.is_empty());
    assert_eq!(builder.start_vector_id(), 4);
    assert!(builder.finish(3).is_none());
}

#[test]
fn room_ends_where_a_block_would_leave_32_bits() {
    let builder = VectorBlockBuilder::new(2, 0);
    assert!(builder.has_room(0));
    assert!(builder.has_room(0xffff_ffff - 4 - 12));
    assert!(!builder.has_room(0xffff_ffff - 4 - 11));
    let last = VectorBlockBuilder::new(2, usize::MAX);
    assert!(!last.has_room(0));
}
