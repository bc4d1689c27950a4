//! The layout of blocks and files in bytes.
//!
//! A block is its vectors, four little-endian bytes per component; then one
//! 32-bit offset per vector into the side information, and one more that
//! closes the table; then the side information. A file is its blocks, then a
//! footer with one entry per block, then the length of those entries.

use vstd::bytes::{
    lemma_auto_spec_u32_to_from_le_bytes, lemma_auto_spec_u64_to_from_le_bytes,
    spec_u32_from_le_bytes, spec_u32_to_le_bytes, spec_u64_from_le_bytes, spec_u64_to_le_bytes,
    u32_from_le_bytes, u32_to_le_bytes, u64_from_le_bytes, u64_to_le_bytes,
};
use vstd::prelude::*;
use vstd::slice::slice_subrange;

use crate::block::{block_size, items_of, total_info_len, StoredVector, VectorBlockMeta};
use crate::error::VectorError;

verus! {

/// The bytes of a run of 32-bit words.
pub open spec fn words_bytes(words: Seq<u32>) -> Seq<u8>
    decreases words.len(),
{
    if words.len() == 0 {
        Seq::empty()
    } else {
        words_bytes(words.drop_last()) + spec_u32_to_le_bytes(words.last())
    }
}

/// The bytes of the components of all the vectors.
pub open spec fn vectors_bytes(items: Seq<StoredVector>) -> Seq<u8>
    decreases items.len(),
{
    if items.len() == 0 {
        Seq::empty()
    } else {
        vectors_bytes(items.drop_last()) + words_bytes(items.last().0)
    }
}

/// The side information of all the vectors.
pub open spec fn infos_bytes(items: Seq<StoredVector>) -> Seq<u8>
    decreases items.len(),
{
    if items.len() == 0 {
        Seq::empty()
    } else {
        infos_bytes(items.drop_last()) + items.last().1
    }
}

/// The offset at which the side information of the vector `at` starts: the
/// length of the side information in front of it.
pub open spec fn info_offset(items: Seq<StoredVector>, at: int) -> nat
    decreases at,
{
    if at <= 0 {
        0
    } else {
        info_offset(items, at - 1) + items[at - 1].1.len()
    }
}

/// The table of offsets of a block: one per vector, and the total length.
pub open spec fn info_offsets(items: Seq<StoredVector>) -> Seq<u32> {
    Seq::new(items.len() + 1, |at: int| info_offset(items, at) as u32)
}

/// The bytes of a block with the given vectors.
pub open spec fn block_bytes(items: Seq<StoredVector>) -> Seq<u8> {
    vectors_bytes(items) + words_bytes(info_offsets(items)) + infos_bytes(items)
}

/// The footer entry of a block.
pub open spec fn meta_bytes(meta: VectorBlockMeta) -> Seq<u8> {
    spec_u64_to_le_bytes(meta.start_vector_id as u64) + spec_u32_to_le_bytes(
        meta.vector_count as u32,
    ) + spec_u64_to_le_bytes(meta.offset as u64) + spec_u32_to_le_bytes(meta.size as u32)
}

/// The footer entries of a run of blocks.
pub open spec fn metas_bytes(metas: Seq<VectorBlockMeta>) -> Seq<u8>
    decreases metas.len(),
{
    if metas.len() == 0 {
        Seq::empty()
    } else {
        metas_bytes(metas.drop_last()) + meta_bytes(metas.last())
    }
}

/// The footer of a file: the entries of its blocks, then their length.
pub open spec fn footer_bytes(metas: Seq<VectorBlockMeta>) -> Seq<u8> {
    metas_bytes(metas) + spec_u32_to_le_bytes((24 * metas.len()) as u32)
}

/// A run of words takes four bytes per word.
pub proof fn lemma_words_bytes_len(words: Seq<u32>)
    ensures
        words_bytes(words).len() == 4 * words.len(),
    decreases words.len(),
{
    lemma_auto_spec_u32_to_from_le_bytes();
    if words.len() > 0 {
        lemma_words_bytes_len(words.drop_last());
    }
}

/// The offsets never decrease, and the last is the length of all the side
/// information.
pub proof fn lemma_info_offset(items: Seq<StoredVector>, at: int)
    requires
        0 <= at <= items.len(),
    ensures
        info_offset(items, at) <= info_offset(items, items.len() as int),
        info_offset(items, at) == infos_bytes(items.subrange(0, at)).len(),
    decreases items.len() - at, at,
{
    if at < items.len() {
        lemma_info_offset(items, at + 1);
    }
    if at > 0 {
        lemma_info_offset_prefix(items, at);
    } else {
        assert(items.subrange(0, 0) =~= Seq::<StoredVector>::empty());
    }
}

/// The offset of a vector is the length of the side information in front.
pub proof fn lemma_info_offset_prefix(items: Seq<StoredVector>, at: int)
    requires
        0 <= at <= items.len(),
    ensures
        info_offset(items, at) == infos_bytes(items.subrange(0, at)).len(),
    decreases at,
{
    if at > 0 {
        lemma_info_offset_prefix(items, at - 1);
        assert(items.subrange(0, at).drop_last() =~= items.subrange(0, at - 1));
    } else {
        assert(items.subrange(0, 0) =~= Seq::<StoredVector>::empty());
    }
}

/// The bytes of a block whose vectors have the dimension `dimension` are as
/// many as the block's size.
pub proof fn lemma_block_bytes_len(items: Seq<StoredVector>, dimension: nat)
    requires
        forall|i: int| 0 <= i < items.len() ==> (#[trigger] items[i]).0.len() == dimension,
    ensures
        block_bytes(items).len() == block_size(
            dimension,
            items.len(),
            infos_bytes(items).len(),
        ),
        vectors_bytes(items).len() == 4 * dimension * items.len(),
    decreases items.len(),
{
    lemma_words_bytes_len(info_offsets(items));
    if items.len() > 0 {
        let front = items.drop_last();
        assert forall|i: int| 0 <= i < front.len() implies (#[trigger] front[i]).0.len()
            == dimension by {
            assert(front[i] == items[i]);
        }
        lemma_block_bytes_len(front, dimension);
        lemma_words_bytes_len(items.last().0);
        assert(4 * dimension * (front.len() + 1) == 4 * dimension * front.len() + 4 * dimension)
            by (nonlinear_arith);
    } else {
        assert(4 * dimension * 0 == 0) by (nonlinear_arith);
    }
}

/// The side information of the vectors that pair `vectors` with `infos` is as
/// long as the strings of `infos` together.
pub proof fn lemma_infos_len(vectors: Seq<Vec<u32>>, infos: Seq<Vec<u8>>)
    requires
        vectors.len() == infos.len(),
    ensures
        infos_bytes(items_of(vectors, infos)).len() == total_info_len(infos),
    decreases infos.len(),
{
    if infos.len() > 0 {
        lemma_infos_len(vectors.drop_last(), infos.drop_last());
        assert(items_of(vectors, infos).drop_last() =~= items_of(
            vectors.drop_last(),
            infos.drop_last(),
        ));
    }
}

/// Appends the bytes of `words` to `out`.
pub fn encode_words(words: &[u32], out: &mut Vec<u8>)
    ensures
        final(out)@ == old(out)@ + words_bytes(words@),
{
    let mut k: usize = 0;
    assert(words@.subrange(0, 0) =~= Seq::<u32>::empty());
    assert(out@ =~= old(out)@ + words_bytes(words@.subrange(0, 0)));
    while k < words.len()
        invariant
            k <= words@.len(),
            out@ == old(out)@ + words_bytes(words@.subrange(0, k as int)),
        decreases words.len() - k,
    {
        let mut bytes = u32_to_le_bytes(words[k]);
        out.append(&mut bytes);
        proof {
            assert(words@.subrange(0, k + 1).drop_last() =~= words@.subrange(0, k as int));
            assert(out@ =~= old(out)@ + words_bytes(words@.subrange(0, k + 1)));
        }
        k = k + 1;
    }
    assert(words@.subrange(0, k as int) =~= words@);
}

/// Appends a copy of `bytes` to `out`.
pub fn append_bytes(bytes: &[u8], out: &mut Vec<u8>)
    ensures
        final(out)@ == old(out)@ + bytes@,
{
    let mut k: usize = 0;
    assert(out@ =~= old(out)@ + bytes@.subrange(0, 0));
    while k < bytes.len()
        invariant
            k <= bytes@.len(),
            out@ == old(out)@ + bytes@.subrange(0, k as int),
        decreases bytes.len() - k,
    {
        out.push(bytes[k]);
        assert(out@ =~= old(out)@ + bytes@.subrange(0, k + 1));
        k = k + 1;
    }
    assert(bytes@.subrange(0, k as int) =~= bytes@);
}

/// Appends the bytes of the block that pairs `vectors` with `infos` to `out`.
/// The side information fits the 32 bits of an offset.
pub fn encode_block(vectors: &[Vec<u32>], infos: &[Vec<u8>], out: &mut Vec<u8>)
    requires
        vectors@.len() == infos@.len(),
        total_info_len(infos@) <= u32::MAX,
    ensures
        final(out)@ == old(out)@ + block_bytes(items_of(vectors@, infos@)),
{
    let ghost items = items_of(vectors@, infos@);
    let count = vectors.len();
    let mut k: usize = 0;
    assert(items.subrange(0, 0) =~= Seq::<StoredVector>::empty());
    assert(out@ =~= old(out)@ + vectors_bytes(items.subrange(0, 0)));
    while k < count
        invariant
            k <= count,
            count == vectors@.len(),
            vectors@.len() == infos@.len(),
            items == items_of(vectors@, infos@),
            out@ == old(out)@ + vectors_bytes(items.subrange(0, k as int)),
        decreases count - k,
    {
        encode_words(vectors[k].as_slice(), out);
        proof {
            assert(items.subrange(0, k + 1).drop_last() =~= items.subrange(0, k as int));
            assert(items.subrange(0, k + 1).last() == items[k as int]);
            assert(out@ =~= old(out)@ + vectors_bytes(items.subrange(0, k + 1)));
        }
        k = k + 1;
    }
    assert(items.subrange(0, count as int) =~= items);
    let ghost after_vectors = out@;
    let ghost offsets = info_offsets(items);
    proof {
        lemma_infos_len(vectors@, infos@);
        lemma_info_offset(items, items.len() as int);
        assert(items.subrange(0, items.len() as int) =~= items);
    }
    let mut offset: usize = 0;
    let mut first = u32_to_le_bytes(0);
    out.append(&mut first);
    proof {
        assert(offsets[0] == 0u32);
        assert(offsets.subrange(0, 1).drop_last() =~= Seq::<u32>::empty());
        assert(offsets.subrange(0, 1).last() == 0u32);
        assert(words_bytes(Seq::<u32>::empty()) =~= Seq::<u8>::empty());
        assert(words_bytes(offsets.subrange(0, 1)) =~= spec_u32_to_le_bytes(0u32));
        assert(out@ =~= after_vectors + words_bytes(offsets.subrange(0, 1)));
    }
    let mut k: usize = 0;
    while k < count
        invariant
            k <= count,
            count == vectors@.len(),
            vectors@.len() == infos@.len(),
            items == items_of(vectors@, infos@),
            offsets == info_offsets(items),
            info_offset(items, items.len() as int) <= u32::MAX,
            offset == info_offset(items, k as int),
            out@ == after_vectors + words_bytes(offsets.subrange(0, k + 1)),
        decreases count - k,
    {
        proof {
            lemma_info_offset(items, k + 1);
            assert(items[k as int].1 == infos@[k as int]@);
        }
        offset = offset + infos[k].len();
        let mut bytes = u32_to_le_bytes(offset as u32);
        out.append(&mut bytes);
        proof {
            assert(offsets[k + 1] == offset as u32);
            assert(offsets.subrange(0, k + 2).drop_last() =~= offsets.subrange(0, k + 1));
            assert(out@ =~= after_vectors + words_bytes(offsets.subrange(0, k + 2)));
        }
        k = k + 1;
    }
    assert(offsets.subrange(0, count + 1) =~= offsets);
    let ghost after_offsets = out@;
    let mut k: usize = 0;
    assert(out@ =~= after_offsets + infos_bytes(items.subrange(0, 0)));
    while k < count
        invariant
            k <= count,
            count == vectors@.len(),
            vectors@.len() == infos@.len(),
            items == items_of(vectors@, infos@),
            out@ == after_offsets + infos_bytes(items.subrange(0, k as int)),
        decreases count - k,
    {
        append_bytes(infos[k].as_slice(), out);
        proof {
            assert(items.subrange(0, k + 1).drop_last() =~= items.subrange(0, k as int));
            assert(items.subrange(0, k + 1).last() == items[k as int]);
            assert(out@ =~= after_offsets + infos_bytes(items.subrange(0, k + 1)));
        }
        k = k + 1;
    }
    assert(items.subrange(0, count as int) =~= items);
    assert(out@ =~= old(out)@ + block_bytes(items));
}

/// Appends the footer of a file with the block metas `metas` to `out`.
pub fn encode_footer(metas: &[VectorBlockMeta], out: &mut Vec<u8>)
    requires
        24 * metas@.len() <= u32::MAX,
    ensures
        final(out)@ == old(out)@ + footer_bytes(metas@),
{
    let mut k: usize = 0;
    assert(metas@.subrange(0, 0) =~= Seq::<VectorBlockMeta>::empty());
    assert(out@ =~= old(out)@ + metas_bytes(metas@.subrange(0, 0)));
    while k < metas.len()
        invariant
            k <= metas@.len(),
            24 * metas@.len() <= u32::MAX,
            out@ == old(out)@ + metas_bytes(metas@.subrange(0, k as int)),
        decreases metas.len() - k,
    {
        let meta = &metas[k];
        let ghost before = out@;
        let mut start = u64_to_le_bytes(meta.start_vector_id as u64);
        let mut count = u32_to_le_bytes(meta.vector_count as u32);
        let mut offset = u64_to_le_bytes(meta.offset as u64);
        let mut size = u32_to_le_bytes(meta.size as u32);
        out.append(&mut start);
        out.append(&mut count);
        out.append(&mut offset);
        out.append(&mut size);
        proof {
            assert(out@ =~= before + meta_bytes(*meta));
            assert(metas@.subrange(0, k + 1).drop_last() =~= metas@.subrange(0, k as int));
            assert(out@ =~= old(out)@ + metas_bytes(metas@.subrange(0, k + 1)));
        }
        k = k + 1;
    }
    assert(metas@.subrange(0, k as int) =~= metas@);
    let mut length = u32_to_le_bytes((24 * metas.len()) as u32);
    out.append(&mut length);
    assert(out@ =~= old(out)@ + footer_bytes(metas@));
}

/// The word that stands at the position `at` of the words that start at the
/// byte `start`.
pub open spec fn word_at(bytes: Seq<u8>, start: int, at: int) -> u32 {
    spec_u32_from_le_bytes(bytes.subrange(start + 4 * at, start + 4 * at + 4))
}

/// `bytes` are laid out as a block of `count` vectors of the dimension
/// `dimension`: they are long enough for the vectors and the offsets, the
/// offsets start at 0 and never decrease, and the last is the length of what
/// follows them.
pub open spec fn block_layout_ok(bytes: Seq<u8>, dimension: nat, count: nat) -> bool {
    let vectors_len = 4 * dimension * count;
    let offsets_len = 4 * (count + 1);
    &&& bytes.len() <= u32::MAX
    &&& vectors_len + offsets_len <= bytes.len()
    &&& word_at(bytes, vectors_len as int, 0) == 0
    &&& forall|at: int|
        0 <= at < count ==> word_at(bytes, vectors_len as int, at) <= #[trigger] word_at(
            bytes,
            vectors_len as int,
            at + 1,
        )
    &&& word_at(bytes, vectors_len as int, count as int) == bytes.len() - vectors_len
        - offsets_len
}

/// Reads `count` words from the byte `start` of `bytes` on.
pub fn decode_words(bytes: &[u8], start: usize, count: usize) -> (words: Vec<u32>)
    requires
        start + 4 * count <= bytes@.len(),
    ensures
        words@.len() == count,
        words_bytes(words@) == bytes@.subrange(start as int, start + 4 * count),
        forall|at: int| 0 <= at < count ==> #[trigger] words@[at] == word_at(bytes@, start as int, at),
{
    let mut words: Vec<u32> = Vec::new();
    let mut k: usize = 0;
    let len = bytes.len();
    assert(words_bytes(words@) =~= bytes@.subrange(start as int, start as int));
    while k < count
        invariant
            k <= count,
            len == bytes@.len(),
            start + 4 * count <= bytes@.len(),
            words@.len() == k,
            words_bytes(words@) == bytes@.subrange(start as int, start + 4 * k),
            forall|at: int| 0 <= at < k ==> #[trigger] words@[at] == word_at(bytes@, start as int, at),
        decreases count - k,
    {
        let from: usize = start + 4 * k;
        let four = slice_subrange(bytes, from, from + 4);
        let word = u32_from_le_bytes(four);
        let ghost before = words@;
        words.push(word);
        proof {
            lemma_auto_spec_u32_to_from_le_bytes();
            assert(words@.drop_last() =~= before);
            assert(spec_u32_to_le_bytes(word) == four@);
            assert(bytes@.subrange(start as int, start + 4 * k) + four@ =~= bytes@.subrange(
                start as int,
                start + 4 * (k + 1),
            ));
        }
        k = k + 1;
    }
    words
}

/// The offset of a vector does not depend on the vectors behind it.
pub proof fn lemma_info_offset_push(items: Seq<StoredVector>, item: StoredVector, at: int)
    requires
        0 <= at <= items.len(),
    ensures
        info_offset(items.push(item), at) == info_offset(items, at),
    decreases at,
{
    if at > 0 {
        lemma_info_offset_push(items, item, at - 1);
        assert(items.push(item)[at - 1] == items[at - 1]);
    }
}

/// Reads a block of `count` vectors of the dimension `dimension` from
/// `bytes`: the vectors and their side information, which encode to `bytes`
/// again. Bytes that are not laid out as such a block are refused as corrupt.
pub fn decode_block(bytes: &[u8], dimension: usize, count: usize) -> (res: Result<
    (Vec<Vec<u32>>, Vec<Vec<u8>>),
    VectorError,
>)
    ensures
        res is Ok <==> block_layout_ok(bytes@, dimension as nat, count as nat),
        res matches Err(e) ==> e == VectorError::Corruption,
        res matches Ok((vectors, infos)) ==> {
            &&& vectors@.len() == count
            &&& infos@.len() == count
            &&& forall|i: int| 0 <= i < count ==> (#[trigger] vectors@[i])@.len() == dimension
            &&& block_bytes(items_of(vectors@, infos@)) == bytes@
        },
{
    let len = bytes.len();
    if len > 0xffff_ffff {
        return Err(VectorError::Corruption);
    }
    let mut row_len: usize = 0;
    let mut vectors_len: usize = 0;
    if count > 0 {
        let rows = match dimension.checked_mul(4) {
            Some(row_len) => row_len.checked_mul(count),
            None => None,
        };
        proof {
            assert(4 * (dimension as nat) * (count as nat) >= 4 * (dimension as nat))
                by (nonlinear_arith)
                requires
                    count > 0,
            ;
            assert(4 * (dimension as nat) * (count as nat) == (dimension * 4) * count)
                by (nonlinear_arith);
        }
        match rows {
            Some(rows) => {
                row_len = 4 * dimension;
                vectors_len = rows;
            },
            None => {
                return Err(VectorError::Corruption);
            },
        }
    } else {
        proof {
            assert(4 * (dimension as nat) * (count as nat) == 0) by (nonlinear_arith)
                requires
                    count == 0,
            ;
        }
    }
    if vectors_len > len || count >= len {
        return Err(VectorError::Corruption);
    }
    let offsets_len: u64 = 4 * (count as u64 + 1);
    if offsets_len > (len - vectors_len) as u64 {
        return Err(VectorError::Corruption);
    }
    let offsets_len: usize = offsets_len as usize;
    let info_start: usize = vectors_len + offsets_len;
    let offsets = decode_words(bytes, vectors_len, count + 1);
    if offsets[0] != 0 || offsets[count] as usize != len - info_start {
        return Err(VectorError::Corruption);
    }
    let mut vectors: Vec<Vec<u32>> = Vec::new();
    let mut infos: Vec<Vec<u8>> = Vec::new();
    let mut i: usize = 0;
    let mut pos: usize = 0;
    proof {
        let items = items_of(vectors@, infos@);
        assert(items =~= Seq::<StoredVector>::empty());
        assert(vectors_bytes(items) =~= bytes@.subrange(0, 0));
        assert(infos_bytes(items) =~= bytes@.subrange(info_start as int, info_start as int));
        assert(4 * (dimension as nat) * 0 == 0) by (nonlinear_arith);
    }
    while i < count
        invariant
            i <= count,
            len == bytes@.len(),
            len <= 0xffff_ffff,
            count > 0 ==> row_len == 4 * dimension,
            row_len <= vectors_len,
            vectors_len <= len,
            vectors_len == 4 * (dimension as nat) * (count as nat),
            pos == 4 * (dimension as nat) * (i as nat),
            info_start == vectors_len + 4 * (count + 1),
            info_start <= len,
            offsets@.len() == count + 1,
            forall|at: int|
                0 <= at <= count ==> #[trigger] offsets@[at] == word_at(
                    bytes@,
                    vectors_len as int,
                    at,
                ),
            offsets@[0] == 0,
            offsets@[count as int] == len - info_start,
            vectors@.len() == i,
            infos@.len() == i,
            forall|j: int| 0 <= j < i ==> (#[trigger] vectors@[j])@.len() == dimension,
            forall|j: int| 0 <= j < i ==> offsets@[j] <= #[trigger] offsets@[j + 1],
            forall|j: int|
                0 <= j <= i ==> info_offset(items_of(vectors@, infos@), j) == #[trigger] offsets@[j],
            vectors_bytes(items_of(vectors@, infos@)) == bytes@.subrange(0, pos as int),
            infos_bytes(items_of(vectors@, infos@)) == bytes@.subrange(
                info_start as int,
                info_start + offsets@[i as int],
            ),
        decreases count - i,
    {
        let from = offsets[i] as usize;
        let to = offsets[i + 1] as usize;
        if to < from || to > len - info_start {
            proof {
                if block_layout_ok(bytes@, dimension as nat, count as nat) {
                    assert(word_at(bytes@, vectors_len as int, i as int) <= word_at(
                        bytes@,
                        vectors_len as int,
                        i + 1,
                    ));
                    lemma_words_sorted_below_last(bytes@, vectors_len as int, count as int, i + 1);
                    assert(false);
                }
            }
            return Err(VectorError::Corruption);
        }
        proof {
            assert(4 * (dimension as nat) * (i as nat + 1) == 4 * (dimension as nat) * (i as nat)
                + 4 * (dimension as nat)) by (nonlinear_arith);
            assert(4 * (dimension as nat) * (i as nat + 1) <= 4 * (dimension as nat) * (
            count as nat)) by (nonlinear_arith)
                requires
                    i + 1 <= count,
            ;
        }
        let vector = decode_words(bytes, pos, dimension);
        let info = crate::block::copy_of(slice_subrange(bytes, info_start + from, info_start + to));
        let ghost before = items_of(vectors@, infos@);
        vectors.push(vector);
        infos.push(info);
        proof {
            let items = items_of(vectors@, infos@);
            let item = (vector@, info@);
            assert(items =~= before.push(item));
            assert(items.drop_last() =~= before);
            assert(vectors_bytes(items) =~= bytes@.subrange(0, pos + 4 * dimension));
            assert(infos_bytes(items) =~= bytes@.subrange(info_start as int, info_start + to));
            assert forall|j: int| 0 <= j <= i + 1 implies info_offset(items, j)
                == #[trigger] offsets@[j] by {
                if j <= i {
                    lemma_info_offset_push(before, item, j);
                } else {
                    lemma_info_offset_push(before, item, i as int);
                    assert(items[i as int] == item);
                }
            }
        }
        pos = pos + row_len;
        i = i + 1;
    }
    proof {
        let items = items_of(vectors@, infos@);
        assert(info_offsets(items) =~= offsets@);
        assert(bytes@.subrange(0, vectors_len as int) + bytes@.subrange(
            vectors_len as int,
            vectors_len + 4 * (count + 1),
        ) + bytes@.subrange(info_start as int, len as int) =~= bytes@);
        assert forall|at: int| 0 <= at < count implies word_at(bytes@, vectors_len as int, at)
            <= #[trigger] word_at(bytes@, vectors_len as int, at + 1) by {
            assert(offsets@[at] <= offsets@[at + 1]);
        }
        assert(block_layout_ok(bytes@, dimension as nat, count as nat));
    }
    Ok((vectors, infos))
}

/// Where the words of a table never decrease up to the last, none lies
/// behind the last.
pub proof fn lemma_words_sorted_below_last(bytes: Seq<u8>, start: int, count: int, at: int)
    requires
        0 <= at <= count,
        forall|k: int|
            0 <= k < count ==> word_at(bytes, start, k) <= #[trigger] word_at(bytes, start, k + 1),
    ensures
        word_at(bytes, start, at) <= word_at(bytes, start, count),
    decreases count - at,
{
    if at < count {
        lemma_words_sorted_below_last(bytes, start, count, at + 1);
        assert(word_at(bytes, start, at) <= word_at(bytes, start, at + 1));
    }
}

/// The start id that the footer entry `at` of `bytes` names.
pub open spec fn entry_start(bytes: Seq<u8>, at: int) -> u64 {
    spec_u64_from_le_bytes(bytes.subrange(24 * at, 24 * at + 8))
}

/// The byte offset that the footer entry `at` of `bytes` names.
pub open spec fn entry_offset(bytes: Seq<u8>, at: int) -> u64 {
    spec_u64_from_le_bytes(bytes.subrange(24 * at + 12, 24 * at + 20))
}

/// `bytes` are laid out as a footer: entries of 24 bytes, whose ids and
/// offsets fit the machine, and then the length of the entries.
pub open spec fn footer_layout_ok(bytes: Seq<u8>) -> bool {
    &&& bytes.len() >= 4
    &&& bytes.len() - 4 <= u32::MAX
    &&& (bytes.len() - 4) % 24 == 0
    &&& spec_u32_from_le_bytes(bytes.subrange(bytes.len() - 4, bytes.len() as int))
        == bytes.len() - 4
    &&& forall|at: int|
        0 <= at < (bytes.len() - 4) / 24 ==> #[trigger] entry_start(bytes, at) <= usize::MAX
            && entry_offset(bytes, at) <= usize::MAX
}

/// Reads the footer of a file from `bytes`: the block metas, which encode to
/// `bytes` again. Bytes that are not laid out as a footer are refused as
/// corrupt.
pub fn decode_footer(bytes: &[u8]) -> (res: Result<Vec<VectorBlockMeta>, VectorError>)
    ensures
        res is Ok <==> footer_layout_ok(bytes@),
        res matches Err(e) ==> e == VectorError::Corruption,
        res matches Ok(metas) ==> footer_bytes(metas@) == bytes@,
{
    let len = bytes.len();
    if len < 4 || len - 4 > 0xffff_ffff || (len - 4) % 24 != 0 {
        return Err(VectorError::Corruption);
    }
    let entries_len: usize = len - 4;
    let named = u32_from_le_bytes(slice_subrange(bytes, entries_len, len));
    if named as usize != entries_len {
        return Err(VectorError::Corruption);
    }
    let count: usize = entries_len / 24;
    let mut metas: Vec<VectorBlockMeta> = Vec::new();
    let mut k: usize = 0;
    assert(metas_bytes(metas@) =~= bytes@.subrange(0, 0));
    while k < count
        invariant
            k <= count,
            len == bytes@.len(),
            entries_len == len - 4,
            entries_len == count * 24,
            metas@.len() == k,
            metas_bytes(metas@) == bytes@.subrange(0, 24 * k),
            forall|at: int|
                0 <= at < k ==> #[trigger] entry_start(bytes@, at) <= usize::MAX && entry_offset(
                    bytes@,
                    at,
                ) <= usize::MAX,
        decreases count - k,
    {
        let from: usize = 24 * k;
        let start_bytes = slice_subrange(bytes, from, from + 8);
        let count_bytes = slice_subrange(bytes, from + 8, from + 12);
        let offset_bytes = slice_subrange(bytes, from + 12, from + 20);
        let size_bytes = slice_subrange(bytes, from + 20, from + 24);
        let start = u64_from_le_bytes(start_bytes);
        let vector_count = u32_from_le_bytes(count_bytes);
        let offset = u64_from_le_bytes(offset_bytes);
        let size = u32_from_le_bytes(size_bytes);
        if start > usize::MAX as u64 || offset > usize::MAX as u64 {
            proof {
                assert(entry_start(bytes@, k as int) == start);
                assert(entry_offset(bytes@, k as int) == offset);
            }
            return Err(VectorError::Corruption);
        }
        let meta = VectorBlockMeta {
            start_vector_id: start as usize,
            vector_count: vector_count as usize,
            offset: offset as usize,
            size: size as usize,
        };
        let ghost before = metas@;
        metas.push(meta);
        proof {
            lemma_auto_spec_u32_to_from_le_bytes();
            lemma_auto_spec_u64_to_from_le_bytes();
            assert(spec_u64_to_le_bytes(start) == start_bytes@);
            assert(spec_u32_to_le_bytes(vector_count) == count_bytes@);
            assert(spec_u64_to_le_bytes(offset) == offset_bytes@);
            assert(spec_u32_to_le_bytes(size) == size_bytes@);
            assert(meta_bytes(meta) =~= bytes@.subrange(from as int, from + 24));
            assert(metas@.drop_last() =~= before);
            assert(metas_bytes(metas@) =~= bytes@.subrange(0, 24 * (k + 1)));
            assert(entry_start(bytes@, k as int) == start);
            assert(entry_offset(bytes@, k as int) == offset);
        }
        k = k + 1;
    }
    proof {
        lemma_auto_spec_u32_to_from_le_bytes();
        let tail = bytes@.subrange(entries_len as int, len as int);
        assert(spec_u32_to_le_bytes(named) == tail);
        assert((24 * metas@.len()) as u32 == named);
        assert(bytes@.subrange(0, entries_len as int) + tail =~= bytes@);
    }
    Ok(metas)
}

/// The four bytes of the word `at` of a run of words stand at four times
/// `at`.
pub proof fn lemma_words_bytes_at(words: Seq<u32>, at: int)
    requires
        0 <= at < words.len(),
    ensures
        words_bytes(words).len() == 4 * words.len(),
        words_bytes(words).subrange(4 * at, 4 * at + 4) == spec_u32_to_le_bytes(words[at]),
    decreases words.len(),
{
    lemma_auto_spec_u32_to_from_le_bytes();
    lemma_words_bytes_len(words);
    let front = words.drop_last();
    lemma_words_bytes_len(front);
    if at < words.len() - 1 {
        lemma_words_bytes_at(front, at);
        assert(words_bytes(words).subrange(4 * at, 4 * at + 4) =~= words_bytes(front).subrange(
            4 * at,
            4 * at + 4,
        ));
    } else {
        assert(words_bytes(words).subrange(4 * at, 4 * at + 4) =~= spec_u32_to_le_bytes(
            words.last(),
        ));
    }
}

/// Runs of words with the same bytes are the same.
pub proof fn lemma_words_bytes_injective(a: Seq<u32>, b: Seq<u32>)
    requires
        words_bytes(a) == words_bytes(b),
    ensures
        a == b,
{
    lemma_auto_spec_u32_to_from_le_bytes();
    lemma_words_bytes_len(a);
    lemma_words_bytes_len(b);
    assert(a.len() == b.len());
    assert forall|at: int| 0 <= at < a.len() implies a[at] == b[at] by {
        lemma_words_bytes_at(a, at);
        lemma_words_bytes_at(b, at);
        assert(spec_u32_to_le_bytes(a[at]).len() == 4);
        assert(spec_u32_to_le_bytes(b[at]).len() == 4);
        assert(spec_u32_from_le_bytes(spec_u32_to_le_bytes(a[at])) == a[at]);
        assert(spec_u32_from_le_bytes(spec_u32_to_le_bytes(b[at])) == b[at]);
    }
    assert(a =~= b);
}

/// The bytes of the vector `at` stand, among the bytes of all the vectors,
/// at `at` times the bytes of a vector.
pub proof fn lemma_vectors_bytes_at(items: Seq<StoredVector>, dimension: nat, at: int)
    requires
        forall|i: int| 0 <= i < items.len() ==> (#[trigger] items[i]).0.len() == dimension,
        0 <= at < items.len(),
    ensures
        vectors_bytes(items).len() == 4 * dimension * items.len(),
        0 <= 4 * dimension * at,
        4 * dimension * at + 4 * dimension <= vectors_bytes(items).len(),
        vectors_bytes(items).subrange(4 * dimension * at, 4 * dimension * at + 4 * dimension)
            == words_bytes(items[at].0),
    decreases items.len(),
{
    lemma_block_bytes_len(items, dimension);
    let front = items.drop_last();
    assert forall|i: int| 0 <= i < front.len() implies (#[trigger] front[i]).0.len()
        == dimension by {
        assert(front[i] == items[i]);
    }
    lemma_block_bytes_len(front, dimension);
    lemma_words_bytes_len(items.last().0);
    assert(4 * dimension * at + 4 * dimension == 4 * dimension * (at + 1)) by (nonlinear_arith);
    assert(4 * dimension * (at + 1) <= 4 * dimension * items.len()) by (nonlinear_arith)
        requires
            at + 1 <= items.len(),
    ;
    assert(0 <= 4 * dimension * at) by (nonlinear_arith)
        requires
            0 <= at,
    ;
    if at < items.len() - 1 {
        lemma_vectors_bytes_at(front, dimension, at);
        assert(vectors_bytes(items).subrange(
            4 * dimension * at,
            4 * dimension * at + 4 * dimension,
        ) =~= vectors_bytes(front).subrange(4 * dimension * at, 4 * dimension * at + 4 * dimension));
        assert(front[at] == items[at]);
    } else {
        assert(4 * dimension * at == vectors_bytes(front).len());
        assert(vectors_bytes(items).subrange(
            4 * dimension * at,
            4 * dimension * at + 4 * dimension,
        ) =~= words_bytes(items.last().0));
    }
}

/// The side information of the vector `at` stands, among all the side
/// information, between its offset and the next.
pub proof fn lemma_infos_bytes_at(items: Seq<StoredVector>, at: int)
    requires
        0 <= at < items.len(),
    ensures
        info_offset(items, at + 1) == info_offset(items, at) + items[at].1.len(),
        info_offset(items, at + 1) <= infos_bytes(items).len(),
        infos_bytes(items).subrange(
            info_offset(items, at) as int,
            info_offset(items, at + 1) as int,
        ) == items[at].1,
    decreases items.len(),
{
    let front = items.drop_last();
    lemma_info_offset(items, items.len() as int);
    assert(items.subrange(0, items.len() as int) =~= items);
    lemma_info_offset(items, at + 1);
    lemma_info_offset(items, front.len() as int);
    assert(items.subrange(0, front.len() as int) =~= front);
    if at < items.len() - 1 {
        lemma_infos_bytes_at(front, at);
        lemma_info_offset_push(front, items.last(), at);
        lemma_info_offset_push(front, items.last(), at + 1);
        assert(front.push(items.last()) =~= items);
        assert(front[at] == items[at]);
        assert(infos_bytes(items).subrange(
            info_offset(items, at) as int,
            info_offset(items, at + 1) as int,
        ) =~= infos_bytes(front).subrange(
            info_offset(front, at) as int,
            info_offset(front, at + 1) as int,
        ));
    } else {
        assert(info_offset(items, at) == infos_bytes(front).len());
        assert(infos_bytes(items).subrange(
            info_offset(items, at) as int,
            info_offset(items, at + 1) as int,
        ) =~= items.last().1);
    }
}

/// The bytes of a block of vectors of one dimension are laid out as a block
/// of that many vectors of that dimension.
pub proof fn lemma_block_bytes_layout(items: Seq<StoredVector>, dimension: nat)
    requires
        forall|i: int| 0 <= i < items.len() ==> (#[trigger] items[i]).0.len() == dimension,
        block_bytes(items).len() <= u32::MAX,
    ensures
        block_layout_ok(block_bytes(items), dimension, items.len()),
{
    let bytes = block_bytes(items);
    let count = items.len() as int;
    let offsets = info_offsets(items);
    let vectors_len = (4 * dimension * items.len()) as int;
    lemma_block_bytes_len(items, dimension);
    lemma_words_bytes_len(offsets);
    lemma_info_offset(items, count);
    assert(items.subrange(0, count) =~= items);
    assert forall|at: int| 0 <= at <= count implies word_at(bytes, vectors_len, at)
        == info_offset(items, at) by {
        lemma_auto_spec_u32_to_from_le_bytes();
        lemma_words_bytes_at(offsets, at);
        lemma_info_offset(items, at);
        assert(spec_u32_to_le_bytes(offsets[at]).len() == 4);
        assert(bytes.subrange(vectors_len + 4 * at, vectors_len + 4 * at + 4)
            =~= words_bytes(offsets).subrange(4 * at, 4 * at + 4));
        assert(offsets[at] == info_offset(items, at));
    }
    assert(word_at(bytes, vectors_len, 0) == info_offset(items, 0));
    assert(word_at(bytes, vectors_len, count) == info_offset(items, count));
    assert forall|at: int| 0 <= at < count implies word_at(bytes, vectors_len, at)
        <= #[trigger] word_at(bytes, vectors_len, at + 1) by {
        assert(word_at(bytes, vectors_len, at) == info_offset(items, at));
        assert(word_at(bytes, vectors_len, at + 1) == info_offset(items, at + 1));
    }
}

/// Blocks of as many vectors of one dimension with the same bytes hold the
/// same vectors with the same side information.
pub proof fn lemma_block_bytes_injective(a: Seq<StoredVector>, b: Seq<StoredVector>, dimension: nat)
    requires
        a.len() == b.len(),
        forall|i: int| 0 <= i < a.len() ==> (#[trigger] a[i]).0.len() == dimension,
        forall|i: int| 0 <= i < b.len() ==> (#[trigger] b[i]).0.len() == dimension,
        block_bytes(a) == block_bytes(b),
        block_bytes(a).len() <= u32::MAX,
    ensures
        a =~~= b,
{
    let count = a.len() as int;
    let bytes = block_bytes(a);
    let va = vectors_bytes(a);
    let vb = vectors_bytes(b);
    let wa = words_bytes(info_offsets(a));
    let wb = words_bytes(info_offsets(b));
    let ia = infos_bytes(a);
    let ib = infos_bytes(b);
    lemma_block_bytes_len(a, dimension);
    lemma_block_bytes_len(b, dimension);
    lemma_words_bytes_len(info_offsets(a));
    lemma_words_bytes_len(info_offsets(b));
    assert(va =~= bytes.subrange(0, va.len() as int));
    assert(vb =~= bytes.subrange(0, vb.len() as int));
    assert(wa =~= bytes.subrange(va.len() as int, (va.len() + wa.len()) as int));
    assert(wb =~= bytes.subrange(vb.len() as int, (vb.len() + wb.len()) as int));
    assert(ia =~= bytes.subrange((va.len() + wa.len()) as int, bytes.len() as int));
    assert(ib =~= bytes.subrange((vb.len() + wb.len()) as int, bytes.len() as int));
    lemma_words_bytes_injective(info_offsets(a), info_offsets(b));
    lemma_info_offset(a, count);
    lemma_info_offset(b, count);
    assert(a.subrange(0, count) =~= a);
    assert(b.subrange(0, count) =~= b);
    assert forall|at: int| 0 <= at <= count implies info_offset(a, at) == info_offset(b, at) by {
        lemma_info_offset(a, at);
        lemma_info_offset(b, at);
        assert(info_offsets(a)[at] == info_offsets(b)[at]);
    }
    assert forall|at: int| 0 <= at < count implies a[at].0 == b[at].0 && a[at].1 == b[at].1 by {
        lemma_vectors_bytes_at(a, dimension, at);
        lemma_vectors_bytes_at(b, dimension, at);
        lemma_words_bytes_injective(a[at].0, b[at].0);
        lemma_infos_bytes_at(a, at);
        lemma_infos_bytes_at(b, at);
    }
}

/// A footer takes 24 bytes for each block and four for their length.
pub proof fn lemma_footer_bytes_len(metas: Seq<VectorBlockMeta>)
    ensures
        metas_bytes(metas).len() == 24 * metas.len(),
        footer_bytes(metas).len() == 24 * metas.len() + 4,
    decreases metas.len(),
{
    lemma_auto_spec_u32_to_from_le_bytes();
    lemma_auto_spec_u64_to_from_le_bytes();
    assert(spec_u32_to_le_bytes((24 * metas.len()) as u32).len() == 4);
    if metas.len() > 0 {
        lemma_footer_bytes_len(metas.drop_last());
        let meta = metas.last();
        assert(spec_u64_to_le_bytes(meta.start_vector_id as u64).len() == 8);
        assert(spec_u32_to_le_bytes(meta.vector_count as u32).len() == 4);
        assert(spec_u64_to_le_bytes(meta.offset as u64).len() == 8);
        assert(spec_u32_to_le_bytes(meta.size as u32).len() == 4);
    }
}

} // verus!
