//! Vector blocks: the unit in which vectors and their side information are
//! packed, and the builder that fills one.
//!
//! A vector is a sequence of 32-bit words, one per component; the index stores
//! and returns the words as they are and never interprets them.

use vstd::prelude::*;

use crate::accessor::EnumVectorAccessor;
use crate::codec::{
    block_bytes, block_layout_ok, decode_block, encode_block, lemma_block_bytes_injective,
    lemma_block_bytes_layout, lemma_block_bytes_len, lemma_infos_len,
};
use crate::error::VectorError;

verus! {

/// A stored vector as contracts see it: its components and its side
/// information.
pub type StoredVector = (Seq<u32>, Seq<u8>);

/// The number of bytes of all the side information strings together.
pub open spec fn total_info_len(infos: Seq<Vec<u8>>) -> nat
    decreases infos.len(),
{
    if infos.len() == 0 {
        0
    } else {
        total_info_len(infos.drop_last()) + infos.last()@.len()
    }
}

/// The encoded size of a block: four bytes per component, one 32-bit offset
/// per vector and one more to close the table, then the side information.
pub open spec fn block_size(dimension: nat, count: nat, info_len: nat) -> nat {
    4 * dimension * count + 4 * (count + 1) + info_len
}

/// The largest encoded size of a block: sizes and offsets are stored in 32 bits.
pub const MAX_BLOCK_SIZE: usize = 0xffff_ffff;

/// The vectors of a block, pairing each vector with its side information.
pub open spec fn items_of(vectors: Seq<Vec<u32>>, infos: Seq<Vec<u8>>) -> Seq<StoredVector> {
    Seq::new(vectors.len(), |i: int| (vectors[i]@, infos[i]@))
}

/// Where a block lies in its file and which ids it covers.
#[derive(Debug, Clone, Copy, PartialEq, Eq, Structural)]
pub struct VectorBlockMeta {
    pub start_vector_id: usize,
    pub vector_count: usize,
    /// The byte offset of the block in its file.
    pub offset: usize,
    /// The encoded size of the block in bytes.
    pub size: usize,
}

/// An immutable block of vectors of one dimension.
#[derive(Debug)]
pub struct VectorBlock {
    dimension: usize,
    vectors: Vec<Vec<u32>>,
    infos: Vec<Vec<u8>>,
    encoded_size: usize,
}

impl VectorBlock {
    /// The block holds one side information string per vector, every vector
    /// has the block's dimension, and the recorded size is the encoded size.
    pub closed spec fn wf(&self) -> bool {
        &&& self.vectors@.len() == self.infos@.len()
        &&& forall|i: int| 0 <= i < self.vectors@.len() ==> (#[trigger] self.vectors@[i])@.len()
            == self.dimension
        &&& self.encoded_size == block_size(
            self.dimension as nat,
            self.vectors@.len(),
            total_info_len(self.infos@),
        )
        &&& self.encoded_size <= MAX_BLOCK_SIZE
    }

    /// The vectors of the block, in order.
    pub closed spec fn items(&self) -> Seq<StoredVector> {
        items_of(self.vectors@, self.infos@)
    }

    /// The dimension of every vector of the block.
    pub closed spec fn spec_dimension(&self) -> usize {
        self.dimension
    }

    /// The encoded size of the block in bytes.
    pub closed spec fn spec_encoded_size(&self) -> usize {
        self.encoded_size
    }

    /// Every vector of a well-formed block has the block's dimension.
    pub proof fn lemma_dimension(&self, idx: int)
        requires
            self.wf(),
            0 <= idx < self.items().len(),
        ensures
            self.items()[idx].0.len() == self.spec_dimension(),
    {
    }

    /// The bytes of a block are as many as its size, and they are laid out as
    /// a block of its shape: decoding takes them.
    pub proof fn lemma_bytes(&self)
        requires
            self.wf(),
        ensures
            block_bytes(self.items()).len() == self.spec_encoded_size(),
            block_layout_ok(
                block_bytes(self.items()),
                self.spec_dimension() as nat,
                self.items().len(),
            ),
    {
        let items = self.items();
        assert forall|i: int| 0 <= i < items.len() implies (#[trigger] items[i]).0.len()
            == self.dimension by {
            assert(items[i].0 == self.vectors@[i]@);
        }
        lemma_block_bytes_len(items, self.dimension as nat);
        lemma_infos_len(self.vectors@, self.infos@);
        lemma_block_bytes_layout(items, self.dimension as nat);
    }

    /// A block survives the round trip through its bytes: a block of the
    /// same shape with the same bytes holds the same vectors with the same
    /// side information.
    pub proof fn lemma_round_trip(&self, decoded: VectorBlock)
        requires
            self.wf(),
            decoded.wf(),
            decoded.spec_dimension() == self.spec_dimension(),
            decoded.items().len() == self.items().len(),
            block_bytes(decoded.items()) == block_bytes(self.items()),
        ensures
            decoded.items() == self.items(),
    {
        self.lemma_bytes();
        let a = self.items();
        let b = decoded.items();
        assert forall|i: int| 0 <= i < a.len() implies (#[trigger] a[i]).0.len()
            == self.dimension by {
            assert(a[i].0 == self.vectors@[i]@);
        }
        assert forall|i: int| 0 <= i < b.len() implies (#[trigger] b[i]).0.len()
            == self.dimension by {
            assert(b[i].0 == decoded.vectors@[i]@);
        }
        lemma_block_bytes_injective(a, b, self.dimension as nat);
    }

    /// The number of vectors in the block.
    pub fn vector_count(&self) -> (count: usize)
        requires
            self.wf(),
        ensures
            count == self.items().len(),
    {
        self.vectors.len()
    }

    /// The dimension of the block's vectors.
    #[verifier::when_used_as_spec(spec_dimension)]
    pub fn dimension(&self) -> (dimension: usize)
        ensures
            dimension == self.spec_dimension(),
    {
        self.dimension
    }

    /// The encoded size of the block in bytes.
    #[verifier::when_used_as_spec(spec_encoded_size)]
    pub fn encoded_size(&self) -> (size: usize)
        ensures
            size == self.spec_encoded_size(),
    {
        self.encoded_size
    }

    /// Appends the bytes of the block to `out`.
    pub fn encode(&self, out: &mut Vec<u8>)
        requires
            self.wf(),
        ensures
            final(out)@ == old(out)@ + block_bytes(self.items()),
    {
        encode_block(self.vectors.as_slice(), self.infos.as_slice(), out);
    }

    /// The block of `vector_count` vectors of the dimension `dimension` that
    /// `bytes` hold. Bytes that are not laid out as such a block are refused
    /// as corrupt.
    pub fn decode(bytes: &[u8], dimension: usize, vector_count: usize) -> (res: Result<
        Self,
        VectorError,
    >)
        ensures
            res is Ok <==> block_layout_ok(bytes@, dimension as nat, vector_count as nat),
            res matches Err(e) ==> e == VectorError::Corruption,
            res matches Ok(block) ==> {
                &&& block.wf()
                &&& block.spec_dimension() == dimension
                &&& block.items().len() == vector_count
                &&& block.spec_encoded_size() == bytes@.len()
                &&& block_bytes(block.items()) == bytes@
            },
    {
        match decode_block(bytes, dimension, vector_count) {
            Ok((vectors, infos)) => {
                proof {
                    let items = items_of(vectors@, infos@);
                    assert forall|i: int| 0 <= i < items.len() implies (#[trigger] items[i]).0.len()
                        == dimension by {
                        assert(items[i].0 == vectors@[i]@);
                    }
                    lemma_block_bytes_len(items, dimension as nat);
                    lemma_infos_len(vectors@, infos@);
                }
                Ok(VectorBlock { dimension, vectors, infos, encoded_size: bytes.len() })
            },
            Err(e) => Err(e),
        }
    }

    /// The components of the vector at `idx`.
    pub fn vec_ref(&self, idx: usize) -> (vec: &[u32])
        requires
            self.wf(),
            idx < self.items().len(),
        ensures
            vec@ == self.items()[idx as int].0,
    {
        self.vectors[idx].as_slice()
    }

    /// The side information of the vector at `idx`.
    pub fn info(&self, idx: usize) -> (info: &[u8])
        requires
            self.wf(),
            idx < self.items().len(),
        ensures
            info@ == self.items()[idx as int].1,
    {
        self.infos[idx].as_slice()
    }
}

/// Collects vectors of one dimension, giving them consecutive ids from a
/// start id on, until the block is finished.
#[derive(Debug)]
pub struct VectorBlockBuilder {
    dimension: usize,
    start_vector_id: usize,
    vectors: Vec<Vec<u32>>,
    infos: Vec<Vec<u8>>,
    encoded_size: usize,
}

impl VectorBlockBuilder {
    /// The builder's block is well formed, fits the 32-bit size of a block and
    /// its ids fit the machine.
    pub closed spec fn wf(&self) -> bool {
        &&& self.vectors@.len() == self.infos@.len()
        &&& forall|i: int| 0 <= i < self.vectors@.len() ==> (#[trigger] self.vectors@[i])@.len()
            == self.dimension
        &&& self.encoded_size == block_size(
            self.dimension as nat,
            self.vectors@.len(),
            total_info_len(self.infos@),
        )
        &&& self.encoded_size <= MAX_BLOCK_SIZE
        &&& self.start_vector_id + self.vectors@.len() <= usize::MAX
    }

    /// The vectors added since the last finish, in order.
    pub closed spec fn items(&self) -> Seq<StoredVector> {
        items_of(self.vectors@, self.infos@)
    }

    /// The dimension that every added vector must have.
    pub closed spec fn spec_dimension(&self) -> usize {
        self.dimension
    }

    /// The id of the first vector of the block under construction.
    pub closed spec fn spec_start_vector_id(&self) -> usize {
        self.start_vector_id
    }

    /// The encoded size of the block under construction.
    pub closed spec fn spec_encoded_size(&self) -> usize {
        self.encoded_size
    }

    /// A vector with `info_len` bytes of side information can still be added:
    /// the block stays within [`MAX_BLOCK_SIZE`] and the next id fits.
    pub closed spec fn spec_has_room(&self, info_len: usize) -> bool {
        &&& self.encoded_size + 4 * self.dimension + 4 + info_len <= MAX_BLOCK_SIZE
        &&& self.start_vector_id + self.vectors@.len() + 1 <= usize::MAX
    }

    /// The ids of a well-formed builder fit the machine, its size is that of
    /// its block, and every vector has its dimension.
    pub proof fn lemma_wf(&self)
        requires
            self.wf(),
        ensures
            self.spec_start_vector_id() + self.items().len() <= usize::MAX,
            self.spec_encoded_size() <= MAX_BLOCK_SIZE,
            self.spec_encoded_size() >= 4,
            forall|i: int|
                0 <= i < self.items().len() ==> (#[trigger] self.items()[i]).0.len()
                    == self.spec_dimension(),
    {
    }

    /// An empty builder whose first vector will get the id `start_vector_id`.
    pub fn new(dimension: usize, start_vector_id: usize) -> (builder: Self)
        ensures
            builder.wf(),
            builder.items() == Seq::<StoredVector>::empty(),
            builder.spec_dimension() == dimension,
            builder.spec_start_vector_id() == start_vector_id,
            builder.spec_encoded_size() == 4,
    {
        let builder = VectorBlockBuilder {
            dimension,
            start_vector_id,
            vectors: Vec::new(),
            infos: Vec::new(),
            encoded_size: 4,
        };
        assert(builder.items() =~= Seq::<StoredVector>::empty());
        assert(4 * (dimension as nat) * 0 == 0) by (nonlinear_arith);
        builder
    }

    /// The dimension that every added vector must have.
    #[verifier::when_used_as_spec(spec_dimension)]
    pub fn dimension(&self) -> (dimension: usize)
        ensures
            dimension == self.spec_dimension(),
    {
        self.dimension
    }

    /// The id of the first vector of the block under construction.
    #[verifier::when_used_as_spec(spec_start_vector_id)]
    pub fn start_vector_id(&self) -> (id: usize)
        ensures
            id == self.spec_start_vector_id(),
    {
        self.start_vector_id
    }

    /// The number of vectors added since the last finish.
    pub fn vector_count(&self) -> (count: usize)
        requires
            self.wf(),
        ensures
            count == self.items().len(),
    {
        self.vectors.len()
    }

    /// The id that the next added vector will get.
    pub fn next_vector_id(&self) -> (id: usize)
        requires
            self.wf(),
        ensures
            id == self.spec_start_vector_id() + self.items().len(),
    {
        self.start_vector_id + self.vectors.len()
    }

    /// Whether no vector was added since the last finish.
    pub fn is_empty(&self) -> (empty: bool)
        requires
            self.wf(),
        ensures
            empty == (self.items().len() == 0),
    {
        self.vectors.len() == 0
    }

    /// The encoded size of the block under construction.
    #[verifier::when_used_as_spec(spec_encoded_size)]
    pub fn encoded_size(&self) -> (size: usize)
        ensures
            size == self.spec_encoded_size(),
    {
        self.encoded_size
    }

    /// Whether a vector with `info_len` bytes of side information can still be
    /// added.
    #[verifier::when_used_as_spec(spec_has_room)]
    pub fn has_room(&self, info_len: usize) -> (room: bool)
        requires
            self.wf(),
        ensures
            room == self.spec_has_room(info_len),
    {
        let limit: u128 = 0xffff_ffff;
        let size: u128 = self.encoded_size as u128 + 4 * (self.dimension as u128) + 4
            + info_len as u128;
        size <= limit && self.start_vector_id + self.vectors.len() < usize::MAX
    }

    /// Appends a vector and returns the id it got.
    pub fn add(&mut self, vec: &[u32], info: &[u8]) -> (id: usize)
        requires
            old(self).wf(),
            vec@.len() == old(self).spec_dimension(),
            old(self).spec_has_room(info@.len() as usize),
        ensures
            final(self).wf(),
            final(self).items() == old(self).items().push((vec@, info@)),
            final(self).spec_dimension() == old(self).spec_dimension(),
            final(self).spec_start_vector_id() == old(self).spec_start_vector_id(),
            final(self).spec_encoded_size() == old(self).spec_encoded_size() + 4 * vec@.len() + 4
                + info@.len(),
            id == old(self).spec_start_vector_id() + old(self).items().len(),
    {
        let id = self.start_vector_id + self.vectors.len();
        let ghost count = self.vectors@.len();
        let ghost dim = self.dimension as nat;
        let ghost old_infos = self.infos@;
        let owned_vec = copy_of(vec);
        let owned_info = copy_of(info);
        self.vectors.push(owned_vec);
        self.infos.push(owned_info);
        self.encoded_size = self.encoded_size + 4 * self.dimension + 4 + info.len();
        proof {
            assert(self.infos@.drop_last() =~= old_infos);
            assert(4 * dim * (count + 1) == 4 * dim * count + 4 * dim) by (nonlinear_arith);
            assert(self.items() =~= old(self).items().push((vec@, info@)));
        }
        id
    }

    /// Appends the bytes of the block under construction to `out`.
    pub fn encode(&self, out: &mut Vec<u8>)
        requires
            self.wf(),
        ensures
            final(out)@ == old(out)@ + block_bytes(self.items()),
    {
        encode_block(self.vectors.as_slice(), self.infos.as_slice(), out);
    }

    /// The components of the vector at `offset`.
    pub fn vec_ref(&self, offset: usize) -> (vec: &[u32])
        requires
            self.wf(),
            offset < self.items().len(),
        ensures
            vec@ == self.items()[offset as int].0,
    {
        self.vectors[offset].as_slice()
    }

    /// The side information of the vector at `offset`.
    pub fn info(&self, offset: usize) -> (info: &[u8])
        requires
            self.wf(),
            offset < self.items().len(),
        ensures
            info@ == self.items()[offset as int].1,
    {
        self.infos[offset].as_slice()
    }

    /// The vector with the id `id`, if the block under construction holds it.
    pub fn get_vector(&self, id: usize) -> (res: Result<EnumVectorAccessor<'_>, VectorError>)
        requires
            self.wf(),
        ensures
            id < self.spec_start_vector_id() ==> res == Err::<EnumVectorAccessor<'_>, VectorError>(
                VectorError::IdTooSmall { idx: id, first_vector_id: self.spec_start_vector_id() },
            ),
            id >= self.spec_start_vector_id() + self.items().len() ==> res == Err::<
                EnumVectorAccessor<'_>,
                VectorError,
            >(
                VectorError::IdOutOfBounds {
                    idx: id,
                    next_vector_id: (self.spec_start_vector_id() + self.items().len()) as usize,
                },
            ),
            self.spec_start_vector_id() <= id < self.spec_start_vector_id() + self.items().len()
                ==> res == Ok::<EnumVectorAccessor<'_>, VectorError>(
                EnumVectorAccessor::Builder(self, (id - self.spec_start_vector_id()) as usize),
            ),
    {
        if id < self.start_vector_id {
            Err(VectorError::IdTooSmall { idx: id, first_vector_id: self.start_vector_id })
        } else if id - self.start_vector_id >= self.vectors.len() {
            Err(
                VectorError::IdOutOfBounds {
                    idx: id,
                    next_vector_id: self.start_vector_id + self.vectors.len(),
                },
            )
        } else {
            Ok(EnumVectorAccessor::Builder(self, id - self.start_vector_id))
        }
    }

    /// Hands out the vectors added so far as an immutable block with its
    /// meta, and starts an empty block behind them. The meta's offset is 0: the
    /// file that takes the block decides where it lies.
    pub fn finish(&mut self) -> (res: (VectorBlock, VectorBlockMeta))
        requires
            old(self).wf(),
        ensures
            final(self).wf(),
            final(self).items() == Seq::<StoredVector>::empty(),
            final(self).spec_dimension() == old(self).spec_dimension(),
            final(self).spec_start_vector_id() == old(self).spec_start_vector_id() + old(
                self,
            ).items().len(),
            final(self).spec_encoded_size() == 4,
            res.0.wf(),
            res.0.items() == old(self).items(),
            res.0.spec_dimension() == old(self).spec_dimension(),
            res.0.spec_encoded_size() == old(self).spec_encoded_size(),
            res.1 == (VectorBlockMeta {
                start_vector_id: old(self).spec_start_vector_id(),
                vector_count: old(self).items().len() as usize,
                offset: 0,
                size: old(self).spec_encoded_size(),
            }),
    {
        let count = self.vectors.len();
        let mut vectors: Vec<Vec<u32>> = Vec::new();
        let mut infos: Vec<Vec<u8>> = Vec::new();
        std::mem::swap(&mut self.vectors, &mut vectors);
        std::mem::swap(&mut self.infos, &mut infos);
        let meta = VectorBlockMeta {
            start_vector_id: self.start_vector_id,
            vector_count: count,
            offset: 0,
            size: self.encoded_size,
        };
        let block = VectorBlock {
            dimension: self.dimension,
            vectors,
            infos,
            encoded_size: self.encoded_size,
        };
        self.start_vector_id = self.start_vector_id + count;
        self.encoded_size = 4;
        proof {
            assert(self.items() =~= Seq::<StoredVector>::empty());
            assert(4 * (self.dimension as nat) * 0 == 0) by (nonlinear_arith);
        }
        (block, meta)
    }
}

/// A copy of `items`.
pub fn copy_of<T: Copy>(items: &[T]) -> (copy: Vec<T>)
    ensures
        copy@ == items@,
{
    let mut copy: Vec<T> = Vec::new();
    let mut i: usize = 0;
    while i < items.len()
        invariant
            i <= items.len(),
            copy@ == items@.subrange(0, i as int),
        decreases items.len() - i,
    {
        copy.push(items[i]);
        i = i + 1;
        assert(copy@ =~= items@.subrange(0, i as int));
    }
    assert(copy@ =~= items@);
    copy
}

} // verus!
