//! Vector files: runs of blocks with a table of their metas.

use vstd::prelude::*;

use crate::accessor::EnumVectorAccessor;
use crate::block::{copy_of, StoredVector, VectorBlock, VectorBlockBuilder, VectorBlockMeta};
use crate::codec::{
    block_bytes, decode_footer, encode_footer, footer_bytes, footer_layout_ok,
    lemma_footer_bytes_len,
};
use crate::error::VectorError;
use crate::search::{
    contiguous, lemma_holders_at_or_before_bounds, search_blocks, sorted_starts,
};

verus! {

/// The descriptor of a stored vector file.
#[derive(Debug, Clone, Copy, PartialEq, Eq, Structural)]
pub struct VectorFileInfo {
    pub object_id: u64,
    pub file_size: u64,
    pub start_vector_id: usize,
    pub vector_count: usize,
}

/// The start ids of a run of files.
pub open spec fn file_starts(files: Seq<VectorFileInfo>) -> Seq<usize> {
    Seq::new(files.len(), |i: int| files[i].start_vector_id)
}

/// The vector counts of a run of files.
pub open spec fn file_counts(files: Seq<VectorFileInfo>) -> Seq<usize> {
    Seq::new(files.len(), |i: int| files[i].vector_count)
}

/// The start ids of a run of blocks.
pub open spec fn block_starts(blocks: Seq<VectorBlockMeta>) -> Seq<usize> {
    Seq::new(blocks.len(), |i: int| blocks[i].start_vector_id)
}

/// The vector counts of a run of blocks.
pub open spec fn block_counts(blocks: Seq<VectorBlockMeta>) -> Seq<usize> {
    Seq::new(blocks.len(), |i: int| blocks[i].vector_count)
}

/// The table of block metas that closes a vector file.
#[derive(Debug)]
pub struct VectorFileMeta {
    pub block_metas: Vec<VectorBlockMeta>,
}

impl VectorFileMeta {
    /// The table of block metas that the footer `footer` holds. Bytes that
    /// are not laid out as a footer are refused as corrupt.
    pub fn decode(footer: &[u8]) -> (res: Result<Self, VectorError>)
        ensures
            res is Ok <==> footer_layout_ok(footer@),
            res matches Err(e) ==> e == VectorError::Corruption,
            res matches Ok(meta) ==> footer_bytes(meta.block_metas@) == footer@,
    {
        match decode_footer(footer) {
            Ok(block_metas) => Ok(VectorFileMeta { block_metas }),
            Err(e) => Err(e),
        }
    }

    /// The table belongs to the file `info`: its blocks lie one after the
    /// other from the file's start id and from the byte offset 0, they hold
    /// as many vectors as the file, and with the footer they are as long as
    /// the file.
    pub open spec fn fits(&self, info: VectorFileInfo) -> bool {
        &&& laid_out(self.block_metas@, info.start_vector_id)
        &&& end_vector_id(self.block_metas@, info.start_vector_id) == info.start_vector_id
            + info.vector_count
        &&& file_size(self.block_metas@) == info.file_size
    }

    /// Whether the table belongs to the file `info`.
    pub fn check(&self, info: &VectorFileInfo) -> (ok: bool)
        ensures
            ok == self.fits(*info),
    {
        let metas = &self.block_metas;
        let count = metas.len();
        let mut blocks_len: u128 = 0;
        let mut end: u128 = info.start_vector_id as u128;
        if count > 0 {
            if metas[0].start_vector_id != info.start_vector_id || metas[0].offset != 0 {
                return false;
            }
            let mut k: usize = 0;
            while k + 1 < count
                invariant
                    k < count,
                    count == metas@.len(),
                    *metas == self.block_metas,
                    forall|i: int, j: int|
                        0 <= i && j == i + 1 && j <= k ==> {
                            &&& (#[trigger] metas@[j]).start_vector_id == (
                            #[trigger] metas@[i]).start_vector_id + metas@[i].vector_count
                            &&& metas@[j].offset == metas@[i].offset + metas@[i].size
                        },
                decreases count - k,
            {
                let this = &metas[k];
                let next = &metas[k + 1];
                if this.start_vector_id as u128 + this.vector_count as u128
                    != next.start_vector_id as u128 || this.offset as u128 + this.size as u128
                    != next.offset as u128 {
                    proof {
                        if laid_out(metas@, info.start_vector_id) {
                            let i = k as int;
                            let j = k + 1;
                            assert(metas@[j].start_vector_id == metas@[i].start_vector_id
                                + metas@[i].vector_count);
                            assert(false);
                        }
                    }
                    return false;
                }
                k = k + 1;
            }
            let last = &metas[count - 1];
            blocks_len = last.offset as u128 + last.size as u128;
            end = last.start_vector_id as u128 + last.vector_count as u128;
        }
        end == info.start_vector_id as u128 + info.vector_count as u128 && blocks_len + 24
            * (count as u128) + 4 == info.file_size as u128
    }
}

/// The bytes that one block meta takes in a file's footer.
pub const BLOCK_META_SIZE: usize = 24;

/// The bytes of a footer besides its block metas: its own length.
pub const FOOTER_TAIL_SIZE: usize = 4;

/// The vectors of a run of blocks, in order.
pub open spec fn block_items(blocks: Seq<VectorBlock>) -> Seq<StoredVector>
    decreases blocks.len(),
{
    if blocks.len() == 0 {
        Seq::empty()
    } else {
        block_items(blocks.drop_last()) + blocks.last().items()
    }
}

/// Every block of `blocks` is well formed, of the dimension `dimension` and
/// not empty, and the meta at its position gives its count and its size.
pub open spec fn metas_match(
    metas: Seq<VectorBlockMeta>,
    blocks: Seq<VectorBlock>,
    dimension: usize,
) -> bool {
    &&& metas.len() == blocks.len()
    &&& forall|i: int|
        0 <= i < metas.len() ==> {
            &&& (#[trigger] blocks[i]).wf()
            &&& blocks[i].spec_dimension() == dimension
            &&& metas[i].vector_count == blocks[i].items().len()
            &&& metas[i].vector_count > 0
            &&& metas[i].size == blocks[i].spec_encoded_size()
        }
}

/// The blocks lie one after the other, from the id `start_vector_id` and from
/// the byte offset 0.
pub open spec fn laid_out(metas: Seq<VectorBlockMeta>, start_vector_id: usize) -> bool {
    &&& metas.len() > 0 ==> metas[0].start_vector_id == start_vector_id && metas[0].offset == 0
    &&& forall|i: int, j: int|
        0 <= i && j == i + 1 && j < metas.len() ==> {
            &&& (#[trigger] metas[j]).start_vector_id == (#[trigger] metas[i]).start_vector_id
                + metas[i].vector_count
            &&& metas[j].offset == metas[i].offset + metas[i].size
        }
}

/// `metas` describes `blocks`, laid out one after the other from the id
/// `start_vector_id` and from the byte offset 0.
pub open spec fn describes(
    metas: Seq<VectorBlockMeta>,
    blocks: Seq<VectorBlock>,
    dimension: usize,
    start_vector_id: usize,
) -> bool {
    metas_match(metas, blocks, dimension) && laid_out(metas, start_vector_id)
}

/// The id behind the last block of a run that starts at `start_vector_id`.
pub open spec fn end_vector_id(metas: Seq<VectorBlockMeta>, start_vector_id: usize) -> int {
    if metas.len() == 0 {
        start_vector_id as int
    } else {
        metas.last().start_vector_id + metas.last().vector_count
    }
}

/// The bytes that the blocks of a run take together.
pub open spec fn blocks_size(metas: Seq<VectorBlockMeta>) -> int {
    if metas.len() == 0 {
        0
    } else {
        metas.last().offset + metas.last().size
    }
}

/// The bytes of a run of blocks.
pub open spec fn blocks_bytes(blocks: Seq<VectorBlock>) -> Seq<u8>
    decreases blocks.len(),
{
    if blocks.len() == 0 {
        Seq::empty()
    } else {
        blocks_bytes(blocks.drop_last()) + block_bytes(blocks.last().items())
    }
}

/// The bytes of a file: its blocks, then its footer.
pub open spec fn file_bytes(blocks: Seq<VectorBlock>, metas: Seq<VectorBlockMeta>) -> Seq<u8> {
    blocks_bytes(blocks) + footer_bytes(metas)
}

/// The largest length of the entries of a footer: it is stored in 32 bits.
pub const MAX_FOOTER_SIZE: usize = 0xffff_ffff;

/// The size of a file with the given block metas: the blocks, one footer
/// entry per block, and the footer's length.
pub open spec fn file_size(metas: Seq<VectorBlockMeta>) -> int {
    blocks_size(metas) + BLOCK_META_SIZE * metas.len() + FOOTER_TAIL_SIZE
}

/// A run of metas that is laid out is sorted by start id and contiguous, and
/// every meta starts at or behind the run's start.
pub proof fn lemma_laid_out(metas: Seq<VectorBlockMeta>, start_vector_id: usize)
    requires
        laid_out(metas, start_vector_id),
    ensures
        sorted_starts(block_starts(metas)),
        contiguous(block_starts(metas), block_counts(metas)),
        forall|i: int| 0 <= i < metas.len() ==> (#[trigger] metas[i]).start_vector_id >= start_vector_id,
        end_vector_id(metas, start_vector_id) >= start_vector_id,
    decreases metas.len(),
{
    let starts = block_starts(metas);
    let counts = block_counts(metas);
    if metas.len() > 0 {
        let m = metas.drop_last();
        let last = metas.len() - 1;
        assert(laid_out(m, start_vector_id)) by {
            assert forall|i: int, j: int| 0 <= i && j == i + 1 && j < m.len() implies {
                &&& (#[trigger] m[j]).start_vector_id == (#[trigger] m[i]).start_vector_id
                    + m[i].vector_count
                &&& m[j].offset == m[i].offset + m[i].size
            } by {
                assert(m[j] == metas[j] && m[i] == metas[i]);
            }
            if m.len() > 0 {
                assert(m[0] == metas[0]);
            }
        }
        lemma_laid_out(m, start_vector_id);
        if last > 0 {
            assert(m[last - 1] == metas[last - 1]);
            assert(metas[last].start_vector_id == metas[last - 1].start_vector_id
                + metas[last - 1].vector_count);
        }
        assert forall|i: int| 0 <= i < metas.len() implies (#[trigger] metas[i]).start_vector_id
            >= start_vector_id by {
            if i < last {
                assert(m[i] == metas[i]);
            }
        }
        assert forall|i: int, j: int| 0 <= i <= j < starts.len() implies starts[i]
            <= starts[j] by {
            if j == last {
                if i < last {
                    assert(block_starts(m)[i] == starts[i]);
                    assert(block_starts(m)[last - 1] == metas[last - 1].start_vector_id);
                }
            } else {
                assert(block_starts(m)[i] == starts[i]);
                assert(block_starts(m)[j] == starts[j]);
            }
        }
        assert forall|i: int, j: int|
            0 <= i && j == i + 1 && j < starts.len() implies #[trigger] starts[j]
            == #[trigger] starts[i] + counts[i] by {
            assert(metas[j].start_vector_id == metas[i].start_vector_id + metas[i].vector_count);
        }
    }
}

/// The run without its last block is described by the metas without the last.
pub proof fn lemma_describes_prefix(
    metas: Seq<VectorBlockMeta>,
    blocks: Seq<VectorBlock>,
    dimension: usize,
    start_vector_id: usize,
)
    requires
        describes(metas, blocks, dimension, start_vector_id),
        metas.len() > 0,
    ensures
        describes(metas.drop_last(), blocks.drop_last(), dimension, start_vector_id),
        metas.last().start_vector_id == end_vector_id(metas.drop_last(), start_vector_id),
        metas.last().offset == blocks_size(metas.drop_last()),
{
    let m = metas.drop_last();
    let b = blocks.drop_last();
    let last = metas.len() - 1;
    assert forall|i: int| 0 <= i < m.len() implies {
        &&& (#[trigger] b[i]).wf()
        &&& b[i].spec_dimension() == dimension
        &&& m[i].vector_count == b[i].items().len()
        &&& m[i].vector_count > 0
        &&& m[i].size == b[i].spec_encoded_size()
    } by {
        assert(b[i] == blocks[i]);
        assert(m[i] == metas[i]);
    }
    assert forall|i: int, j: int| 0 <= i && j == i + 1 && j < m.len() implies {
        &&& (#[trigger] m[j]).start_vector_id == (#[trigger] m[i]).start_vector_id
            + m[i].vector_count
        &&& m[j].offset == m[i].offset + m[i].size
    } by {
        assert(m[j] == metas[j] && m[i] == metas[i]);
    }
    if last > 0 {
        assert(m[0] == metas[0]);
        assert(m[last - 1] == metas[last - 1]);
        assert(metas[last].start_vector_id == metas[last - 1].start_vector_id
            + metas[last - 1].vector_count);
    }
}

/// The vector at the offset `offset` of the block `b` stands, among the
/// vectors of the whole run, at the place that the block's start id gives.
pub open spec fn placed(
    metas: Seq<VectorBlockMeta>,
    blocks: Seq<VectorBlock>,
    start_vector_id: usize,
    b: int,
    offset: int,
) -> bool {
    let at = metas[b].start_vector_id - start_vector_id + offset;
    &&& 0 <= at < block_items(blocks).len()
    &&& block_items(blocks)[at] == blocks[b].items()[offset]
}

/// A run of blocks holds as many vectors as the ids of its metas span, every
/// vector has the run's dimension, and the vector at an offset of a block
/// stands at the place that the block's start id gives.
pub proof fn lemma_describes(
    metas: Seq<VectorBlockMeta>,
    blocks: Seq<VectorBlock>,
    dimension: usize,
    start_vector_id: usize,
)
    requires
        describes(metas, blocks, dimension, start_vector_id),
    ensures
        block_items(blocks).len() == end_vector_id(metas, start_vector_id) - start_vector_id,
        forall|b: int, offset: int|
            0 <= b < metas.len() && 0 <= offset < metas[b].vector_count ==> #[trigger] placed(
                metas,
                blocks,
                start_vector_id,
                b,
                offset,
            ),
        forall|i: int|
            0 <= i < block_items(blocks).len() ==> (#[trigger] block_items(blocks)[i]).0.len()
                == dimension,
    decreases metas.len(),
{
    if metas.len() > 0 {
        let m = metas.drop_last();
        let b = blocks.drop_last();
        let last = metas.len() - 1;
        lemma_describes_prefix(metas, blocks, dimension, start_vector_id);
        lemma_describes(m, b, dimension, start_vector_id);
        lemma_laid_out(metas, start_vector_id);
        assert(blocks[last].wf());
        let front = block_items(b);
        let all = block_items(blocks);
        assert(all == front + blocks[last].items());
        assert forall|k: int, offset: int|
            0 <= k < metas.len() && 0 <= offset < metas[k].vector_count implies #[trigger] placed(
            metas,
            blocks,
            start_vector_id,
            k,
            offset,
        ) by {
            let at = metas[k].start_vector_id - start_vector_id + offset;
            assert(blocks[k].wf());
            if k < last {
                assert(m[k] == metas[k]);
                assert(b[k] == blocks[k]);
                assert(placed(m, b, start_vector_id, k, offset));
                assert(all[at] == front[at]);
            } else {
                assert(at == front.len() + offset);
                assert(all[at] == blocks[last].items()[offset]);
            }
        }
        assert forall|i: int| 0 <= i < all.len() implies (#[trigger] all[i]).0.len()
            == dimension by {
            if i >= front.len() {
                blocks[last].lemma_dimension(i - front.len());
            } else {
                assert(all[i] == front[i]);
            }
        }
    }
}

/// The bytes of a file that its metas describe are as many as the size that
/// the metas give.
pub proof fn lemma_file_bytes_len(
    metas: Seq<VectorBlockMeta>,
    blocks: Seq<VectorBlock>,
    dimension: usize,
    start_vector_id: usize,
)
    requires
        describes(metas, blocks, dimension, start_vector_id),
    ensures
        blocks_bytes(blocks).len() == blocks_size(metas),
        file_bytes(blocks, metas).len() == file_size(metas),
    decreases metas.len(),
{
    lemma_footer_bytes_len(metas);
    if metas.len() > 0 {
        lemma_describes_prefix(metas, blocks, dimension, start_vector_id);
        lemma_file_bytes_len(metas.drop_last(), blocks.drop_last(), dimension, start_vector_id);
        let last = metas.len() - 1;
        assert(blocks[last].wf());
        blocks[last].lemma_bytes();
    }
}

/// `file` is the file with the id `object_id` that holds exactly `vectors`, in
/// blocks of the dimension `dimension`, from the id `start_vector_id` on.
pub open spec fn is_file_of(
    file: FinishedFile,
    vectors: Seq<StoredVector>,
    dimension: usize,
    start_vector_id: usize,
    object_id: u64,
) -> bool {
    &&& file.0 == (VectorFileInfo {
        object_id,
        file_size: file_size(file.2.block_metas@) as u64,
        start_vector_id,
        vector_count: vectors.len() as usize,
    })
    &&& file.2.block_metas@.len() > 0
    &&& vectors.len() > 0
    &&& file_size(file.2.block_metas@) <= usize::MAX
    &&& BLOCK_META_SIZE * file.2.block_metas@.len() <= MAX_FOOTER_SIZE
    &&& start_vector_id + vectors.len() <= usize::MAX
    &&& describes(file.2.block_metas@, file.1@, dimension, start_vector_id)
    &&& block_items(file.1@) == vectors
}

/// Groups finished blocks into files. Vectors are added to a block; a block
/// that has reached the block threshold is finished and joins the file under
/// construction; a file whose blocks have reached the file threshold is ready
/// to be taken out and stored.
#[derive(Debug)]
pub struct VectorFileBuilder {
    block_cap: usize,
    file_cap: usize,
    file_start_vector_id: usize,
    blocks: Vec<VectorBlock>,
    block_metas: Vec<VectorBlockMeta>,
    blocks_size: usize,
    block_builder: VectorBlockBuilder,
}

/// What a finished file hands out: its descriptor, its blocks and its table
/// of block metas.
pub type FinishedFile = (VectorFileInfo, Vec<VectorBlock>, VectorFileMeta);

impl VectorFileBuilder {
    /// The finished blocks are described by their metas from the file's start
    /// id on, and the block under construction follows them.
    spec fn consistent(&self) -> bool {
        &&& self.block_builder.wf()
        &&& describes(
            self.block_metas@,
            self.blocks@,
            self.block_builder.spec_dimension(),
            self.file_start_vector_id,
        )
        &&& self.block_builder.spec_start_vector_id() == end_vector_id(
            self.block_metas@,
            self.file_start_vector_id,
        )
        &&& self.blocks_size == blocks_size(self.block_metas@)
    }

    /// The size of the file that would come out if the block under
    /// construction and the file were finished now.
    spec fn size_if_finished(&self) -> int {
        self.blocks_size + self.block_builder.spec_encoded_size() + BLOCK_META_SIZE * (
        self.block_metas@.len() + 1) + FOOTER_TAIL_SIZE
    }

    /// The builder is consistent, and the file would still fit the machine if
    /// it were finished now.
    pub closed spec fn wf(&self) -> bool {
        &&& self.consistent()
        &&& self.size_if_finished() <= usize::MAX
        &&& BLOCK_META_SIZE * (self.block_metas@.len() + 1) <= MAX_FOOTER_SIZE
    }

    /// The vectors that the builder holds, in the order of their ids: those of
    /// the finished blocks, then those of the block under construction.
    pub closed spec fn vectors(&self) -> Seq<StoredVector> {
        block_items(self.blocks@) + self.block_builder.items()
    }

    /// The id of the first vector that the builder holds.
    pub closed spec fn spec_start_vector_id(&self) -> usize {
        self.file_start_vector_id
    }

    /// The dimension that every added vector must have.
    pub closed spec fn spec_dimension(&self) -> usize {
        self.block_builder.spec_dimension()
    }

    /// The size at which a block is finished.
    pub closed spec fn spec_block_cap(&self) -> usize {
        self.block_cap
    }

    /// The size of finished blocks at which a file is ready.
    pub closed spec fn spec_file_cap(&self) -> usize {
        self.file_cap
    }

    /// The metas of the finished blocks.
    pub closed spec fn finished_metas(&self) -> Seq<VectorBlockMeta> {
        self.block_metas@
    }

    /// The finished blocks.
    pub closed spec fn finished_blocks(&self) -> Seq<VectorBlock> {
        self.blocks@
    }

    /// The vectors of the block under construction.
    pub closed spec fn open_items(&self) -> Seq<StoredVector> {
        self.block_builder.items()
    }

    /// The encoded size of the block under construction.
    pub closed spec fn open_size(&self) -> usize {
        self.block_builder.spec_encoded_size()
    }

    /// A vector with `info_len` bytes of side information can still be added.
    pub closed spec fn spec_has_room(&self, info_len: usize) -> bool {
        &&& self.block_builder.spec_has_room(info_len)
        &&& self.size_if_finished() + 4 * self.block_builder.spec_dimension() + 4 + info_len
            + BLOCK_META_SIZE + 4 <= usize::MAX
        &&& BLOCK_META_SIZE * (self.block_metas@.len() + 2) <= MAX_FOOTER_SIZE
    }

    /// What the fields of a consistent builder have to do with each other.
    proof fn lemma_inner(&self)
        requires
            self.consistent(),
        ensures
            self.block_builder.spec_start_vector_id() >= self.file_start_vector_id,
            block_items(self.blocks@).len() == self.block_builder.spec_start_vector_id()
                - self.file_start_vector_id,
            self.vectors().len() == self.block_builder.spec_start_vector_id()
                + self.block_builder.items().len() - self.file_start_vector_id,
            self.block_builder.spec_start_vector_id() + self.block_builder.items().len()
                <= usize::MAX,
            sorted_starts(block_starts(self.block_metas@)),
            contiguous(block_starts(self.block_metas@), block_counts(self.block_metas@)),
            forall|i: int|
                0 <= i < self.block_metas@.len() ==> (#[trigger] self.block_metas@[i]).start_vector_id
                    >= self.file_start_vector_id,
            forall|b: int, offset: int|
                0 <= b < self.block_metas@.len() && 0 <= offset
                    < self.block_metas@[b].vector_count ==> #[trigger] placed(
                    self.block_metas@,
                    self.blocks@,
                    self.file_start_vector_id,
                    b,
                    offset,
                ),
            forall|i: int|
                0 <= i < self.vectors().len() ==> (#[trigger] self.vectors()[i]).0.len()
                    == self.block_builder.spec_dimension(),
    {
        lemma_describes(
            self.block_metas@,
            self.blocks@,
            self.block_builder.spec_dimension(),
            self.file_start_vector_id,
        );
        lemma_laid_out(self.block_metas@, self.file_start_vector_id);
        self.block_builder.lemma_wf();
    }

    /// What the parts of a well-formed builder have to do with each other.
    pub proof fn lemma_wf(&self)
        requires
            self.wf(),
        ensures
            describes(
                self.finished_metas(),
                self.finished_blocks(),
                self.spec_dimension(),
                self.spec_start_vector_id(),
            ),
            self.vectors() == block_items(self.finished_blocks()) + self.open_items(),
            self.spec_start_vector_id() + self.vectors().len() <= usize::MAX,
            file_size(self.finished_metas()) <= usize::MAX,
            sorted_starts(block_starts(self.finished_metas())),
            contiguous(block_starts(self.finished_metas()), block_counts(self.finished_metas())),
            forall|i: int|
                0 <= i < self.vectors().len() ==> (#[trigger] self.vectors()[i]).0.len()
                    == self.spec_dimension(),
    {
        self.lemma_inner();
    }

    /// An empty builder whose first vector will get the id `start_vector_id`.
    pub fn new(dimension: usize, start_vector_id: usize, block_cap: usize, file_cap: usize) -> (builder:
        Self)
        ensures
            builder.wf(),
            builder.vectors() == Seq::<StoredVector>::empty(),
            builder.spec_start_vector_id() == start_vector_id,
            builder.spec_dimension() == dimension,
            builder.spec_block_cap() == block_cap,
            builder.spec_file_cap() == file_cap,
            builder.finished_metas() == Seq::<VectorBlockMeta>::empty(),
    {
        let builder = VectorFileBuilder {
            block_cap,
            file_cap,
            file_start_vector_id: start_vector_id,
            blocks: Vec::new(),
            block_metas: Vec::new(),
            blocks_size: 0,
            block_builder: VectorBlockBuilder::new(dimension, start_vector_id),
        };
        assert(builder.vectors() =~= Seq::<StoredVector>::empty());
        builder
    }

    /// The id of the first vector that the builder holds.
    #[verifier::when_used_as_spec(spec_start_vector_id)]
    pub fn start_vector_id(&self) -> (id: usize)
        ensures
            id == self.spec_start_vector_id(),
    {
        self.file_start_vector_id
    }

    /// The dimension that every added vector must have.
    #[verifier::when_used_as_spec(spec_dimension)]
    pub fn dimension(&self) -> (dimension: usize)
        ensures
            dimension == self.spec_dimension(),
    {
        self.block_builder.dimension()
    }

    /// The id that the next added vector will get.
    pub fn next_vector_id(&self) -> (id: usize)
        requires
            self.wf(),
        ensures
            id == self.spec_start_vector_id() + self.vectors().len(),
    {
        proof {
            self.lemma_inner();
        }
        self.block_builder.next_vector_id()
    }

    /// Whether the builder holds no vector.
    pub fn is_empty(&self) -> (empty: bool)
        requires
            self.wf(),
        ensures
            empty == (self.vectors().len() == 0),
    {
        proof {
            self.lemma_inner();
        }
        self.blocks.len() == 0 && self.block_builder.is_empty()
    }

    /// Whether a vector with `info_len` bytes of side information can still be
    /// added.
    #[verifier::when_used_as_spec(spec_has_room)]
    pub fn has_room(&self, info_len: usize) -> (room: bool)
        requires
            self.wf(),
        ensures
            room == self.spec_has_room(info_len),
    {
        let size: u128 = self.blocks_size as u128 + self.block_builder.encoded_size() as u128 + 4
            * (self.block_builder.dimension() as u128) + 4 + info_len as u128 + 24 * (
        self.block_metas.len() as u128 + 2) + 8;
        self.block_builder.has_room(info_len) && size <= usize::MAX as u128 && 24 * (
        self.block_metas.len() as u128 + 2) <= 0xffff_ffff
    }

    /// The bytes of the file that can be taken out: with `force`, the block
    /// under construction is part of it.
    pub closed spec fn pending_bytes(&self, force: bool) -> Seq<u8> {
        if force && self.block_builder.items().len() > 0 {
            blocks_bytes(self.blocks@) + block_bytes(self.block_builder.items()) + footer_bytes(
                self.block_metas@.push(
                    VectorBlockMeta {
                        start_vector_id: self.block_builder.spec_start_vector_id(),
                        vector_count: self.block_builder.items().len() as usize,
                        offset: self.blocks_size,
                        size: self.block_builder.spec_encoded_size(),
                    },
                ),
            )
        } else {
            file_bytes(self.blocks@, self.block_metas@)
        }
    }

    /// The bytes of the file that can be taken out, with the block under
    /// construction if `force` is set: what is to be stored before the file is
    /// taken out.
    pub fn encode_file(&self, force: bool) -> (bytes: Vec<u8>)
        requires
            self.wf(),
        ensures
            bytes@ == self.pending_bytes(force),
    {
        let mut bytes: Vec<u8> = Vec::new();
        let mut k: usize = 0;
        assert(self.blocks@.subrange(0, 0) =~= Seq::<VectorBlock>::empty());
        assert(bytes@ =~= blocks_bytes(self.blocks@.subrange(0, 0)));
        while k < self.blocks.len()
            invariant
                k <= self.blocks@.len(),
                self.consistent(),
                bytes@ == blocks_bytes(self.blocks@.subrange(0, k as int)),
            decreases self.blocks.len() - k,
        {
            assert(self.blocks@[k as int].wf());
            self.blocks[k].encode(&mut bytes);
            proof {
                assert(self.blocks@.subrange(0, k + 1).drop_last() =~= self.blocks@.subrange(
                    0,
                    k as int,
                ));
                assert(bytes@ =~= blocks_bytes(self.blocks@.subrange(0, k + 1)));
            }
            k = k + 1;
        }
        assert(self.blocks@.subrange(0, k as int) =~= self.blocks@);
        if force && !self.block_builder.is_empty() {
            self.block_builder.encode(&mut bytes);
            let mut metas = copy_of(self.block_metas.as_slice());
            metas.push(
                VectorBlockMeta {
                    start_vector_id: self.block_builder.start_vector_id(),
                    vector_count: self.block_builder.vector_count(),
                    offset: self.blocks_size,
                    size: self.block_builder.encoded_size(),
                },
            );
            encode_footer(metas.as_slice(), &mut bytes);
        } else {
            encode_footer(self.block_metas.as_slice(), &mut bytes);
        }
        bytes
    }

    /// Whether a file can be taken out: with `force`, as soon as the builder
    /// holds a vector; without, once the finished blocks have reached the file
    /// threshold.
    pub open spec fn spec_has_pending_file(&self, force: bool) -> bool {
        if force {
            self.vectors().len() > 0
        } else {
            self.finished_metas().len() > 0 && blocks_size(self.finished_metas())
                >= self.spec_file_cap()
        }
    }

    /// Whether a file can be taken out: with `force`, as soon as the builder
    /// holds a vector; without, once the finished blocks have reached the file
    /// threshold.
    #[verifier::when_used_as_spec(spec_has_pending_file)]
    pub fn has_pending_file(&self, force: bool) -> (pending: bool)
        requires
            self.wf(),
        ensures
            pending == self.spec_has_pending_file(force),
    {
        proof {
            self.lemma_inner();
        }
        if force {
            self.blocks.len() > 0 || !self.block_builder.is_empty()
        } else {
            self.blocks.len() > 0 && self.blocks_size >= self.file_cap
        }
    }

    /// Takes the finished blocks, of which there is one at least, out as a
    /// file with the id `object_id`.
    fn take_file(&mut self, object_id: u64) -> (file: FinishedFile)
        requires
            old(self).consistent(),
            old(self).finished_metas().len() > 0,
            file_size(old(self).finished_metas()) <= usize::MAX,
            old(self).open_size() + BLOCK_META_SIZE + FOOTER_TAIL_SIZE <= usize::MAX,
            BLOCK_META_SIZE * old(self).finished_metas().len() <= MAX_FOOTER_SIZE,
        ensures
            final(self).wf(),
            is_file_of(
                file,
                block_items(old(self).finished_blocks()),
                old(self).spec_dimension(),
                old(self).spec_start_vector_id(),
                object_id,
            ),
            file_bytes(file.1@, file.2.block_metas@) == file_bytes(
                old(self).finished_blocks(),
                old(self).finished_metas(),
            ),
            final(self).vectors() == old(self).open_items(),
            final(self).open_items() == old(self).open_items(),
            final(self).finished_metas().len() == 0,
            final(self).spec_start_vector_id() == old(self).spec_start_vector_id() + block_items(
                old(self).finished_blocks(),
            ).len(),
            final(self).spec_dimension() == old(self).spec_dimension(),
            final(self).spec_block_cap() == old(self).spec_block_cap(),
            final(self).spec_file_cap() == old(self).spec_file_cap(),
    {
        proof {
            self.lemma_inner();
        }
        let mut blocks: Vec<VectorBlock> = Vec::new();
        let mut block_metas: Vec<VectorBlockMeta> = Vec::new();
        std::mem::swap(&mut self.blocks, &mut blocks);
        std::mem::swap(&mut self.block_metas, &mut block_metas);
        let next = self.block_builder.start_vector_id();
        let info = VectorFileInfo {
            object_id,
            file_size: (self.blocks_size + BLOCK_META_SIZE * block_metas.len()
                + FOOTER_TAIL_SIZE) as u64,
            start_vector_id: self.file_start_vector_id,
            vector_count: next - self.file_start_vector_id,
        };
        self.file_start_vector_id = next;
        self.blocks_size = 0;
        proof {
            assert(self.vectors() =~= old(self).open_items());
        }
        (info, blocks, VectorFileMeta { block_metas })
    }

    /// Takes the finished blocks out as a file with the id `object_id`, if
    /// they have reached the file threshold. The block under construction
    /// stays as it is.
    pub fn try_flush(&mut self, object_id: u64) -> (res: Option<FinishedFile>)
        requires
            old(self).wf(),
        ensures
            final(self).wf(),
            final(self).spec_dimension() == old(self).spec_dimension(),
            final(self).spec_block_cap() == old(self).spec_block_cap(),
            final(self).spec_file_cap() == old(self).spec_file_cap(),
            final(self).open_items() == old(self).open_items(),
            final(self).spec_start_vector_id() + final(self).vectors().len()
                == old(self).spec_start_vector_id() + old(self).vectors().len(),
            old(self).spec_has_pending_file(false) ==> res is Some && is_file_of(
                res->Some_0,
                block_items(old(self).finished_blocks()),
                old(self).spec_dimension(),
                old(self).spec_start_vector_id(),
                object_id,
            ) && final(self).vectors() == old(self).open_items() && file_bytes(
                res->Some_0.1@,
                res->Some_0.2.block_metas@,
            ) == old(self).pending_bytes(false),
            !old(self).spec_has_pending_file(false) ==> res is None && final(self).vectors()
                == old(self).vectors() && final(self).spec_start_vector_id()
                == old(self).spec_start_vector_id()
                && final(self).finished_metas() == old(self).finished_metas(),
    {
        proof {
            self.lemma_inner();
        }
        if self.has_pending_file(false) {
            Some(self.take_file(object_id))
        } else {
            None
        }
    }

    /// Finishes the block under construction if it holds a vector, and takes
    /// all the blocks out as a file with the id `object_id`. With no vector in
    /// the builder there is no file.
    pub fn finish(&mut self, object_id: u64) -> (res: Option<FinishedFile>)
        requires
            old(self).wf(),
        ensures
            final(self).wf(),
            final(self).spec_dimension() == old(self).spec_dimension(),
            final(self).spec_block_cap() == old(self).spec_block_cap(),
            final(self).spec_file_cap() == old(self).spec_file_cap(),
            final(self).vectors() == Seq::<StoredVector>::empty(),
            final(self).spec_start_vector_id() == old(self).spec_start_vector_id()
                + old(self).vectors().len(),
            old(self).vectors().len() > 0 ==> res is Some && is_file_of(
                res->Some_0,
                old(self).vectors(),
                old(self).spec_dimension(),
                old(self).spec_start_vector_id(),
                object_id,
            ) && file_bytes(res->Some_0.1@, res->Some_0.2.block_metas@) == old(self).pending_bytes(true),
            old(self).vectors().len() == 0 ==> res is None,
    {
        proof {
            self.lemma_inner();
        }
        if !self.block_builder.is_empty() {
            self.finish_block();
        }
        proof {
            self.lemma_inner();
        }
        if self.blocks.len() > 0 {
            let file = self.take_file(object_id);
            proof {
                assert(self.vectors() =~= Seq::<StoredVector>::empty());
                assert(old(self).vectors() =~= block_items(file.1@));
            }
            Some(file)
        } else {
            proof {
                assert(self.vectors() =~= Seq::<StoredVector>::empty());
            }
            None
        }
    }

    /// Moves the block under construction, which holds a vector, to the
    /// finished blocks.
    fn finish_block(&mut self)
        requires
            old(self).wf(),
            old(self).open_items().len() > 0,
        ensures
            final(self).consistent(),
            final(self).size_if_finished() == old(self).size_if_finished() + 4 + BLOCK_META_SIZE,
            final(self).vectors() == old(self).vectors(),
            final(self).spec_start_vector_id() == old(self).spec_start_vector_id(),
            final(self).spec_dimension() == old(self).spec_dimension(),
            final(self).spec_block_cap() == old(self).spec_block_cap(),
            final(self).spec_file_cap() == old(self).spec_file_cap(),
            final(self).open_items().len() == 0,
            final(self).open_size() == 4,
            final(self).finished_metas() == old(self).finished_metas().push(
                VectorBlockMeta {
                    start_vector_id: (old(self).spec_start_vector_id() + block_items(
                        old(self).finished_blocks(),
                    ).len()) as usize,
                    vector_count: old(self).open_items().len() as usize,
                    offset: blocks_size(old(self).finished_metas()) as usize,
                    size: old(self).open_size(),
                },
            ),
            final(self).finished_blocks().drop_last() == old(self).finished_blocks(),
            final(self).finished_blocks().last().items() == old(self).open_items(),
            file_bytes(final(self).finished_blocks(), final(self).finished_metas())
                == old(self).pending_bytes(true),
            blocks_size(final(self).finished_metas()) == blocks_size(old(self).finished_metas())
                + old(self).open_size(),
    {
        proof {
            self.lemma_inner();
        }
        let ghost old_metas = self.block_metas@;
        let ghost old_blocks = self.blocks@;
        let (block, meta) = self.block_builder.finish();
        let meta = VectorBlockMeta {
            start_vector_id: meta.start_vector_id,
            vector_count: meta.vector_count,
            offset: self.blocks_size,
            size: meta.size,
        };
        self.blocks_size = self.blocks_size + meta.size;
        self.blocks.push(block);
        self.block_metas.push(meta);
        proof {
            let metas = self.block_metas@;
            let blocks = self.blocks@;
            let n = old_metas.len() as int;
            assert(blocks.drop_last() =~= old_blocks);
            assert(self.vectors() =~= old(self).vectors());
            assert forall|i: int| 0 <= i < metas.len() implies {
                &&& (#[trigger] blocks[i]).wf()
                &&& blocks[i].spec_dimension() == self.block_builder.spec_dimension()
                &&& metas[i].vector_count == blocks[i].items().len()
                &&& metas[i].vector_count > 0
                &&& metas[i].size == blocks[i].spec_encoded_size()
            } by {
                if i < n {
                    assert(blocks[i] == old_blocks[i]);
                    assert(metas[i] == old_metas[i]);
                }
            }
            assert forall|i: int, j: int| 0 <= i && j == i + 1 && j < metas.len() implies {
                &&& (#[trigger] metas[j]).start_vector_id == (#[trigger] metas[i]).start_vector_id
                    + metas[i].vector_count
                &&& metas[j].offset == metas[i].offset + metas[i].size
            } by {
                assert(metas[i] == old_metas[i]);
                if j < n {
                    assert(metas[j] == old_metas[j]);
                }
            }
            if n > 0 {
                assert(metas[0] == old_metas[0]);
            }
        }
    }

    /// Appends a vector and returns the id it got. A block that has reached
    /// the block threshold with it is finished.
    pub fn add(&mut self, vec: &[u32], info: &[u8]) -> (id: usize)
        requires
            old(self).wf(),
            vec@.len() == old(self).spec_dimension(),
            old(self).spec_has_room(info@.len() as usize),
        ensures
            final(self).wf(),
            final(self).vectors() == old(self).vectors().push((vec@, info@)),
            final(self).spec_start_vector_id() == old(self).spec_start_vector_id(),
            final(self).spec_dimension() == old(self).spec_dimension(),
            final(self).spec_block_cap() == old(self).spec_block_cap(),
            final(self).spec_file_cap() == old(self).spec_file_cap(),
            id == old(self).spec_start_vector_id() + old(self).vectors().len(),
            old(self).open_size() + 4 * vec@.len() + 4 + info@.len() >= old(self).spec_block_cap()
                ==> {
                &&& final(self).open_items().len() == 0
                &&& final(self).finished_metas() == old(self).finished_metas().push(
                    VectorBlockMeta {
                        start_vector_id: (old(self).spec_start_vector_id() + block_items(
                            old(self).finished_blocks(),
                        ).len()) as usize,
                        vector_count: (old(self).open_items().len() + 1) as usize,
                        offset: blocks_size(old(self).finished_metas()) as usize,
                        size: (old(self).open_size() + 4 * vec@.len() + 4 + info@.len()) as usize,
                    },
                )
                &&& final(self).finished_blocks().drop_last() == old(self).finished_blocks()
                &&& final(self).finished_blocks().last().items() == old(self).open_items().push(
                    (vec@, info@),
                )
            },
            old(self).open_size() + 4 * vec@.len() + 4 + info@.len() < old(self).spec_block_cap()
                ==> final(self).open_items() == old(self).open_items().push((vec@, info@))
                && final(self).finished_metas() == old(self).finished_metas(),
    {
        proof {
            self.lemma_inner();
        }
        let id = self.block_builder.add(vec, info);
        assert(self.vectors() =~= old(self).vectors().push((vec@, info@)));
        if self.block_builder.encoded_size() >= self.block_cap {
            self.finish_block();
        }
        id
    }

    /// The vector with the id `idx`, read from the block that holds it.
    pub fn get_vector(&self, idx: usize) -> (res: Result<EnumVectorAccessor<'_>, VectorError>)
        requires
            self.wf(),
        ensures
            idx < self.spec_start_vector_id() ==> res is Err,
            idx >= self.spec_start_vector_id() + self.vectors().len() ==> res
                == Err::<EnumVectorAccessor<'_>, VectorError>(
                VectorError::IdOutOfBounds {
                    idx,
                    next_vector_id: (self.spec_start_vector_id() + self.vectors().len()) as usize,
                },
            ),
            self.spec_start_vector_id() <= idx < self.spec_start_vector_id()
                + self.vectors().len() ==> res is Ok && res->Ok_0.wf() && res->Ok_0.item()
                == self.vectors()[idx - self.spec_start_vector_id()],
    {
        proof {
            self.lemma_inner();
            lemma_holders_at_or_before_bounds(block_starts(self.block_metas@), idx);
        }
        let open_start = self.block_builder.start_vector_id();
        if idx >= open_start {
            let offset = idx - open_start;
            if offset < self.block_builder.vector_count() {
                Ok(EnumVectorAccessor::Builder(&self.block_builder, offset))
            } else {
                Err(
                    VectorError::IdOutOfBounds {
                        idx,
                        next_vector_id: self.block_builder.next_vector_id(),
                    },
                )
            }
        } else {
            match search_blocks(self.block_metas.as_slice(), idx) {
                Ok((_, block_idx, offset)) => {
                    proof {
                        let starts = block_starts(self.block_metas@);
                        let counts = block_counts(self.block_metas@);
                        assert(starts[block_idx as int]
                            == self.block_metas@[block_idx as int].start_vector_id);
                        assert(counts[block_idx as int]
                            == self.block_metas@[block_idx as int].vector_count);
                        assert(self.blocks@[block_idx as int].wf());
                        assert(placed(
                            self.block_metas@,
                            self.blocks@,
                            self.file_start_vector_id,
                            block_idx as int,
                            offset as int,
                        ));
                    }
                    Ok(EnumVectorAccessor::BlockRef(&self.blocks[block_idx], offset))
                },
                Err(e) => {
                    proof {
                        if self.file_start_vector_id <= idx {
                            crate::search::lemma_locate_contiguous(
                                block_starts(self.block_metas@),
                                block_counts(self.block_metas@),
                                idx,
                            );
                        }
                    }
                    Err(e)
                },
            }
        }
    }
}

} // verus!
