//! The tiered vector store of a writer. Every vector id belongs to one of
//! four tiers, which follow each other along the ids: committed, sealed and
//! flushed vectors lie in stored files, the newest ones in the builder.

use vstd::prelude::*;

use crate::accessor::EnumVectorAccessor;
use crate::block::copy_of;
use crate::error::VectorError;
use crate::file::{
    file_counts, file_starts, is_file_of, FinishedFile, VectorFileBuilder, VectorFileInfo,
};
use crate::search::{
    contiguous, lemma_contiguous_sorted, lemma_locate_contiguous, locate, search_vector_files,
    sorted_starts,
};

verus! {

/// The stage of durability that a range of vector ids has reached.
#[derive(Debug, Clone, Copy, PartialEq, Eq, Structural)]
pub enum Tier {
    /// Stored, and acknowledged from outside.
    Committed,
    /// Stored and handed out at the end of an epoch, not yet acknowledged.
    Sealed,
    /// Stored in the current epoch.
    Flushed,
    /// Held in memory by the builder.
    Building,
}

/// The four boundaries of a store: each is the first id behind its tier.
#[derive(Debug, Clone, Copy, PartialEq, Eq, Structural)]
pub struct Boundaries {
    pub committed_next: usize,
    pub sealed_next: usize,
    pub flushed_next: usize,
    pub building_next: usize,
}

/// An operation on a store, as far as it moves the boundaries.
pub enum StoreOp {
    /// One vector is added.
    Insert,
    /// All vectors of the builder are stored.
    Flush,
    /// The vectors of the builder in front of the given id are stored.
    TryFlush(usize),
    /// The flushed vectors become sealed.
    Seal,
    /// The sealed vectors become committed.
    Commit,
}

impl Boundaries {
    /// The boundaries follow each other.
    pub open spec fn ordered(self) -> bool {
        self.committed_next <= self.sealed_next <= self.flushed_next <= self.building_next
    }

    /// The tier that serves the id `idx`, if any does.
    pub open spec fn tier_of(self, idx: usize) -> Option<Tier> {
        if idx < self.committed_next {
            Some(Tier::Committed)
        } else if idx < self.sealed_next {
            Some(Tier::Sealed)
        } else if idx < self.flushed_next {
            Some(Tier::Flushed)
        } else if idx < self.building_next {
            Some(Tier::Building)
        } else {
            None
        }
    }

    /// The boundaries after `op`. An insert that would leave the machine's
    /// ids, and a partial flush to an id outside the builder, change nothing.
    pub open spec fn after(self, op: StoreOp) -> Boundaries {
        match op {
            StoreOp::Insert => if self.building_next < usize::MAX {
                Boundaries { building_next: (self.building_next + 1) as usize, ..self }
            } else {
                self
            },
            StoreOp::Flush => Boundaries { flushed_next: self.building_next, ..self },
            StoreOp::TryFlush(id) => if self.flushed_next <= id <= self.building_next {
                Boundaries { flushed_next: id, ..self }
            } else {
                self
            },
            StoreOp::Seal => Boundaries { sealed_next: self.flushed_next, ..self },
            StoreOp::Commit => Boundaries { committed_next: self.sealed_next, ..self },
        }
    }

    /// The boundaries after the operations `ops`, one after the other.
    pub open spec fn after_all(self, ops: Seq<StoreOp>) -> Boundaries
        decreases ops.len(),
    {
        if ops.len() == 0 {
            self
        } else {
            self.after_all(ops.drop_last()).after(ops.last())
        }
    }
}

/// Over any sequence of operations the boundaries stay ordered and none of
/// them moves back.
pub proof fn lemma_boundaries_monotonic(start: Boundaries, ops: Seq<StoreOp>)
    requires
        start.ordered(),
    ensures
        start.after_all(ops).ordered(),
        start.committed_next <= start.after_all(ops).committed_next,
        start.sealed_next <= start.after_all(ops).sealed_next,
        start.flushed_next <= start.after_all(ops).flushed_next,
        start.building_next <= start.after_all(ops).building_next,
    decreases ops.len(),
{
    if ops.len() > 0 {
        lemma_boundaries_monotonic(start, ops.drop_last());
    }
}

/// Whatever flushes, seals and commits are interleaved, every id that was
/// served at the start or was given out by an insert since is still served.
pub proof fn lemma_id_density(start: Boundaries, ops: Seq<StoreOp>, idx: usize)
    requires
        start.ordered(),
        idx < start.after_all(ops).building_next,
    ensures
        start.after_all(ops).tier_of(idx) is Some,
{
}

/// The number of inserts among `ops`.
pub open spec fn inserts(ops: Seq<StoreOp>) -> nat
    decreases ops.len(),
{
    if ops.len() == 0 {
        0
    } else {
        inserts(ops.drop_last()) + if ops.last() is Insert {
            1nat
        } else {
            0nat
        }
    }
}

/// The ids are dense: as long as they fit the machine, the first id that is
/// not served moves by one with every insert and by nothing else.
pub proof fn lemma_ids_dense(start: Boundaries, ops: Seq<StoreOp>)
    requires
        start.building_next + inserts(ops) <= usize::MAX,
    ensures
        start.after_all(ops).building_next == start.building_next + inserts(ops),
    decreases ops.len(),
{
    if ops.len() > 0 {
        lemma_ids_dense(start, ops.drop_last());
    }
}

/// The files lie one after the other and cover the ids `start .. end`.
pub open spec fn covers(files: Seq<VectorFileInfo>, start: usize, end: usize) -> bool {
    &&& start <= end
    &&& files.len() == 0 ==> start == end
    &&& files.len() > 0 ==> files[0].start_vector_id == start && files.last().start_vector_id
        + files.last().vector_count == end
    &&& forall|i: int, j: int|
        0 <= i && j == i + 1 && j < files.len() ==> (#[trigger] files[j]).start_vector_id == (
        #[trigger] files[i]).start_vector_id + files[i].vector_count
}

/// Files that cover a range are contiguous and sorted by start id.
pub proof fn lemma_covers_sorted(files: Seq<VectorFileInfo>, start: usize, end: usize)
    requires
        covers(files, start, end),
    ensures
        contiguous(file_starts(files), file_counts(files)),
        sorted_starts(file_starts(files)),
{
    let starts = file_starts(files);
    let counts = file_counts(files);
    assert(contiguous(starts, counts)) by {
        assert forall|i: int, j: int|
            0 <= i && j == i + 1 && j < starts.len() implies #[trigger] starts[j]
            == #[trigger] starts[i] + counts[i] by {
            assert(files[j].start_vector_id == files[i].start_vector_id + files[i].vector_count);
        }
    }
    lemma_contiguous_sorted(starts, counts);
}

/// In files that cover a range, every id of the range is found in a file
/// that has it.
pub proof fn lemma_covers(files: Seq<VectorFileInfo>, start: usize, end: usize, idx: usize)
    requires
        covers(files, start, end),
        files.len() <= usize::MAX,
    ensures
        sorted_starts(file_starts(files)),
        start <= idx < end ==> {
            &&& locate(file_starts(files), file_counts(files), idx) matches Ok((h, offset))
            &&& h < files.len()
            &&& files[h as int].start_vector_id + offset == idx
            &&& offset < files[h as int].vector_count
        },
{
    lemma_covers_sorted(files, start, end);
    if start <= idx < end {
        lemma_locate_contiguous(file_starts(files), file_counts(files), idx);
    }
}

/// Files that cover a range, followed by files that cover the next range,
/// cover both.
pub proof fn lemma_covers_concat(
    front: Seq<VectorFileInfo>,
    back: Seq<VectorFileInfo>,
    start: usize,
    mid: usize,
    end: usize,
)
    requires
        covers(front, start, mid),
        covers(back, mid, end),
    ensures
        covers(front + back, start, end),
{
    let all = front + back;
    assert forall|i: int, j: int| 0 <= i && j == i + 1
        && j < all.len() implies (#[trigger] all[j]).start_vector_id
        == (#[trigger] all[i]).start_vector_id + all[i].vector_count by {
        if j < front.len() {
            assert(all[i] == front[i] && all[j] == front[j]);
        } else if i >= front.len() {
            assert(all[i] == back[i - front.len()] && all[j] == back[j - front.len()]);
        } else {
            assert(all[i] == front.last() && all[j] == back[0]);
        }
    }
    if front.len() > 0 {
        assert(all[0] == front[0]);
    }
    if back.len() > 0 {
        assert(all.last() == back.last());
        if front.len() == 0 {
            assert(all[0] == back[0]);
        }
    } else {
        assert(all =~= front);
    }
}

/// The persisted description of the stored vectors of an index.
#[derive(Debug)]
pub struct VectorStoreInfo {
    pub next_vector_id: usize,
    pub vector_files: Vec<VectorFileInfo>,
}

/// Where a vector is read from.
pub enum VectorSource<'a> {
    /// From a stored file of the given tier, which is never
    /// [`Tier::Building`].
    File { tier: Tier, file: &'a VectorFileInfo },
    /// From the builder's memory.
    Building(EnumVectorAccessor<'a>),
}

/// The vector store of a writer, with its four tiers.
#[derive(Debug)]
pub struct HnswVectorStore {
    committed_vector_files: Vec<VectorFileInfo>,
    committed_next_vector_id: usize,
    sealed_vector_files: Vec<VectorFileInfo>,
    sealed_next_vector_id: usize,
    flushed_vector_files: Vec<VectorFileInfo>,
    flushed_next_vector_id: usize,
    building_vectors: VectorFileBuilder,
}

/// Whether `files` lie one after the other and cover the ids `0 .. end`.
pub fn check_covers(files: &[VectorFileInfo], end: usize) -> (ok: bool)
    ensures
        ok == covers(files@, 0, end),
{
    if files.len() == 0 {
        return end == 0;
    }
    if files[0].start_vector_id != 0 {
        return false;
    }
    let mut i: usize = 0;
    while i + 1 < files.len()
        invariant
            i < files.len(),
            forall|a: int, b: int|
                0 <= a && b == a + 1 && b <= i ==> (#[trigger] files@[b]).start_vector_id == (
                #[trigger] files@[a]).start_vector_id + files@[a].vector_count,
        decreases files.len() - i,
    {
        let this = &files[i];
        let next = &files[i + 1];
        let fits = match this.start_vector_id.checked_add(this.vector_count) {
            Some(sum) => sum == next.start_vector_id,
            None => false,
        };
        if !fits {
            return false;
        }
        i = i + 1;
    }
    let last = &files[files.len() - 1];
    match last.start_vector_id.checked_add(last.vector_count) {
        Some(sum) => sum == end,
        None => false,
    }
}

impl HnswVectorStore {
    /// Each tier's files cover the tier's ids, and the builder continues
    /// behind the flushed files.
    pub closed spec fn wf(&self) -> bool {
        &&& covers(self.committed_vector_files@, 0, self.committed_next_vector_id)
        &&& covers(
            self.sealed_vector_files@,
            self.committed_next_vector_id,
            self.sealed_next_vector_id,
        )
        &&& covers(
            self.flushed_vector_files@,
            self.sealed_next_vector_id,
            self.flushed_next_vector_id,
        )
        &&& forall|i: int|
            0 <= i < self.flushed_vector_files@.len() ==> (
            #[trigger] self.flushed_vector_files@[i]).vector_count > 0
        &&& self.building_vectors.wf()
        &&& self.building_vectors.spec_start_vector_id() == self.flushed_next_vector_id
    }

    /// The four boundaries.
    pub closed spec fn boundaries(&self) -> Boundaries {
        Boundaries {
            committed_next: self.committed_next_vector_id,
            sealed_next: self.sealed_next_vector_id,
            flushed_next: self.flushed_next_vector_id,
            building_next: (self.flushed_next_vector_id + self.building_vectors.vectors().len()) as usize,
        }
    }

    /// The committed files.
    pub closed spec fn committed_files(&self) -> Seq<VectorFileInfo> {
        self.committed_vector_files@
    }

    /// The sealed files.
    pub closed spec fn sealed_files(&self) -> Seq<VectorFileInfo> {
        self.sealed_vector_files@
    }

    /// The files flushed in the current epoch.
    pub closed spec fn flushed_files(&self) -> Seq<VectorFileInfo> {
        self.flushed_vector_files@
    }

    /// The builder that holds the vectors of the building tier.
    pub closed spec fn building(&self) -> VectorFileBuilder {
        self.building_vectors
    }

    /// The files of a tier; none for the building tier.
    pub open spec fn files_of(&self, tier: Tier) -> Seq<VectorFileInfo> {
        match tier {
            Tier::Committed => self.committed_files(),
            Tier::Sealed => self.sealed_files(),
            Tier::Flushed => self.flushed_files(),
            Tier::Building => Seq::empty(),
        }
    }

    /// The boundaries of a well-formed store follow each other, each tier's
    /// files cover its ids, and the builder holds the building tier.
    pub proof fn lemma_wf(&self)
        requires
            self.wf(),
        ensures
            self.boundaries().ordered(),
            self.building().wf(),
            self.building().spec_start_vector_id() == self.boundaries().flushed_next,
            self.building().spec_start_vector_id() + self.building().vectors().len()
                == self.boundaries().building_next,
            covers(self.committed_files(), 0, self.boundaries().committed_next),
            covers(
                self.sealed_files(),
                self.boundaries().committed_next,
                self.boundaries().sealed_next,
            ),
            covers(
                self.flushed_files(),
                self.boundaries().sealed_next,
                self.boundaries().flushed_next,
            ),
            self.flushed_files().len() > 0 ==> self.boundaries().flushed_next
                > self.boundaries().sealed_next,
    {
        self.building_vectors.lemma_wf();
        if self.flushed_vector_files@.len() > 0 {
            lemma_covers_sorted(
                self.flushed_vector_files@,
                self.sealed_next_vector_id,
                self.flushed_next_vector_id,
            );
            let starts = file_starts(self.flushed_vector_files@);
            let last = self.flushed_vector_files@.len() - 1;
            assert(starts[0] <= starts[last]);
            assert(self.flushed_vector_files@[last].vector_count > 0);
        }
    }

    /// The bytes of the file that can be taken out of the builder: what is to
    /// be stored before the file is flushed.
    pub fn encode_pending_file(&self, force: bool) -> (bytes: Vec<u8>)
        requires
            self.wf(),
        ensures
            bytes@ == self.building().pending_bytes(force),
    {
        self.building_vectors.encode_file(force)
    }

    /// A store over the stored vectors that `info` describes, with an empty
    /// builder behind them. The description is refused as corrupt unless its
    /// files cover the ids from 0 to its next id.
    pub fn new(info: &VectorStoreInfo, dimension: usize, block_cap: usize, file_cap: usize) -> (res:
        Result<Self, VectorError>)
        ensures
            covers(info.vector_files@, 0, info.next_vector_id) ==> res is Ok,
            !covers(info.vector_files@, 0, info.next_vector_id) ==> res == Err::<
                Self,
                VectorError,
            >(VectorError::Corruption),
            res matches Ok(store) ==> {
                &&& store.wf()
                &&& store.boundaries() == (Boundaries {
                    committed_next: info.next_vector_id,
                    sealed_next: info.next_vector_id,
                    flushed_next: info.next_vector_id,
                    building_next: info.next_vector_id,
                })
                &&& store.committed_files() == info.vector_files@
                &&& store.sealed_files().len() == 0
                &&& store.flushed_files().len() == 0
                &&& store.building().spec_dimension() == dimension
                &&& store.building().spec_block_cap() == block_cap
                &&& store.building().spec_file_cap() == file_cap
            },
    {
        if !check_covers(info.vector_files.as_slice(), info.next_vector_id) {
            return Err(VectorError::Corruption);
        }
        let next_vector_id = info.next_vector_id;
        Ok(
            HnswVectorStore {
                committed_vector_files: copy_of(info.vector_files.as_slice()),
                committed_next_vector_id: next_vector_id,
                sealed_vector_files: Vec::new(),
                sealed_next_vector_id: next_vector_id,
                flushed_vector_files: Vec::new(),
                flushed_next_vector_id: next_vector_id,
                building_vectors: VectorFileBuilder::new(
                    dimension,
                    next_vector_id,
                    block_cap,
                    file_cap,
                ),
            },
        )
    }

    /// The first id that no tier serves: the id of the next vector.
    pub fn next_vector_id(&self) -> (id: usize)
        requires
            self.wf(),
        ensures
            id == self.boundaries().building_next,
    {
        proof {
            self.building_vectors.lemma_wf();
        }
        self.building_vectors.next_vector_id()
    }

    /// The four boundaries.
    pub fn get_boundaries(&self) -> (b: Boundaries)
        requires
            self.wf(),
        ensures
            b == self.boundaries(),
    {
        Boundaries {
            committed_next: self.committed_next_vector_id,
            sealed_next: self.sealed_next_vector_id,
            flushed_next: self.flushed_next_vector_id,
            building_next: self.next_vector_id(),
        }
    }

    /// The builder that holds the vectors of the building tier.
    pub fn building_vectors(&self) -> (builder: &VectorFileBuilder)
        ensures
            *builder == self.building(),
    {
        &self.building_vectors
    }

    /// The files flushed in the current epoch.
    pub fn flushed_vector_files(&self) -> (files: &[VectorFileInfo])
        ensures
            files@ == self.flushed_files(),
    {
        self.flushed_vector_files.as_slice()
    }

    /// The sealed files.
    pub fn sealed_vector_files(&self) -> (files: &[VectorFileInfo])
        ensures
            files@ == self.sealed_files(),
    {
        self.sealed_vector_files.as_slice()
    }

    /// The committed files.
    pub fn committed_vector_files(&self) -> (files: &[VectorFileInfo])
        ensures
            files@ == self.committed_files(),
    {
        self.committed_vector_files.as_slice()
    }

    /// `res` is where the vector `idx` is read from. An id of a stored tier
    /// is read from the file of that tier that has it, the last that starts at
    /// or before it; an id of the building tier from the builder's memory; an
    /// id behind every tier is out of bounds.
    pub open spec fn serves(&self, idx: usize, res: Result<VectorSource<'_>, VectorError>) -> bool {
        match self.boundaries().tier_of(idx) {
            None => res == Err::<VectorSource<'_>, VectorError>(
                VectorError::IdOutOfBounds { idx, next_vector_id: self.boundaries().building_next },
            ),
            Some(Tier::Building) => {
                &&& res matches Ok(VectorSource::Building(accessor))
                &&& accessor.wf()
                &&& accessor.item() == self.building().vectors()[idx
                    - self.boundaries().flushed_next]
            },
            Some(tier) => {
                &&& res matches Ok(VectorSource::File { tier: t, file })
                &&& t == tier
                &&& locate(
                    file_starts(self.files_of(tier)),
                    file_counts(self.files_of(tier)),
                    idx,
                ) matches Ok((h, offset))
                &&& h < self.files_of(tier).len()
                &&& *file == self.files_of(tier)[h as int]
                &&& file.start_vector_id + offset == idx
                &&& offset < file.vector_count
            },
        }
    }

    /// Where the vector `idx` is read from: see [`HnswVectorStore::serves`].
    pub fn get_vector(&self, idx: usize) -> (res: Result<VectorSource<'_>, VectorError>)
        requires
            self.wf(),
        ensures
            self.serves(idx, res),
    {
        proof {
            self.building_vectors.lemma_wf();
        }
        let committed_len: usize = self.committed_vector_files.len();
        let sealed_len: usize = self.sealed_vector_files.len();
        let flushed_len: usize = self.flushed_vector_files.len();
        if idx < self.committed_next_vector_id {
            proof {
                lemma_covers(self.committed_vector_files@, 0, self.committed_next_vector_id, idx);
            }
            let file = search_vector_files(self.committed_vector_files.as_slice(), idx)?;
            Ok(VectorSource::File { tier: Tier::Committed, file })
        } else if idx < self.sealed_next_vector_id {
            proof {
                lemma_covers(
                    self.sealed_vector_files@,
                    self.committed_next_vector_id,
                    self.sealed_next_vector_id,
                    idx,
                );
            }
            let file = search_vector_files(self.sealed_vector_files.as_slice(), idx)?;
            Ok(VectorSource::File { tier: Tier::Sealed, file })
        } else if idx < self.flushed_next_vector_id {
            proof {
                lemma_covers(
                    self.flushed_vector_files@,
                    self.sealed_next_vector_id,
                    self.flushed_next_vector_id,
                    idx,
                );
            }
            let file = search_vector_files(self.flushed_vector_files.as_slice(), idx)?;
            Ok(VectorSource::File { tier: Tier::Flushed, file })
        } else if idx < self.building_vectors.next_vector_id() {
            match self.building_vectors.get_vector(idx) {
                Ok(accessor) => Ok(VectorSource::Building(accessor)),
                Err(e) => Err(e),
            }
        } else {
            Err(
                VectorError::IdOutOfBounds {
                    idx,
                    next_vector_id: self.building_vectors.next_vector_id(),
                },
            )
        }
    }

    /// Whether a vector with `info_len` bytes of side information can still be
    /// added.
    pub fn has_room(&self, info_len: usize) -> (room: bool)
        requires
            self.wf(),
        ensures
            room == self.building().spec_has_room(info_len),
    {
        self.building_vectors.has_room(info_len)
    }

    /// Adds a vector to the building tier and returns the id it got.
    pub fn add(&mut self, vec: &[u32], info: &[u8]) -> (id: usize)
        requires
            old(self).wf(),
            vec@.len() == old(self).building().spec_dimension(),
            old(self).building().spec_has_room(info@.len() as usize),
        ensures
            final(self).wf(),
            final(self).boundaries() == old(self).boundaries().after(StoreOp::Insert),
            id == old(self).boundaries().building_next,
            id < usize::MAX,
            final(self).building().vectors() == old(self).building().vectors().push(
                (vec@, info@),
            ),
            final(self).building().spec_dimension() == old(self).building().spec_dimension(),
            final(self).building().spec_block_cap() == old(self).building().spec_block_cap(),
            final(self).building().spec_file_cap() == old(self).building().spec_file_cap(),
            final(self).committed_files() == old(self).committed_files(),
            final(self).sealed_files() == old(self).sealed_files(),
            final(self).flushed_files() == old(self).flushed_files(),
    {
        proof {
            self.building_vectors.lemma_wf();
        }
        let id = self.building_vectors.add(vec, info);
        proof {
            self.building_vectors.lemma_wf();
        }
        id
    }

    /// Whether a file can be taken out of the builder: with `force`, as soon
    /// as it holds a vector; without, once its finished blocks have reached the
    /// file threshold.
    pub fn has_pending_file(&self, force: bool) -> (pending: bool)
        requires
            self.wf(),
        ensures
            pending == self.building().spec_has_pending_file(force),
    {
        self.building_vectors.has_pending_file(force)
    }

    /// Records `file`, which was taken out of the builder, as flushed.
    fn record_flushed(&mut self, file: &VectorFileInfo)
        requires
            covers(
                old(self).flushed_vector_files@,
                old(self).sealed_next_vector_id,
                old(self).flushed_next_vector_id,
            ),
            file.start_vector_id == old(self).flushed_next_vector_id,
            file.start_vector_id + file.vector_count <= usize::MAX,
            file.vector_count > 0,
            forall|i: int|
                0 <= i < old(self).flushed_vector_files@.len() ==> (
                #[trigger] old(self).flushed_vector_files@[i]).vector_count > 0,
        ensures
            forall|i: int|
                0 <= i < final(self).flushed_vector_files@.len() ==> (
                #[trigger] final(self).flushed_vector_files@[i]).vector_count > 0,
            covers(
                final(self).flushed_vector_files@,
                final(self).sealed_next_vector_id,
                final(self).flushed_next_vector_id,
            ),
            final(self).flushed_vector_files@ == old(self).flushed_vector_files@.push(*file),
            final(self).flushed_next_vector_id == file.start_vector_id + file.vector_count,
            final(self).committed_vector_files == old(self).committed_vector_files,
            final(self).committed_next_vector_id == old(self).committed_next_vector_id,
            final(self).sealed_vector_files == old(self).sealed_vector_files,
            final(self).sealed_next_vector_id == old(self).sealed_next_vector_id,
            final(self).building_vectors == old(self).building_vectors,
    {
        let end: usize = file.start_vector_id + file.vector_count;
        proof {
            let one = seq![*file];
            assert(covers(one, file.start_vector_id, end));
            lemma_covers_concat(
                self.flushed_vector_files@,
                one,
                self.sealed_next_vector_id,
                self.flushed_next_vector_id,
                end,
            );
            assert(self.flushed_vector_files@ + one =~= self.flushed_vector_files@.push(*file));
        }
        self.flushed_vector_files.push(*file);
        self.flushed_next_vector_id = end;
    }

    /// Takes every vector of the builder out as a file with the id
    /// `object_id` and records the file as flushed. With no vector in the
    /// builder nothing happens.
    pub fn flush(&mut self, object_id: u64) -> (res: Option<FinishedFile>)
        requires
            old(self).wf(),
        ensures
            final(self).wf(),
            final(self).boundaries() == old(self).boundaries().after(StoreOp::Flush),
            final(self).building().vectors().len() == 0,
            final(self).building().spec_dimension() == old(self).building().spec_dimension(),
            final(self).building().spec_block_cap() == old(self).building().spec_block_cap(),
            final(self).building().spec_file_cap() == old(self).building().spec_file_cap(),
            final(self).committed_files() == old(self).committed_files(),
            final(self).sealed_files() == old(self).sealed_files(),
            old(self).building().vectors().len() == 0 ==> res is None && final(self).flushed_files()
                == old(self).flushed_files(),
            old(self).building().vectors().len() > 0 ==> res is Some && is_file_of(
                res->Some_0,
                old(self).building().vectors(),
                old(self).building().spec_dimension(),
                old(self).boundaries().flushed_next,
                object_id,
            ) && final(self).flushed_files() == old(self).flushed_files().push(res->Some_0.0)
                && crate::file::file_bytes(res->Some_0.1@, res->Some_0.2.block_metas@)
                    == old(self).building().pending_bytes(true),
    {
        proof {
            self.building_vectors.lemma_wf();
        }
        let res = self.building_vectors.finish(object_id);
        proof {
            self.building_vectors.lemma_wf();
        }
        match &res {
            Some(file) => {
                self.record_flushed(&file.0);
            },
            None => {},
        }
        res
    }

    /// Takes the finished blocks of the builder out as a file with the id
    /// `object_id`, if they have reached the file threshold, and records the
    /// file as flushed.
    pub fn try_flush(&mut self, object_id: u64) -> (res: Option<FinishedFile>)
        requires
            old(self).wf(),
        ensures
            final(self).wf(),
            final(self).boundaries().building_next == old(self).boundaries().building_next,
            final(self).building().spec_dimension() == old(self).building().spec_dimension(),
            final(self).building().spec_block_cap() == old(self).building().spec_block_cap(),
            final(self).building().spec_file_cap() == old(self).building().spec_file_cap(),
            final(self).committed_files() == old(self).committed_files(),
            final(self).sealed_files() == old(self).sealed_files(),
            !old(self).building().spec_has_pending_file(false) ==> res is None
                && final(self).flushed_files() == old(self).flushed_files()
                && final(self).boundaries() == old(self).boundaries()
                && final(self).building().vectors() == old(self).building().vectors(),
            old(self).building().spec_has_pending_file(false) ==> res is Some && is_file_of(
                res->Some_0,
                crate::file::block_items(old(self).building().finished_blocks()),
                old(self).building().spec_dimension(),
                old(self).boundaries().flushed_next,
                object_id,
            ) && final(self).flushed_files() == old(self).flushed_files().push(res->Some_0.0)
                && final(self).boundaries() == old(self).boundaries().after(
                StoreOp::TryFlush(final(self).boundaries().flushed_next),
            ) && final(self).building().vectors() == old(self).building().open_items()
                && crate::file::file_bytes(res->Some_0.1@, res->Some_0.2.block_metas@)
                    == old(self).building().pending_bytes(false),
    {
        proof {
            self.building_vectors.lemma_wf();
        }
        let res = self.building_vectors.try_flush(object_id);
        proof {
            self.building_vectors.lemma_wf();
        }
        match &res {
            Some(file) => {
                self.record_flushed(&file.0);
            },
            None => {},
        }
        res
    }

    /// Turns the flushed files into sealed ones, and returns them.
    pub fn seal(&mut self) -> (added: Vec<VectorFileInfo>)
        requires
            old(self).wf(),
        ensures
            final(self).wf(),
            final(self).boundaries() == old(self).boundaries().after(StoreOp::Seal),
            added@ == old(self).flushed_files(),
            final(self).flushed_files().len() == 0,
            final(self).sealed_files() == old(self).sealed_files() + old(self).flushed_files(),
            final(self).committed_files() == old(self).committed_files(),
            final(self).building() == old(self).building(),
    {
        let mut flushed: Vec<VectorFileInfo> = Vec::new();
        std::mem::swap(&mut self.flushed_vector_files, &mut flushed);
        let mut copy = copy_of(flushed.as_slice());
        proof {
            lemma_covers_concat(
                self.sealed_vector_files@,
                flushed@,
                self.committed_next_vector_id,
                self.sealed_next_vector_id,
                self.flushed_next_vector_id,
            );
        }
        self.sealed_vector_files.append(&mut copy);
        self.sealed_next_vector_id = self.flushed_next_vector_id;
        flushed
    }

    /// Turns the sealed files into committed ones.
    pub fn commit_sealed(&mut self)
        requires
            old(self).wf(),
        ensures
            final(self).wf(),
            final(self).boundaries() == old(self).boundaries().after(StoreOp::Commit),
            final(self).sealed_files().len() == 0,
            final(self).committed_files() == old(self).committed_files() + old(self).sealed_files(),
            final(self).flushed_files() == old(self).flushed_files(),
            final(self).building() == old(self).building(),
    {
        let mut sealed: Vec<VectorFileInfo> = Vec::new();
        std::mem::swap(&mut self.sealed_vector_files, &mut sealed);
        proof {
            lemma_covers_concat(
                self.committed_vector_files@,
                sealed@,
                0,
                self.committed_next_vector_id,
                self.sealed_next_vector_id,
            );
        }
        self.committed_vector_files.append(&mut sealed);
        self.committed_next_vector_id = self.sealed_next_vector_id;
    }
}

} // verus!
