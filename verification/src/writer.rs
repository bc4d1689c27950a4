//! The writer of an HNSW flat index: it takes vectors, packs them into files
//! and grows the graph over them.
//!
//! The writer stores nothing and measures nothing itself. Whatever needs the
//! world outside (a random level, the distances between vectors, an object
//! id and the storing of bytes) it asks for with a [`WriterAction`], and it
//! goes on when it is told the outcome with a [`WriterEvent`].

use bytes::Bytes;
use vstd::prelude::*;

use crate::buffer::{bytes_as_slice, bytes_contents};
use crate::distance::DistanceMeasurement;
use crate::error::VectorError;
use crate::file::{file_bytes, is_file_of, FinishedFile, VectorFileInfo};
use crate::graph::{new_node, GraphView, HnswBuilderOptions, HnswGraphBuilder};
use crate::insert::{grown_by, stands_linked, GraphInsertion, InsertionView, MeasureRequest};
use crate::pb::{encodes, pb_decoded, pb_valid, PbHnswGraph};
use crate::store::{covers, Boundaries, HnswVectorStore, StoreOp, VectorSource, VectorStoreInfo};

verus! {

/// The descriptor of a stored graph.
#[derive(Debug, Clone, Copy, PartialEq, Eq, Structural)]
pub struct HnswGraphFileInfo {
    pub object_id: u64,
    pub file_size: u64,
}

/// The options of an index, as its descriptor holds them.
#[derive(Debug, Clone, Copy, PartialEq, Eq, Structural)]
pub struct HnswFlatIndexConfig {
    pub m: u32,
    pub ef_construction: u32,
    pub max_level: u32,
}

/// The persisted descriptor of an index.
#[derive(Debug)]
pub struct HnswFlatIndex {
    pub config: HnswFlatIndexConfig,
    pub vector_store_info: VectorStoreInfo,
    pub graph_file: Option<HnswGraphFileInfo>,
}

/// What an epoch added to the stored vectors.
#[derive(Debug)]
pub struct VectorStoreInfoDelta {
    pub next_vector_id: usize,
    pub added_vector_files: Vec<VectorFileInfo>,
}

/// What an epoch added to an index: vector files, and the graph over all
/// the vectors.
#[derive(Debug)]
pub struct HnswFlatIndexAdd {
    pub vector_store_info_delta: VectorStoreInfoDelta,
    pub graph_file: HnswGraphFileInfo,
}

/// What an epoch added to a vector index.
#[derive(Debug)]
pub enum VectorIndexAdd {
    HnswFlat(HnswFlatIndexAdd),
}

/// The operation that a writer is carrying out.
#[derive(Debug, Clone, Copy, PartialEq, Eq, Structural)]
pub enum WriterOperation {
    Idle,
    Flush,
    TryFlush,
    BuildGraph,
}

/// What a writer is waiting for.
#[derive(Debug, Clone, Copy, PartialEq, Eq, Structural)]
pub enum WriterWaiting {
    Nothing,
    Level,
    Distances,
    FileStored,
    Cached,
    GraphStored,
}

/// What the outside tells a writer.
#[derive(Debug)]
pub enum WriterEvent {
    /// The operation is to begin.
    Start,
    /// The level that was drawn for the next node.
    Level(usize),
    /// The keys of the distances that were asked for, in the order of the
    /// request's ids.
    Distances(Vec<u64>),
    /// The bytes of the vector file were stored under this object id.
    VectorFileStored(u64),
    /// The vector file was put into the cache.
    Cached,
    /// The graph was stored under this descriptor.
    GraphStored(HnswGraphFileInfo),
}

/// What a writer asks the outside to do.
#[derive(Debug)]
pub enum WriterAction {
    /// Draw the level of the next node, and answer with
    /// [`WriterEvent::Level`].
    SampleLevel,
    /// Measure the distances of the request, and answer with
    /// [`WriterEvent::Distances`].
    Measure(MeasureRequest),
    /// Store these bytes, the next vector file, under a new object id, and
    /// answer with [`WriterEvent::VectorFileStored`].
    StoreVectorFile(Vec<u8>),
    /// Put the file that was just stored into the cache, and answer with
    /// [`WriterEvent::Cached`].
    CacheVectorFile(FinishedFile),
    /// Encode and store this graph under a new object id, and answer with
    /// [`WriterEvent::GraphStored`].
    StoreGraph(PbHnswGraph),
    /// The operation is done; a flush gives the size of the vector file that
    /// it stored, and 0 where it stored none.
    Done(usize),
}

/// The neighbour lists of a node of `height` levels that has no neighbour.
pub open spec fn bare_lists(height: nat) -> Seq<Seq<usize>> {
    Seq::new(height, |l: int| Seq::empty())
}

/// The number of levels of a node whose level was drawn as `sampled_level`:
/// the level is cut off at the highest that the options allow.
pub open spec fn height_for(options: HnswBuilderOptions, sampled_level: usize) -> nat {
    (if sampled_level < options.max_level {
        sampled_level as nat
    } else {
        options.max_level as nat
    }) + 1
}

/// The options that a descriptor's configuration stands for.
pub open spec fn options_of(config: HnswFlatIndexConfig) -> HnswBuilderOptions {
    HnswBuilderOptions {
        m: config.m as usize,
        ef_construction: config.ef_construction as usize,
        max_level: config.max_level as usize,
    }
}

/// The largest dimension of an index.
pub const MAX_DIMENSION: usize = 65536;

/// A writer is asked for in order: the dimension lies in the range of an
/// index, and a graph is handed in if and only if the descriptor names a
/// graph file.
pub open spec fn fitting(index: HnswFlatIndex, dimension: usize, with_graph: bool) -> bool {
    &&& 1 <= dimension <= MAX_DIMENSION
    &&& (index.graph_file is Some) == with_graph
}

/// The descriptor and the graph that belongs to it are in order: the options
/// lie in their ranges, the files cover the ids up to the next one, and the
/// graph has one node for each of those ids, none with too many neighbours
/// and none, as the entry point is the highest, above the highest level.
pub open spec fn openable(index: HnswFlatIndex, graph: Option<PbHnswGraph>) -> bool {
    &&& options_of(index.config).wf()
    &&& covers(index.vector_store_info.vector_files@, 0, index.vector_store_info.next_vector_id)
    &&& match graph {
        None => index.vector_store_info.next_vector_id == 0,
        Some(pb) => {
            &&& pb_valid(pb)
            &&& pb_decoded(pb).nodes.len() == index.vector_store_info.next_vector_id
            &&& pb_decoded(pb).capped(index.config.m as usize)
            &&& pb_decoded(pb).nodes[pb_decoded(pb).entry_point as int].len()
                <= index.config.max_level + 1
        },
    }
}

/// The writer of an index.
#[derive(Debug)]
pub struct HnswFlatIndexWriter {
    measure: DistanceMeasurement,
    options: HnswBuilderOptions,
    vector_store: HnswVectorStore,
    next_pending_vector_id: usize,
    graph_builder: Option<HnswGraphBuilder>,
    flushed_graph_file: Option<HnswGraphFileInfo>,
    insertion: Option<GraphInsertion>,
    operation: WriterOperation,
    waiting: WriterWaiting,
    flushed_size: usize,
}

impl HnswFlatIndexWriter {
    /// The graph has a node for every vector in front of the next pending
    /// one, and an insertion that is under way inserts that one.
    spec fn graph_ok(&self) -> bool {
        match self.graph_builder {
            None => self.next_pending_vector_id == 0 && self.insertion is None,
            Some(graph) => {
                &&& graph.wf()
                &&& graph@.capped(self.options.m)
                &&& graph@.nodes[graph@.entry_point as int].len() <= self.options.max_level + 1
                &&& match self.insertion {
                    None => graph@.nodes.len() == self.next_pending_vector_id,
                    Some(insertion) => {
                        &&& insertion.wf(&graph)
                        &&& insertion@.id == self.next_pending_vector_id
                        &&& insertion@.m == self.options.m
                        &&& insertion@.height <= self.options.max_level + 1
                        &&& !(insertion@.phase is Done)
                        &&& self.next_pending_vector_id
                            < self.vector_store.boundaries().building_next
                    },
                }
            },
        }
    }

    /// What the writer waits for fits the operation and the state.
    spec fn waiting_ok(&self) -> bool {
        let b = self.vector_store.boundaries();
        let building = self.vector_store.building();
        match self.waiting {
            WriterWaiting::Nothing => self.operation is Idle && self.insertion is None,
            WriterWaiting::Level => {
                &&& !(self.operation is Idle)
                &&& self.insertion is None
                &&& self.next_pending_vector_id < b.building_next
            },
            WriterWaiting::Distances => !(self.operation is Idle) && self.insertion is Some,
            WriterWaiting::FileStored => {
                &&& self.insertion is None
                &&& self.operation is Flush || self.operation is TryFlush
                &&& self.operation is Flush ==> self.next_pending_vector_id == b.building_next
                    && building.spec_has_pending_file(true)
                &&& self.operation is TryFlush ==> building.spec_has_pending_file(false)
            },
            WriterWaiting::Cached => {
                &&& self.insertion is None
                &&& self.vector_store.flushed_files().len() > 0
                &&& self.operation is Flush || self.operation is TryFlush
                &&& self.operation is Flush ==> self.next_pending_vector_id == b.building_next
                    && b.flushed_next == b.building_next
            },
            WriterWaiting::GraphStored => {
                &&& self.insertion is None
                &&& self.operation is Flush
                &&& self.next_pending_vector_id == b.building_next
                &&& b.flushed_next == b.building_next
                &&& self.vector_store.flushed_files().len() > 0
            },
        }
    }

    /// The writer is in order.
    pub closed spec fn wf(&self) -> bool {
        &&& self.options.wf()
        &&& self.vector_store.wf()
        &&& self.next_pending_vector_id <= self.vector_store.boundaries().building_next
        &&& self.graph_ok()
        &&& self.flushed_graph_file is Some ==> self.vector_store.flushed_files().len() > 0
        &&& self.waiting_ok()
    }

    /// The vector store.
    pub closed spec fn store(&self) -> HnswVectorStore {
        self.vector_store
    }

    /// The graph, once a vector was put into it.
    pub closed spec fn graph(&self) -> Option<GraphView> {
        match self.graph_builder {
            None => None,
            Some(graph) => Some(graph@),
        }
    }

    /// The options of the graph.
    pub closed spec fn spec_options(&self) -> HnswBuilderOptions {
        self.options
    }

    /// The distance measure of the index.
    pub closed spec fn spec_measure(&self) -> DistanceMeasurement {
        self.measure
    }

    /// The first vector that the graph does not have or is just being given.
    pub closed spec fn next_pending(&self) -> usize {
        self.next_pending_vector_id
    }

    /// The graph that was stored in the current epoch.
    pub closed spec fn graph_file(&self) -> Option<HnswGraphFileInfo> {
        self.flushed_graph_file
    }

    /// The operation that is carried out.
    pub closed spec fn spec_operation(&self) -> WriterOperation {
        self.operation
    }

    /// What the writer waits for.
    pub closed spec fn spec_waiting(&self) -> WriterWaiting {
        self.waiting
    }

    /// The insertion that is under way.
    pub closed spec fn insertion(&self) -> Option<InsertionView> {
        match self.insertion {
            None => None,
            Some(insertion) => Some(insertion@),
        }
    }

    /// The request of the insertion that is under way.
    pub closed spec fn pending_request(&self) -> Option<(usize, Seq<usize>)> {
        match self.insertion {
            None => None,
            Some(insertion) => Some((insertion@.anchor, insertion@.pending)),
        }
    }

    /// In every state of a writer the store is in order, so that its four
    /// boundaries follow each other; the graph is well formed, no node of it
    /// has more neighbours on a level than the options allow or a level above
    /// the highest that they allow, and it has a node for every vector in
    /// front of the next pending one, and one more at most.
    pub proof fn lemma_wf(&self)
        requires
            self.wf(),
        ensures
            self.spec_options().wf(),
            self.store().wf(),
            self.store().boundaries().ordered(),
            self.next_pending() <= self.store().boundaries().building_next,
            self.graph() is None ==> self.next_pending() == 0,
            self.graph() matches Some(graph) ==> graph.wf() && graph.capped(self.spec_options().m)
                && self.next_pending() <= graph.nodes.len() <= self.next_pending() + 1
                && forall|n: int|
                0 <= n < graph.nodes.len() ==> (#[trigger] graph.nodes[n]).len()
                    <= self.spec_options().max_level + 1,
            self.graph_file() is Some ==> self.store().flushed_files().len() > 0,
            self.spec_operation() is Idle <==> self.spec_waiting() is Nothing,
            self.spec_waiting() is Distances <==> self.pending_request() is Some,
    {
        self.vector_store.lemma_wf();
        match self.graph_builder {
            None => {},
            Some(graph) => {
                match self.insertion {
                    None => {},
                    Some(insertion) => {
                        insertion.lemma_wf(&graph);
                    },
                }
            },
        }
    }

    /// A writer for the index that `index` describes and whose graph is
    /// `graph`, the one that the descriptor's graph file holds. A dimension
    /// out of range, a graph file without a graph, and a graph without a
    /// graph file, break the contract; otherwise the descriptor and the graph
    /// are refused as corrupt unless they are in order.
    pub fn new(
        index: &HnswFlatIndex,
        dimension: usize,
        measure: DistanceMeasurement,
        graph: Option<&PbHnswGraph>,
        block_cap: usize,
        file_cap: usize,
    ) -> (res: Result<Self, VectorError>)
        ensures
            !fitting(*index, dimension, graph is Some) ==> res is Err && res->Err_0
                == VectorError::ContractViolation,
            fitting(*index, dimension, graph is Some) && !openable(
                *index,
                match graph {
                    Some(pb) => Some(*pb),
                    None => None,
                },
            ) ==> res is Err && res->Err_0 == VectorError::Corruption,
            fitting(*index, dimension, graph is Some) && openable(
                *index,
                match graph {
                    Some(pb) => Some(*pb),
                    None => None,
                },
            ) ==> res is Ok,
            res matches Ok(writer) ==> {
                &&& writer.wf()
                &&& writer.spec_options() == options_of(index.config)
                &&& writer.spec_measure() == measure
                &&& writer.store().boundaries() == (Boundaries {
                    committed_next: index.vector_store_info.next_vector_id,
                    sealed_next: index.vector_store_info.next_vector_id,
                    flushed_next: index.vector_store_info.next_vector_id,
                    building_next: index.vector_store_info.next_vector_id,
                })
                &&& writer.store().committed_files() == index.vector_store_info.vector_files@
                &&& writer.store().sealed_files().len() == 0
                &&& writer.store().flushed_files().len() == 0
                &&& writer.store().building().vectors().len() == 0
                &&& writer.store().building().spec_dimension() == dimension
                &&& writer.store().building().spec_block_cap() == block_cap
                &&& writer.store().building().spec_file_cap() == file_cap
                &&& writer.next_pending() == index.vector_store_info.next_vector_id
                &&& writer.graph() == (match graph {
                    Some(pb) => Some(pb_decoded(*pb)),
                    None => None,
                })
                &&& writer.graph_file() is None
                &&& writer.insertion() is None
                &&& writer.spec_operation() is Idle
                &&& writer.spec_waiting() is Nothing
            },
    {
        if index.graph_file.is_some() != graph.is_some() || dimension < 1 || dimension
            > MAX_DIMENSION {
            return Err(VectorError::ContractViolation);
        }
        let options = HnswBuilderOptions {
            m: index.config.m as usize,
            ef_construction: index.config.ef_construction as usize,
            max_level: index.config.max_level as usize,
        };
        if !options.is_valid() {
            return Err(VectorError::Corruption);
        }
        let vector_store = match HnswVectorStore::new(
            &index.vector_store_info,
            dimension,
            block_cap,
            file_cap,
        ) {
            Ok(store) => store,
            Err(_) => {
                return Err(VectorError::Corruption);
            },
        };
        proof {
            vector_store.lemma_wf();
        }
        let next_vector_id = index.vector_store_info.next_vector_id;
        let graph_builder = match graph {
            None => {
                if next_vector_id != 0 {
                    return Err(VectorError::Corruption);
                }
                None
            },
            Some(pb) => {
                let builder = match HnswGraphBuilder::from_protobuf(pb) {
                    Ok(builder) => builder,
                    Err(_) => {
                        return Err(VectorError::Corruption);
                    },
                };
                if builder.len() != next_vector_id || !builder.is_capped(options.m)
                    || builder.height(builder.entrypoint()) > options.max_level + 1 {
                    return Err(VectorError::Corruption);
                }
                Some(builder)
            },
        };
        Ok(
            HnswFlatIndexWriter {
                measure,
                options,
                vector_store,
                next_pending_vector_id: next_vector_id,
                graph_builder,
                flushed_graph_file: None,
                insertion: None,
                operation: WriterOperation::Idle,
                waiting: WriterWaiting::Nothing,
                flushed_size: 0,
            },
        )
    }

    /// The distance measure of the index.
    pub fn measure(&self) -> (measure: DistanceMeasurement)
        ensures
            measure == self.spec_measure(),
    {
        self.measure
    }

    /// The options of the graph.
    pub fn options(&self) -> (options: HnswBuilderOptions)
        ensures
            options == self.spec_options(),
    {
        self.options
    }

    /// The vector store.
    pub fn vector_store(&self) -> (store: &HnswVectorStore)
        ensures
            *store == self.store(),
    {
        &self.vector_store
    }

    /// The graph, once a vector was put into it.
    pub fn graph_builder(&self) -> (graph: Option<&HnswGraphBuilder>)
        ensures
            graph is Some == self.graph() is Some,
            graph matches Some(g) ==> self.graph() == Some(g@),
    {
        self.graph_builder.as_ref()
    }

    /// The graph that was stored in the current epoch.
    pub fn flushed_graph_file(&self) -> (file: Option<HnswGraphFileInfo>)
        ensures
            file == self.graph_file(),
    {
        self.flushed_graph_file
    }

    /// The first vector that the graph does not have or is just being given.
    pub fn next_pending_vector_id(&self) -> (id: usize)
        ensures
            id == self.next_pending(),
    {
        self.next_pending_vector_id
    }

    /// The operation that is carried out.
    pub fn operation(&self) -> (operation: WriterOperation)
        ensures
            operation == self.spec_operation(),
    {
        self.operation
    }

    /// Whether a vector with `info_len` bytes of side information can still be
    /// inserted.
    pub fn has_room(&self, info_len: usize) -> (room: bool)
        requires
            self.wf(),
        ensures
            room == self.store().building().spec_has_room(info_len),
    {
        self.vector_store.has_room(info_len)
    }

    /// Where the vector `idx` is read from: every id in front of the next is
    /// served, as [`HnswVectorStore::serves`] says, and no other.
    pub fn get_vector(&self, idx: usize) -> (res: Result<VectorSource<'_>, VectorError>)
        requires
            self.wf(),
        ensures
            res is Ok <==> idx < self.store().boundaries().building_next,
            self.store().serves(idx, res),
    {
        proof {
            self.vector_store.lemma_wf();
        }
        self.vector_store.get_vector(idx)
    }

    /// Adds a vector with its side information to the building tier. The
    /// graph is not touched: it gets the vector with the next flush. While an
    /// operation is under way the vector is refused and nothing changes.
    pub fn insert(&mut self, vec: Vec<u32>, info: Bytes) -> (res: Result<(), VectorError>)
        requires
            old(self).wf(),
            vec@.len() == old(self).store().building().spec_dimension(),
            old(self).store().building().spec_has_room(bytes_contents(info).len() as usize),
        ensures
            final(self).wf(),
            final(self).spec_options() == old(self).spec_options(),
            final(self).spec_measure() == old(self).spec_measure(),
            old(self).spec_operation() is Idle ==> {
                &&& res is Ok
                &&& final(self).store().boundaries() == old(self).store().boundaries().after(
                    StoreOp::Insert,
                )
                &&& final(self).store().boundaries().building_next
                    == old(self).store().boundaries().building_next + 1
                &&& final(self).store().building().vectors()
                    == old(self).store().building().vectors().push((vec@, bytes_contents(info)))
                &&& final(self).store().committed_files() == old(self).store().committed_files()
                &&& final(self).store().sealed_files() == old(self).store().sealed_files()
                &&& final(self).store().flushed_files() == old(self).store().flushed_files()
                &&& final(self).graph() == old(self).graph()
                &&& final(self).next_pending() == old(self).next_pending()
                &&& final(self).graph_file() == old(self).graph_file()
                &&& final(self).store().building().spec_dimension()
                    == old(self).store().building().spec_dimension()
                &&& final(self).store().building().spec_block_cap()
                    == old(self).store().building().spec_block_cap()
                &&& final(self).store().building().spec_file_cap()
                    == old(self).store().building().spec_file_cap()
                &&& final(self).spec_operation() is Idle
            },
            !(old(self).spec_operation() is Idle) ==> res is Err && res->Err_0
                == VectorError::ContractViolation && *final(self) == *old(self),
    {
        match self.operation {
            WriterOperation::Idle => {},
            _ => {
                return Err(VectorError::ContractViolation);
            },
        }
        let info_slice = bytes_as_slice(&info);
        self.vector_store.add(vec.as_slice(), info_slice);
        Ok(())
    }

    /// Ends the epoch. With no file flushed in it there is nothing to hand
    /// out. Otherwise the flushed files become sealed, and they are handed
    /// out together with the graph that was stored for them. The contract is
    /// broken, and nothing changes, where an operation is under way, where the
    /// builder still holds vectors, and where files were flushed but no graph
    /// was stored.
    pub fn seal_current_epoch(&mut self) -> (res: Result<Option<VectorIndexAdd>, VectorError>)
        requires
            old(self).wf(),
        ensures
            final(self).wf(),
            final(self).spec_options() == old(self).spec_options(),
            final(self).spec_measure() == old(self).spec_measure(),
            final(self).store().building() == old(self).store().building(),
            res is Err <==> !(old(self).spec_operation() is Idle)
                || old(self).store().building().vectors().len() > 0
                || (old(self).store().flushed_files().len()
                > 0 && old(self).graph_file() is None),
            res matches Err(e) ==> e == VectorError::ContractViolation && *final(self) == *old(self),
            res matches Ok(None) ==> old(self).store().flushed_files().len() == 0 && *final(self)
                == *old(self),
            res matches Ok(Some(VectorIndexAdd::HnswFlat(add))) ==> {
                &&& old(self).store().flushed_files().len() > 0
                &&& add.vector_store_info_delta.next_vector_id == old(self).store().boundaries().building_next
                &&& add.vector_store_info_delta.added_vector_files@ == old(self).store().flushed_files()
                &&& Some(add.graph_file) == old(self).graph_file()
                &&& final(self).store().boundaries() == old(self).store().boundaries().after(
                    StoreOp::Seal,
                )
                &&& final(self).store().sealed_files() == old(self).store().sealed_files()
                    + old(self).store().flushed_files()
                &&& final(self).store().flushed_files().len() == 0
                &&& final(self).store().committed_files() == old(self).store().committed_files()
                &&& final(self).graph_file() is None
                &&& final(self).graph() == old(self).graph()
                &&& final(self).next_pending() == old(self).next_pending()
                &&& final(self).spec_operation() is Idle
            },
    {
        match self.operation {
            WriterOperation::Idle => {},
            _ => {
                return Err(VectorError::ContractViolation);
            },
        }
        proof {
            self.vector_store.lemma_wf();
        }
        if !self.vector_store.building_vectors().is_empty() {
            return Err(VectorError::ContractViolation);
        }
        if self.vector_store.flushed_vector_files().len() == 0 {
            return Ok(None);
        }
        let graph_file = match self.flushed_graph_file {
            Some(graph_file) => graph_file,
            None => {
                return Err(VectorError::ContractViolation);
            },
        };
        let next_vector_id = self.vector_store.next_vector_id();
        let added_vector_files = self.vector_store.seal();
        self.flushed_graph_file = None;
        Ok(
            Some(
                VectorIndexAdd::HnswFlat(
                    HnswFlatIndexAdd {
                        vector_store_info_delta: VectorStoreInfoDelta {
                            next_vector_id,
                            added_vector_files,
                        },
                        graph_file,
                    },
                ),
            ),
        )
    }

    /// The size of the vector file that the flush under way has stored.
    pub closed spec fn spec_flushed_size(&self) -> usize {
        self.flushed_size
    }

    /// An operation is under way and waits for nothing: the writer is in
    /// order but for what it waits for.
    spec fn between(&self) -> bool {
        &&& self.options.wf()
        &&& self.vector_store.wf()
        &&& self.next_pending_vector_id <= self.vector_store.boundaries().building_next
        &&& self.graph_ok()
        &&& self.flushed_graph_file is Some ==> self.vector_store.flushed_files().len() > 0
        &&& self.insertion is None
        &&& !(self.operation is Idle)
    }

    /// The writer, which carries out no operation or the operation `op`, can
    /// take `event`: a start while it is idle, and otherwise what it waits
    /// for.
    pub open spec fn accepts(&self, op: WriterOperation, event: WriterEvent) -> bool {
        match event {
            WriterEvent::Start => self.spec_operation() is Idle && !(op is Idle),
            WriterEvent::Level(_) => self.spec_operation() == op && self.spec_waiting() is Level,
            WriterEvent::Distances(keys) => {
                &&& self.spec_operation() == op
                &&& self.pending_request() matches Some(request)
                &&& keys@.len() == request.1.len()
            },
            WriterEvent::VectorFileStored(_) => self.spec_operation() == op
                && self.spec_waiting() is FileStored,
            WriterEvent::Cached => self.spec_operation() == op && self.spec_waiting() is Cached,
            WriterEvent::GraphStored(_) => self.spec_operation() == op
                && self.spec_waiting() is GraphStored,
        }
    }

    /// The writer waits for the answer to `action`, which carries what the
    /// writer's state says it does.
    pub open spec fn asks(&self, action: WriterAction) -> bool {
        match action {
            WriterAction::SampleLevel => self.spec_waiting() is Level,
            WriterAction::Measure(request) => self.spec_waiting() is Distances
                && self.pending_request() == Some((request.anchor, request.ids@)),
            WriterAction::StoreVectorFile(bytes) => self.spec_waiting() is FileStored && bytes@
                == self.store().building().pending_bytes(self.spec_operation() is Flush),
            WriterAction::CacheVectorFile(file) => self.spec_waiting() is Cached
                && self.store().flushed_files().len() > 0 && self.store().flushed_files().last()
                == file.0,
            WriterAction::StoreGraph(pb) => {
                &&& self.spec_waiting() is GraphStored
                &&& self.graph() matches Some(graph)
                &&& encodes(pb, graph)
            },
            WriterAction::Done(size) => self.spec_operation() is Idle && self.next_pending()
                == self.store().boundaries().building_next,
        }
    }

    /// What a flush waits for when the graph and the vector file are dealt
    /// with: the storing of the graph, if a file was flushed in the epoch,
    /// and else nothing.
    pub open spec fn graph_file_due(&self) -> WriterWaiting {
        if self.store().flushed_files().len() > 0 {
            WriterWaiting::GraphStored
        } else {
            WriterWaiting::Nothing
        }
    }

    /// What a flush waits for when the graph is dealt with: the storing of
    /// the builder's vectors as a file, if it holds any.
    pub open spec fn file_due(&self) -> WriterWaiting {
        if self.store().building().spec_has_pending_file(true) {
            WriterWaiting::FileStored
        } else {
            self.graph_file_due()
        }
    }

    /// What the operation `op` waits for when it turns to the graph: the
    /// level of the next pending vector, if there is one; else a flush goes
    /// on with the vector file, and every other operation is done.
    pub open spec fn graph_due(&self, op: WriterOperation) -> WriterWaiting {
        if self.next_pending() < self.store().boundaries().building_next {
            WriterWaiting::Level
        } else if op is Flush {
            self.file_due()
        } else {
            WriterWaiting::Nothing
        }
    }

    /// A flush has ended: every vector is flushed and has its node in the
    /// graph, and a graph is stored for the epoch if and only if a file was
    /// flushed in it.
    pub open spec fn flush_done(&self) -> bool {
        &&& self.store().boundaries().flushed_next == self.store().boundaries().building_next
        &&& self.next_pending() == self.store().boundaries().building_next
        &&& self.graph_file() is Some <==> self.store().flushed_files().len() > 0
    }

    /// What a step of an operation does. An event that the writer cannot
    /// take breaks the contract and changes nothing. Otherwise the writer
    /// asks for the next thing or is done, and:
    /// the id of the next vector, the options and the committed and sealed
    /// files stay;
    /// a stored vector file is taken out of the builder and recorded as
    /// flushed, all of the builder's vectors in a flush and its finished
    /// blocks in an opportunistic flush, and its bytes are those that were
    /// handed out to be stored; no other event touches the store;
    /// a stored graph is recorded, and ends the flush with the size of the
    /// vector file that the flush stored;
    /// a level makes the first node of the graph or begins an insertion;
    /// distances let the insertion go on, which leaves the nodes of the graph
    /// their levels and gives them no neighbour but the node that is inserted,
    /// and which ends with the node in the graph, linked with its neighbours;
    /// the graph has a node for every vector when the operation is done,
    /// and a flush that is done leaves no vector in the builder;
    /// what the writer waits for next follows from the event and from what
    /// is due then: see [`HnswFlatIndexWriter::graph_due`].
    pub open spec fn transition(
        pre: Self,
        post: Self,
        op: WriterOperation,
        event: WriterEvent,
        res: Result<WriterAction, VectorError>,
    ) -> bool {
        &&& post.wf()
        &&& !pre.accepts(op, event) ==> res is Err && res->Err_0 == VectorError::ContractViolation
            && post == pre
        &&& pre.accepts(op, event) ==> res is Ok
        &&& res matches Ok(action) ==> {
            &&& post.asks(action)
            &&& action is Done || post.spec_operation() == op
            &&& post.spec_options() == pre.spec_options()
            &&& post.spec_measure() == pre.spec_measure()
            &&& post.store().boundaries().building_next
                == pre.store().boundaries().building_next
            &&& post.store().committed_files() == pre.store().committed_files()
            &&& post.store().sealed_files() == pre.store().sealed_files()
            &&& post.next_pending() >= pre.next_pending()
            &&& match event {
                WriterEvent::VectorFileStored(object_id) => {
                    &&& action matches WriterAction::CacheVectorFile(file)
                    &&& file.0.object_id == object_id
                    &&& post.spec_flushed_size() == file.0.file_size as usize
                    &&& post.store().flushed_files() == pre.store().flushed_files().push(file.0)
                    &&& file_bytes(file.1@, file.2.block_metas@)
                        == pre.store().building().pending_bytes(op is Flush)
                    &&& op is Flush ==> is_file_of(
                        file,
                        pre.store().building().vectors(),
                        pre.store().building().spec_dimension(),
                        pre.store().boundaries().flushed_next,
                        object_id,
                    ) && post.store().boundaries() == pre.store().boundaries().after(
                        StoreOp::Flush,
                    )
                    &&& op is TryFlush ==> is_file_of(
                        file,
                        crate::file::block_items(pre.store().building().finished_blocks()),
                        pre.store().building().spec_dimension(),
                        pre.store().boundaries().flushed_next,
                        object_id,
                    ) && post.store().boundaries() == pre.store().boundaries().after(
                        StoreOp::TryFlush(post.store().boundaries().flushed_next),
                    )
                },
                _ => post.store() == pre.store(),
            }
            &&& match event {
                WriterEvent::GraphStored(info) => post.graph_file() == Some(info) && action
                    == WriterAction::Done(pre.spec_flushed_size()),
                _ => post.graph_file() == pre.graph_file(),
            }
            &&& match event {
                WriterEvent::Distances(keys) => {
                    &&& pre.graph() matches Some(before)
                    &&& pre.insertion() matches Some(insertion)
                    &&& post.graph() == Some(insertion.stepped(before, keys@).1)
                    &&& grown_by(before, insertion.stepped(before, keys@).1, pre.next_pending())
                    &&& if action is Measure {
                        post.next_pending() == pre.next_pending() && post.insertion() == Some(
                            insertion.stepped(before, keys@).0,
                        )
                    } else {
                        post.next_pending() == pre.next_pending() + 1 && post.insertion() is None
                            && stands_linked(
                            insertion.stepped(before, keys@).1,
                            pre.next_pending(),
                            insertion.height,
                            insertion.top,
                            pre.spec_options().m,
                        )
                    }
                },
                WriterEvent::Level(sampled_level) => match pre.graph() {
                    Some(graph) => action is Measure && post.graph() == Some(graph)
                        && post.next_pending() == pre.next_pending() && post.insertion() == Some(
                        InsertionView::started(
                            graph,
                            pre.spec_options(),
                            bare_lists(height_for(pre.spec_options(), sampled_level)),
                        ),
                    ),
                    None => {
                        &&& post.next_pending() == 1
                        &&& post.graph() matches Some(graph)
                        &&& graph.entry_point == 0
                        &&& graph.nodes.len() == 1
                        &&& graph.nodes[0] == bare_lists(
                            height_for(pre.spec_options(), sampled_level),
                        )
                    },
                },
                _ => post.graph() == pre.graph() && post.next_pending() == pre.next_pending()
                    && post.insertion() == pre.insertion(),
            }
            &&& action is Done && op is Flush ==> post.flush_done()
            &&& post.spec_waiting() == (match event {
                WriterEvent::Start => if op is TryFlush
                    && pre.store().building().spec_has_pending_file(false) {
                    WriterWaiting::FileStored
                } else {
                    post.graph_due(op)
                },
                WriterEvent::Level(_) => if pre.graph() is Some {
                    WriterWaiting::Distances
                } else {
                    post.graph_due(op)
                },
                WriterEvent::Distances(_) => if post.insertion() is Some {
                    WriterWaiting::Distances
                } else {
                    post.graph_due(op)
                },
                WriterEvent::VectorFileStored(_) => WriterWaiting::Cached,
                WriterEvent::Cached => if op is Flush {
                    post.graph_file_due()
                } else {
                    post.graph_due(op)
                },
                WriterEvent::GraphStored(_) => WriterWaiting::Nothing,
            })
            &&& action matches WriterAction::Done(size) ==> size == (if op is Flush {
                post.spec_flushed_size()
            } else {
                0
            })
            &&& match event {
                WriterEvent::VectorFileStored(_) => true,
                WriterEvent::Cached => post.spec_flushed_size() == pre.spec_flushed_size(),
                WriterEvent::GraphStored(_) => post.spec_flushed_size() == pre.spec_flushed_size(),
                _ => op is Flush && !(post.spec_waiting() is Level || post.spec_waiting()
                    is Distances) ==> post.spec_flushed_size() == 0,
            }
        }
    }

    /// Ends the operation.
    fn finish(&mut self, size: usize) -> (action: WriterAction)
        requires
            old(self).between(),
            old(self).next_pending_vector_id == old(self).vector_store.boundaries().building_next,
        ensures
            final(self).wf(),
            final(self).asks(action),
            final(self).waiting is Nothing,
            action == WriterAction::Done(size),
            final(self).vector_store == old(self).vector_store,
            final(self).graph_builder == old(self).graph_builder,
            final(self).insertion == old(self).insertion,
            final(self).flushed_graph_file == old(self).flushed_graph_file,
            final(self).next_pending_vector_id == old(self).next_pending_vector_id,
            final(self).options == old(self).options,
            final(self).measure == old(self).measure,
            final(self).flushed_size == old(self).flushed_size,
    {
        self.operation = WriterOperation::Idle;
        self.waiting = WriterWaiting::Nothing;
        WriterAction::Done(size)
    }

    /// Asks for the graph to be stored, where files were flushed in the
    /// epoch; else ends the flush.
    fn graph_file_stage(&mut self) -> (action: WriterAction)
        requires
            old(self).between(),
            old(self).operation is Flush,
            old(self).next_pending_vector_id == old(self).vector_store.boundaries().building_next,
            old(self).vector_store.boundaries().flushed_next
                == old(self).vector_store.boundaries().building_next,
        ensures
            final(self).wf(),
            final(self).asks(action),
            final(self).waiting == old(self).graph_file_due(),
            old(self).vector_store.flushed_files().len() > 0 ==> action is StoreGraph,
            old(self).vector_store.flushed_files().len() == 0 ==> action == WriterAction::Done(
                old(self).flushed_size,
            ),
            action is Done ==> final(self).flush_done(),
            action is Done || final(self).operation == old(self).operation,
            final(self).vector_store == old(self).vector_store,
            final(self).graph_builder == old(self).graph_builder,
            final(self).insertion == old(self).insertion,
            final(self).flushed_graph_file == old(self).flushed_graph_file,
            final(self).next_pending_vector_id == old(self).next_pending_vector_id,
            final(self).options == old(self).options,
            final(self).measure == old(self).measure,
            final(self).flushed_size == old(self).flushed_size,
    {
        proof {
            self.vector_store.lemma_wf();
        }
        if self.vector_store.flushed_vector_files().len() > 0 {
            match &self.graph_builder {
                Some(graph) => {
                    let pb = graph.to_protobuf();
                    self.waiting = WriterWaiting::GraphStored;
                    WriterAction::StoreGraph(pb)
                },
                None => {
                    let size = self.flushed_size;
                    self.finish(size)
                },
            }
        } else {
            let size = self.flushed_size;
            self.finish(size)
        }
    }

    /// Asks for the vectors of the builder to be stored as a file, where it
    /// holds any; else goes on to the graph file.
    fn file_stage(&mut self) -> (action: WriterAction)
        requires
            old(self).between(),
            old(self).operation is Flush,
            old(self).next_pending_vector_id == old(self).vector_store.boundaries().building_next,
        ensures
            final(self).wf(),
            final(self).asks(action),
            final(self).waiting == old(self).file_due(),
            final(self).flushed_size == 0,
            action is StoreVectorFile || action is StoreGraph || action is Done,
            action is Done ==> final(self).flush_done(),
            action is Done ==> old(self).vector_store.flushed_files().len() == 0
                && old(self).vector_store.building().vectors().len() == 0 && action
                == WriterAction::Done(0),
            action is Done || final(self).operation == old(self).operation,
            final(self).vector_store == old(self).vector_store,
            final(self).graph_builder == old(self).graph_builder,
            final(self).insertion == old(self).insertion,
            final(self).flushed_graph_file == old(self).flushed_graph_file,
            final(self).next_pending_vector_id == old(self).next_pending_vector_id,
            final(self).options == old(self).options,
            final(self).measure == old(self).measure,
    {
        proof {
            self.vector_store.lemma_wf();
        }
        self.flushed_size = 0;
        if self.vector_store.has_pending_file(true) {
            let bytes = self.vector_store.encode_pending_file(true);
            self.waiting = WriterWaiting::FileStored;
            WriterAction::StoreVectorFile(bytes)
        } else {
            self.graph_file_stage()
        }
    }

    /// Asks for the level of the next pending vector; with none pending, goes
    /// on with what follows the graph in the operation.
    fn graph_stage(&mut self) -> (action: WriterAction)
        requires
            old(self).between(),
        ensures
            final(self).wf(),
            final(self).asks(action),
            final(self).waiting == old(self).graph_due(old(self).operation),
            old(self).operation is Flush && !(final(self).waiting is Level) ==> final(self).flushed_size == 0,
            !(old(self).operation is Flush) || final(self).waiting is Level
                ==> final(self).flushed_size == old(self).flushed_size,
            action matches WriterAction::Done(size) ==> size
                == (if old(self).operation is Flush { final(self).flushed_size } else { 0 }),
            old(self).next_pending_vector_id < old(self).vector_store.boundaries().building_next
                ==> action is SampleLevel,
            action is SampleLevel || action is StoreVectorFile || action is StoreGraph
                || action is Done,
            action is Done && old(self).operation is Flush ==> final(self).flush_done(),
            action is Done ==> (old(self).operation is Flush
                ==> old(self).vector_store.flushed_files().len() == 0
                && old(self).vector_store.building().vectors().len() == 0) && action
                == WriterAction::Done(0),
            action is Done || final(self).operation == old(self).operation,
            final(self).vector_store == old(self).vector_store,
            final(self).graph_builder == old(self).graph_builder,
            final(self).insertion == old(self).insertion,
            final(self).flushed_graph_file == old(self).flushed_graph_file,
            final(self).next_pending_vector_id == old(self).next_pending_vector_id,
            final(self).options == old(self).options,
            final(self).measure == old(self).measure,
    {
        proof {
            self.vector_store.lemma_wf();
        }
        if self.next_pending_vector_id < self.vector_store.next_vector_id() {
            self.waiting = WriterWaiting::Level;
            WriterAction::SampleLevel
        } else {
            match self.operation {
                WriterOperation::Flush => self.file_stage(),
                _ => self.finish(0),
            }
        }
    }

    /// Makes the node of the next pending vector with the level that was
    /// drawn. The first node ever makes the graph; every other is inserted,
    /// which begins with a request for distances.
    fn on_level(&mut self, sampled_level: usize) -> (action: WriterAction)
        requires
            old(self).wf(),
            old(self).waiting is Level,
        ensures
            final(self).wf(),
            final(self).asks(action),
            final(self).waiting
                == (if old(self).graph_builder is Some { WriterWaiting::Distances } else { final(
                self).graph_due(old(self).operation) }),
            old(self).operation is Flush && !(final(self).waiting is Level
                || final(self).waiting is Distances) ==> final(self).flushed_size == 0,
            action matches WriterAction::Done(size) ==> size
                == (if old(self).operation is Flush { final(self).flushed_size } else { 0 }),
            action is Done || final(self).operation == old(self).operation,
            action is Done && old(self).operation is Flush ==> final(self).flush_done(),
            final(self).vector_store == old(self).vector_store,
            final(self).flushed_graph_file == old(self).flushed_graph_file,
            final(self).options == old(self).options,
            final(self).measure == old(self).measure,
            old(self).graph() matches Some(graph) ==> action is Measure
                && final(self).next_pending_vector_id == old(self).next_pending_vector_id
                && final(self).graph()
                == Some(graph) && final(self).insertion() == Some(
                InsertionView::started(
                    graph,
                    old(self).options,
                    bare_lists(height_for(old(self).options, sampled_level)),
                ),
            ),
            old(self).graph_builder is None ==> {
                &&& final(self).next_pending_vector_id == 1
                &&& final(self).insertion() is None
                &&& final(self).graph() matches Some(graph)
                &&& graph.entry_point == 0
                &&& graph.nodes.len() == 1
                &&& graph.nodes[0] == bare_lists(height_for(old(self).options, sampled_level))
            },
    {
        proof {
            self.vector_store.lemma_wf();
        }
        let node = new_node(&self.options, sampled_level);
        proof {
            assert(node.lists() =~~= bare_lists(height_for(self.options, sampled_level)));
        }
        let graph = self.graph_builder.take();
        match graph {
            Some(graph) => {
                let (insertion, request) = GraphInsertion::start(&graph, &self.options, node);
                self.graph_builder = Some(graph);
                self.insertion = Some(insertion);
                self.waiting = WriterWaiting::Distances;
                WriterAction::Measure(request)
            },
            None => {
                let graph = HnswGraphBuilder::first(node);
                proof {
                    assert(graph@.capped(self.options.m)) by {
                        assert forall|n: int, l: int|
                            0 <= n < graph@.nodes.len() && 0 <= l < graph@.nodes[n].len() implies (
                        #[trigger] graph@.nodes[n][l]).len() <= self.options.m by {
                            assert(graph@.nodes[n] == node.lists());
                        }
                    }
                }
                self.graph_builder = Some(graph);
                self.next_pending_vector_id = 1;
                self.graph_stage()
            },
        }
    }

    /// Hands the keys to the insertion under way. When the node stands in
    /// the graph the next pending vector follows.
    fn on_distances(&mut self, keys: Vec<u64>) -> (res: Result<WriterAction, VectorError>)
        requires
            old(self).wf(),
            old(self).waiting is Distances,
        ensures
            final(self).wf(),
            keys@.len() != old(self).pending_request()->Some_0.1.len() ==> res is Err && res->Err_0
                == VectorError::ContractViolation && *final(self) == *old(self),
            keys@.len() == old(self).pending_request()->Some_0.1.len() ==> res is Ok,
            res matches Ok(action) ==> final(self).asks(action) && (action is Done
                || final(self).operation == old(self).operation) && (action is Done
                && old(self).operation is Flush ==> final(self).flush_done()),
            res matches Ok(action) ==> {
                &&& final(self).waiting == (if final(self).insertion is Some {
                    WriterWaiting::Distances
                } else {
                    final(self).graph_due(old(self).operation)
                })
                &&& old(self).operation is Flush && !(final(self).waiting is Level
                    || final(self).waiting is Distances) ==> final(self).flushed_size == 0
                &&& action matches WriterAction::Done(size) ==> size == (if old(self).operation
                    is Flush {
                    final(self).flushed_size
                } else {
                    0
                })
            },
            final(self).next_pending_vector_id >= old(self).next_pending_vector_id,
            res matches Ok(action) ==> {
                &&& old(self).graph() matches Some(before)
                &&& old(self).insertion() matches Some(insertion)
                &&& final(self).graph() == Some(insertion.stepped(before, keys@).1)
                &&& grown_by(
                    before,
                    insertion.stepped(before, keys@).1,
                    old(self).next_pending_vector_id,
                )
                &&& if action is Measure {
                    final(self).next_pending_vector_id == old(self).next_pending_vector_id
                        && final(self).insertion() == Some(insertion.stepped(before, keys@).0)
                } else {
                    final(self).next_pending_vector_id == old(self).next_pending_vector_id + 1
                        && final(self).insertion() is None && stands_linked(
                        insertion.stepped(before, keys@).1,
                        old(self).next_pending_vector_id,
                        insertion.height,
                        insertion.top,
                        old(self).options.m,
                    )
                }
            },
            final(self).vector_store == old(self).vector_store,
            final(self).flushed_graph_file == old(self).flushed_graph_file,
            final(self).options == old(self).options,
            final(self).measure == old(self).measure,
    {
        proof {
            self.vector_store.lemma_wf();
        }
        let mut graph = self.graph_builder.take().unwrap();
        let mut insertion = self.insertion.take().unwrap();
        let ghost old_graph = graph;
        let ghost old_insertion = insertion;
        proof {
            insertion.lemma_wf(&graph);
        }
        let stepped = insertion.step(&mut graph, keys.as_slice());
        proof {
            insertion.lemma_wf(&graph);
            let before = old_graph@;
            let after = graph@;
            let entry = after.entry_point as int;
            if entry < before.nodes.len() {
                assert(after.heights().take(before.nodes.len() as int)[entry]
                    == before.heights()[entry]);
                assert(before.nodes[entry].len()
                    <= before.nodes[before.entry_point as int].len());
            }
        }
        match stepped {
            Err(e) => {
                self.graph_builder = Some(graph);
                self.insertion = Some(insertion);
                Err(e)
            },
            Ok(Some(request)) => {
                self.graph_builder = Some(graph);
                self.insertion = Some(insertion);
                Ok(WriterAction::Measure(request))
            },
            Ok(None) => {
                self.graph_builder = Some(graph);
                self.next_pending_vector_id = self.next_pending_vector_id + 1;
                Ok(self.graph_stage())
            },
        }
    }

    /// Takes the stored file out of the builder, records it as flushed, and
    /// asks for it to be put into the cache.
    fn on_file_stored(&mut self, object_id: u64) -> (action: WriterAction)
        requires
            old(self).wf(),
            old(self).waiting is FileStored,
        ensures
            final(self).wf(),
            final(self).asks(action),
            final(self).waiting is Cached,
            old(self).operation is TryFlush
                ==> (action matches WriterAction::CacheVectorFile(file) && is_file_of(
                file,
                crate::file::block_items(old(self).vector_store.building().finished_blocks()),
                old(self).vector_store.building().spec_dimension(),
                old(self).vector_store.boundaries().flushed_next,
                object_id,
            )),
            final(self).operation == old(self).operation,
            final(self).graph_builder == old(self).graph_builder,
            final(self).insertion == old(self).insertion,
            final(self).flushed_graph_file == old(self).flushed_graph_file,
            final(self).next_pending_vector_id == old(self).next_pending_vector_id,
            final(self).options == old(self).options,
            final(self).measure == old(self).measure,
            action matches WriterAction::CacheVectorFile(file) && {
                &&& file.0.object_id == object_id
                &&& final(self).flushed_size == file.0.file_size as usize
                &&& final(self).vector_store.flushed_files()
                    == old(self).vector_store.flushed_files().push(file.0)
                &&& final(self).vector_store.committed_files() == old(self).vector_store.committed_files()
                &&& final(self).vector_store.sealed_files() == old(self).vector_store.sealed_files()
                &&& file_bytes(file.1@, file.2.block_metas@)
                    == old(self).vector_store.building().pending_bytes(old(self).operation is Flush)
                &&& old(self).operation is Flush ==> is_file_of(
                    file,
                    old(self).vector_store.building().vectors(),
                    old(self).vector_store.building().spec_dimension(),
                    old(self).vector_store.boundaries().flushed_next,
                    object_id,
                ) && final(self).vector_store.boundaries()
                    == old(self).vector_store.boundaries().after(StoreOp::Flush)
                &&& old(self).operation is TryFlush ==> final(self).vector_store.boundaries()
                    == old(self).vector_store.boundaries().after(
                    StoreOp::TryFlush(final(self).vector_store.boundaries().flushed_next),
                )
            },
    {
        proof {
            self.vector_store.lemma_wf();
        }
        let flushed = match self.operation {
            WriterOperation::Flush => self.vector_store.flush(object_id),
            _ => self.vector_store.try_flush(object_id),
        };
        proof {
            self.vector_store.lemma_wf();
        }
        let file = flushed.unwrap();
        self.flushed_size = file.0.file_size as usize;
        self.waiting = WriterWaiting::Cached;
        WriterAction::CacheVectorFile(file)
    }

    /// Goes on behind a file that was put into the cache: a flush with the
    /// graph file, an opportunistic flush with the graph.
    fn on_cached(&mut self) -> (action: WriterAction)
        requires
            old(self).wf(),
            old(self).waiting is Cached,
        ensures
            final(self).wf(),
            final(self).asks(action),
            final(self).waiting
                == (if old(self).operation is Flush { final(self).graph_file_due() } else { final(
                self).graph_due(old(self).operation) }),
            final(self).flushed_size == old(self).flushed_size,
            action matches WriterAction::Done(size) ==> size
                == (if old(self).operation is Flush { final(self).flushed_size } else { 0 }),
            action is Done || final(self).operation == old(self).operation,
            action is Done && old(self).operation is Flush ==> final(self).flush_done(),
            old(self).operation is Flush ==> action is StoreGraph,
            final(self).vector_store == old(self).vector_store,
            final(self).graph_builder == old(self).graph_builder,
            final(self).insertion == old(self).insertion,
            final(self).flushed_graph_file == old(self).flushed_graph_file,
            final(self).next_pending_vector_id == old(self).next_pending_vector_id,
            final(self).options == old(self).options,
            final(self).measure == old(self).measure,
    {
        match self.operation {
            WriterOperation::Flush => {
                let ghost size = self.flushed_size;
                let action = self.graph_file_stage();
                proof {
                    self.vector_store.lemma_wf();
                }
                action
            },
            _ => self.graph_stage(),
        }
    }

    /// Records the graph that was stored, and ends the flush.
    fn on_graph_stored(&mut self, info: HnswGraphFileInfo) -> (action: WriterAction)
        requires
            old(self).wf(),
            old(self).waiting is GraphStored,
        ensures
            final(self).wf(),
            final(self).asks(action),
            final(self).waiting is Nothing,
            final(self).flushed_size == old(self).flushed_size,
            action == WriterAction::Done(old(self).flushed_size),
            final(self).flush_done(),
            final(self).flushed_graph_file == Some(info),
            final(self).vector_store == old(self).vector_store,
            final(self).graph_builder == old(self).graph_builder,
            final(self).insertion == old(self).insertion,
            final(self).next_pending_vector_id == old(self).next_pending_vector_id,
            final(self).options == old(self).options,
            final(self).measure == old(self).measure,
    {
        self.flushed_graph_file = Some(info);
        let size = self.flushed_size;
        self.finish(size)
    }

    /// Takes one event of the operation `op`.
    fn step(&mut self, op: WriterOperation, event: WriterEvent) -> (res: Result<
        WriterAction,
        VectorError,
    >)
        requires
            old(self).wf(),
        ensures
            Self::transition(*old(self), *final(self), op, event, res),
    {
        proof {
            self.lemma_wf();
        }
        match event {
            WriterEvent::Start => {
                match self.operation {
                    WriterOperation::Idle => {},
                    _ => {
                        return Err(VectorError::ContractViolation);
                    },
                }
                match op {
                    WriterOperation::Idle => Err(VectorError::ContractViolation),
                    WriterOperation::TryFlush => {
                        self.operation = op;
                        if self.vector_store.has_pending_file(false) {
                            let bytes = self.vector_store.encode_pending_file(false);
                            self.waiting = WriterWaiting::FileStored;
                            Ok(WriterAction::StoreVectorFile(bytes))
                        } else {
                            Ok(self.graph_stage())
                        }
                    },
                    _ => {
                        self.operation = op;
                        Ok(self.graph_stage())
                    },
                }
            },
            WriterEvent::Level(sampled_level) => {
                if !same_operation(self.operation, op) {
                    return Err(VectorError::ContractViolation);
                }
                match self.waiting {
                    WriterWaiting::Level => Ok(self.on_level(sampled_level)),
                    _ => Err(VectorError::ContractViolation),
                }
            },
            WriterEvent::Distances(keys) => {
                if !same_operation(self.operation, op) {
                    return Err(VectorError::ContractViolation);
                }
                match self.waiting {
                    WriterWaiting::Distances => self.on_distances(keys),
                    _ => Err(VectorError::ContractViolation),
                }
            },
            WriterEvent::VectorFileStored(object_id) => {
                if !same_operation(self.operation, op) {
                    return Err(VectorError::ContractViolation);
                }
                match self.waiting {
                    WriterWaiting::FileStored => Ok(self.on_file_stored(object_id)),
                    _ => Err(VectorError::ContractViolation),
                }
            },
            WriterEvent::Cached => {
                if !same_operation(self.operation, op) {
                    return Err(VectorError::ContractViolation);
                }
                match self.waiting {
                    WriterWaiting::Cached => Ok(self.on_cached()),
                    _ => Err(VectorError::ContractViolation),
                }
            },
            WriterEvent::GraphStored(info) => {
                if !same_operation(self.operation, op) {
                    return Err(VectorError::ContractViolation);
                }
                match self.waiting {
                    WriterWaiting::GraphStored => Ok(self.on_graph_stored(info)),
                    _ => Err(VectorError::ContractViolation),
                }
            },
        }
    }

    /// One step of a flush, which gives every pending vector its node in the
    /// graph, stores the vectors of the builder as a file, and stores the
    /// graph if a file was flushed in the epoch. It begins with
    /// [`WriterEvent::Start`] and is done with [`WriterAction::Done`], which
    /// gives the size of the vector file that was stored, or 0.
    pub fn flush(&mut self, event: WriterEvent) -> (res: Result<WriterAction, VectorError>)
        requires
            old(self).wf(),
        ensures
            Self::transition(*old(self), *final(self), WriterOperation::Flush, event, res),
    {
        self.step(WriterOperation::Flush, event)
    }

    /// One step of an opportunistic flush, which stores the finished blocks
    /// of the builder as a file if they have reached the file threshold, and
    /// then gives every pending vector its node in the graph.
    pub fn try_flush(&mut self, event: WriterEvent) -> (res: Result<WriterAction, VectorError>)
        requires
            old(self).wf(),
        ensures
            Self::transition(*old(self), *final(self), WriterOperation::TryFlush, event, res),
    {
        self.step(WriterOperation::TryFlush, event)
    }

    /// One step of giving every pending vector its node in the graph.
    pub fn add_pending_vectors_to_graph(&mut self, event: WriterEvent) -> (res: Result<
        WriterAction,
        VectorError,
    >)
        requires
            old(self).wf(),
        ensures
            Self::transition(*old(self), *final(self), WriterOperation::BuildGraph, event, res),
    {
        self.step(WriterOperation::BuildGraph, event)
    }

    /// Turns the sealed files into committed ones, when their epoch was
    /// acknowledged from outside.
    pub fn commit_sealed(&mut self)
        requires
            old(self).wf(),
        ensures
            final(self).wf(),
            final(self).store().boundaries() == old(self).store().boundaries().after(
                StoreOp::Commit,
            ),
            final(self).store().committed_files() == old(self).store().committed_files()
                + old(self).store().sealed_files(),
            final(self).store().sealed_files().len() == 0,
            final(self).store().flushed_files() == old(self).store().flushed_files(),
            final(self).store().building() == old(self).store().building(),
            final(self).graph() == old(self).graph(),
            final(self).next_pending() == old(self).next_pending(),
            final(self).graph_file() == old(self).graph_file(),
            final(self).spec_operation() == old(self).spec_operation(),
            final(self).spec_waiting() == old(self).spec_waiting(),
            final(self).spec_options() == old(self).spec_options(),
            final(self).spec_measure() == old(self).spec_measure(),
            final(self).insertion() == old(self).insertion(),
    {
        self.vector_store.commit_sealed();
    }
}

/// Whether two operations are the same.
pub fn same_operation(a: WriterOperation, b: WriterOperation) -> (same: bool)
    ensures
        same == (a == b),
{
    match (a, b) {
        (WriterOperation::Idle, WriterOperation::Idle) => true,
        (WriterOperation::Flush, WriterOperation::Flush) => true,
        (WriterOperation::TryFlush, WriterOperation::TryFlush) => true,
        (WriterOperation::BuildGraph, WriterOperation::BuildGraph) => true,
        _ => false,
    }
}

} // verus!
