//! Read access to one stored vector, wherever the vector currently lives: in
//! the block that is being built, in a block that the caller borrows, or in a
//! block that a cache shares out.

use std::sync::Arc;
use vstd::prelude::*;

use crate::block::{StoredVector, VectorBlock, VectorBlockBuilder};

verus! {

/// One vector of a shared block.
pub struct VectorBlockAccessor {
    block: Arc<VectorBlock>,
    idx: usize,
}

impl VectorBlockAccessor {
    /// The block is well formed and holds the position.
    pub closed spec fn wf(&self) -> bool {
        &&& self.block.wf()
        &&& self.idx < self.block.items().len()
    }

    /// The vector that the accessor reads.
    pub closed spec fn item(&self) -> StoredVector {
        self.block.items()[self.idx as int]
    }

    /// An accessor of the vector at `idx` of `block`.
    pub fn new(block: Arc<VectorBlock>, idx: usize) -> (accessor: Self)
        requires
            block.wf(),
            idx < block.items().len(),
        ensures
            accessor.wf(),
            accessor.item() == block.items()[idx as int],
    {
        VectorBlockAccessor { block, idx }
    }

    /// The components of the vector.
    pub fn vec_ref(&self) -> (vec: &[u32])
        requires
            self.wf(),
        ensures
            vec@ == self.item().0,
    {
        self.block.vec_ref(self.idx)
    }

    /// The side information of the vector.
    pub fn info(&self) -> (info: &[u8])
        requires
            self.wf(),
        ensures
            info@ == self.item().1,
    {
        self.block.info(self.idx)
    }
}

/// One stored vector, read from whichever place holds it.
pub enum EnumVectorAccessor<'a> {
    /// A vector of the block under construction, by its offset in it.
    Builder(&'a VectorBlockBuilder, usize),
    /// A vector of a borrowed block, by its offset in it.
    BlockRef(&'a VectorBlock, usize),
    /// A vector of a shared block.
    BloclHolder(VectorBlockAccessor),
}

impl<'a> EnumVectorAccessor<'a> {
    /// The place is well formed and holds the position.
    pub open spec fn wf(&self) -> bool {
        match self {
            EnumVectorAccessor::Builder(builder, offset) => builder.wf() && *offset
                < builder.items().len(),
            EnumVectorAccessor::BlockRef(block, offset) => block.wf() && *offset
                < block.items().len(),
            EnumVectorAccessor::BloclHolder(accessor) => accessor.wf(),
        }
    }

    /// The vector that the accessor reads.
    pub open spec fn item(&self) -> StoredVector {
        match self {
            EnumVectorAccessor::Builder(builder, offset) => builder.items()[*offset as int],
            EnumVectorAccessor::BlockRef(block, offset) => block.items()[*offset as int],
            EnumVectorAccessor::BloclHolder(accessor) => accessor.item(),
        }
    }

    /// The components of the vector.
    pub fn vec_ref(&self) -> (vec: &[u32])
        requires
            self.wf(),
        ensures
            vec@ == self.item().0,
    {
        match self {
            EnumVectorAccessor::Builder(builder, offset) => builder.vec_ref(*offset),
            EnumVectorAccessor::BlockRef(block, offset) => block.vec_ref(*offset),
            EnumVectorAccessor::BloclHolder(accessor) => accessor.vec_ref(),
        }
    }

    /// The side information of the vector.
    pub fn info(&self) -> (info: &[u8])
        requires
            self.wf(),
        ensures
            info@ == self.item().1,
    {
        match self {
            EnumVectorAccessor::Builder(builder, offset) => builder.info(*offset),
            EnumVectorAccessor::BlockRef(block, offset) => block.info(*offset),
            EnumVectorAccessor::BloclHolder(accessor) => accessor.info(),
        }
    }
}

} // verus!
