//! Asking a module for the vectors nearest to a query among centroids.
use crate::ude_wasm::guest_call::CallError;
use vstd::prelude::*;

verus! {

/// What is asked of a module: the lengths of the centroids, of the query, and of
/// the ids and distances that it should give.
#[derive(Clone, Copy, Debug, PartialEq, Eq, Structural)]
pub struct MicroRequest {
    pub dims: u32,
    pub k_out: u32,
    pub centroids: usize,
    pub query: usize,
    pub out_ids: usize,
    pub out_dists: usize,
}

/// Why a module was not asked.
#[derive(Clone, Copy, Debug, PartialEq, Eq, Structural)]
pub enum MicroError {
    Call(CallError),
    NoSetShape,
    NoSearch,
}

impl MicroRequest {
    /// The length of block `i`.
    pub open spec fn block_len(self, i: int) -> usize {
        if i == 0 {
            self.centroids
        } else if i == 1 {
            self.query
        } else if i == 2 {
            self.out_ids
        } else {
            self.out_dists
        }
    }

    /// The length with which block `i` is taken.
    pub open spec fn next_size(self, i: int) -> Result<u32, MicroError> {
        if self.block_len(i) <= u32::MAX {
            Ok(self.block_len(i) as u32)
        } else {
            Err(MicroError::Call(CallError::InputTooLarge))
        }
    }

    /// The length with which the next block is taken, if `taken` have been.
    pub fn next_block(&self, taken: &Vec<u32>) -> (r: Result<u32, MicroError>)
        requires
            taken@.len() < 4,
        ensures
            r == self.next_size(taken@.len() as int),
    {
        let len: usize = match taken.len() {
            0 => self.centroids,
            1 => self.query,
            2 => self.out_ids,
            _ => self.out_dists,
        };
        if len as u64 <= 0xffff_ffff {
            Ok(len as u32)
        } else {
            Err(MicroError::Call(CallError::InputTooLarge))
        }
    }

    /// The arguments of the first call once all blocks have been taken and filled,
    /// which is made if the module has such a function: where the centroids are.
    pub fn init_args(&self, blocks: &Vec<u32>) -> (r: (u32, u32, u32, u32, u32))
        requires
            blocks@.len() == 4,
            self.centroids <= u32::MAX,
        ensures
            r == (blocks@[0], self.centroids as u32, 0u32, 0u32, 0u32),
    {
        (blocks[0], self.centroids as u32, 0, 0, 0)
    }

    /// The calls that follow.
    pub open spec fn calls(self, blocks: Seq<u32>) -> MicroCalls {
        MicroCalls {
            set_shape: (self.dims, ((self.centroids as u32) / self.dims) as u32),
            search: (blocks[1], self.dims, self.k_out, blocks[2], blocks[3]),
        }
    }

    /// The calls that follow, if the module has the functions.
    pub fn plan_calls(&self, blocks: &Vec<u32>, has_set_shape: bool, has_search: bool) -> (r: Result<
        MicroCalls,
        MicroError,
    >)
        requires
            blocks@.len() == 4,
            self.centroids <= u32::MAX,
            self.dims > 0,
        ensures
            !has_set_shape ==> r == Err::<MicroCalls, MicroError>(MicroError::NoSetShape),
            has_set_shape && !has_search ==> r == Err::<MicroCalls, MicroError>(
                MicroError::NoSearch,
            ),
            has_set_shape && has_search ==> r == Ok::<MicroCalls, MicroError>(
                self.calls(blocks@),
            ),
    {
        if !has_set_shape {
            return Err(MicroError::NoSetShape);
        }
        if !has_search {
            return Err(MicroError::NoSearch);
        }
        let centroids: u32 = self.centroids as u32;
        Ok(
            MicroCalls {
                set_shape: (self.dims, centroids / self.dims),
                search: (blocks[1], self.dims, self.k_out, blocks[2], blocks[3]),
            },
        )
    }
}

/// The arguments of the calls that search.
#[derive(Clone, Copy, Debug)]
pub struct MicroCalls {
    pub set_shape: (u32, u32),
    pub search: (u32, u32, u32, u32, u32),
}

/// Notes a block that was taken.
pub fn note_block(blocks: &mut Vec<u32>, ptr: u32) -> (r: Result<(), MicroError>)
    ensures
        ptr == 0 ==> r == Err::<(), MicroError>(MicroError::Call(CallError::NoMemory))
            && final(blocks)@ == old(blocks)@,
        ptr != 0 ==> r == Ok::<(), MicroError>(()) && final(blocks)@ == old(blocks)@.push(ptr),
{
    if ptr == 0 {
        return Err(MicroError::Call(CallError::NoMemory));
    }
    blocks.push(ptr);
    Ok(())
}

} // verus!
