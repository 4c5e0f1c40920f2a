//! The block service: the one example service of this crate, whose `load`
//! method answers with a block of the requested number.

use vstd::prelude::*;

verus! {

/// Size of the data that every block carries.
pub const BLOCK_SIZE: usize = 128;

/// A numbered block of data.
pub struct Block {
    pub number: u64,
    pub data: Vec<u8>,
}

/// The block service's own failure.
#[derive(Clone, Copy, Debug, PartialEq, Eq, Structural)]
pub enum BlockError {
    NoSuchBlock,
}

/// The local implementation of the block service.
pub struct ClientService;

impl ClientService {
    /// The block numbered `number`, with zeroed data.
    pub fn load(&self, number: u64) -> (r: Result<Block, BlockError>)
        ensures
            r matches Ok(b) && b.number == number && b.data@ == Seq::new(BLOCK_SIZE as nat, |i: int| 0u8),
    {
        let data = vec![0u8; BLOCK_SIZE];
        proof {
            assert(data@ =~= Seq::new(BLOCK_SIZE as nat, |i: int| 0u8));
        }
        Ok(Block { number, data })
    }
}

} // verus!
