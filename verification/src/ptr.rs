//! Block dates and state pointers.
//!
//! A state pointer names the last block whose effects are reflected in a
//! wallet state: its hash together with its date. A freshly created state
//! points "before genesis": it knows the genesis hash but no date yet.

use vstd::prelude::*;

verus! {

/// Number of bytes of a block or transaction hash.
pub const HASH_SIZE: usize = 32;

/// The date of a block: either the boundary block that opens an epoch, or
/// a normal block at a slot within its epoch.
#[derive(Clone, Copy, Debug, PartialEq, Eq, Structural)]
pub enum BlockDate {
    Boundary(u64),
    Normal { epoch: u64, slotid: u16 },
}

impl BlockDate {
    /// The epoch this date falls in.
    pub fn epoch(&self) -> (r: u64)
        ensures
            r == self.spec_epoch(),
    {
        match self {
            BlockDate::Boundary(e) => *e,
            BlockDate::Normal { epoch, slotid: _ } => *epoch,
        }
    }

    /// The epoch this date falls in.
    pub open spec fn spec_epoch(self) -> u64 {
        match self {
            BlockDate::Boundary(e) => e,
            BlockDate::Normal { epoch, slotid: _ } => epoch,
        }
    }
}

/// Mathematical value of a [`StatePtr`].
pub ghost struct StatePtrV {
    pub latest_addr: Option<BlockDate>,
    pub latest_known_hash: Seq<u8>,
}

/// Points at the last block whose effects are reflected in a state: the
/// block's hash, and its date when one is known. A pointer made before
/// genesis carries the genesis hash and no date.
#[derive(Clone, Debug, PartialEq, Eq)]
pub struct StatePtr {
    pub latest_addr: Option<BlockDate>,
    pub latest_known_hash: Vec<u8>,
}

impl View for StatePtr {
    type V = StatePtrV;

    open spec fn view(&self) -> StatePtrV {
        StatePtrV { latest_addr: self.latest_addr, latest_known_hash: self.latest_known_hash@ }
    }
}

impl StatePtr {
    /// A pointer is well formed when its hash has the expected size.
    pub open spec fn wf(self) -> bool {
        self.latest_known_hash@.len() == HASH_SIZE
    }

    /// Points at the block of the given date and hash.
    pub fn new(date: BlockDate, hash: Vec<u8>) -> (r: StatePtr)
        ensures
            r@ == (StatePtrV { latest_addr: Some(date), latest_known_hash: hash@ }),
    {
        StatePtr { latest_addr: Some(date), latest_known_hash: hash }
    }

    /// Points "before genesis": the genesis hash is known, no date yet.
    pub fn new_before_genesis(genesis_hash: Vec<u8>) -> (r: StatePtr)
        ensures
            r@ == (StatePtrV { latest_addr: None, latest_known_hash: genesis_hash@ }),
    {
        StatePtr { latest_addr: None, latest_known_hash: genesis_hash }
    }

    /// Copies the pointer.
    pub fn duplicate(&self) -> (r: StatePtr)
        ensures
            r@ == self@,
            r.wf() == self.wf(),
    {
        StatePtr {
            latest_addr: self.latest_addr,
            latest_known_hash: crate::bytes::copy_bytes(&self.latest_known_hash),
        }
    }

    /// The date of the pointed block; before genesis this is the boundary
    /// date of epoch `0`.
    pub fn latest_block_date(&self) -> (r: BlockDate)
        ensures
            r == self@.spec_latest_block_date(),
    {
        match &self.latest_addr {
            Some(date) => *date,
            None => BlockDate::Boundary(0),
        }
    }
}

impl StatePtrV {
    /// The date of the pointed block; before genesis this is the boundary
    /// date of epoch `0`.
    pub open spec fn spec_latest_block_date(self) -> BlockDate {
        match self.latest_addr {
            Some(date) => date,
            None => BlockDate::Boundary(0),
        }
    }
}

} // verus!
