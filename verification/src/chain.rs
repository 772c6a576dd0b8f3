//! The local blockchain mirror and its two-phase block iterator.
//!
//! The mirror keeps the chain in two physical shapes: historical blocks
//! are compacted into immutable per-epoch packs, while the recent,
//! still-mutable tail is kept as individually addressable loose blocks.
//! The iterator hides that seam: it yields the ordered blocks from one
//! hash to another, inclusive on both ends, reading the packed range
//! first and switching to the loose range when the packs are exhausted.
//! Blocks themselves are decoded by a collaborator outside the library;
//! the mirror holds them as plain records of hash, parent hash, date and
//! body bytes.

use vstd::prelude::*;

use crate::bytes::{bytes_eq, copy_bytes};
use crate::ptr::{BlockDate, HASH_SIZE};

verus! {

/// Mathematical value of a [`Block`].
pub ghost struct BlockV {
    pub hash: Seq<u8>,
    pub prev: Seq<u8>,
    pub date: BlockDate,
    pub body: Seq<u8>,
}

/// One block of the mirrored chain: its hash, its parent's hash, its date
/// and its body bytes.
#[derive(Clone, Debug, PartialEq, Eq)]
pub struct Block {
    pub hash: Vec<u8>,
    pub prev: Vec<u8>,
    pub date: BlockDate,
    pub body: Vec<u8>,
}

impl View for Block {
    type V = BlockV;

    open spec fn view(&self) -> BlockV {
        BlockV { hash: self.hash@, prev: self.prev@, date: self.date, body: self.body@ }
    }
}

impl Block {
    /// A block is well formed when its hashes have the expected size.
    pub open spec fn wf(self) -> bool {
        self.hash@.len() == HASH_SIZE && self.prev@.len() == HASH_SIZE
    }

    /// Copies the block.
    pub fn duplicate(&self) -> (r: Block)
        ensures
            r@ == self@,
    {
        Block {
            hash: copy_bytes(&self.hash),
            prev: copy_bytes(&self.prev),
            date: self.date,
            body: copy_bytes(&self.body),
        }
    }
}

/// The views of a stored chain.
pub open spec fn spec_chain(s: Seq<Block>) -> Seq<BlockV> {
    Seq::new(s.len(), |i: int| s[i]@)
}

/// The first position holding the given hash, if any.
pub open spec fn spec_find_block(chain: Seq<BlockV>, hash: Seq<u8>) -> Option<int>
    decreases chain.len(),
{
    if chain.len() == 0 {
        None
    } else if chain[0].hash == hash {
        Some(0)
    } else {
        match spec_find_block(chain.skip(1), hash) {
            None => None,
            Some(i) => Some(i + 1),
        }
    }
}

/// The blocks the iterator yields for a range: from the block with the
/// first hash up to and including the block with the second, or to the end
/// of the chain when the second never appears.
pub open spec fn spec_iter_output(chain: Seq<BlockV>, from: Seq<u8>, to: Seq<u8>) -> Seq<BlockV> {
    match spec_find_block(chain, from) {
        None => Seq::empty(),
        Some(start) => match spec_find_block(chain.skip(start), to) {
            None => chain.skip(start),
            Some(d) => chain.subrange(start, start + d + 1),
        },
    }
}

/// A range whose two ends are the same resolvable hash yields exactly one
/// block: the block itself, never zero and never more.
pub proof fn lemma_same_ends_yield_one_block(chain: Seq<BlockV>, hash: Seq<u8>)
    requires
        spec_find_block(chain, hash) is Some,
    ensures
        spec_iter_output(chain, hash, hash).len() == 1,
        spec_iter_output(chain, hash, hash)[0].hash == hash,
{
    let start = spec_find_block(chain, hash).unwrap();
    lemma_find_block_some(chain, hash);
    assert(chain.skip(start)[0] == chain[start]);
    assert(spec_find_block(chain.skip(start), hash) == Some(0int));
    assert(spec_iter_output(chain, hash, hash) =~= chain.subrange(start, start + 1));
}

/// A found position indeed holds the hash, and nothing before it does.
pub proof fn lemma_find_block_some(chain: Seq<BlockV>, hash: Seq<u8>)
    requires
        spec_find_block(chain, hash) is Some,
    ensures
        0 <= spec_find_block(chain, hash).unwrap() < chain.len(),
        chain[spec_find_block(chain, hash).unwrap()].hash == hash,
        forall|j: int|
            0 <= j < spec_find_block(chain, hash).unwrap() ==> (#[trigger] chain[j]).hash != hash,
    decreases chain.len(),
{
    if chain.len() > 0 && chain[0].hash != hash {
        lemma_find_block_some(chain.skip(1), hash);
        assert(forall|j: int| 0 <= j < chain.skip(1).len() ==> (#[trigger] chain.skip(1)[j]) == chain[j + 1]);
        let i = spec_find_block(chain, hash).unwrap();
        assert forall|j: int| 0 <= j < i implies (#[trigger] chain[j]).hash != hash by {
            if j > 0 {
                assert(chain.skip(1)[j - 1] == chain[j]);
            }
        }
    }
}

/// A block found at `i` with no earlier block holding the hash is the
/// first one.
proof fn lemma_find_block_first(chain: Seq<BlockV>, hash: Seq<u8>, i: int)
    requires
        0 <= i < chain.len(),
        chain[i].hash == hash,
        forall|j: int| 0 <= j < i ==> (#[trigger] chain[j]).hash != hash,
    ensures
        spec_find_block(chain, hash) == Some(i),
    decreases i,
{
    if i > 0 {
        assert(chain.skip(1)[i - 1] == chain[i]);
        assert(forall|j: int| 0 <= j < i - 1 ==> (#[trigger] chain.skip(1)[j]) == chain[j + 1]);
        lemma_find_block_first(chain.skip(1), hash, i - 1);
    }
}

/// When no block holds the hash, the search comes back empty.
proof fn lemma_find_block_none(chain: Seq<BlockV>, hash: Seq<u8>)
    requires
        forall|j: int| 0 <= j < chain.len() ==> (#[trigger] chain[j]).hash != hash,
    ensures
        spec_find_block(chain, hash) is None,
    decreases chain.len(),
{
    if chain.len() > 0 {
        assert(forall|j: int| 0 <= j < chain.skip(1).len() ==> (#[trigger] chain.skip(1)[j]) == chain[j + 1]);
        lemma_find_block_none(chain.skip(1), hash);
    }
}

/// The local mirror: the chain in order. The first `packed_count` blocks
/// live in the immutable per-epoch packs; the rest are the loose tail.
#[derive(Debug)]
pub struct Storage {
    pub blocks: Vec<Block>,
    pub packed_count: usize,
}

impl Storage {
    /// Blocks well formed, packs a prefix of the chain, and no hash held
    /// twice.
    pub open spec fn wf(self) -> bool {
        &&& self.packed_count <= self.blocks@.len()
        &&& forall|i: int| 0 <= i < self.blocks@.len() ==> (#[trigger] self.blocks@[i]).wf()
        &&& forall|i: int, j: int|
            0 <= i < j < self.blocks@.len() ==> (#[trigger] spec_chain(self.blocks@)[i]).hash != (
            #[trigger] spec_chain(self.blocks@)[j]).hash
    }

    /// The chain the mirror holds.
    pub open spec fn spec_view_chain(self) -> Seq<BlockV> {
        spec_chain(self.blocks@)
    }

    /// A mirror over the given chain; the first `packed_count` blocks are
    /// the packed ones.
    pub fn new(blocks: Vec<Block>, packed_count: usize) -> (r: Storage)
        requires
            packed_count <= blocks@.len(),
        ensures
            r.blocks == blocks,
            r.packed_count == packed_count,
    {
        Storage { blocks, packed_count }
    }

    /// The position of the block with the given hash, if the mirror holds
    /// it.
    pub fn find_block(&self, hash: &Vec<u8>) -> (r: Option<usize>)
        ensures
            r matches Some(i) ==> i < self.blocks@.len() && spec_find_block(
                self.spec_view_chain(),
                hash@,
            ) == Some(i as int),
            r is None ==> spec_find_block(self.spec_view_chain(), hash@) is None,
    {
        let n = self.blocks.len();
        let mut i: usize = 0;
        while i < n
            invariant
                i <= n,
                n == self.blocks@.len(),
                forall|j: int| 0 <= j < i ==> (#[trigger] spec_chain(self.blocks@)[j]).hash != hash@,
            decreases n - i,
        {
            if bytes_eq(&self.blocks[i].hash, hash) {
                proof {
                    lemma_find_block_first(self.spec_view_chain(), hash@, i as int);
                }
                return Some(i);
            }
            i += 1;
        }
        proof {
            lemma_find_block_none(self.spec_view_chain(), hash@);
        }
        None
    }
}

/// Errors of opening a block range.
#[derive(Clone, Debug, PartialEq, Eq)]
pub enum IterError {
    /// The starting hash is nowhere in the mirror; carries it.
    InvalidBlockHash(Vec<u8>),
}

/// Which storage shape the iterator is currently reading.
#[derive(Clone, Copy, Debug, PartialEq, Eq, Structural)]
pub enum IterPhase {
    /// Reading out of the immutable epoch packs.
    Packed,
    /// Reading the loose tail.
    Loose,
}

/// An ordered walk of the mirrored chain between two hashes, inclusive on
/// both ends. It starts in the shape that holds the starting block and
/// switches from the packs to the loose tail when the packs run out; it
/// ends the instant the closing hash has been yielded, or at the end of
/// the chain when that hash never shows.
#[derive(Debug)]
pub struct Iter {
    pub starting_from: Vec<u8>,
    pub ending_at: Vec<u8>,
    pub phase: IterPhase,
    pub pos: usize,
    pub done: bool,
}

impl Iter {
    /// The position the walk started at.
    pub open spec fn spec_start(self, storage: Storage) -> int {
        spec_find_block(storage.spec_view_chain(), self.starting_from@).unwrap()
    }

    /// How many blocks the walk has yielded.
    pub open spec fn spec_emitted(self, storage: Storage) -> int {
        self.pos - self.spec_start(storage)
    }

    /// The walk's invariant against the mirror it reads.
    pub open spec fn wf(self, storage: Storage) -> bool {
        let chain = storage.spec_view_chain();
        &&& storage.wf()
        &&& spec_find_block(chain, self.starting_from@) is Some
        &&& self.spec_start(storage) <= self.pos <= chain.len()
        &&& (self.done ==> self.pos > self.spec_start(storage) && chain[self.pos - 1].hash
            == self.ending_at@ && (forall|j: int|
            self.spec_start(storage) <= j < self.pos - 1 ==> (#[trigger] chain[j]).hash
                != self.ending_at@))
        &&& (!self.done ==> forall|j: int|
            self.spec_start(storage) <= j < self.pos ==> (#[trigger] chain[j]).hash
                != self.ending_at@)
        &&& (self.phase is Packed ==> self.pos <= storage.packed_count)
    }

    /// Opens the walk from one hash to another. Fails fast, before any
    /// iteration, exactly when the starting hash is nowhere in the
    /// mirror. The walk starts in the packs when the starting block is
    /// packed, in the loose tail otherwise, and has yielded nothing yet.
    pub fn new(storage: &Storage, from: Vec<u8>, to: Vec<u8>) -> (r: Result<Iter, IterError>)
        requires
            storage.wf(),
        ensures
            r matches Ok(it) ==> {
                &&& it.wf(*storage)
                &&& it.spec_emitted(*storage) == 0
                &&& !it.done
                &&& it.starting_from@ == from@
                &&& it.ending_at@ == to@
            },
            r matches Err(IterError::InvalidBlockHash(h)) ==> h@ == from@ && spec_find_block(
                storage.spec_view_chain(),
                from@,
            ) is None,
            r is Err <==> spec_find_block(storage.spec_view_chain(), from@) is None,
    {
        match storage.find_block(&from) {
            None => Err(IterError::InvalidBlockHash(from)),
            Some(i) => {
                let phase = if i < storage.packed_count {
                    IterPhase::Packed
                } else {
                    IterPhase::Loose
                };
                let it = Iter { starting_from: from, ending_at: to, phase, pos: i, done: false };
                proof {
                    lemma_find_block_some(storage.spec_view_chain(), it.starting_from@);
                }
                Ok(it)
            },
        }
    }

    /// Yields the next block of the range, or nothing once the range is
    /// finished: the walk stops the instant the closing hash has been
    /// yielded, and otherwise runs to the end of the chain. The sequence
    /// of blocks yielded over the whole walk is exactly
    /// [`spec_iter_output`] for the walk's two hashes.
    pub fn next(&mut self, storage: &Storage) -> (r: Option<Block>)
        requires
            old(self).wf(*storage),
        ensures
            final(self).wf(*storage),
            final(self).starting_from@ == old(self).starting_from@,
            final(self).ending_at@ == old(self).ending_at@,
            ({
                let out = spec_iter_output(
                    storage.spec_view_chain(),
                    old(self).starting_from@,
                    old(self).ending_at@,
                );
                let emitted = old(self).spec_emitted(*storage);
                if emitted < out.len() {
                    r matches Some(b) && b@ == out[emitted] && final(self).spec_emitted(*storage)
                        == emitted + 1
                } else {
                    r is None && final(self).spec_emitted(*storage) == emitted
                }
            }),
    {
        let ghost chain = storage.spec_view_chain();
        let ghost start = self.spec_start(*storage);
        let ghost out = spec_iter_output(chain, self.starting_from@, self.ending_at@);
        proof {
            lemma_find_block_some(chain, self.starting_from@);
            if self.done {
                lemma_find_block_first(
                    chain.skip(start),
                    self.ending_at@,
                    self.pos - 1 - start,
                );
                assert(forall|j: int|
                    0 <= j < chain.skip(start).len() ==> (#[trigger] chain.skip(start)[j])
                        == chain[j + start]);
                assert(out =~= chain.subrange(start, self.pos as int));
            } else {
                assert(forall|j: int|
                    0 <= j < chain.skip(start).len() ==> (#[trigger] chain.skip(start)[j])
                        == chain[j + start]);
                match spec_find_block(chain.skip(start), self.ending_at@) {
                    None => {
                        assert(out == chain.skip(start));
                        assert(out.len() == chain.len() - start);
                    },
                    Some(d) => {
                        lemma_find_block_some(chain.skip(start), self.ending_at@);
                        assert(chain[start + d].hash == self.ending_at@);
                        assert(d >= self.pos - start);
                        assert(out.len() == d + 1);
                    },
                }
            }
        }
        if self.done {
            return None;
        }
        if self.pos >= storage.blocks.len() {
            return None;
        }
        let block = storage.blocks[self.pos].duplicate();
        if self.phase.is_packed() && self.pos + 1 >= storage.packed_count {
            // the packs are exhausted: switch to the loose tail, starting
            // right after the block just read
            self.phase = IterPhase::Loose;
        }
        self.pos = self.pos + 1;
        if bytes_eq(&block.hash, &self.ending_at) {
            self.done = true;
        }
        proof {
            assert(out[self.pos - 1 - start] == chain[self.pos - 1]);
        }
        Some(block)
    }
}

impl IterPhase {
    /// Whether the walk is still reading the packs.
    pub fn is_packed(&self) -> (r: bool)
        ensures
            r == (self is Packed),
    {
        match self {
            IterPhase::Packed => true,
            IterPhase::Loose => false,
        }
    }
}

} // verus!
