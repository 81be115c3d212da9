use crate::error::OreoError;
use crate::reconcile::{Report, ReportView};
use crate::text::same;
use vstd::prelude::*;

verus! {

/// What names a block: its sequence and its hash.
#[derive(Debug, PartialEq, Eq)]
pub struct BlockIdentifier {
    pub index: i64,
    pub hash: String,
}

/// What the node answers when asked for its latest block: the block at its
/// head, and the genesis block of the network it serves.
#[derive(Debug, PartialEq, Eq)]
pub struct LatestBlock {
    pub current_block_identifier: BlockIdentifier,
    pub genesis_block_identifier: BlockIdentifier,
}

/// Checks that the node serves the expected network: the genesis hash it
/// reports has to be the expected one. A mismatch is fatal.
pub fn check_genesis(expected: &str, latest: &LatestBlock) -> (r: Result<(), OreoError>)
    ensures
        r == (if latest.genesis_block_identifier.hash@ == expected@ {
            Ok::<(), OreoError>(())
        } else {
            Err::<(), OreoError>(OreoError::Fatal)
        }),
{
    if same(latest.genesis_block_identifier.hash.as_str(), expected) {
        Ok(())
    } else {
        Err(OreoError::Fatal)
    }
}

/// The sequence of the genesis block.
pub const GENESIS_SEQUENCE: i64 = 1;

/// Whether the chain `c`, given by the hashes of its blocks from the genesis
/// block on, has a block at `sequence`.
pub open spec fn chain_has(c: Seq<Seq<char>>, sequence: int) -> bool {
    GENESIS_SEQUENCE <= sequence < GENESIS_SEQUENCE + c.len()
}

/// The hash of the block of the chain `c` at `sequence`.
pub open spec fn chain_hash(c: Seq<Seq<char>>, sequence: int) -> Seq<char> {
    c[sequence - GENESIS_SEQUENCE]
}

/// The hash that the block of the chain `c` at `sequence` names as its
/// parent: the hash of the block before it, and the empty hash for the
/// genesis block.
pub open spec fn chain_parent(c: Seq<Seq<char>>, sequence: int) -> Seq<char> {
    if sequence == GENESIS_SEQUENCE {
        Seq::empty()
    } else {
        chain_hash(c, sequence - 1)
    }
}

/// Whether the block at `sequence` with the hash `hash` is on the chain `c`.
pub open spec fn canonical(c: Seq<Seq<char>>, sequence: int, hash: Seq<char>) -> bool {
    chain_has(c, sequence) && chain_hash(c, sequence) == hash
}

/// What a `Block` holds, as mathematical values.
pub struct BlockView {
    pub sequence: i64,
    pub hash: Seq<char>,
    pub previous_block_hash: Seq<char>,
}

/// One block as the node hands it out: its sequence, its hash, and the hash
/// of the block before it.
#[derive(Debug, PartialEq, Eq)]
pub struct Block {
    pub sequence: i64,
    pub hash: String,
    pub previous_block_hash: String,
}

impl View for Block {
    type V = BlockView;

    open spec fn view(&self) -> BlockView {
        BlockView {
            sequence: self.sequence,
            hash: self.hash@,
            previous_block_hash: self.previous_block_hash@,
        }
    }
}

/// The block of the chain `c` at `sequence`.
pub open spec fn chain_block(c: Seq<Seq<char>>, sequence: int) -> BlockView {
    BlockView {
        sequence: sequence as i64,
        hash: chain_hash(c, sequence),
        previous_block_hash: chain_parent(c, sequence),
    }
}

/// What a worker that scans for `address` reports of `block`.
pub open spec fn report_of(address: Seq<char>, block: BlockView) -> ReportView {
    ReportView {
        address: address,
        sequence: block.sequence,
        hash: block.hash,
        parent_hash: block.previous_block_hash,
    }
}

/// What a worker that scans for `address` reports of `block`.
pub fn report_for(address: &str, block: &Block) -> (r: Report)
    ensures
        r@ == report_of(address@, block@),
{
    Report {
        address: address.to_owned(),
        sequence: block.sequence,
        hash: block.hash.clone(),
        parent_hash: block.previous_block_hash.clone(),
    }
}

/// A chain held in memory, which stands for the node: the hashes of its
/// blocks from the genesis block, at `GENESIS_SEQUENCE`, up to the head.
pub struct Chain {
    hashes: Vec<String>,
}

impl View for Chain {
    type V = Seq<Seq<char>>;

    closed spec fn view(&self) -> Seq<Seq<char>> {
        Seq::new(self.hashes@.len(), |i: int| self.hashes@[i]@)
    }
}

impl Chain {
    /// Whether the chain is in order: it has a genesis block, and its head
    /// has a sequence.
    pub open spec fn inv(&self) -> bool {
        0 < self@.len() < i64::MAX
    }

    /// The chain that has the genesis block alone.
    pub fn new(genesis_hash: String) -> (r: Chain)
        ensures
            r.inv(),
            r@ == seq![genesis_hash@],
    {
        let mut hashes: Vec<String> = Vec::new();
        hashes.push(genesis_hash);
        let r = Chain { hashes: hashes };
        proof {
            assert(r@ =~= seq![genesis_hash@]);
        }
        r
    }

    /// The sequence of the head.
    pub fn head(&self) -> (r: i64)
        requires
            self.inv(),
        ensures
            r == self@.len(),
    {
        self.hashes.len() as i64
    }

    /// Puts a block with the hash `hash` on top of the head. Nothing changes
    /// where the head has the highest sequence there is.
    pub fn extend(&mut self, hash: String) -> (r: bool)
        requires
            old(self).inv(),
        ensures
            final(self).inv(),
            r == (old(self)@.len() + 1 < i64::MAX),
            final(self)@ == (if r {
                old(self)@.push(hash@)
            } else {
                old(self)@
            }),
    {
        if self.hashes.len() as u64 + 1 >= i64::MAX as u64 {
            return false;
        }
        self.hashes.push(hash);
        proof {
            assert(self@ =~= old(self)@.push(hash@));
        }
        true
    }

    /// Takes the blocks above `sequence` off the chain, as a reorganisation
    /// of the chain does before it puts other blocks in their place. The
    /// genesis block stays whatever `sequence` is, and nothing changes where
    /// `sequence` is at or above the head.
    pub fn cut_back(&mut self, sequence: i64)
        requires
            old(self).inv(),
        ensures
            final(self).inv(),
            final(self)@ == (if sequence < GENESIS_SEQUENCE {
                old(self)@.subrange(0, 1)
            } else if sequence < old(self)@.len() {
                old(self)@.subrange(0, sequence as int)
            } else {
                old(self)@
            }),
    {
        if sequence < GENESIS_SEQUENCE {
            self.hashes.truncate(1);
            proof {
                assert(self@ =~= old(self)@.subrange(0, 1));
            }
        } else if (sequence as u64) < self.hashes.len() as u64 {
            self.hashes.truncate(sequence as usize);
            proof {
                assert(self@ =~= old(self)@.subrange(0, sequence as int));
            }
        }
    }

    /// The node's latest block and the genesis block.
    pub fn latest_block(&self) -> (r: LatestBlock)
        requires
            self.inv(),
        ensures
            r.current_block_identifier.index == self@.len(),
            r.current_block_identifier.hash@ == chain_hash(self@, self@.len() as int),
            r.genesis_block_identifier.index == GENESIS_SEQUENCE,
            r.genesis_block_identifier.hash@ == chain_hash(self@, GENESIS_SEQUENCE as int),
    {
        let n = self.hashes.len();
        LatestBlock {
            current_block_identifier: BlockIdentifier {
                index: n as i64,
                hash: self.hashes[n - 1].clone(),
            },
            genesis_block_identifier: BlockIdentifier {
                index: GENESIS_SEQUENCE,
                hash: self.hashes[0].clone(),
            },
        }
    }

    /// The block at `sequence`. A sequence at which the chain has no block
    /// is not found.
    pub fn block_at(&self, sequence: i64) -> (r: Result<Block, OreoError>)
        requires
            self.inv(),
        ensures
            match r {
                Ok(block) => chain_has(self@, sequence as int) && block@ == chain_block(
                    self@,
                    sequence as int,
                ),
                Err(e) => e == OreoError::NotFound && !chain_has(self@, sequence as int),
            },
    {
        if sequence < GENESIS_SEQUENCE || sequence as u64 > self.hashes.len() as u64 {
            return Err(OreoError::NotFound);
        }
        let i: usize = (sequence - GENESIS_SEQUENCE) as usize;
        let parent = if i == 0 {
            String::new()
        } else {
            self.hashes[i - 1].clone()
        };
        Ok(Block { sequence: sequence, hash: self.hashes[i].clone(), previous_block_hash: parent })
    }
}

} // verus!
