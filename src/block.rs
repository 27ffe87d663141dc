use vstd::prelude::*;
use crate::bytes::{le32, le64, push_all, push_le32, push_le64};
use crate::crypto::blake3_of;
use crate::transaction::Transaction;

verus! {

/// Seconds since the Unix epoch of the genesis block: 2022-01-01 00:00:00 UTC.
pub const GENESIS_TIMESTAMP: u64 = 1640995200;

/// The header of a block.
#[derive(Debug, Clone)]
pub struct BlockHeader {
    pub version: u32,
    pub timestamp: u64,
    pub prev_hash: crate::crypto::Hash,
    pub merkle_root: crate::crypto::Hash,
    pub difficulty: u32,
    pub nonce: u64,
}

/// A block: header, transactions, and the hash that seals them.
#[derive(Debug, Clone)]
pub struct Block {
    pub header: BlockHeader,
    pub transactions: Vec<Transaction>,
    pub hash: crate::crypto::Hash,
}

/// The digest of 32 zero bytes, which stands for "no hash".
pub open spec fn zero_digest() -> Seq<u8> {
    blake3_of(Seq::new(32, |i: int| 0u8))
}

/// The hashes of the transactions, in order.
pub open spec fn tx_hashes(txs: Seq<Transaction>) -> Seq<Seq<u8>> {
    txs.map_values(|t: Transaction| t.hash.0@)
}

/// One level up the Merkle tree: each pair hashed together, an odd last hash
/// paired with itself.
pub open spec fn merkle_level(h: Seq<Seq<u8>>) -> Seq<Seq<u8>> {
    Seq::new(
        ((h.len() + 1) / 2) as nat,
        |k: int|
            blake3_of(
                h[2 * k] + if 2 * k + 1 < h.len() {
                    h[2 * k + 1]
                } else {
                    h[2 * k]
                },
            ),
    )
}

/// The Merkle root of a list of hashes; the zero digest for none.
pub open spec fn merkle_of(h: Seq<Seq<u8>>) -> Seq<u8>
    decreases h.len(),
{
    if h.len() == 0 {
        zero_digest()
    } else if h.len() == 1 {
        h[0]
    } else {
        merkle_of(merkle_level(h))
    }
}

/// Concatenated hashes.
pub open spec fn concat_hashes(h: Seq<Seq<u8>>) -> Seq<u8>
    decreases h.len(),
{
    if h.len() == 0 {
        Seq::empty()
    } else {
        concat_hashes(h.drop_last()) + h.last()
    }
}

/// What a block's hash covers: the header fields and the transaction hashes.
pub open spec fn block_bytes(b: Block) -> Seq<u8> {
    le32(b.header.version) + le64(b.header.timestamp) + b.header.prev_hash.0@
        + b.header.merkle_root.0@ + le32(b.header.difficulty) + le64(b.header.nonce)
        + concat_hashes(tx_hashes(b.transactions@))
}

/// The first `n` bytes read as a big-endian number, truncated to 128 bits.
pub open spec fn prefix_value(h: Seq<u8>, n: nat) -> u128
    decreases n,
{
    if n == 0 {
        0
    } else {
        ((prefix_value(h, (n - 1) as nat) << 8u128) | (h[n - 1] as u128)) as u128
    }
}

/// The largest hash prefix that meets `difficulty`: 2^(128 - difficulty) - 1.
pub open spec fn pow_target(difficulty: u32) -> u128 {
    ((1u128 << ((128 - difficulty) as u128)) - 1) as u128
}

/// The first 16 bytes of the hash, as a number, are within the target.
pub open spec fn meets_target(h: Seq<u8>, difficulty: u32) -> bool {
    prefix_value(h, 16) <= pow_target(difficulty)
}

fn zero_hash() -> (r: crate::crypto::Hash)
    ensures
        r.0@ == zero_digest(),
{
    let zeros = [0u8; 32];
    assert(zeros@ =~= Seq::new(32, |i: int| 0u8));
    crate::crypto::Hash::new(&zeros)
}

fn target_for(difficulty: u32) -> (r: u128)
    requires
        1 <= difficulty <= 128,
    ensures
        r == pow_target(difficulty),
{
    let n: u128 = (128 - difficulty) as u128;
    assert(1u128 << n >= 1) by (bit_vector)
        requires
            n < 128,
    ;
    (1u128 << n) - 1
}

fn hash_prefix(h: &crate::crypto::Hash) -> (r: u128)
    ensures
        r == prefix_value(h.0@, 16),
{
    let mut value: u128 = 0;
    let mut i: usize = 0;
    while i < 16
        invariant
            0 <= i <= 16,
            h.0@.len() == 32,
            value == prefix_value(h.0@, i as nat),
        decreases 16 - i,
    {
        value = (value << 8u128) | (h.0[i] as u128);
        i = i + 1;
    }
    value
}

impl Block {
    /// The Merkle root of the transactions' hashes.
    pub fn calculate_merkle_root(transactions: &Vec<Transaction>) -> (r: crate::crypto::Hash)
        ensures
            r.0@ == merkle_of(tx_hashes(transactions@)),
    {
        if transactions.len() == 0 {
            return zero_hash();
        }
        let mut hashes: Vec<crate::crypto::Hash> = Vec::new();
        let mut i: usize = 0;
        while i < transactions.len()
            invariant
                0 <= i <= transactions@.len(),
                hashes@.len() == i,
                forall|j: int| 0 <= j < i ==> hashes@[j].0@ == transactions@[j].hash.0@,
            decreases transactions@.len() - i,
        {
            hashes.push(crate::crypto::Hash(transactions[i].hash.0));
            i = i + 1;
        }
        let ghost root = merkle_of(tx_hashes(transactions@));
        assert(hashes@.map_values(|h: crate::crypto::Hash| h.0@) =~= tx_hashes(transactions@));
        while hashes.len() > 1
            invariant
                hashes@.len() >= 1,
                merkle_of(hashes@.map_values(|h: crate::crypto::Hash| h.0@)) == root,
            decreases hashes@.len(),
        {
            let ghost hv = hashes@.map_values(|h: crate::crypto::Hash| h.0@);
            let n = hashes.len();
            let mut next: Vec<crate::crypto::Hash> = Vec::new();
            let mut k: usize = 0;
            while k < n - k
                invariant
                    k <= n,
                    n == hashes@.len(),
                    n >= 2,
                    hv == hashes@.map_values(|h: crate::crypto::Hash| h.0@),
                    0 <= k <= (n + 1) / 2,
                    2 * k <= n + 1,
                    next@.len() == k,
                    forall|j: int| 0 <= j < k ==> next@[j].0@ == merkle_level(hv)[j],
                decreases n - k,
            {
                let left = &hashes[2 * k];
                let right = if 2 * k + 1 < n {
                    &hashes[2 * k + 1]
                } else {
                    &hashes[2 * k]
                };
                let mut data: Vec<u8> = Vec::new();
                push_all(&mut data, left.to_bytes());
                push_all(&mut data, right.to_bytes());
                next.push(crate::crypto::Hash::new(data.as_slice()));
                k = k + 1;
            }
            assert(next@.map_values(|h: crate::crypto::Hash| h.0@) =~= merkle_level(hv));
            hashes = next;
        }
        let ghost hv = hashes@.map_values(|h: crate::crypto::Hash| h.0@);
        assert(hv.len() == 1 && hv[0] == hashes@[0].0@);
        crate::crypto::Hash(hashes[0].0)
    }

    /// The BLAKE3 digest of the header fields and the transaction hashes.
    pub fn calculate_hash(&self) -> (r: crate::crypto::Hash)
        ensures
            r.0@ == blake3_of(block_bytes(*self)),
    {
        let mut data: Vec<u8> = Vec::new();
        push_le32(&mut data, self.header.version);
        push_le64(&mut data, self.header.timestamp);
        push_all(&mut data, self.header.prev_hash.to_bytes());
        push_all(&mut data, self.header.merkle_root.to_bytes());
        push_le32(&mut data, self.header.difficulty);
        push_le64(&mut data, self.header.nonce);
        let ghost head = data@;
        let ghost hs = tx_hashes(self.transactions@);
        let mut i: usize = 0;
        while i < self.transactions.len()
            invariant
                hs == tx_hashes(self.transactions@),
                0 <= i <= hs.len(),
                data@ == head + concat_hashes(hs.take(i as int)),
            decreases hs.len() - i,
        {
            assert(hs.take(i + 1).drop_last() =~= hs.take(i as int));
            push_all(&mut data, self.transactions[i].hash.to_bytes());
            assert(data@ =~= head + concat_hashes(hs.take(i + 1)));
            i = i + 1;
        }
        assert(hs.take(i as int) =~= hs);
        assert(data@ =~= block_bytes(*self));
        crate::crypto::Hash::new(data.as_slice())
    }

    /// A block made at `timestamp` over `transactions`, with its Merkle root
    /// and hash computed and a zero nonce.
    pub fn new(
        version: u32,
        prev_hash: crate::crypto::Hash,
        transactions: Vec<Transaction>,
        difficulty: u32,
        timestamp: u64,
    ) -> (r: Block)
        ensures
            r.header.version == version,
            r.header.timestamp == timestamp,
            r.header.prev_hash == prev_hash,
            r.header.merkle_root.0@ == merkle_of(tx_hashes(transactions@)),
            r.header.difficulty == difficulty,
            r.header.nonce == 0,
            r.transactions@ == transactions@,
            r.hash.0@ == blake3_of(block_bytes(r)),
    {
        let merkle_root = Self::calculate_merkle_root(&transactions);
        let mut block = Block {
            header: BlockHeader { version, timestamp, prev_hash, merkle_root, difficulty, nonce: 0 },
            transactions,
            hash: zero_hash(),
        };
        block.hash = block.calculate_hash();
        block
    }

    /// The first block: version 1, difficulty 1, no transactions, fixed time.
    pub fn genesis() -> (r: Block)
        ensures
            r.header.version == 1,
            r.header.timestamp == GENESIS_TIMESTAMP,
            r.header.prev_hash.0@ == zero_digest(),
            r.header.merkle_root.0@ == zero_digest(),
            r.header.difficulty == 1,
            r.header.nonce == 0,
            r.transactions@.len() == 0,
            r.hash.0@ == blake3_of(block_bytes(r)),
    {
        let mut block = Block {
            header: BlockHeader {
                version: 1,
                timestamp: GENESIS_TIMESTAMP,
                prev_hash: zero_hash(),
                merkle_root: zero_hash(),
                difficulty: 1,
                nonce: 0,
            },
            transactions: Vec::new(),
            hash: zero_hash(),
        };
        block.hash = block.calculate_hash();
        block
    }

    /// Searches nonces upward from the current one for a hash within the
    /// difficulty target; on success the block holds that nonce and hash.
    pub fn mine(&mut self) -> (r: bool)
        requires
            1 <= old(self).header.difficulty <= 128,
        ensures
            final(self).header.version == old(self).header.version,
            final(self).header.timestamp == old(self).header.timestamp,
            final(self).header.prev_hash == old(self).header.prev_hash,
            final(self).header.merkle_root == old(self).header.merkle_root,
            final(self).header.difficulty == old(self).header.difficulty,
            final(self).header.nonce >= old(self).header.nonce,
            final(self).transactions@ == old(self).transactions@,
            r ==> final(self).hash.0@ == blake3_of(block_bytes(*final(self))) && meets_target(
                final(self).hash.0@,
                final(self).header.difficulty,
            ),
            !r ==> final(self).hash == old(self).hash && final(self).header.nonce == u64::MAX,
    {
        let target = target_for(self.header.difficulty);
        while self.header.nonce < u64::MAX
            invariant
                self.header.version == old(self).header.version,
                self.header.timestamp == old(self).header.timestamp,
                self.header.prev_hash == old(self).header.prev_hash,
                self.header.merkle_root == old(self).header.merkle_root,
                self.header.difficulty == old(self).header.difficulty,
                self.header.nonce >= old(self).header.nonce,
                self.transactions@ == old(self).transactions@,
                self.hash == old(self).hash,
                target == pow_target(self.header.difficulty),
            decreases u64::MAX - self.header.nonce,
        {
            let hash = self.calculate_hash();
            if hash_prefix(&hash) <= target {
                self.hash = hash;
                return true;
            }
            self.header.nonce = self.header.nonce + 1;
        }
        false
    }

    /// The hash matches the contents, the Merkle root matches the
    /// transactions, and the hash is within the difficulty target.
    pub fn verify(&self) -> (r: bool)
        requires
            1 <= self.header.difficulty <= 128,
        ensures
            r == (self.hash.0@ == blake3_of(block_bytes(*self)) && self.header.merkle_root.0@
                == merkle_of(tx_hashes(self.transactions@)) && meets_target(
                self.hash.0@,
                self.header.difficulty,
            )),
    {
        let calculated = self.calculate_hash();
        if calculated != self.hash {
            proof {
                if calculated.0@ == self.hash.0@ {
                    assert(calculated.0 =~= self.hash.0);
                }
            }
            return false;
        }
        let target = target_for(self.header.difficulty);
        let value = hash_prefix(&self.hash);
        let merkle_root = Self::calculate_merkle_root(&self.transactions);
        if merkle_root != self.header.merkle_root {
            proof {
                if merkle_root.0@ == self.header.merkle_root.0@ {
                    assert(merkle_root.0 =~= self.header.merkle_root.0);
                }
            }
            return false;
        }
        value <= target
    }
}

} // verus!
