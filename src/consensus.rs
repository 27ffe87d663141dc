use vstd::prelude::*;

verus! {

/// Failures of block validation and creation.
#[derive(Debug, Clone)]
pub enum ConsensusError {
    ValidationError(String),
    BlockCreationError(String),
    TransactionError(String),
    NetworkError(String),
}

/// Most transactions in one block.
pub const MAX_BLOCK_SIZE: usize = 1000;

/// Leading zero bits of one byte.
pub open spec fn byte_leading_zeros(b: u8) -> nat {
    if b >= 128 {
        0
    } else if b >= 64 {
        1
    } else if b >= 32 {
        2
    } else if b >= 16 {
        3
    } else if b >= 8 {
        4
    } else if b >= 4 {
        5
    } else if b >= 2 {
        6
    } else if b >= 1 {
        7
    } else {
        8
    }
}

/// Leading zero bits of a byte string: whole zero bytes, then the zero bits
/// of the first non-zero byte.
pub open spec fn leading_zero_bits(h: Seq<u8>) -> nat
    decreases h.len(),
{
    if h.len() == 0 {
        0
    } else if h[0] == 0 {
        8 + leading_zero_bits(h.drop_first())
    } else {
        byte_leading_zeros(h[0])
    }
}

fn leading_zeros_of(b: u8) -> (r: u64)
    ensures
        r == byte_leading_zeros(b),
{
    if b >= 128 {
        0
    } else if b >= 64 {
        1
    } else if b >= 32 {
        2
    } else if b >= 16 {
        3
    } else if b >= 8 {
        4
    } else if b >= 4 {
        5
    } else if b >= 2 {
        6
    } else if b >= 1 {
        7
    } else {
        8
    }
}

/// Proof of work: a block's hash must start with enough zero bits.
pub struct ProofOfWork {
    difficulty: u64,
    max_block_size: usize,
}

impl ProofOfWork {
    pub closed spec fn spec_difficulty(&self) -> u64 {
        self.difficulty
    }

    /// Proof of work at `difficulty` leading zero bits.
    pub fn new(difficulty: u64) -> (r: Self)
        ensures
            r.spec_difficulty() == difficulty,
    {
        ProofOfWork { difficulty, max_block_size: MAX_BLOCK_SIZE }
    }

    /// The required number of leading zero bits.
    pub fn get_difficulty(&self) -> (r: u64)
        ensures
            r == self.spec_difficulty(),
    {
        self.difficulty
    }

    /// Whether `hash` starts with at least `difficulty` zero bits.
    pub fn check_difficulty(&self, hash: &[u8], difficulty: u64) -> (r: bool)
        ensures
            r == (leading_zero_bits(hash@) >= difficulty),
    {
        let mut count: u128 = 0;
        let mut i: usize = 0;
        let n = hash.len();
        assert(hash@.skip(0) =~= hash@);
        while i < n
            invariant
                0 <= i <= hash@.len(),
                n == hash@.len(),
                count == 8 * i,
                forall|j: int| 0 <= j < i ==> hash@[j] == 0,
                leading_zero_bits(hash@) == count + leading_zero_bits(hash@.skip(i as int)),
            decreases hash@.len() - i,
        {
            assert(hash@.skip(i as int).drop_first() =~= hash@.skip(i + 1));
            assert(hash@.skip(i as int)[0] == hash@[i as int]);
            let zeros = leading_zeros_of(hash[i]);
            if zeros < 8 {
                return count + zeros as u128 >= difficulty as u128;
            }
            count = count + 8;
            i = i + 1;
        }
        assert(hash@.skip(i as int).len() == 0);
        count >= difficulty as u128
    }
}

/// Proof of stake: a validator must hold at least the minimum stake.
pub struct ProofOfStake {
    min_stake: u64,
    max_block_size: usize,
}

impl ProofOfStake {
    pub closed spec fn spec_min_stake(&self) -> u64 {
        self.min_stake
    }

    /// Proof of stake with a minimum stake of `min_stake`.
    pub fn new(min_stake: u64) -> (r: Self)
        ensures
            r.spec_min_stake() == min_stake,
    {
        ProofOfStake { min_stake, max_block_size: MAX_BLOCK_SIZE }
    }

    /// Whether `stake_amount` reaches the minimum stake.
    pub fn validate_stake(&self, stake_amount: u64) -> (r: bool)
        ensures
            r == (stake_amount >= self.spec_min_stake()),
    {
        stake_amount >= self.min_stake
    }

    /// Under proof of stake the difficulty is the minimum stake.
    pub fn get_difficulty(&self) -> (r: u64)
        ensures
            r == self.spec_min_stake(),
    {
        self.min_stake
    }
}

} // verus!
