use vstd::prelude::*;

verus! {

/// The BLAKE3 digest of a byte string.
pub uninterp spec fn blake3_of(data: Seq<u8>) -> Seq<u8>;

/// Relies on blake3's `hash`: the 32-byte BLAKE3 digest of `data`, which
/// depends on the bytes alone.
#[verifier::external_body]
pub(crate) fn blake3_hash(data: &[u8]) -> (r: [u8; 32])
    ensures
        r@ == blake3_of(data@),
{
    *blake3::hash(data).as_bytes()
}

/// The lowercase hexadecimal digit of a value below 16.
pub open spec fn hex_digit(n: u8) -> char {
    seq!['0', '1', '2', '3', '4', '5', '6', '7', '8', '9', 'a', 'b', 'c', 'd', 'e', 'f'][n as int]
}

/// Two lowercase hexadecimal digits per byte, high digit first.
pub open spec fn hex_of(b: Seq<u8>) -> Seq<char>
    decreases b.len(),
{
    if b.len() == 0 {
        Seq::empty()
    } else {
        hex_of(b.drop_last()) + seq![hex_digit(b.last() / 16), hex_digit(b.last() % 16)]
    }
}

/// Relies on hex's `encode`: two lowercase hexadecimal digits for each byte,
/// high digit first.
#[verifier::external_body]
pub(crate) fn hex_encode(b: &[u8]) -> (r: String)
    ensures
        r@ == hex_of(b@),
{
    hex::encode(b)
}

/// A 32-byte BLAKE3 digest.
#[derive(Clone, Debug, Eq, Hash)]
pub struct Hash(pub [u8; 32]);

impl PartialEq for Hash {
    fn eq(&self, o: &Hash) -> (r: bool) {
        crate::table::addr_eq(&self.0, &o.0)
    }
}

impl vstd::std_specs::cmp::PartialEqSpecImpl for Hash {
    open spec fn obeys_eq_spec() -> bool {
        true
    }

    open spec fn eq_spec(&self, o: &Hash) -> bool {
        self.0 == o.0
    }
}

impl Hash {
    /// The BLAKE3 digest of `data`.
    pub fn new(data: &[u8]) -> (r: Hash)
        ensures
            r.0@ == blake3_of(data@),
    {
        Hash(blake3_hash(data))
    }

    /// The digest's bytes.
    pub fn to_bytes(&self) -> (r: &[u8])
        ensures
            r@ == self.0@,
    {
        self.0.as_slice()
    }

    /// The digest in lowercase hexadecimal.
    pub fn to_hex(&self) -> (r: String)
        ensures
            r@ == hex_of(self.0@),
    {
        hex_encode(self.0.as_slice())
    }
}

/// A signature's bytes.
#[derive(Clone, Debug)]
pub struct Signature(pub Vec<u8>);

impl Signature {
    /// The signature's bytes.
    pub fn to_bytes(&self) -> (r: &[u8])
        ensures
            r@ == self.0@,
    {
        self.0.as_slice()
    }
}

} // verus!
