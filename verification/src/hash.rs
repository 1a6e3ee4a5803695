//! Blake3 digests, and the identities of peers, which are digests of their
//! long-lived public keys.

use crate::unit::put_bytes;
use vstd::prelude::*;
use vstd::std_specs::cmp::PartialEqSpecImpl;
use vstd::std_specs::convert::FromSpecImpl;

verus! {

/// The number of bytes of a digest.
pub const HASH_LENGTH: usize = 32;

/// The Blake3 digest of a byte string: 32 bytes that depend on the input alone.
pub uninterp spec fn blake3_digest(input: Seq<u8>) -> Seq<u8>;

/// `blake3::hash`: the regular Blake3 hash function, which gives the 32-byte
/// digest of the input and never fails.
#[verifier::external_body]
fn blake3_hash(input: &[u8]) -> (digest: [u8; 32])
    ensures
        digest@ == blake3_digest(input@),
{
    blake3::hash(input).into()
}

/// A 32-byte Blake3 digest.
#[derive(Clone, Copy, Debug, Eq, Hash)]
pub struct Hash {
    bytes: [u8; 32],
}

impl Hash {
    /// The 32 bytes of the digest.
    pub closed spec fn view(&self) -> Seq<u8> {
        self.bytes@
    }

    /// The digest's bytes.
    pub fn to_bytes(&self) -> (bytes: [u8; 32])
        ensures
            bytes@ == self@,
    {
        self.bytes
    }

    /// True when the two digests have the same bytes.
    pub fn same(&self, other: &Hash) -> (same: bool)
        ensures
            same == (self@ == other@),
    {
        let mut i: usize = 0;
        while i < 32
            invariant
                i <= 32,
                forall|j: int| 0 <= j < i ==> self.bytes@[j] == other.bytes@[j],
            decreases 32 - i,
        {
            if self.bytes[i] != other.bytes[i] {
                return false;
            }
            i += 1;
        }
        assert(self.bytes@ =~= other.bytes@);
        true
    }

    /// The digest in lower-case hexadecimal, 64 ASCII characters.
    pub fn to_hex(&self) -> (hex: Vec<u8>)
        ensures
            hex@ == hex_of(self@),
    {
        let mut hex: Vec<u8> = Vec::new();
        let mut i: usize = 0;
        while i < 32
            invariant
                i <= 32,
                hex@ == hex_of(self.bytes@.take(i as int)),
            decreases 32 - i,
        {
            let byte: u8 = self.bytes[i];
            proof {
                let grown = self.bytes@.take(i as int + 1);
                assert(grown.drop_last() =~= self.bytes@.take(i as int));
                assert(grown.last() == byte);
                assert(byte >> 4 < 16 && byte & 0xf < 16) by (bit_vector);
            }
            hex.push(hex_digit_of(byte >> 4));
            hex.push(hex_digit_of(byte & 0xf));
            i += 1;
        }
        assert(self.bytes@.take(32) =~= self.bytes@);
        hex
    }
}

/// The lower-case hexadecimal digit of a value below 16, in ASCII.
pub open spec fn hex_digit(nibble: u8) -> u8 {
    if nibble < 10 {
        (48 + nibble) as u8
    } else {
        (87 + nibble) as u8
    }
}

/// Two lower-case hexadecimal digits for each byte, the high one first.
pub open spec fn hex_of(bytes: Seq<u8>) -> Seq<u8>
    decreases bytes.len(),
{
    if bytes.len() == 0 {
        Seq::empty()
    } else {
        hex_of(bytes.drop_last()).push(hex_digit(bytes.last() >> 4)).push(hex_digit(bytes.last() & 0xf))
    }
}

fn hex_digit_of(nibble: u8) -> (digit: u8)
    requires
        nibble < 16,
    ensures
        digit == hex_digit(nibble),
{
    if nibble < 10 {
        48 + nibble
    } else {
        87 + nibble
    }
}

impl PartialEq for Hash {
    fn eq(&self, other: &Hash) -> (equal: bool) {
        self.same(other)
    }
}

impl PartialEqSpecImpl for Hash {
    open spec fn obeys_eq_spec() -> bool {
        true
    }

    open spec fn eq_spec(&self, other: &Hash) -> bool {
        self@ == other@
    }
}

impl From<[u8; 32]> for Hash {
    fn from(bytes: [u8; 32]) -> (hash: Hash) {
        Hash { bytes }
    }
}

impl FromSpecImpl<[u8; 32]> for Hash {
    open spec fn obeys_from_spec() -> bool {
        true
    }

    open spec fn from_spec(bytes: [u8; 32]) -> Hash {
        hash_of_bytes(bytes)
    }
}

/// The digest with these bytes.
pub closed spec fn hash_of_bytes(bytes: [u8; 32]) -> Hash {
    Hash { bytes }
}

/// The digest made of given bytes has those bytes.
pub proof fn lemma_hash_of_bytes(bytes: [u8; 32])
    ensures
        hash_of_bytes(bytes)@ == bytes@,
{
}

/// Why a value could not be hashed.
#[derive(Clone, Copy, Debug, PartialEq, Eq, Structural)]
pub enum HashError {
    /// The value could not be serialised.
    SerializeFailed,
}

/// A hasher that is fed piece by piece: the digest is that of the pieces
/// put together.
pub struct Hasher {
    fed: Vec<u8>,
}

impl Hasher {
    /// The bytes fed to the hasher so far.
    pub closed spec fn view(&self) -> Seq<u8> {
        self.fed@
    }

    pub fn new() -> (hasher: Hasher)
        ensures
            hasher@ == Seq::<u8>::empty(),
    {
        Hasher { fed: Vec::new() }
    }

    /// Feeds the serialised form of a message, as the codec produced it;
    /// `None` stands for a message that the codec could not serialise.
    pub fn update(&mut self, encoded: Option<Vec<u8>>) -> (fed: Result<(), HashError>)
        ensures
            match encoded {
                Some(bytes) => fed.is_ok() && final(self)@ == old(self)@ + bytes@,
                None => fed == Err::<(), HashError>(HashError::SerializeFailed) && final(self)@ == old(self)@,
            },
    {
        match encoded {
            Some(bytes) => {
                self.update_raw(bytes.as_slice());
                Ok(())
            },
            None => Err(HashError::SerializeFailed),
        }
    }

    /// Feeds a chunk of bytes.
    pub fn update_raw(&mut self, chunk: &[u8])
        ensures
            final(self)@ == old(self)@ + chunk@,
    {
        put_bytes(&mut self.fed, chunk);
    }

    /// The digest of all that was fed.
    pub fn finalize(self) -> (hash: Hash)
        ensures
            hash@ == blake3_digest(self@),
    {
        Hash { bytes: blake3_hash(self.fed.as_slice()) }
    }
}

/// The digest of a message's serialised form, as the codec produced it;
/// `None` stands for a message that the codec could not serialise.
pub fn hash(encoded: Option<Vec<u8>>) -> (hashed: Result<Hash, HashError>)
    ensures
        match encoded {
            Some(bytes) => hashed.is_ok() && hashed.unwrap()@ == blake3_digest(bytes@),
            None => hashed == Err::<Hash, HashError>(HashError::SerializeFailed),
        },
{
    let mut hasher = Hasher::new();
    match hasher.update(encoded) {
        Ok(()) => {
            proof {
                assert(Seq::<u8>::empty() + encoded.unwrap()@ =~= encoded.unwrap()@);
            }
            Ok(hasher.finalize())
        },
        Err(error) => Err(error),
    }
}

/// The identity of a peer: the digest of its long-lived public key.
#[derive(Clone, Copy, Debug, Eq, Hash)]
pub struct Identity {
    hash: Hash,
}

impl Identity {
    /// The bytes of the digest that is the identity.
    pub closed spec fn view(&self) -> Seq<u8> {
        self.hash@
    }

    pub fn from_hash(hash: Hash) -> (identity: Identity)
        ensures
            identity@ == hash@,
    {
        Identity { hash }
    }

    pub fn hash(&self) -> (hash: Hash)
        ensures
            hash@ == self@,
    {
        self.hash
    }

    /// True when the two identities are the same digest.
    pub fn same(&self, other: &Identity) -> (same: bool)
        ensures
            same == (self@ == other@),
    {
        self.hash.same(&other.hash)
    }
}

impl PartialEq for Identity {
    fn eq(&self, other: &Identity) -> (equal: bool) {
        self.same(other)
    }
}

impl PartialEqSpecImpl for Identity {
    open spec fn obeys_eq_spec() -> bool {
        true
    }

    open spec fn eq_spec(&self, other: &Identity) -> bool {
        self@ == other@
    }
}

} // verus!
