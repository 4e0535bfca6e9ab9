//! Block hash: a 32-byte digest identifying a data block.
//!
//! It is printed as lowercase hex and compared bytewise.
use vstd::prelude::*;
use blake2::{Blake2b, Digest};
use typenum::U32;

use crate::hexlify::{lower_hex, to_hex};

verus! {

/// The BLAKE2b digest with a 32-byte output of `data`.
pub uninterp spec fn blake2b_256(data: Seq<u8>) -> Seq<u8>;

/// Calls `blake2::Blake2b::<U32>` (`new`, `update`, `finalize`): the result is the
/// BLAKE2b-256 digest of the input, which by the crate's definition of the output
/// size is 32 bytes long.
#[verifier::external_body]
fn blake2b_256_digest(bytes: &[u8]) -> (res: Vec<u8>)
    ensures
        res@ == blake2b_256(bytes@),
        res@.len() == 32,
{
    let mut hash = Blake2b::<U32>::new();
    hash.update(bytes);
    hash.finalize().to_vec()
}

/// Hash of a block
///
/// This is an array of bytes. Currently only 32-byte hashes are supported.
#[derive(Hash, PartialEq, Eq, Clone)]
pub struct BlockHash([u8; 32]);

impl View for BlockHash {
    type V = Seq<u8>;

    closed spec fn view(&self) -> Seq<u8> {
        self.0@
    }
}

impl BlockHash {
    /// A hash always holds exactly 32 bytes.
    pub proof fn lemma_len(&self)
        ensures
            self@.len() == 32,
    {
    }

    /// Create a BlockHash object from a byte slice
    ///
    /// Returns None if this byte size is unsupported
    pub fn from_bytes(bytes: &[u8]) -> (res: Option<BlockHash>)
        ensures
            res is Some <==> bytes@.len() == 32,
            res matches Some(h) ==> h@ == bytes@,
    {
        if bytes.len() == 32 {
            let mut ar = [0u8; 32];
            let mut i: usize = 0;
            while i < 32
                invariant
                    i <= 32,
                    bytes@.len() == 32,
                    forall|j: int| 0 <= j < i ==> ar@[j] == bytes@[j],
                decreases 32 - i,
            {
                ar[i] = bytes[i];
                i = i + 1;
            }
            assert(ar@ =~= bytes@);
            return Some(BlockHash(ar));
        }
        return None;
    }

    /// Hash of the given data (BLAKE2b with a 32-byte output).
    pub fn for_bytes(bytes: &[u8]) -> (res: BlockHash)
        ensures
            res@ == blake2b_256(bytes@),
    {
        let digest = blake2b_256_digest(bytes);
        match BlockHash::from_bytes(digest.as_slice()) {
            Some(h) => h,
            None => {
                assert(false);
                BlockHash([0u8; 32])
            },
        }
    }

    /// The raw bytes of the hash.
    pub fn as_bytes(&self) -> (res: &[u8])
        ensures
            res@ == self@,
    {
        self.0.as_slice()
    }

    /// The hash as a lowercase hex string (what `Display` printed).
    pub fn to_string(&self) -> (res: String)
        ensures
            res@ == lower_hex(self@),
    {
        to_hex(self.0.as_slice())
    }
}

} // verus!
