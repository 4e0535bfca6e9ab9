//! Identifier of a machine (a node of the cluster).
use vstd::prelude::*;

use crate::hex_codec::{first_non_hex, hex_decode, hex_encode, is_hex_byte, HexError};
use crate::hexlify::lower_hex;
use vstd::string::StringSliceAdditionalSpecFns;

verus! {

/// A 32-byte machine identifier.
#[derive(Hash, PartialEq, Eq, Clone)]
pub struct MachineId([u8; 32]);

impl View for MachineId {
    type V = Seq<u8>;

    closed spec fn view(&self) -> Seq<u8> {
        self.0@
    }
}

/// Why the contents of a machine-id file were refused.
#[derive(Debug, Clone, Copy, PartialEq, Eq)]
pub enum MachineIdError {
    /// The file holds neither 32 nor 33 bytes.
    WrongLength,
    /// The file is not hex.
    Hex(HexError),
}

/// Copies 32 bytes into an array.
fn array32(bytes: &[u8]) -> (res: [u8; 32])
    requires
        bytes@.len() == 32,
    ensures
        res@ == bytes@,
{
    let mut ar = [0u8; 32];
    let mut i: usize = 0;
    while i < 32
        invariant
            i <= 32,
            bytes@.len() == 32,
            forall|j: int| 0 <= j < i ==> ar@[j] == bytes@[j],
        decreases 32 - i,
    {
        ar[i] = bytes[i];
        i = i + 1;
    }
    assert(ar@ =~= bytes@);
    ar
}

impl MachineId {
    /// An identifier always holds 32 bytes.
    pub proof fn lemma_len(&self)
        ensures
            self@.len() == 32,
    {
    }

    /// The identifier made of the given 32 bytes.
    pub fn new(hash: &[u8]) -> (res: MachineId)
        requires
            hash@.len() == 32,
        ensures
            res@ == hash@,
    {
        MachineId(array32(hash))
    }

    /// The identifier made of the given bytes, if there are 32 of them.
    pub fn from_bytes(bytes: &[u8]) -> (res: Option<MachineId>)
        ensures
            res is Some <==> bytes@.len() == 32,
            res matches Some(id) ==> id@ == bytes@,
    {
        if bytes.len() == 32 {
            Some(MachineId(array32(bytes)))
        } else {
            None
        }
    }

    /// The raw bytes.
    pub fn as_bytes(&self) -> (res: &[u8])
        ensures
            res@ == self@,
    {
        self.0.as_slice()
    }

    /// The identifier as lowercase hex (what `Display` printed).
    pub fn to_string(&self) -> (res: String)
        ensures
            res@ == lower_hex(self@),
    {
        hex_encode(self.0.as_slice())
    }

    /// Whether the contents of a machine-id file are exactly 32 hex digits,
    /// which decode to 16 bytes: too few to fill an identifier.
    pub fn is_short_hex(contents: &str) -> (res: bool)
        ensures
            res == (contents.spec_bytes().len() == 32 && forall|j: int|
                0 <= j < 32 ==> is_hex_byte(#[trigger] contents.spec_bytes()[j])),
    {
        let bytes = contents.as_bytes();
        if bytes.len() != 32 {
            return false;
        }
        let mut i: usize = 0;
        while i < 32
            invariant
                i <= 32,
                bytes@ == contents.spec_bytes(),
                bytes@.len() == 32,
                forall|j: int| 0 <= j < i ==> is_hex_byte(#[trigger] bytes@[j]),
            decreases 32 - i,
        {
            let b = bytes[i];
            if !((48 <= b && b <= 57) || (65 <= b && b <= 70) || (97 <= b && b <= 102)) {
                return false;
            }
            i = i + 1;
        }
        true
    }

    /// Reads an identifier from the contents of a machine-id file: the
    /// contents must be 32 or 33 bytes long and decode as hex into the 32
    /// bytes of the identifier. Contents that are exactly 32 hex digits
    /// decode to only 16 bytes, which do not fill an identifier; they are
    /// excluded.
    pub fn from_file_contents(contents: &str) -> (res: Result<MachineId, MachineIdError>)
        requires
            !(contents.spec_bytes().len() == 32 && forall|j: int|
                0 <= j < 32 ==> is_hex_byte(#[trigger] contents.spec_bytes()[j])),
        ensures
            contents.spec_bytes().len() != 32 && contents.spec_bytes().len() != 33 ==> res
                == Err::<MachineId, MachineIdError>(MachineIdError::WrongLength),
            contents.spec_bytes().len() == 33 ==> res == Err::<MachineId, MachineIdError>(
                MachineIdError::Hex(HexError::OddLength),
            ),
            contents.spec_bytes().len() == 32 ==> exists|i: int|
                first_non_hex(contents.spec_bytes(), i) && res == Err::<MachineId, MachineIdError>(
                    MachineIdError::Hex(
                        HexError::InvalidHexCharacter {
                            c: contents.spec_bytes()[i] as char,
                            index: i as usize,
                        },
                    ),
                ),
    {
        let bytes = contents.as_bytes();
        let n = bytes.len();
        if n != 32 && n != 33 {
            return Err(MachineIdError::WrongLength);
        }
        match hex_decode(bytes) {
            Ok(v) => {
                if v.len() == 32 {
                    Ok(MachineId(array32(v.as_slice())))
                } else {
                    assert(false);
                    Err(MachineIdError::WrongLength)
                }
            },
            Err(e) => Err(MachineIdError::Hex(e)),
        }
    }
}

} // verus!
