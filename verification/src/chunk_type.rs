//! The 4-byte PNG chunk type tag and its ASCII-case bit-flag semantics.
//!
//! Each byte of a chunk type must be an ASCII letter.  Bit 5 (0x20) of each
//! byte is a flag: byte 0 clear means the chunk is critical, byte 1 clear
//! means it is public, byte 2 clear means the reserved bit is valid (the
//! sole criterion this library treats as "the type is valid"), and byte 3
//! set means the chunk is safe to copy.

use vstd::prelude::*;
use vstd::string::StringSliceAdditionalSpecFns;

verus! {

/// Failure when building a `ChunkType`.
#[derive(Debug, Clone, Copy, PartialEq, Eq)]
pub enum ChunkTypeError {
    /// The source string does not hold exactly 4 bytes; carries that length.
    WrongStringByteLength(usize),
    /// A byte fell outside `A`-`Z` (65-90) and `a`-`z` (97-122); carries it.
    InvalidChunkByte(u8),
}

/// A chunk type byte must be an ASCII letter.
pub open spec fn is_type_byte(b: u8) -> bool {
    (65 <= b && b <= 90) || (97 <= b && b <= 122)
}

/// Every byte of the sequence is an ASCII letter.
pub open spec fn all_type_bytes(s: Seq<u8>) -> bool {
    forall|i: int| 0 <= i < s.len() ==> is_type_byte(#[trigger] s[i])
}

/// Outcome of checking four candidate type bytes in order: the first byte
/// outside the letter ranges is the one reported.
pub open spec fn spec_check_type_bytes(s: Seq<u8>) -> Result<(), ChunkTypeError>
    recommends
        s.len() == 4,
{
    if !is_type_byte(s[0]) {
        Err(ChunkTypeError::InvalidChunkByte(s[0]))
    } else if !is_type_byte(s[1]) {
        Err(ChunkTypeError::InvalidChunkByte(s[1]))
    } else if !is_type_byte(s[2]) {
        Err(ChunkTypeError::InvalidChunkByte(s[2]))
    } else if !is_type_byte(s[3]) {
        Err(ChunkTypeError::InvalidChunkByte(s[3]))
    } else {
        Ok(())
    }
}

/// The 4-byte type tag of a PNG chunk.
#[derive(Debug, Clone, Copy, PartialEq, Eq)]
pub struct ChunkType {
    raw: [u8; 4],
}

impl View for ChunkType {
    type V = Seq<u8>;

    closed spec fn view(&self) -> Seq<u8> {
        self.raw@
    }
}

impl ChunkType {
    /// Well-formed: four bytes, each an ASCII letter.
    pub open spec fn wf(self) -> bool {
        self@.len() == 4 && all_type_bytes(self@)
    }

    /// Bit 5 of byte 0 clear: the chunk is critical.
    pub open spec fn spec_is_critical(self) -> bool {
        self@[0] & 0x20 == 0
    }

    /// Bit 5 of byte 1 clear: the chunk is public.
    pub open spec fn spec_is_public(self) -> bool {
        self@[1] & 0x20 == 0
    }

    /// Bit 5 of byte 2 clear: the reserved bit is valid.
    pub open spec fn spec_is_reserved_bit_valid(self) -> bool {
        self@[2] & 0x20 == 0
    }

    /// Bit 5 of byte 3 set: the chunk is safe to copy.
    pub open spec fn spec_is_safe_to_copy(self) -> bool {
        self@[3] & 0x20 != 0
    }

    /// The sole validity criterion: the reserved bit.
    pub open spec fn spec_is_valid(self) -> bool {
        self.spec_is_reserved_bit_valid()
    }

    /// Accepts a byte exactly when it is an ASCII letter, widening it.
    pub fn verify_and_map_byte(byte: u8) -> (r: Result<u32, ChunkTypeError>)
        ensures
            r is Ok <==> is_type_byte(byte),
            r is Ok ==> r->Ok_0 == byte as u32,
            r is Err ==> r->Err_0 == ChunkTypeError::InvalidChunkByte(byte),
    {
        if (97 <= byte && byte <= 122) || (65 <= byte && byte <= 90) {
            Ok(byte as u32)
        } else {
            Err(ChunkTypeError::InvalidChunkByte(byte))
        }
    }

    /// Builds a type from four raw bytes; fails on the first byte that is
    /// not an ASCII letter.  No other validation happens here: the reserved
    /// bit is a separate query, not a construction-time rejection.
    pub fn from_bytes(value: [u8; 4]) -> (r: Result<ChunkType, ChunkTypeError>)
        ensures
            r is Ok <==> all_type_bytes(value@),
            r is Ok ==> r->Ok_0@ == value@ && r->Ok_0.wf(),
            r is Err ==> r->Err_0 == spec_check_type_bytes(value@)->Err_0,
    {
        let mut i: usize = 0;
        while i < 4
            invariant
                i <= 4,
                forall|j: int| 0 <= j < i ==> is_type_byte(#[trigger] value@[j]),
            decreases 4 - i,
        {
            if let Err(e) = Self::verify_and_map_byte(value[i]) {
                return Err(e);
            }
            i += 1;
        }
        Ok(ChunkType { raw: value })
    }

    /// Builds a type from a string; fails unless the string holds exactly
    /// 4 bytes, then checks them as `from_bytes` does.  A string of any
    /// other length is rejected outright, never truncated or padded.
    pub fn from_string(s: &str) -> (r: Result<ChunkType, ChunkTypeError>)
        ensures
            r is Ok <==> s.spec_bytes().len() == 4 && all_type_bytes(s.spec_bytes()),
            r is Ok ==> r->Ok_0@ == s.spec_bytes() && r->Ok_0.wf(),
            s.spec_bytes().len() != 4 ==> r is Err && r->Err_0
                == ChunkTypeError::WrongStringByteLength(s.spec_bytes().len() as usize),
            s.spec_bytes().len() == 4 && !all_type_bytes(s.spec_bytes()) ==> r is Err && r->Err_0
                == spec_check_type_bytes(s.spec_bytes())->Err_0,
    {
        let b = s.as_bytes();
        if b.len() != 4 {
            return Err(ChunkTypeError::WrongStringByteLength(b.len()));
        }
        let quad = [*vstd::slice::slice_index_get(b, 0), *vstd::slice::slice_index_get(b, 1), *vstd::slice::slice_index_get(b, 2), *vstd::slice::slice_index_get(b, 3)];
        proof {
            assert(quad@ =~= s.spec_bytes());
        }
        Self::from_bytes(quad)
    }

    /// The four raw bytes of the tag, in order.
    pub fn bytes(&self) -> (r: [u8; 4])
        ensures
            r@ == self@,
    {
        self.raw
    }

    /// The byte at `idx`, or nothing when `idx` is out of range.
    pub fn nth_byte(&self, idx: usize) -> (r: Option<u8>)
        ensures
            idx < 4 ==> r == Some(self@[idx as int]),
            idx >= 4 ==> r is None,
    {
        if idx < 4 {
            Some(self.raw[idx])
        } else {
            None
        }
    }

    /// Whether the chunk is critical to displaying the image.
    pub fn is_critical(&self) -> (r: bool)
        ensures
            r == self.spec_is_critical(),
    {
        self.raw[0] & 0x20 == 0
    }

    /// Whether the chunk type is part of the public specification.
    pub fn is_public(&self) -> (r: bool)
        ensures
            r == self.spec_is_public(),
    {
        self.raw[1] & 0x20 == 0
    }

    /// Whether the reserved bit of the type is valid.
    pub fn is_reserved_bit_valid(&self) -> (r: bool)
        ensures
            r == self.spec_is_reserved_bit_valid(),
    {
        self.raw[2] & 0x20 == 0
    }

    /// Whether the chunk may be copied by editors that do not know it.
    pub fn is_safe_to_copy(&self) -> (r: bool)
        ensures
            r == self.spec_is_safe_to_copy(),
    {
        self.raw[3] & 0x20 != 0
    }

    /// Whether the type may be used at all: only the reserved bit counts;
    /// the other three flags are informational.
    pub fn is_valid(&self) -> (r: bool)
        ensures
            r == self.spec_is_valid(),
    {
        self.is_reserved_bit_valid()
    }

    /// The tag as text: four ASCII characters.
    pub fn to_text(&self) -> (r: String)
        requires
            self.wf(),
        ensures
            r@ == self@.map(|i: int, b: u8| b as char),
            r@.len() == 4,
    {
        let quad = self.bytes();
        crate::text::ascii_to_string(quad.as_slice())
    }
}

} // verus!
