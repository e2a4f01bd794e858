//! One PNG chunk record: a big-endian length, a 4-byte type tag, the
//! payload, and a CRC-32 checksum over type and payload bytes.
//!
//! The on-disk layout is `length:u32 | type:byte[4] | data:byte[length] |
//! crc:u32`, everything big-endian.  Decoding is all-or-nothing: any
//! failure yields no chunk at all.

use vstd::prelude::*;

use crate::chunk_type::{all_type_bytes, is_type_byte, ChunkType, ChunkTypeError};
use crate::endian::{be_u32, lemma_u32_be_bytes_roundtrip, push_be_u32, read_be_u32, u32_be_bytes};
use vstd::slice::{slice_subrange, slice_to_vec};
use vstd::utf8::{decode_utf8, valid_utf8};

verus! {

/// Failure when decoding a chunk record or reading its payload as text.
#[derive(Debug, Clone, Copy, PartialEq, Eq)]
pub enum ChunkError {
    /// Fewer than 4 bytes were available for the length field.
    InvalidLength,
    /// Fewer than 4 bytes were available for the type field.
    InvalidChunkTypeLength,
    /// The declared length exceeds 2^31; carries the declared length.
    LengthOverflow(u32),
    /// Fewer than the declared number of data bytes remain.
    MismatchDataLength,
    /// The trailing bytes after the data are not exactly 4.
    InvalidCrcLength,
    /// A type byte fell outside the ASCII letter ranges; carries it.
    InvalidChunkByte(u8),
    /// The type failed the reserved-bit validity rule.
    InvalidChunkType,
    /// The recomputed CRC does not equal the stored one; carries the
    /// computed value, then the stored one.
    CrcMismatch(u32, u32),
    /// The payload is not valid UTF-8 text.
    InvalidUtf8,
}

/// The mathematical content of a chunk: its type tag and payload bytes.
#[verifier::ext_equal]
pub struct ChunkModel {
    pub type_bytes: Seq<u8>,
    pub data: Seq<u8>,
}

/// Well-formed: a 4-letter type tag and a payload of at most 2^31 bytes.
pub open spec fn chunk_model_wf(m: ChunkModel) -> bool {
    &&& m.type_bytes.len() == 4
    &&& all_type_bytes(m.type_bytes)
    &&& m.data.len() <= 0x80000000
}

/// Well-formed and the type passes the reserved-bit rule, so the chunk
/// can come back out of a decoder.
pub open spec fn chunk_model_valid(m: ChunkModel) -> bool {
    &&& chunk_model_wf(m)
    &&& m.type_bytes[2] & 0x20 == 0
}

/// The CRC-32 checksum (ISO-HDLC polynomial, as used by PNG) of a byte
/// sequence.
pub uninterp spec fn crc32_of(bytes: Seq<u8>) -> u32;

/// Relies on `crc::Crc::<u32>::checksum` with the `CRC_32_ISO_HDLC`
/// algorithm of the crc crate: the checksum is a pure function of the
/// input bytes and the fixed algorithm parameters.
#[verifier::external_body]
fn crc32_iso_hdlc(bytes: &[u8]) -> (r: u32)
    ensures
        r == crc32_of(bytes@),
{
    let alg = crc::Crc::<u32>::new(&crc::CRC_32_ISO_HDLC);
    alg.checksum(bytes)
}

/// The canonical encoding of a chunk: big-endian length, type tag, data,
/// big-endian CRC over type and data.
pub open spec fn chunk_encoding(m: ChunkModel) -> Seq<u8> {
    u32_be_bytes(m.data.len() as u32) + m.type_bytes + m.data + u32_be_bytes(
        crc32_of(m.type_bytes + m.data),
    )
}

/// What decoding a buffer as one chunk record yields, with the checks in
/// the order the decoder makes them: field lengths, the length bound, the
/// type bytes, the reserved bit, and last the checksum.
pub open spec fn spec_parse_chunk(bytes: Seq<u8>) -> Result<ChunkModel, ChunkError> {
    if bytes.len() < 4 {
        Err(ChunkError::InvalidLength)
    } else if bytes.len() < 8 {
        Err(ChunkError::InvalidChunkTypeLength)
    } else {
        let declared = be_u32(bytes.subrange(0, 4));
        let length = declared as int;
        if declared > 0x80000000u32 {
            Err(ChunkError::LengthOverflow(declared))
        } else if bytes.len() < 8 + length {
            Err(ChunkError::MismatchDataLength)
        } else if bytes.len() != 12 + length {
            Err(ChunkError::InvalidCrcLength)
        } else {
            let t = bytes.subrange(4, 8);
            if !is_type_byte(t[0]) {
                Err(ChunkError::InvalidChunkByte(t[0]))
            } else if !is_type_byte(t[1]) {
                Err(ChunkError::InvalidChunkByte(t[1]))
            } else if !is_type_byte(t[2]) {
                Err(ChunkError::InvalidChunkByte(t[2]))
            } else if !is_type_byte(t[3]) {
                Err(ChunkError::InvalidChunkByte(t[3]))
            } else if t[2] & 0x20 != 0 {
                Err(ChunkError::InvalidChunkType)
            } else {
                let data = bytes.subrange(8, 8 + length);
                let computed = crc32_of(t + data);
                let stored = be_u32(bytes.subrange(8 + length, 12 + length));
                if computed != stored {
                    Err(ChunkError::CrcMismatch(computed, stored))
                } else {
                    Ok(ChunkModel { type_bytes: t, data })
                }
            }
        }
    }
}

/// One PNG chunk: its declared length, type tag, and payload.  The length
/// always equals the payload's byte count; the CRC is never stored, it is
/// recomputed on demand.
#[derive(Debug)]
pub struct Chunk {
    length: u32,
    chunk_type: ChunkType,
    data: Vec<u8>,
}

impl View for Chunk {
    type V = ChunkModel;

    closed spec fn view(&self) -> ChunkModel {
        ChunkModel { type_bytes: self.chunk_type@, data: self.data@ }
    }
}

impl Chunk {
    /// Well-formed: the model is, and the stored length matches the data.
    pub open spec fn wf(self) -> bool {
        &&& chunk_model_wf(self@)
        &&& self.spec_length() == self@.data.len()
    }

    /// The stored length field.
    pub closed spec fn spec_length(self) -> u32 {
        self.length
    }

    /// Builds a chunk from a type and a payload; the length is derived and
    /// the CRC is implicit.
    pub fn new(chunk_type: ChunkType, data: Vec<u8>) -> (r: Chunk)
        requires
            chunk_type.wf(),
            data@.len() <= 0x80000000,
        ensures
            r.wf(),
            r@ == (ChunkModel { type_bytes: chunk_type@, data: data@ }),
    {
        let length = data.len() as u32;
        Chunk { length, chunk_type, data }
    }

    /// The byte count of the payload.
    pub fn length(&self) -> (r: u32)
        requires
            self.wf(),
        ensures
            r == self@.data.len(),
    {
        self.length
    }

    /// The chunk's type tag.
    pub fn chunk_type(&self) -> (r: &ChunkType)
        ensures
            r@ == self@.type_bytes,
    {
        &self.chunk_type
    }

    /// The payload bytes.
    pub fn data(&self) -> (r: &[u8])
        ensures
            r@ == self@.data,
    {
        self.data.as_slice()
    }

    /// The CRC-32 checksum over the type bytes followed by the payload,
    /// recomputed on every call.
    pub fn crc(&self) -> (r: u32)
        ensures
            r == crc32_of(self@.type_bytes + self@.data),
    {
        let quad = self.chunk_type.bytes();
        let mut buf: Vec<u8> = Vec::new();
        buf.push(quad[0]);
        buf.push(quad[1]);
        buf.push(quad[2]);
        buf.push(quad[3]);
        let mut k: usize = 0;
        while k < self.data.len()
            invariant
                k <= self.data@.len(),
                buf@ == self.chunk_type@ + self.data@.take(k as int),
            decreases self.data@.len() - k,
        {
            buf.push(self.data[k]);
            proof {
                assert(buf@ =~= self.chunk_type@ + self.data@.take(k + 1));
            }
            k += 1;
        }
        proof {
            assert(buf@ =~= self@.type_bytes + self@.data);
        }
        crc32_iso_hdlc(buf.as_slice())
    }

    /// The payload interpreted as UTF-8 text; fails exactly when the bytes
    /// are not a valid encoding.
    pub fn data_as_string(&self) -> (r: Result<String, ChunkError>)
        ensures
            r is Ok <==> valid_utf8(self@.data),
            r is Ok ==> r->Ok_0@ == decode_utf8(self@.data),
            r is Err ==> r->Err_0 == ChunkError::InvalidUtf8,
    {
        match crate::text::str_from_utf8(self.data.as_slice()) {
            Some(s) => {
                proof {
                    vstd::utf8::encode_utf8_decode_utf8(s@);
                }
                Ok(s.to_owned())
            },
            None => Err(ChunkError::InvalidUtf8),
        }
    }

    /// The canonical on-disk form of the chunk, bit-exact: big-endian
    /// length, type bytes, data, big-endian CRC.
    pub fn as_bytes(&self) -> (r: Vec<u8>)
        requires
            self.wf(),
        ensures
            r@ == chunk_encoding(self@),
    {
        let mut out: Vec<u8> = Vec::new();
        push_be_u32(&mut out, self.length);
        let quad = self.chunk_type.bytes();
        out.push(quad[0]);
        out.push(quad[1]);
        out.push(quad[2]);
        out.push(quad[3]);
        let mut k: usize = 0;
        while k < self.data.len()
            invariant
                k <= self.data@.len(),
                out@ == u32_be_bytes(self.spec_length()) + self.chunk_type@ + self.data@.take(
                    k as int,
                ),
            decreases self.data@.len() - k,
        {
            out.push(self.data[k]);
            proof {
                assert(out@ =~= u32_be_bytes(self.spec_length()) + self.chunk_type@
                    + self.data@.take(k + 1));
            }
            k += 1;
        }
        let checksum = self.crc();
        push_be_u32(&mut out, checksum);
        proof {
            assert(out@ =~= chunk_encoding(self@));
        }
        out
    }

    /// Decodes one chunk record from a buffer, exactly as
    /// [`spec_parse_chunk`] describes: all-or-nothing, with the checksum
    /// cross-checked against the trailing 4 bytes.
    pub fn from_bytes(value: &[u8]) -> (r: Result<Chunk, ChunkError>)
        ensures
            r is Ok <==> spec_parse_chunk(value@) is Ok,
            r is Ok ==> r->Ok_0.wf() && r->Ok_0@ == spec_parse_chunk(value@)->Ok_0
                && r->Ok_0@.type_bytes[2] & 0x20 == 0,
            r is Err ==> r->Err_0 == spec_parse_chunk(value@)->Err_0,
    {
        if value.len() < 4 {
            return Err(ChunkError::InvalidLength);
        }
        if value.len() < 8 {
            return Err(ChunkError::InvalidChunkTypeLength);
        }
        let declared = read_be_u32(
            *vstd::slice::slice_index_get(value, 0),
            *vstd::slice::slice_index_get(value, 1),
            *vstd::slice::slice_index_get(value, 2),
            *vstd::slice::slice_index_get(value, 3),
        );
        proof {
            assert(seq![value@[0], value@[1], value@[2], value@[3]] =~= value@.subrange(0, 4));
        }
        if declared > 0x80000000u32 {
            return Err(ChunkError::LengthOverflow(declared));
        }
        let length = declared as usize;
        if value.len() < 8 + length {
            return Err(ChunkError::MismatchDataLength);
        }
        if value.len() - (8 + length) != 4 {
            return Err(ChunkError::InvalidCrcLength);
        }
        let quad = [
            *vstd::slice::slice_index_get(value, 4),
            *vstd::slice::slice_index_get(value, 5),
            *vstd::slice::slice_index_get(value, 6),
            *vstd::slice::slice_index_get(value, 7),
        ];
        proof {
            assert(quad@ =~= value@.subrange(4, 8));
        }
        let chunk_type = match ChunkType::from_bytes(quad) {
            Ok(t) => t,
            Err(ChunkTypeError::InvalidChunkByte(b)) => {
                return Err(ChunkError::InvalidChunkByte(b));
            },
            Err(ChunkTypeError::WrongStringByteLength(_)) => {
                return Err(ChunkError::InvalidChunkTypeLength);
            },
        };
        if !chunk_type.is_valid() {
            return Err(ChunkError::InvalidChunkType);
        }
        let data = slice_to_vec(slice_subrange(value, 8, 8 + length));
        let chunk = Chunk::new(chunk_type, data);
        let computed = chunk.crc();
        let stored = read_be_u32(
            *vstd::slice::slice_index_get(value, 8 + length),
            *vstd::slice::slice_index_get(value, 9 + length),
            *vstd::slice::slice_index_get(value, 10 + length),
            *vstd::slice::slice_index_get(value, 11 + length),
        );
        proof {
            assert(seq![
                value@[8 + length],
                value@[9 + length],
                value@[10 + length],
                value@[11 + length],
            ] =~= value@.subrange(8 + length, 12 + length));
        }
        if computed != stored {
            return Err(ChunkError::CrcMismatch(computed, stored));
        }
        proof {
            assert(chunk@ =~= spec_parse_chunk(value@)->Ok_0);
        }
        Ok(chunk)
    }
}

/// Round trip: a well-formed chunk whose type passes the reserved-bit rule
/// decodes from its own encoding back to exactly itself, with the same
/// type, data, and checksum.
pub proof fn lemma_chunk_round_trip(m: ChunkModel)
    requires
        chunk_model_valid(m),
    ensures
        spec_parse_chunk(chunk_encoding(m)) == Ok::<ChunkModel, ChunkError>(m),
{
    let enc = chunk_encoding(m);
    let len32 = m.data.len() as u32;
    let checksum = crc32_of(m.type_bytes + m.data);
    lemma_u32_be_bytes_roundtrip(len32);
    lemma_u32_be_bytes_roundtrip(checksum);
    let l = m.data.len() as int;
    assert(enc.len() == 12 + l);
    assert(enc.subrange(0, 4) =~= u32_be_bytes(len32));
    assert(enc.subrange(4, 8) =~= m.type_bytes);
    assert(enc.subrange(8, 8 + l) =~= m.data);
    assert(enc.subrange(8 + l, 12 + l) =~= u32_be_bytes(checksum));
    assert(spec_parse_chunk(enc)->Ok_0 =~= m);
}

/// Tampering with the stored checksum is always caught: a buffer that
/// agrees with a valid chunk's encoding everywhere but in the trailing 4
/// CRC bytes decodes to a checksum-mismatch failure, and the computed
/// value it reports is still the CRC over the unmodified type and data.
pub proof fn lemma_crc_corruption_detected(m: ChunkModel, bytes: Seq<u8>)
    requires
        chunk_model_valid(m),
        bytes.len() == chunk_encoding(m).len(),
        bytes.subrange(0, bytes.len() - 4) == chunk_encoding(m).subrange(
            0,
            chunk_encoding(m).len() - 4,
        ),
        bytes != chunk_encoding(m),
    ensures
        spec_parse_chunk(bytes) == Err::<ChunkModel, ChunkError>(
            ChunkError::CrcMismatch(
                crc32_of(m.type_bytes + m.data),
                be_u32(bytes.subrange(bytes.len() - 4, bytes.len() as int)),
            ),
        ),
        be_u32(bytes.subrange(bytes.len() - 4, bytes.len() as int)) != crc32_of(
            m.type_bytes + m.data,
        ),
{
    let enc = chunk_encoding(m);
    let len32 = m.data.len() as u32;
    let checksum = crc32_of(m.type_bytes + m.data);
    lemma_u32_be_bytes_roundtrip(len32);
    lemma_u32_be_bytes_roundtrip(checksum);
    let l = m.data.len() as int;
    assert(enc.len() == 12 + l);
    assert(enc.subrange(0, 4) =~= u32_be_bytes(len32));
    assert(enc.subrange(4, 8) =~= m.type_bytes);
    assert(enc.subrange(8, 8 + l) =~= m.data);
    assert(enc.subrange(8 + l, 12 + l) =~= u32_be_bytes(checksum));
    let prefix_len = bytes.len() - 4;
    assert(bytes.subrange(0, 4) =~= enc.subrange(0, 4)) by {
        assert(bytes.subrange(0, prefix_len).subrange(0, 4) =~= bytes.subrange(0, 4));
        assert(enc.subrange(0, prefix_len).subrange(0, 4) =~= enc.subrange(0, 4));
    }
    assert(bytes.subrange(4, 8) =~= enc.subrange(4, 8)) by {
        assert(bytes.subrange(0, prefix_len).subrange(4, 8) =~= bytes.subrange(4, 8));
        assert(enc.subrange(0, prefix_len).subrange(4, 8) =~= enc.subrange(4, 8));
    }
    assert(bytes.subrange(8, 8 + l) =~= enc.subrange(8, 8 + l)) by {
        assert(bytes.subrange(0, prefix_len).subrange(8, 8 + l) =~= bytes.subrange(8, 8 + l));
        assert(enc.subrange(0, prefix_len).subrange(8, 8 + l) =~= enc.subrange(8, 8 + l));
    }
    let tail = bytes.subrange(8 + l, 12 + l);
    let enc_tail = enc.subrange(8 + l, 12 + l);
    assert(tail != enc_tail) by {
        if tail =~= enc_tail {
            assert(bytes =~= enc) by {
                assert(forall|i: int|
                    0 <= i < bytes.len() ==> bytes[i] == #[trigger] enc[i]) by {
                    assert(forall|i: int|
                        0 <= i < prefix_len ==> bytes[i] == bytes.subrange(0, prefix_len)[i]
                            && enc[i] == #[trigger] enc.subrange(0, prefix_len)[i]);
                    assert(forall|i: int|
                        8 + l <= i < 12 + l ==> bytes[i] == tail[i - (8 + l)] && #[trigger] enc[i]
                            == enc_tail[i - (8 + l)]);
                }
            }
        }
    }
    assert(be_u32(tail) != be_u32(enc_tail)) by {
        if be_u32(tail) == be_u32(enc_tail) {
            crate::endian::lemma_be_u32_injective(tail, enc_tail);
        }
    }
    assert(be_u32(enc_tail) == checksum);
}

} // verus!
