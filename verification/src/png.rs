//! The PNG container: a fixed 8-byte signature followed by an ordered
//! sequence of chunk records.
//!
//! Order is significant: lookup and removal use first-match semantics, and
//! append adds at the end.  Parsing is all-or-nothing: a bad signature or
//! any failing chunk record yields no container at all.

use vstd::prelude::*;

use crate::chunk::{
    chunk_encoding, chunk_model_valid, spec_parse_chunk, Chunk, ChunkError, ChunkModel,
};
use crate::endian::{be_u32, read_be_u32};
use vstd::slice::slice_subrange;
use vstd::string::StringSliceAdditionalSpecFns;

verus! {

/// Failure when decoding or editing a PNG container.
#[derive(Debug, Clone, Copy, PartialEq, Eq)]
pub enum PngError {
    /// The buffer does not begin with the 8-byte PNG signature.
    InvalidSignature,
    /// No chunk of the requested type is present.
    ChunkNotFound,
    /// A chunk record failed to decode; carries that failure.
    InvalidChunk(ChunkError),
}

/// The fixed 8-byte signature that opens every PNG file.
pub open spec fn spec_png_signature() -> Seq<u8> {
    seq![0x89u8, 0x50u8, 0x4eu8, 0x47u8, 0x0du8, 0x0au8, 0x1au8, 0x0au8]
}

/// The models of a sequence of chunks, in order.
pub open spec fn chunk_views(cs: Seq<Chunk>) -> Seq<ChunkModel> {
    Seq::new(cs.len(), |i: int| cs[i]@)
}

/// How many leading bytes the next chunk record claims: 12 plus its
/// declared data length when that many bytes are present, otherwise the
/// whole rest of the buffer (which then fails to decode as a record).
pub open spec fn png_seg_len(bytes: Seq<u8>) -> int {
    if bytes.len() < 8 {
        bytes.len() as int
    } else {
        let l = be_u32(bytes.subrange(0, 4)) as int;
        if l > 0x80000000 {
            bytes.len() as int
        } else if bytes.len() < 12 + l {
            bytes.len() as int
        } else {
            12 + l
        }
    }
}

/// What decoding a buffer as consecutive chunk records yields: records in
/// encounter order until the buffer is exhausted, or the first record
/// failure.
pub open spec fn spec_parse_chunk_stream(bytes: Seq<u8>) -> Result<Seq<ChunkModel>, ChunkError>
    decreases bytes.len(),
{
    if bytes.len() == 0 {
        Ok(Seq::empty())
    } else {
        let n = png_seg_len(bytes);
        match spec_parse_chunk(bytes.subrange(0, n)) {
            Err(e) => Err(e),
            Ok(m) => match spec_parse_chunk_stream(bytes.subrange(n, bytes.len() as int)) {
                Err(e) => Err(e),
                Ok(rest) => Ok(seq![m] + rest),
            },
        }
    }
}

/// What decoding a whole buffer as a PNG yields: the signature must open
/// the buffer, then the rest is a stream of chunk records.
pub open spec fn spec_parse_png(bytes: Seq<u8>) -> Result<Seq<ChunkModel>, PngError> {
    if bytes.len() < 8 || bytes.subrange(0, 8) != spec_png_signature() {
        Err(PngError::InvalidSignature)
    } else {
        match spec_parse_chunk_stream(bytes.subrange(8, bytes.len() as int)) {
            Ok(ms) => Ok(ms),
            Err(e) => Err(PngError::InvalidChunk(e)),
        }
    }
}

/// The concatenation of the encodings of the given chunks, in order.
pub open spec fn chunk_stream_encoding(ms: Seq<ChunkModel>) -> Seq<u8>
    decreases ms.len(),
{
    if ms.len() == 0 {
        Seq::empty()
    } else {
        chunk_encoding(ms[0]) + chunk_stream_encoding(ms.drop_first())
    }
}

/// The full encoding of a container: the signature, then every chunk.
pub open spec fn png_encoding(ms: Seq<ChunkModel>) -> Seq<u8> {
    spec_png_signature() + chunk_stream_encoding(ms)
}

/// Some chunk in the sequence bears the given type tag.
pub open spec fn seq_has_type(ms: Seq<ChunkModel>, t: Seq<u8>) -> bool {
    exists|i: int| 0 <= i < ms.len() && (#[trigger] ms[i]).type_bytes == t
}

/// A PNG file in memory: its chunk records, in encounter order.
#[derive(Debug)]
pub struct Png {
    chunks: Vec<Chunk>,
}

impl View for Png {
    type V = Seq<ChunkModel>;

    open spec fn view(&self) -> Seq<ChunkModel> {
        chunk_views(self.spec_chunks())
    }
}

impl Png {
    /// The underlying chunk sequence.
    pub closed spec fn spec_chunks(self) -> Seq<Chunk> {
        self.chunks@
    }

    /// Well-formed: every contained chunk is.
    pub open spec fn wf(self) -> bool {
        forall|i: int|
            0 <= i < self.spec_chunks().len() ==> (#[trigger] self.spec_chunks()[i]).wf()
    }

    /// An empty container, ready to be built up by appending.
    pub fn new() -> (r: Png)
        ensures
            r.wf(),
            r@ == Seq::<ChunkModel>::empty(),
    {
        let png = Png { chunks: Vec::new() };
        proof {
            assert(png@ =~= Seq::<ChunkModel>::empty());
        }
        png
    }

    /// Adds a chunk at the end of the sequence; nothing is deduplicated
    /// and no type uniqueness is enforced.
    pub fn append_chunk(&mut self, chunk: Chunk)
        requires
            old(self).wf(),
            chunk.wf(),
        ensures
            final(self).wf(),
            final(self)@ == old(self)@.push(chunk@),
    {
        self.chunks.push(chunk);
        proof {
            assert(self@ =~= old(self)@.push(chunk@));
        }
    }

    /// The contained chunks, in stored order.
    pub fn chunks(&self) -> (r: &[Chunk])
        ensures
            r@.len() == self@.len(),
            forall|i: int| 0 <= i < r@.len() ==> (#[trigger] r@[i])@ == self@[i],
            self.wf() ==> forall|i: int| 0 <= i < r@.len() ==> (#[trigger] r@[i]).wf(),
    {
        self.chunks.as_slice()
    }

    /// Decodes a whole buffer, exactly as [`spec_parse_png`] describes:
    /// the signature is checked first, then chunk records are decoded in
    /// encounter order until the buffer is exhausted; any failure discards
    /// everything.
    pub fn from_bytes(value: &[u8]) -> (r: Result<Png, PngError>)
        ensures
            r is Ok <==> spec_parse_png(value@) is Ok,
            r is Ok ==> r->Ok_0.wf() && r->Ok_0@ == spec_parse_png(value@)->Ok_0,
            r is Err ==> r->Err_0 == spec_parse_png(value@)->Err_0,
    {
        if value.len() < 8 {
            return Err(PngError::InvalidSignature);
        }
        let s0 = *vstd::slice::slice_index_get(value, 0);
        let s1 = *vstd::slice::slice_index_get(value, 1);
        let s2 = *vstd::slice::slice_index_get(value, 2);
        let s3 = *vstd::slice::slice_index_get(value, 3);
        let s4 = *vstd::slice::slice_index_get(value, 4);
        let s5 = *vstd::slice::slice_index_get(value, 5);
        let s6 = *vstd::slice::slice_index_get(value, 6);
        let s7 = *vstd::slice::slice_index_get(value, 7);
        if !(s0 == 0x89 && s1 == 0x50 && s2 == 0x4e && s3 == 0x47 && s4 == 0x0d && s5 == 0x0a && s6
            == 0x1a && s7 == 0x0a) {
            proof {
                assert(value@.subrange(0, 8) != spec_png_signature()) by {
                    if value@.subrange(0, 8) =~= spec_png_signature() {
                        assert(forall|i: int|
                            0 <= i < 8 ==> value@[i] == #[trigger] value@.subrange(0, 8)[i]);
                    }
                }
            }
            return Err(PngError::InvalidSignature);
        }
        proof {
            assert(value@.subrange(0, 8) =~= spec_png_signature());
        }
        let mut chunks: Vec<Chunk> = Vec::new();
        let mut pos: usize = 8;
        proof {
            assert(chunk_views(chunks@) + spec_parse_chunk_stream(
                value@.subrange(8, value@.len() as int),
            )->Ok_0 =~= spec_parse_chunk_stream(value@.subrange(8, value@.len() as int))->Ok_0);
        }
        while pos < value.len()
            invariant
                8 <= pos <= value@.len(),
                value@.subrange(0, 8) == spec_png_signature(),
                forall|i: int| 0 <= i < chunks@.len() ==> (#[trigger] chunks@[i]).wf(),
                match spec_parse_chunk_stream(value@.subrange(pos as int, value@.len() as int)) {
                    Ok(rest) => spec_parse_chunk_stream(value@.subrange(8, value@.len() as int))
                        == Ok::<Seq<ChunkModel>, ChunkError>(chunk_views(chunks@) + rest),
                    Err(e) => spec_parse_chunk_stream(value@.subrange(8, value@.len() as int))
                        == Err::<Seq<ChunkModel>, ChunkError>(e),
                },
            decreases value@.len() - pos,
        {
            let ghost remaining = value@.subrange(pos as int, value@.len() as int);
            let rem = value.len() - pos;
            let end: usize = if rem < 8 {
                value.len()
            } else {
                let l = read_be_u32(
                    *vstd::slice::slice_index_get(value, pos),
                    *vstd::slice::slice_index_get(value, pos + 1),
                    *vstd::slice::slice_index_get(value, pos + 2),
                    *vstd::slice::slice_index_get(value, pos + 3),
                );
                proof {
                    assert(seq![
                        value@[pos as int],
                        value@[pos + 1],
                        value@[pos + 2],
                        value@[pos + 3],
                    ] =~= remaining.subrange(0, 4));
                }
                if l > 0x80000000u32 {
                    value.len()
                } else {
                    let l_us = l as usize;
                    if rem < 12 || rem - 12 < l_us {
                        value.len()
                    } else {
                        pos + 12 + l_us
                    }
                }
            };
            proof {
                assert(end - pos == png_seg_len(remaining));
            }
            let seg = slice_subrange(value, pos, end);
            proof {
                assert(seg@ =~= remaining.subrange(0, png_seg_len(remaining)));
            }
            match Chunk::from_bytes(seg) {
                Err(e) => {
                    proof {
                        assert(remaining.len() > 0);
                        assert(spec_parse_chunk(remaining.subrange(0, png_seg_len(remaining)))
                            == Err::<ChunkModel, ChunkError>(e));
                        assert(spec_parse_chunk_stream(remaining) == Err::<
                            Seq<ChunkModel>,
                            ChunkError,
                        >(e));
                    }
                    return Err(PngError::InvalidChunk(e));
                },
                Ok(c) => {
                    proof {
                        assert(remaining.subrange(png_seg_len(remaining), remaining.len() as int)
                            =~= value@.subrange(end as int, value@.len() as int));
                        assert(chunk_views(chunks@.push(c)) =~= chunk_views(chunks@) + seq![c@]);
                        let rest2 = spec_parse_chunk_stream(
                            value@.subrange(end as int, value@.len() as int),
                        );
                        if rest2 is Ok {
                            assert((chunk_views(chunks@) + seq![c@]) + rest2->Ok_0 =~= chunk_views(
                                chunks@,
                            ) + (seq![c@] + rest2->Ok_0));
                        }
                    }
                    chunks.push(c);
                    pos = end;
                },
            }
        }
        proof {
            assert(value@.subrange(pos as int, value@.len() as int) =~= Seq::<u8>::empty());
            assert(chunk_views(chunks@) + Seq::<ChunkModel>::empty() =~= chunk_views(chunks@));
        }
        Ok(Png { chunks })
    }

    /// The canonical byte form: the signature, then every chunk's encoding
    /// in stored order; the exact inverse of parsing.
    pub fn to_bytes(&self) -> (r: Vec<u8>)
        requires
            self.wf(),
        ensures
            r@ == png_encoding(self@),
    {
        let mut out: Vec<u8> = Vec::new();
        out.push(0x89);
        out.push(0x50);
        out.push(0x4e);
        out.push(0x47);
        out.push(0x0d);
        out.push(0x0a);
        out.push(0x1a);
        out.push(0x0a);
        proof {
            assert(out@ =~= spec_png_signature());
            assert(self@.take(0) =~= Seq::<ChunkModel>::empty());
            assert(out@ =~= spec_png_signature() + chunk_stream_encoding(self@.take(0)));
        }
        let mut i: usize = 0;
        while i < self.chunks.len()
            invariant
                self.wf(),
                i <= self.spec_chunks().len(),
                self@.len() == self.spec_chunks().len(),
                out@ == spec_png_signature() + chunk_stream_encoding(self@.take(i as int)),
            decreases self.spec_chunks().len() - i,
        {
            let mut piece = (&self.chunks[i]).as_bytes();
            out.append(&mut piece);
            proof {
                lemma_chunk_stream_encoding_snoc(self@.take(i as int), self@[i as int]);
                assert(self@.take(i as int).push(self@[i as int]) =~= self@.take(i + 1));
            }
            i += 1;
        }
        proof {
            assert(self@.take(self@.len() as int) =~= self@);
        }
        out
    }

    /// The first chunk, in stored order, whose type tag's text equals the
    /// given string; nothing when no chunk matches.
    pub fn chunk_by_type(&self, chunk_type: &str) -> (r: Option<&Chunk>)
        ensures
            r is Some <==> seq_has_type(self@, chunk_type.spec_bytes()),
            r matches Some(c) ==> exists|i: int|
                {
                    &&& 0 <= i < self@.len()
                    &&& c@ == self@[i]
                    &&& (#[trigger] self@[i]).type_bytes == chunk_type.spec_bytes()
                    &&& forall|j: int|
                        0 <= j < i ==> (#[trigger] self@[j]).type_bytes != chunk_type.spec_bytes()
                },
    {
        let target = chunk_type.as_bytes();
        let mut i: usize = 0;
        while i < self.chunks.len()
            invariant
                i <= self@.len(),
                self@.len() == self.spec_chunks().len(),
                target@ == chunk_type.spec_bytes(),
                forall|j: int| 0 <= j < i ==> (#[trigger] self@[j]).type_bytes != target@,
            decreases self@.len() - i,
        {
            let c = &self.chunks[i];
            if type_matches(c, target) {
                proof {
                    assert((self@[i as int]).type_bytes == chunk_type.spec_bytes());
                }
                return Some(c);
            }
            i += 1;
        }
        None
    }

    /// Removes and returns the first chunk, in stored order, whose type
    /// tag's text equals the given string; fails, changing nothing, when
    /// no chunk matches.  Later chunks of the same type stay.
    pub fn remove_chunk(&mut self, chunk_type: &str) -> (r: Result<Chunk, PngError>)
        requires
            old(self).wf(),
        ensures
            final(self).wf(),
            r is Ok <==> seq_has_type(old(self)@, chunk_type.spec_bytes()),
            r is Err ==> r->Err_0 == PngError::ChunkNotFound && final(self)@ == old(self)@,
            r matches Ok(c) ==> exists|i: int|
                {
                    &&& 0 <= i < old(self)@.len()
                    &&& c@ == old(self)@[i]
                    &&& (#[trigger] old(self)@[i]).type_bytes == chunk_type.spec_bytes()
                    &&& forall|j: int|
                        0 <= j < i ==> (#[trigger] old(self)@[j]).type_bytes
                            != chunk_type.spec_bytes()
                    &&& final(self)@ == old(self)@.remove(i)
                },
    {
        let target = chunk_type.as_bytes();
        let mut i: usize = 0;
        while i < self.chunks.len()
            invariant
                *self == *old(self),
                old(self).wf(),
                i <= self@.len(),
                self@.len() == self.spec_chunks().len(),
                target@ == chunk_type.spec_bytes(),
                forall|j: int| 0 <= j < i ==> (#[trigger] self@[j]).type_bytes != target@,
            decreases self@.len() - i,
        {
            let matched = type_matches(&self.chunks[i], target);
            if matched {
                proof {
                    assert((self@[i as int]).type_bytes == chunk_type.spec_bytes());
                }
                let c = self.chunks.remove(i);
                proof {
                    old(self).spec_chunks().remove_ensures(i as int);
                    assert(self@ =~= old(self)@.remove(i as int));
                    assert forall|j: int|
                        0 <= j < self.spec_chunks().len() implies (
                    #[trigger] self.spec_chunks()[j]).wf() by {
                        if j < i {
                            assert(self.spec_chunks()[j] == old(self).spec_chunks()[j]);
                        } else {
                            assert(self.spec_chunks()[j] == old(self).spec_chunks()[j + 1]);
                        }
                    }
                    assert((old(self)@[i as int]).type_bytes == chunk_type.spec_bytes());
                }
                return Ok(c);
            }
            i += 1;
        }
        Err(PngError::ChunkNotFound)
    }
}

/// Whether the chunk's type tag equals the given byte string.
fn type_matches(c: &Chunk, target: &[u8]) -> (r: bool)
    ensures
        r == (c@.type_bytes == target@),
{
    let quad = c.chunk_type().bytes();
    if target.len() != 4 {
        proof {
            assert(c@.type_bytes.len() == 4);
        }
        return false;
    }
    let eq = quad[0] == *vstd::slice::slice_index_get(target, 0) && quad[1]
        == *vstd::slice::slice_index_get(target, 1) && quad[2] == *vstd::slice::slice_index_get(
        target,
        2,
    ) && quad[3] == *vstd::slice::slice_index_get(target, 3);
    proof {
        if eq {
            assert(c@.type_bytes =~= target@);
        } else {
            assert(c@.type_bytes != target@);
        }
    }
    eq
}

/// Appending one chunk to a sequence appends its encoding to the stream
/// encoding.
pub proof fn lemma_chunk_stream_encoding_snoc(ms: Seq<ChunkModel>, m: ChunkModel)
    ensures
        chunk_stream_encoding(ms.push(m)) == chunk_stream_encoding(ms) + chunk_encoding(m),
    decreases ms.len(),
{
    if ms.len() == 0 {
        assert(ms.push(m).drop_first() =~= Seq::<ChunkModel>::empty());
        assert(chunk_stream_encoding(ms.push(m).drop_first()) == Seq::<u8>::empty());
        assert(chunk_stream_encoding(ms) == Seq::<u8>::empty());
        assert(ms.push(m)[0] == m);
        assert(chunk_stream_encoding(ms.push(m)) == chunk_encoding(m) + Seq::<u8>::empty());
        assert(chunk_stream_encoding(ms.push(m)) =~= chunk_stream_encoding(ms) + chunk_encoding(m));
    } else {
        assert(ms.push(m).drop_first() =~= ms.drop_first().push(m));
        lemma_chunk_stream_encoding_snoc(ms.drop_first(), m);
        assert(chunk_stream_encoding(ms.push(m)) =~= chunk_stream_encoding(ms) + chunk_encoding(m));
    }
}

/// Round trip for chunk streams: a sequence of well-formed,
/// reserved-bit-valid chunks decodes from the concatenation of its
/// encodings back to exactly itself.
pub proof fn lemma_chunk_stream_round_trip(ms: Seq<ChunkModel>)
    requires
        forall|i: int| 0 <= i < ms.len() ==> chunk_model_valid(#[trigger] ms[i]),
    ensures
        spec_parse_chunk_stream(chunk_stream_encoding(ms)) == Ok::<Seq<ChunkModel>, ChunkError>(ms),
    decreases ms.len(),
{
    if ms.len() == 0 {
        assert(spec_parse_chunk_stream(chunk_stream_encoding(ms))->Ok_0 =~= ms);
    } else {
        let enc = chunk_stream_encoding(ms);
        let first = chunk_encoding(ms[0]);
        let rest_enc = chunk_stream_encoding(ms.drop_first());
        let l = ms[0].data.len() as int;
        crate::endian::lemma_u32_be_bytes_roundtrip(ms[0].data.len() as u32);
        assert(first.len() == 12 + l);
        assert(enc.subrange(0, 4) =~= crate::endian::u32_be_bytes(ms[0].data.len() as u32));
        assert(png_seg_len(enc) == 12 + l);
        assert(enc.subrange(0, 12 + l) =~= first);
        crate::chunk::lemma_chunk_round_trip(ms[0]);
        assert(enc.subrange(12 + l, enc.len() as int) =~= rest_enc);
        lemma_chunk_stream_round_trip(ms.drop_first());
        assert(seq![ms[0]] + ms.drop_first() =~= ms);
    }
}

/// Round trip for whole containers: a container of well-formed,
/// reserved-bit-valid chunks decodes from its own byte form back to the
/// same ordered chunk sequence.
pub proof fn lemma_png_round_trip(ms: Seq<ChunkModel>)
    requires
        forall|i: int| 0 <= i < ms.len() ==> chunk_model_valid(#[trigger] ms[i]),
    ensures
        spec_parse_png(png_encoding(ms)) == Ok::<Seq<ChunkModel>, PngError>(ms),
{
    let enc = png_encoding(ms);
    assert(enc.subrange(0, 8) =~= spec_png_signature());
    assert(enc.subrange(8, enc.len() as int) =~= chunk_stream_encoding(ms));
    lemma_chunk_stream_round_trip(ms);
}

} // verus!
