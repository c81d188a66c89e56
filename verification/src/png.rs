//! The whole-file container: an ordered sequence of chunks behind the
//! fixed 8-byte PNG signature.
//!
//! Order is significant and preserved; duplicate chunk types are allowed
//! and never deduplicated.  Serialization is the signature followed by each
//! chunk's bytes in sequence order, and parsing walks the buffer chunk by
//! chunk until it is exhausted, rejecting the whole buffer on the first
//! malformed chunk: no partial container is ever produced.

use vstd::prelude::*;
use vstd::slice::slice_index_get;
use vstd::slice::slice_subrange;
use vstd::string::StringExecFns;
use crate::chunk::Chunk;
use crate::chunk::ChunkModel;
use crate::chunk::chunk_model_wf;
use crate::chunk::chunk_parse_error;
use crate::chunk::chunk_wire_bytes;
use crate::chunk::lemma_chunk_round_trip;
use crate::chunk::lemma_chunk_serialize_of_parse;
use crate::chunk::lemma_truncated_crc_rejected;
use crate::chunk::parsed_chunk;
use crate::chunk_type::type_text;
use crate::error::PngFromBytesError;
use crate::error::RemoveChunkError;
use crate::text::dec_chars;
use crate::text::decimal_text;
use crate::wire::be_bytes;
use crate::wire::be_val;
use crate::wire::lemma_be_bytes_len;
use crate::wire::lemma_be_val_of_be_bytes;
use crate::wire::read_be_u32;

verus! {

/// The fixed 8-byte signature that precedes the chunks of every file.
pub open spec fn png_header() -> Seq<u8> {
    seq![0x89u8, 0x50u8, 0x4eu8, 0x47u8, 0x0du8, 0x0au8, 0x1au8, 0x0au8]
}

/// The models of a sequence of chunks.
pub open spec fn chunk_models(cs: Seq<Chunk>) -> Seq<ChunkModel> {
    cs.map(|i: int, c: Chunk| c@)
}

/// The concatenated serializations of a sequence of chunks.
pub open spec fn chunks_wire_bytes(ms: Seq<ChunkModel>) -> Seq<u8>
    decreases ms.len(),
{
    if ms.len() == 0 {
        Seq::empty()
    } else {
        chunk_wire_bytes(ms[0]) + chunks_wire_bytes(ms.drop_first())
    }
}

/// Serializing one more chunk appends its bytes.
pub proof fn lemma_chunks_wire_bytes_push(ms: Seq<ChunkModel>, m: ChunkModel)
    ensures
        chunks_wire_bytes(ms.push(m)) == chunks_wire_bytes(ms) + chunk_wire_bytes(m),
    decreases ms.len(),
{
    if ms.len() == 0 {
        assert(ms.push(m)[0] == m);
        assert(ms.push(m).drop_first() =~= Seq::<ChunkModel>::empty());
        assert(chunks_wire_bytes(ms.push(m).drop_first()) == Seq::<u8>::empty());
        assert(chunks_wire_bytes(ms.push(m)) == chunk_wire_bytes(m) + chunks_wire_bytes(
            ms.push(m).drop_first(),
        ));
        assert(chunks_wire_bytes(ms) == Seq::<u8>::empty());
        assert(chunks_wire_bytes(ms.push(m)) =~= chunks_wire_bytes(ms) + chunk_wire_bytes(m));
    } else {
        lemma_chunks_wire_bytes_push(ms.drop_first(), m);
        assert(ms.push(m)[0] == ms[0]);
        assert(ms.push(m).drop_first() =~= ms.drop_first().push(m));
        assert(chunks_wire_bytes(ms.push(m)) == chunk_wire_bytes(ms[0]) + chunks_wire_bytes(
            ms.drop_first().push(m),
        ));
        assert(chunks_wire_bytes(ms.drop_first().push(m)) == chunks_wire_bytes(ms.drop_first())
            + chunk_wire_bytes(m));
        assert(chunks_wire_bytes(ms) == chunk_wire_bytes(ms[0]) + chunks_wire_bytes(
            ms.drop_first(),
        ));
        assert(chunks_wire_bytes(ms.push(m)) =~= chunks_wire_bytes(ms) + chunk_wire_bytes(m));
    }
}

/// The serialized bytes of a whole container.
pub open spec fn png_wire_bytes(ms: Seq<ChunkModel>) -> Seq<u8> {
    png_header() + chunks_wire_bytes(ms)
}

/// How many bytes of the buffer the next chunk's frame spans: the 4 length
/// bytes plus the declared data-and-checksum span, capped at the end of the
/// buffer (a short buffer hands the chunk grammar whatever is left, which
/// then reports the precise failure).  Meaningful when at least the 4
/// length bytes are present.
pub open spec fn chunk_slice_len(b: Seq<u8>) -> int
    recommends
        b.len() >= 4,
{
    let l = be_val(b.subrange(0, 4)) as int;
    if l + 8 <= b.len() - 4 {
        4 + l + 8
    } else {
        b.len() as int
    }
}

/// The outcome of scanning a buffer as a sequence of chunks: the chunk
/// contents in file order, or the first failure.  An empty buffer is the
/// only clean end; 1 to 3 remaining bytes cannot hold a length field; any
/// chunk error aborts the scan.
pub open spec fn parse_chunks(b: Seq<u8>) -> Result<Seq<ChunkModel>, PngFromBytesError>
    decreases b.len(),
{
    if b.len() == 0 {
        Ok(Seq::empty())
    } else if b.len() < 4 {
        Err(PngFromBytesError::LengthParse)
    } else {
        let piece = b.subrange(0, chunk_slice_len(b));
        match chunk_parse_error(piece) {
            Some(e) => Err(PngFromBytesError::ChunkParseError(e)),
            None => match parse_chunks(b.skip(chunk_slice_len(b))) {
                Ok(rest) => Ok(seq![parsed_chunk(piece)] + rest),
                Err(e) => Err(e),
            },
        }
    }
}

/// Whether a chunk's type tag reads as the given text.
pub open spec fn chunk_matches(m: ChunkModel, t: Seq<char>) -> bool {
    type_text(m.type_bytes) == t
}

/// The index of the first chunk whose type reads as the given text, or -1
/// when no chunk matches.
pub open spec fn first_match_idx(ms: Seq<ChunkModel>, t: Seq<char>) -> int
    decreases ms.len(),
{
    if ms.len() == 0 {
        -1
    } else if chunk_matches(ms[0], t) {
        0
    } else {
        let rest = first_match_idx(ms.drop_first(), t);
        if rest < 0 {
            -1
        } else {
            1 + rest
        }
    }
}

/// `first_match_idx` names the least matching index, and -1 exactly when
/// nothing matches.
pub proof fn lemma_first_match_idx(ms: Seq<ChunkModel>, t: Seq<char>)
    ensures
        first_match_idx(ms, t) == -1 ==> forall|i: int|
            0 <= i < ms.len() ==> !chunk_matches(#[trigger] ms[i], t),
        first_match_idx(ms, t) != -1 ==> {
            let idx = first_match_idx(ms, t);
            &&& 0 <= idx < ms.len()
            &&& chunk_matches(ms[idx], t)
            &&& forall|i: int| 0 <= i < idx ==> !chunk_matches(#[trigger] ms[i], t)
        },
    decreases ms.len(),
{
    if ms.len() > 0 && !chunk_matches(ms[0], t) {
        let rest = ms.drop_first();
        lemma_first_match_idx(rest, t);
        if first_match_idx(rest, t) == -1 {
            assert forall|i: int| 0 <= i < ms.len() implies !chunk_matches(
                #[trigger] ms[i],
                t,
            ) by {
                if i > 0 {
                    assert(ms[i] == rest[i - 1]);
                }
            }
        } else {
            let ridx = first_match_idx(rest, t);
            assert(ms[1 + ridx] == rest[ridx]);
            assert forall|i: int| 0 <= i < 1 + ridx implies !chunk_matches(
                #[trigger] ms[i],
                t,
            ) by {
                if i > 0 {
                    assert(ms[i] == rest[i - 1]);
                }
            }
        }
    }
}

/// The display text of a container.
pub open spec fn png_display_text(n: int) -> Seq<char> {
    "Png with "@ + dec_chars(n) + " chunks"@
}

/// The whole-file container: an ordered sequence of chunks.
#[derive(Debug, PartialEq, Eq)]
pub struct Png {
    chunks: Vec<Chunk>,
}

impl View for Png {
    type V = Seq<ChunkModel>;

    closed spec fn view(&self) -> Seq<ChunkModel> {
        chunk_models(self.chunks@)
    }
}

impl Png {
    /// Wraps an explicit chunk sequence, preserving its order.  Always
    /// succeeds.
    pub fn from_chunks(chunks: Vec<Chunk>) -> (r: Png)
        ensures
            r@ == chunk_models(chunks@),
    {
        Png { chunks }
    }

    /// The chunk sequence, read-only and in order.
    pub fn chunks(&self) -> (r: &[Chunk])
        ensures
            chunk_models(r@) == self@,
            r@.len() == self@.len(),
    {
        self.chunks.as_slice()
    }

    /// Appends a chunk at the end of the sequence.  Always succeeds and
    /// touches no other chunk, whatever types are already present.
    pub fn append_chunk(&mut self, chunk: Chunk)
        ensures
            final(self)@ == old(self)@.push(chunk@),
    {
        self.chunks.push(chunk);
        assert(self@ =~= old(self)@.push(chunk@));
    }

    /// Removes and returns the first chunk whose type reads as the given
    /// text, shifting the rest to close the gap; exactly one chunk leaves
    /// even when duplicates exist.  Fails, leaving the container unchanged,
    /// exactly when no chunk matches.
    pub fn remove_chunk(&mut self, chunk_type: &str) -> (r: Result<Chunk, RemoveChunkError>)
        ensures
            ({
                let idx = first_match_idx(old(self)@, chunk_type@);
                if idx >= 0 {
                    &&& r matches Ok(c) && c@ == old(self)@[idx]
                    &&& final(self)@ == old(self)@.remove(idx)
                } else {
                    &&& final(self)@ == old(self)@
                    &&& r matches Err(RemoveChunkError::NotFound(t)) && t@ == chunk_type@
                }
            }),
    {
        proof {
            lemma_first_match_idx(self@, chunk_type@);
        }
        match find_first(&self.chunks, chunk_type) {
            Some(i) => {
                let c = self.chunks.remove(i);
                assert(self@ =~= old(self)@.remove(i as int));
                Ok(c)
            },
            None => Err(RemoveChunkError::NotFound(chunk_type.to_owned())),
        }
    }

    /// The fixed 8-byte signature.
    pub fn header(&self) -> (r: [u8; 8])
        ensures
            r@ == png_header(),
    {
        let h: [u8; 8] = [0x89, 0x50, 0x4e, 0x47, 0x0d, 0x0a, 0x1a, 0x0a];
        assert(h@ =~= png_header());
        h
    }

    /// The first chunk whose type reads as the given text, or nothing when
    /// no chunk matches; an absent type is not an error here.
    pub fn chunk_by_type(&self, chunk_type: &str) -> (r: Option<&Chunk>)
        ensures
            ({
                let idx = first_match_idx(self@, chunk_type@);
                if idx >= 0 {
                    r matches Some(c) && c@ == self@[idx]
                } else {
                    r is None
                }
            }),
    {
        proof {
            lemma_first_match_idx(self@, chunk_type@);
        }
        match find_first(&self.chunks, chunk_type) {
            Some(i) => Some(&self.chunks[i]),
            None => None,
        }
    }

    /// Serializes the container: the signature followed by each chunk's
    /// serialization, in sequence order.
    pub fn as_bytes(&self) -> (r: Vec<u8>)
        ensures
            r@ == png_wire_bytes(self@),
    {
        let mut out: Vec<u8> = Vec::new();
        out.push(0x89);
        out.push(0x50);
        out.push(0x4e);
        out.push(0x47);
        out.push(0x0d);
        out.push(0x0a);
        out.push(0x1a);
        out.push(0x0a);
        assert(out@ =~= png_header() + chunks_wire_bytes(self@.take(0)));
        let n = self.chunks.len();
        for i in 0..n
            invariant
                n == self.chunks@.len(),
                out@ == png_header() + chunks_wire_bytes(self@.take(i as int)),
        {
            let cb = self.chunks[i].as_bytes();
            out.extend_from_slice(cb.as_slice());
            proof {
                lemma_chunks_wire_bytes_push(self@.take(i as int), self@[i as int]);
                assert(self@.take(i as int).push(self@[i as int]) =~= self@.take(i + 1 as int));
                assert(out@ =~= png_header() + chunks_wire_bytes(self@.take(i + 1 as int)));
            }
        }
        assert(self@.take(n as int) =~= self@);
        out
    }

    /// The display text of the container: its chunk count.
    pub fn to_text(&self) -> (r: String)
        ensures
            r@ == png_display_text(self@.len() as int),
    {
        let mut s = String::new();
        s.append("Png with ");
        let num = decimal_text(self.chunks.len() as u64);
        s.append(num.as_str());
        s.append(" chunks");
        assert(s@ =~= png_display_text(self@.len() as int));
        s
    }

    /// Parses a whole buffer.  The first 8 bytes must be the signature,
    /// else the buffer is rejected as a whole; the rest is scanned exactly
    /// as [`parse_chunks`] describes, and any failure there rejects the
    /// buffer with that failure: all or nothing, never a partial container.
    #[verifier::rlimit(50)]
    pub fn parse_bytes(bytes: &[u8]) -> (r: Result<Png, PngFromBytesError>)
        ensures
            !(bytes@.len() >= 8 && bytes@.subrange(0, 8) == png_header()) ==> r == Err::<
                Png,
                PngFromBytesError,
            >(PngFromBytesError::InvalidHeader),
            bytes@.len() >= 8 && bytes@.subrange(0, 8) == png_header() ==> match parse_chunks(
                bytes@.skip(8),
            ) {
                Ok(ms) => r matches Ok(p) && p@ == ms,
                Err(e) => r == Err::<Png, PngFromBytesError>(e),
            },
            r matches Ok(p) ==> forall|i: int|
                0 <= i < p@.len() ==> chunk_model_wf(#[trigger] p@[i]),
            r matches Ok(p) ==> png_wire_bytes(p@) == bytes@,
    {
        if !header_matches(bytes) {
            return Err(PngFromBytesError::InvalidHeader);
        }
        let ghost full = bytes@;
        let mut pos: usize = 8;
        let mut chunks: Vec<Chunk> = Vec::new();
        while pos < bytes.len()
            invariant
                8 <= pos <= bytes@.len(),
                full == bytes@,
                bytes@.len() >= 8 && bytes@.subrange(0, 8) == png_header(),
                parse_chunks(full.skip(8)) == (match parse_chunks(full.skip(pos as int)) {
                    Ok(rest) => Ok::<Seq<ChunkModel>, PngFromBytesError>(
                        chunk_models(chunks@) + rest,
                    ),
                    Err(e) => Err::<Seq<ChunkModel>, PngFromBytesError>(e),
                }),
                forall|i: int| 0 <= i < chunks@.len() ==> (#[trigger] chunks@[i]).wf(),
            decreases bytes@.len() - pos,
        {
            let rem = bytes.len() - pos;
            assert(full.skip(pos as int).len() == rem);
            if rem < 4 {
                proof {
                    assert(parse_chunks(full.skip(pos as int)) == Err::<
                        Seq<ChunkModel>,
                        PngFromBytesError,
                    >(PngFromBytesError::LengthParse));
                }
                return Err(PngFromBytesError::LengthParse);
            }
            let l = read_be_u32(slice_subrange(bytes, pos, pos + 4));
            proof {
                assert(full.skip(pos as int).subrange(0, 4) =~= bytes@.subrange(
                    pos as int,
                    pos + 4 as int,
                ));
            }
            let rem_after = rem - 4;
            let want: usize = if rem_after >= 8 && (l as usize) <= rem_after - 8 {
                (l as usize) + 8
            } else {
                rem_after
            };
            let take = 4 + want;
            assert(take == chunk_slice_len(full.skip(pos as int)));
            let piece = slice_subrange(bytes, pos, pos + take);
            proof {
                assert(piece@ =~= full.skip(pos as int).subrange(0, take as int));
            }
            match Chunk::parse_bytes(piece) {
                Err(e) => {
                    proof {
                        assert(parse_chunks(full.skip(pos as int)) == Err::<
                            Seq<ChunkModel>,
                            PngFromBytesError,
                        >(PngFromBytesError::ChunkParseError(e)));
                    }
                    return Err(PngFromBytesError::ChunkParseError(e));
                },
                Ok(c) => {
                    let ghost before = chunks@;
                    chunks.push(c);
                    proof {
                        assert(full.skip(pos as int).skip(take as int) =~= full.skip(
                            pos + take as int,
                        ));
                        assert(chunk_models(chunks@) =~= chunk_models(before).push(c@));
                        if parse_chunks(full.skip(pos + take as int)) is Ok {
                            let rest = parse_chunks(full.skip(pos + take as int))->Ok_0;
                            assert(chunk_models(before) + (seq![c@] + rest) =~= chunk_models(
                                chunks@,
                            ) + rest);
                        }
                    }
                    pos = pos + take;
                },
            }
        }
        assert(full.skip(pos as int) =~= Seq::<u8>::empty());
        assert(chunk_models(chunks@) + Seq::<ChunkModel>::empty() =~= chunk_models(chunks@));
        proof {
            lemma_png_serialize_of_parse(full.skip(8));
            assert(png_wire_bytes(chunk_models(chunks@)) =~= full);
        }
        let p = Png { chunks };
        Ok(p)
    }
}

/// Whether the buffer starts with the 8-byte signature.
fn header_matches(bytes: &[u8]) -> (r: bool)
    ensures
        r == (bytes@.len() >= 8 && bytes@.subrange(0, 8) == png_header()),
{
    if bytes.len() < 8 {
        return false;
    }
    let same = *slice_index_get(bytes, 0) == 0x89 && *slice_index_get(bytes, 1) == 0x50
        && *slice_index_get(bytes, 2) == 0x4e && *slice_index_get(bytes, 3) == 0x47
        && *slice_index_get(bytes, 4) == 0x0d && *slice_index_get(bytes, 5) == 0x0a
        && *slice_index_get(bytes, 6) == 0x1a && *slice_index_get(bytes, 7) == 0x0a;
    proof {
        let h = bytes@.subrange(0, 8);
        assert(forall|i: int| 0 <= i < 8 ==> h[i] == bytes@[i]);
        if same {
            assert(h =~= png_header());
        } else {
            if bytes@[0] != 0x89 {
                assert(h[0] != png_header()[0]);
            } else if bytes@[1] != 0x50 {
                assert(h[1] != png_header()[1]);
            } else if bytes@[2] != 0x4e {
                assert(h[2] != png_header()[2]);
            } else if bytes@[3] != 0x47 {
                assert(h[3] != png_header()[3]);
            } else if bytes@[4] != 0x0d {
                assert(h[4] != png_header()[4]);
            } else if bytes@[5] != 0x0a {
                assert(h[5] != png_header()[5]);
            } else if bytes@[6] != 0x1a {
                assert(h[6] != png_header()[6]);
            } else {
                assert(h[7] != png_header()[7]);
            }
        }
    }
    same
}

/// The index of the first chunk of the vector whose type reads as the
/// given text, if any.
fn find_first(chunks: &Vec<Chunk>, t: &str) -> (r: Option<usize>)
    ensures
        ({
            let idx = first_match_idx(chunk_models(chunks@), t@);
            match r {
                Some(i) => idx == i,
                None => idx == -1,
            }
        }),
{
    proof {
        lemma_first_match_idx(chunk_models(chunks@), t@);
    }
    let ghost ms = chunk_models(chunks@);
    let n = chunks.len();
    for i in 0..n
        invariant
            n == chunks@.len(),
            ms == chunk_models(chunks@),
            forall|j: int| 0 <= j < i ==> !chunk_matches(#[trigger] ms[j], t@),
    {
        if chunks[i].chunk_type().matches_text(t) {
            proof {
                assert(chunk_matches(ms[i as int], t@));
                lemma_first_match_idx(ms, t@);
            }
            return Some(i);
        }
    }
    None
}

/// Law: a container of well-formed chunks survives the byte round trip.
/// Its serialization starts with the signature, and scanning the rest
/// yields exactly the same chunk sequence, in the same order.
pub proof fn lemma_png_round_trip(ms: Seq<ChunkModel>)
    requires
        forall|i: int| 0 <= i < ms.len() ==> chunk_model_wf(#[trigger] ms[i]),
    ensures
        png_wire_bytes(ms).len() >= 8,
        png_wire_bytes(ms).subrange(0, 8) == png_header(),
        parse_chunks(png_wire_bytes(ms).skip(8)) == Ok::<Seq<ChunkModel>, PngFromBytesError>(ms),
{
    assert(png_wire_bytes(ms).subrange(0, 8) =~= png_header());
    assert(png_wire_bytes(ms).skip(8) =~= chunks_wire_bytes(ms));
    lemma_parse_of_chunks_wire_bytes(ms);
}

/// Scanning the concatenated serializations of well-formed chunks yields
/// exactly those chunks.
proof fn lemma_parse_of_chunks_wire_bytes(ms: Seq<ChunkModel>)
    requires
        forall|i: int| 0 <= i < ms.len() ==> chunk_model_wf(#[trigger] ms[i]),
    ensures
        parse_chunks(chunks_wire_bytes(ms)) == Ok::<Seq<ChunkModel>, PngFromBytesError>(ms),
    decreases ms.len(),
{
    let b = chunks_wire_bytes(ms);
    if ms.len() == 0 {
        assert(ms =~= Seq::<ChunkModel>::empty());
    } else {
        let m = ms[0];
        let rest = ms.drop_first();
        assert forall|i: int| 0 <= i < rest.len() implies chunk_model_wf(
            #[trigger] rest[i],
        ) by {
            assert(rest[i] == ms[i + 1]);
        }
        let cb = chunk_wire_bytes(m);
        lemma_chunk_round_trip(m);
        lemma_be_val_of_be_bytes(m.length);
        lemma_be_bytes_len(m.crc);
        assert(cb.len() == 12 + m.data.len());
        assert(b == cb + chunks_wire_bytes(rest));
        assert(b.subrange(0, 4) =~= be_bytes(m.length));
        assert(chunk_slice_len(b) == cb.len());
        assert(b.subrange(0, cb.len() as int) =~= cb);
        assert(b.skip(cb.len() as int) =~= chunks_wire_bytes(rest));
        lemma_parse_of_chunks_wire_bytes(rest);
        assert(seq![parsed_chunk(cb)] + rest =~= ms);
    }
}

/// Serializing a chunk sequence starts with its first chunk's bytes.
proof fn lemma_chunks_wire_bytes_cons(m: ChunkModel, rest: Seq<ChunkModel>)
    ensures
        chunks_wire_bytes(seq![m] + rest) == chunk_wire_bytes(m) + chunks_wire_bytes(rest),
{
    let s = seq![m] + rest;
    assert(s[0] == m);
    assert(s.drop_first() =~= rest);
    assert(chunks_wire_bytes(s) == chunk_wire_bytes(s[0]) + chunks_wire_bytes(s.drop_first()));
}

/// Law: scanning is the exact inverse of serialization.  A chunk region
/// that scans cleanly is reproduced byte for byte by serializing the
/// chunks read off it.
#[verifier::rlimit(100)]
pub proof fn lemma_png_serialize_of_parse(b: Seq<u8>)
    requires
        parse_chunks(b) is Ok,
    ensures
        chunks_wire_bytes(parse_chunks(b)->Ok_0) == b,
    decreases b.len(),
{
    if b.len() == 0 {
    } else {
        let take = chunk_slice_len(b);
        let piece = b.subrange(0, take);
        assert(4 <= take <= b.len());
        let rest = parse_chunks(b.skip(take))->Ok_0;
        assert(parse_chunks(b)->Ok_0 == seq![parsed_chunk(piece)] + rest);
        assert(chunk_parse_error(piece) is None);
        lemma_chunk_serialize_of_parse(piece);
        lemma_png_serialize_of_parse(b.skip(take));
        lemma_chunks_wire_bytes_cons(parsed_chunk(piece), rest);
        assert(piece + b.skip(take) =~= b);
    }
}

/// Law: a buffer cut off inside the checksum field of its last chunk is
/// rejected as a whole; parsing yields an error, never a partial
/// container.
pub proof fn lemma_png_truncated_crc_rejected(ms: Seq<ChunkModel>, t: int)
    requires
        forall|i: int| 0 <= i < ms.len() ==> chunk_model_wf(#[trigger] ms[i]),
        ms.len() > 0,
        png_wire_bytes(ms).len() - 4 <= t < png_wire_bytes(ms).len(),
    ensures
        parse_chunks(png_wire_bytes(ms).take(t).skip(8)) is Err,
{
    assert(png_wire_bytes(ms).take(t).skip(8) =~= chunks_wire_bytes(ms).take(t - 8)) by {
        lemma_chunks_wire_bytes_min_len(ms);
    }
    lemma_truncated_chunks_rejected(ms, t - 8);
}

/// A non-empty sequence of well-formed chunks serializes to at least the
/// 12 framing bytes of its first chunk plus that chunk's data.
proof fn lemma_chunks_wire_bytes_min_len(ms: Seq<ChunkModel>)
    requires
        ms.len() > 0,
        chunk_model_wf(ms[0]),
    ensures
        chunks_wire_bytes(ms).len() >= 12 + ms[0].data.len(),
{
    lemma_be_bytes_len(ms[0].length);
    lemma_be_bytes_len(ms[0].crc);
    assert(chunks_wire_bytes(ms) == chunk_wire_bytes(ms[0]) + chunks_wire_bytes(
        ms.drop_first(),
    ));
    assert(chunk_wire_bytes(ms[0]).len() == 12 + ms[0].data.len());
}

/// Truncating the chunk region inside the final checksum field makes the
/// scan fail.
proof fn lemma_truncated_chunks_rejected(ms: Seq<ChunkModel>, t: int)
    requires
        forall|i: int| 0 <= i < ms.len() ==> chunk_model_wf(#[trigger] ms[i]),
        ms.len() > 0,
        chunks_wire_bytes(ms).len() - 4 <= t < chunks_wire_bytes(ms).len(),
    ensures
        parse_chunks(chunks_wire_bytes(ms).take(t)) is Err,
    decreases ms.len(),
{
    let b = chunks_wire_bytes(ms);
    let p = b.take(t);
    let m = ms[0];
    let rest = ms.drop_first();
    let cb = chunk_wire_bytes(m);
    lemma_be_val_of_be_bytes(m.length);
    lemma_be_bytes_len(m.crc);
    assert(cb.len() == 12 + m.data.len());
    assert(b == cb + chunks_wire_bytes(rest));
    assert(p.subrange(0, 4) =~= be_bytes(m.length));
    if rest.len() == 0 {
        assert(b =~= cb);
        lemma_truncated_crc_rejected(m, t);
        assert(chunk_slice_len(p) == p.len());
        assert(p.subrange(0, p.len() as int) =~= p);
        assert(chunk_parse_error(p) is Some);
    } else {
        assert forall|i: int| 0 <= i < rest.len() implies chunk_model_wf(
            #[trigger] rest[i],
        ) by {
            assert(rest[i] == ms[i + 1]);
        }
        lemma_chunks_wire_bytes_min_len(rest);
        assert(t >= cb.len() + 8);
        lemma_chunk_round_trip(m);
        assert(chunk_slice_len(p) == cb.len());
        assert(p.subrange(0, cb.len() as int) =~= cb);
        assert(p.skip(cb.len() as int) =~= chunks_wire_bytes(rest).take(t - cb.len()));
        lemma_truncated_chunks_rejected(rest, t - cb.len());
    }
}

} // verus!

