//! One length-prefixed, type-tagged, checksummed chunk.
//!
//! On the wire a chunk is: a 4-byte big-endian length, the 4 type bytes,
//! `length` data bytes, and a 4-byte big-endian CRC-32 computed over the
//! type bytes followed by the data.  A chunk value always carries a checksum
//! equal to the freshly computed one: construction computes it, parsing
//! recomputes and compares it, and a mismatch rejects the bytes.

use vstd::prelude::*;
use vstd::slice::slice_index_get;
use vstd::slice::slice_subrange;
use vstd::slice::slice_to_vec;
use vstd::string::StringExecFns;
use vstd::utf8::decode_utf8;
use vstd::utf8::valid_utf8;
use crate::chunk_type::ChunkType;
use crate::chunk_type::all_letter_bytes;
use crate::chunk_type::first_bad_byte_char;
use crate::chunk_type::type_text;
use crate::error::ChunkParseError;
use crate::error::ChunkTypeParseError;
use crate::error::DataToStringError;
use crate::text::dec_chars;
use crate::text::decimal_text;
use crate::text::utf8_to_string;
use crate::wire::be_bytes;
use crate::wire::be_val;
use crate::wire::crc32;
use crate::wire::crc32_of;
use crate::wire::flip_bit;
use crate::wire::lemma_be_bytes_len;
use crate::wire::lemma_be_bytes_of_be_val;
use crate::wire::lemma_be_val_injective;
use crate::wire::lemma_be_val_of_be_bytes;
use crate::wire::lemma_flip_bit_changes;
use crate::wire::push_be_u32;
use crate::wire::read_be_u32;

verus! {

/// The mathematical content of a chunk: the 4 type bytes, the data bytes,
/// and the two 32-bit fields of the frame.
#[verifier::ext_equal]
pub ghost struct ChunkModel {
    pub type_bytes: Seq<u8>,
    pub data: Seq<u8>,
    pub length: u32,
    pub crc: u32,
}

/// Well-formedness of a chunk's content: the tag is 4 ASCII letters, the
/// length field counts the data bytes, and the checksum is the CRC-32 of
/// the type bytes followed by the data.
pub open spec fn chunk_model_wf(m: ChunkModel) -> bool {
    &&& m.type_bytes.len() == 4
    &&& all_letter_bytes(m.type_bytes)
    &&& m.length == m.data.len()
    &&& m.crc == crc32_of(m.type_bytes + m.data)
}

/// The serialized bytes of a chunk: big-endian length, type bytes, data,
/// big-endian checksum.
pub open spec fn chunk_wire_bytes(m: ChunkModel) -> Seq<u8> {
    be_bytes(m.length) + m.type_bytes + m.data + be_bytes(m.crc)
}

/// The length field of a chunk buffer (the first 4 bytes).
pub open spec fn length_field(b: Seq<u8>) -> Seq<u8> {
    b.subrange(0, 4)
}

/// The type field of a chunk buffer (bytes 4 to 8).
pub open spec fn type_field(b: Seq<u8>) -> Seq<u8> {
    b.subrange(4, 8)
}

/// The data block of a chunk buffer: everything between the type field and
/// the final 4 checksum bytes.  A buffer too short to hold both yields an
/// empty block, so that the length comparison (not a separate error)
/// reports the truncation.
pub open spec fn data_field(b: Seq<u8>) -> Seq<u8> {
    if b.len() >= 12 {
        b.subrange(8, b.len() - 4)
    } else {
        Seq::empty()
    }
}

/// The checksum field of a chunk buffer (its last 4 bytes).
pub open spec fn crc_field(b: Seq<u8>) -> Seq<u8> {
    b.subrange(b.len() - 4, b.len() as int)
}

/// The outcome of the strict sequential chunk grammar on a buffer: the
/// error it stops with, or `None` when the buffer is a well-formed chunk.
/// The checks happen in this order: length field present, type field
/// present, type bytes all letters, data block countable in 32 bits,
/// declared length equal to the actual data block, checksum field present,
/// checksum in agreement.
pub open spec fn chunk_parse_error(b: Seq<u8>) -> Option<ChunkParseError> {
    if b.len() < 4 {
        Some(ChunkParseError::NotEnoughBytesToParseLength)
    } else if b.len() < 8 {
        Some(ChunkParseError::NotEnoughBytesToParseType)
    } else if !all_letter_bytes(type_field(b)) {
        Some(
            ChunkParseError::ChunkTypeParseError(
                ChunkTypeParseError::NotAsciiChar(first_bad_byte_char(type_field(b))),
            ),
        )
    } else if data_field(b).len() > u32::MAX {
        Some(ChunkParseError::LengthDoesNotFitToU32)
    } else if be_val(length_field(b)) != data_field(b).len() {
        Some(ChunkParseError::EncodedLengthNotEqualToActual)
    } else if b.len() < 12 {
        Some(ChunkParseError::CouldNotParseCrc)
    } else if be_val(crc_field(b)) != crc32_of(type_field(b) + data_field(b)) {
        Some(ChunkParseError::CrcMismatch)
    } else {
        None
    }
}

/// The content read off a well-formed chunk buffer.
pub open spec fn parsed_chunk(b: Seq<u8>) -> ChunkModel {
    ChunkModel {
        type_bytes: type_field(b),
        data: data_field(b),
        length: be_val(length_field(b)),
        crc: be_val(crc_field(b)),
    }
}

/// The display text of a chunk.
pub open spec fn chunk_display_text(m: ChunkModel) -> Seq<char> {
    "Chunk \""@ + type_text(m.type_bytes) + "\" len:"@ + dec_chars(m.length as int)
}

/// One chunk: its type tag, its opaque data, and the two derived fields of
/// the frame.  Immutable after construction; both constructors establish
/// [`Chunk::wf`].
#[derive(Debug, PartialEq, Eq)]
pub struct Chunk {
    length: u32,
    chunk_type: ChunkType,
    data: Vec<u8>,
    crc: u32,
}

impl View for Chunk {
    type V = ChunkModel;

    closed spec fn view(&self) -> ChunkModel {
        ChunkModel {
            type_bytes: self.chunk_type@,
            data: self.data@,
            length: self.length,
            crc: self.crc,
        }
    }
}

impl Chunk {
    /// Well-formedness of the chunk's content.
    pub open spec fn wf(self) -> bool {
        chunk_model_wf(self@)
    }

    /// Builds a chunk from a type tag and raw data.  Always succeeds: the
    /// length is the data's byte count and the checksum is computed on the
    /// spot.
    pub fn new(chunk_type: ChunkType, data: &[u8]) -> (r: Chunk)
        requires
            chunk_type.wf(),
            data@.len() <= u32::MAX,
        ensures
            r@.type_bytes == chunk_type@,
            r@.data == data@,
            r@.length == data@.len(),
            r@.crc == crc32_of(chunk_type@ + data@),
            r.wf(),
    {
        let tb = chunk_type.bytes();
        let mut buf: Vec<u8> = Vec::new();
        buf.push(tb[0]);
        buf.push(tb[1]);
        buf.push(tb[2]);
        buf.push(tb[3]);
        buf.extend_from_slice(data);
        assert(buf@ =~= chunk_type@ + data@);
        let crc = crc32(buf.as_slice());
        Chunk { length: data.len() as u32, chunk_type, data: slice_to_vec(data), crc }
    }

    /// The value of the length field: the byte count of the data.
    pub fn length(&self) -> (r: u32)
        ensures
            r == self@.length,
    {
        self.length
    }

    /// The chunk's type tag.
    pub fn chunk_type(&self) -> (r: &ChunkType)
        ensures
            r@ == self@.type_bytes,
    {
        &self.chunk_type
    }

    /// The chunk's data, read-only.
    pub fn data(&self) -> (r: &[u8])
        ensures
            r@ == self@.data,
    {
        self.data.as_slice()
    }

    /// The chunk's checksum.
    pub fn crc(&self) -> (r: u32)
        ensures
            r == self@.crc,
    {
        self.crc
    }

    /// Reads the chunk's data as UTF-8 text.  Fails exactly when the data
    /// is not valid UTF-8; the failure is the caller's to handle and leaves
    /// the chunk untouched.
    pub fn data_as_string(&self) -> (r: Result<String, DataToStringError>)
        ensures
            r is Ok <==> valid_utf8(self@.data),
            r matches Ok(s) ==> s@ == decode_utf8(self@.data),
            r is Err ==> r == Err::<String, DataToStringError>(DataToStringError::InvalidUtf8),
    {
        match utf8_to_string(slice_to_vec(self.data.as_slice())) {
            Some(s) => Ok(s),
            None => Err(DataToStringError::InvalidUtf8),
        }
    }

    /// Serializes the chunk: big-endian length, type bytes, data bytes,
    /// big-endian checksum, in that order.
    pub fn as_bytes(&self) -> (r: Vec<u8>)
        ensures
            r@ == chunk_wire_bytes(self@),
    {
        let mut out: Vec<u8> = Vec::new();
        push_be_u32(&mut out, self.length);
        let tb = self.chunk_type.bytes();
        out.push(tb[0]);
        out.push(tb[1]);
        out.push(tb[2]);
        out.push(tb[3]);
        out.extend_from_slice(self.data.as_slice());
        push_be_u32(&mut out, self.crc);
        assert(out@ =~= chunk_wire_bytes(self@));
        out
    }

    /// The display text of the chunk: its tag in quotes and its length.
    pub fn to_text(&self) -> (r: String)
        requires
            self.wf(),
        ensures
            r@ == chunk_display_text(self@),
    {
        let mut s = String::new();
        s.append("Chunk \"");
        let tag = self.chunk_type.to_text();
        s.append(tag.as_str());
        s.append("\" len:");
        let num = decimal_text(self.length as u64);
        s.append(num.as_str());
        assert(s@ =~= chunk_display_text(self@));
        s
    }

    /// Parses one chunk from a buffer, following the strict sequential
    /// grammar of [`chunk_parse_error`]: it succeeds exactly when that
    /// function reports no error, returns exactly the error it reports
    /// otherwise, and on success the chunk's content is exactly what
    /// [`parsed_chunk`] reads off the buffer.
    pub fn parse_bytes(bytes: &[u8]) -> (r: Result<Chunk, ChunkParseError>)
        ensures
            r is Ok <==> chunk_parse_error(bytes@) is None,
            r matches Err(e) ==> chunk_parse_error(bytes@) == Some(e),
            r matches Ok(c) ==> c@ == parsed_chunk(bytes@) && c.wf(),
            r is Ok ==> chunk_wire_bytes(r->Ok_0@) == bytes@,
    {
        let n = bytes.len();
        if n < 4 {
            return Err(ChunkParseError::NotEnoughBytesToParseLength);
        }
        let length = read_be_u32(slice_subrange(bytes, 0, 4));
        assert(length == be_val(length_field(bytes@)));
        if n < 8 {
            return Err(ChunkParseError::NotEnoughBytesToParseType);
        }
        let type_arr: [u8; 4] = [
            *slice_index_get(bytes, 4),
            *slice_index_get(bytes, 5),
            *slice_index_get(bytes, 6),
            *slice_index_get(bytes, 7),
        ];
        assert(type_arr@ =~= type_field(bytes@));
        let ct = match ChunkType::parse_bytes(type_arr) {
            Ok(ct) => ct,
            Err(e) => {
                return Err(ChunkParseError::ChunkTypeParseError(e));
            },
        };
        let data_take: usize = if n >= 12 {
            n - 12
        } else {
            0
        };
        let data = slice_to_vec(slice_subrange(bytes, 8, 8 + data_take));
        assert(data@ =~= data_field(bytes@));
        if data.len() > u32::MAX as usize {
            return Err(ChunkParseError::LengthDoesNotFitToU32);
        }
        if length as usize != data.len() {
            return Err(ChunkParseError::EncodedLengthNotEqualToActual);
        }
        let crc_pos = 8 + data_take;
        if n - crc_pos != 4 {
            return Err(ChunkParseError::CouldNotParseCrc);
        }
        let crc_slice = slice_subrange(bytes, crc_pos, n);
        assert(crc_slice@ =~= crc_field(bytes@));
        let declared_crc = read_be_u32(crc_slice);
        let tb = ct.bytes();
        let mut buf: Vec<u8> = Vec::new();
        buf.push(tb[0]);
        buf.push(tb[1]);
        buf.push(tb[2]);
        buf.push(tb[3]);
        buf.extend_from_slice(data.as_slice());
        assert(buf@ =~= type_field(bytes@) + data_field(bytes@));
        if declared_crc != crc32(buf.as_slice()) {
            return Err(ChunkParseError::CrcMismatch);
        }
        let c = Chunk { length, chunk_type: ct, data, crc: declared_crc };
        assert(c@ =~= parsed_chunk(bytes@));
        proof {
            lemma_chunk_serialize_of_parse(bytes@);
        }
        Ok(c)
    }
}

/// Law: a well-formed chunk survives the byte round trip.  Serializing it
/// and parsing the bytes back yields no error and reads back exactly its
/// content.
pub proof fn lemma_chunk_round_trip(m: ChunkModel)
    requires
        chunk_model_wf(m),
    ensures
        chunk_parse_error(chunk_wire_bytes(m)) is None,
        parsed_chunk(chunk_wire_bytes(m)) == m,
{
    let b = chunk_wire_bytes(m);
    lemma_be_val_of_be_bytes(m.length);
    lemma_be_val_of_be_bytes(m.crc);
    assert(b.len() == 12 + m.data.len());
    assert(length_field(b) =~= be_bytes(m.length));
    assert(type_field(b) =~= m.type_bytes);
    assert(data_field(b) =~= m.data);
    assert(crc_field(b) =~= be_bytes(m.crc));
    assert(type_field(b) + data_field(b) == m.type_bytes + m.data);
    assert(parsed_chunk(b) =~= m);
}

/// Law: parsing is the exact inverse of serialization.  A buffer that the
/// chunk grammar accepts is reproduced byte for byte by serializing the
/// content read off it, and that content is well-formed.
pub proof fn lemma_chunk_serialize_of_parse(b: Seq<u8>)
    requires
        chunk_parse_error(b) is None,
    ensures
        chunk_model_wf(parsed_chunk(b)),
        chunk_wire_bytes(parsed_chunk(b)) == b,
{
    lemma_be_bytes_of_be_val(length_field(b));
    lemma_be_bytes_of_be_val(crc_field(b));
    assert(chunk_wire_bytes(parsed_chunk(b)) =~= b);
}

/// Law: the checksum field protects itself.  Flipping any single bit of
/// the 4 checksum bytes of a well-formed chunk's serialization makes
/// parsing fail with exactly a checksum mismatch.
pub proof fn lemma_crc_bit_flip_rejected(m: ChunkModel, j: int, k: int)
    requires
        chunk_model_wf(m),
        chunk_wire_bytes(m).len() - 4 <= j < chunk_wire_bytes(m).len(),
        0 <= k < 8,
    ensures
        chunk_parse_error(chunk_wire_bytes(m).update(j, flip_bit(chunk_wire_bytes(m)[j], k)))
            == Some(ChunkParseError::CrcMismatch),
{
    let b = chunk_wire_bytes(m);
    let b2 = b.update(j, flip_bit(b[j], k));
    lemma_chunk_round_trip(m);
    lemma_flip_bit_changes(b[j], k);
    lemma_be_bytes_len(m.length);
    lemma_be_bytes_len(m.crc);
    assert(b.len() == 12 + m.data.len());
    assert(length_field(b2) =~= length_field(b));
    assert(type_field(b2) =~= type_field(b));
    assert(data_field(b2) =~= data_field(b));
    assert(crc_field(b2) != crc_field(b)) by {
        assert(crc_field(b2)[j - (b.len() - 4)] == flip_bit(b[j], k));
        assert(crc_field(b)[j - (b.len() - 4)] == b[j]);
    }
    lemma_be_val_injective(crc_field(b2), crc_field(b));
    assert(type_field(b2) + data_field(b2) == type_field(b) + data_field(b));
}

/// Law: truncating a well-formed chunk's serialization inside its checksum
/// field (keeping the whole data block but only part of the checksum) makes
/// parsing fail: with a length mismatch when there are data bytes, since
/// part of the data is then taken for the checksum, and with a missing
/// checksum when there are none.
pub proof fn lemma_truncated_crc_rejected(m: ChunkModel, t: int)
    requires
        chunk_model_wf(m),
        chunk_wire_bytes(m).len() - 4 <= t < chunk_wire_bytes(m).len(),
    ensures
        chunk_parse_error(chunk_wire_bytes(m).take(t)) == if m.length == 0 {
            Some(ChunkParseError::CouldNotParseCrc)
        } else {
            Some(ChunkParseError::EncodedLengthNotEqualToActual)
        },
{
    let b = chunk_wire_bytes(m);
    let p = b.take(t);
    lemma_be_val_of_be_bytes(m.length);
    lemma_be_bytes_len(m.crc);
    assert(b.len() == 12 + m.data.len());
    assert(length_field(p) =~= be_bytes(m.length));
    assert(type_field(p) =~= m.type_bytes);
    if m.length == 0 {
        assert(p.len() < 12);
        assert(data_field(p).len() == 0);
    } else {
        if p.len() >= 12 {
            assert(data_field(p) =~= p.subrange(8, p.len() - 4));
            assert(data_field(p).len() == t - 12);
            assert(t - 12 < m.data.len());
        } else {
            assert(data_field(p).len() == 0);
        }
        assert(data_field(p).len() != m.length);
    }
}

} // verus!

