//! One chunk envelope: a declared length, a type code, a payload and a
//! CRC-32 checksum, serialized as `length | type | payload | checksum` with
//! both 32-bit fields big-endian.

use vstd::prelude::*;
use vstd::utf8::{decode_utf8, valid_utf8};
use crate::be32::{be32_decode, be32_encode, be32_read, be32_write};
use crate::chunk_type::{all_ascii, first_non_ascii, ChunkType, ChunkTypeError};
use crate::error::PngError;
use crate::text::bytes_to_string;

verus! {

/// The mathematical content of one chunk: its 4 type bytes and its payload.
/// The length and checksum fields of the wire form are both functions of
/// these two, so they do not appear in the model.
pub ghost struct ChunkModel {
    pub ty: Seq<u8>,
    pub data: Seq<u8>,
}

/// The CRC-32 checksum (IEEE polynomial, reflected, initial value all-ones,
/// final value complemented) of a byte sequence.  The computation is done by
/// an outside crate, so only the name is known here: it is a function of the
/// bytes alone.
pub uninterp spec fn crc32_of(bytes: Seq<u8>) -> u32;

/// Relies on crc32fast::hash: the CRC-32 (IEEE) checksum of the bytes, a
/// pure function of the bytes alone.
#[verifier::external_body]
fn crc32(bytes: &Vec<u8>) -> (r: u32)
    ensures
        r == crc32_of(bytes@),
{
    crc32fast::hash(bytes.as_slice())
}

/// A chunk model that can stand in a well-formed container: a 4-byte ASCII
/// type code and a payload whose size fits the 32-bit length field.
pub open spec fn chunk_model_wf(m: ChunkModel) -> bool {
    &&& m.ty.len() == 4
    &&& all_ascii(m.ty)
    &&& m.data.len() <= u32::MAX
}

/// The serialized form of one chunk.
pub open spec fn chunk_model_bytes(m: ChunkModel) -> Seq<u8> {
    be32_encode(m.data.len() as u32) + m.ty + m.data + be32_encode(crc32_of(m.ty + m.data))
}

/// The declared payload length of the chunk starting at `pos`.
pub open spec fn chunk_len_at(b: Seq<u8>, pos: int) -> int {
    be32_decode(b.subrange(pos, pos + 4)) as int
}

/// The type bytes of the chunk starting at `pos`.
pub open spec fn chunk_ty_at(b: Seq<u8>, pos: int) -> Seq<u8> {
    b.subrange(pos + 4, pos + 8)
}

/// The model of the chunk starting at `pos`.
pub open spec fn chunk_model_at(b: Seq<u8>, pos: int) -> ChunkModel {
    ChunkModel {
        ty: chunk_ty_at(b, pos),
        data: b.subrange(pos + 8, pos + 8 + chunk_len_at(b, pos)),
    }
}

/// The checksum stored with the chunk starting at `pos`.
pub open spec fn chunk_stored_crc_at(b: Seq<u8>, pos: int) -> u32 {
    be32_decode(
        b.subrange(pos + 8 + chunk_len_at(b, pos), pos + 12 + chunk_len_at(b, pos)),
    )
}

/// What parsing one chunk at `pos` yields.  The envelope is read as length,
/// type, payload and checksum in that order: a field with too few bytes left
/// fails with `Truncated`, a type byte outside 7-bit ASCII with
/// `InvalidByte`, and a stored checksum that disagrees with the recomputed
/// one with `CrcMismatch`.
pub open spec fn chunk_parse_result_at(b: Seq<u8>, pos: int) -> Result<ChunkModel, PngError> {
    if b.len() < pos + 8 {
        Err(PngError::Truncated)
    } else if !all_ascii(chunk_ty_at(b, pos)) {
        Err(
            PngError::ChunkType(
                ChunkTypeError::InvalidByte(first_non_ascii(chunk_ty_at(b, pos))),
            ),
        )
    } else if b.len() < pos + 12 + chunk_len_at(b, pos) {
        Err(PngError::Truncated)
    } else if chunk_stored_crc_at(b, pos) != crc32_of(
        chunk_ty_at(b, pos) + chunk_model_at(b, pos).data,
    ) {
        Err(
            PngError::CrcMismatch(
                crc32_of(chunk_ty_at(b, pos) + chunk_model_at(b, pos).data),
                chunk_stored_crc_at(b, pos),
            ),
        )
    } else {
        Ok(chunk_model_at(b, pos))
    }
}

/// Appends all of `src` to `out`.
pub fn append_bytes(out: &mut Vec<u8>, src: &Vec<u8>)
    ensures
        final(out)@ == old(out)@ + src@,
{
    proof {
        assert(out@ =~= old(out)@ + src@.subrange(0, 0));
    }
    let mut i: usize = 0;
    while i < src.len()
        invariant
            i <= src@.len(),
            out@ == old(out)@ + src@.subrange(0, i as int),
        decreases src@.len() - i,
    {
        out.push(src[i]);
        proof {
            assert(old(out)@ + src@.subrange(0, i as int) + seq![src@[i as int]] =~= old(out)@
                + src@.subrange(0, i as int + 1));
        }
        i = i + 1;
    }
    proof {
        assert(src@.subrange(0, src@.len() as int) =~= src@);
    }
}

/// Copies `count` bytes of `buf` starting at `start` into a fresh vector.
fn copy_range(buf: &Vec<u8>, start: usize, count: usize) -> (r: Vec<u8>)
    requires
        start + count <= buf@.len(),
    ensures
        r@ == buf@.subrange(start as int, start as int + count as int),
{
    let n = buf.len();
    proof {
        assert(start + count <= n);
    }
    let mut r: Vec<u8> = Vec::new();
    let mut i: usize = 0;
    while i < count
        invariant
            i <= count,
            start + count <= buf@.len(),
            buf@.len() <= usize::MAX,
            r@ == buf@.subrange(start as int, start as int + i as int),
        decreases count - i,
    {
        r.push(buf[start + i]);
        proof {
            assert(buf@.subrange(start as int, start as int + i as int) + seq![
                buf@[start as int + i as int],
            ] =~= buf@.subrange(start as int, start as int + i as int + 1));
        }
        i = i + 1;
    }
    r
}

/// One chunk: a type code, a payload, and the stored length and checksum
/// fields, which are kept consistent with the payload by construction.
#[derive(Debug, PartialEq, Eq)]
pub struct Chunk {
    length: u32,
    chunk_type: ChunkType,
    data: Vec<u8>,
    crc: u32,
}

impl View for Chunk {
    type V = ChunkModel;

    closed spec fn view(&self) -> ChunkModel {
        ChunkModel { ty: self.chunk_type@, data: self.data@ }
    }
}

impl Chunk {
    /// The stored fields agree with one another: the length field counts the
    /// payload bytes and the checksum field holds the payload's CRC-32.
    pub closed spec fn inv(self) -> bool {
        &&& self.chunk_type.wf()
        &&& self.data@.len() <= u32::MAX
        &&& self.length == self.data@.len()
        &&& self.crc == crc32_of(self.chunk_type@ + self.data@)
    }

    /// The chunk is well formed: its fields agree and its model can stand in
    /// a container.  Every chunk this library hands out satisfies this.
    pub open spec fn wf(self) -> bool {
        self.inv() && chunk_model_wf(self@)
    }

    /// The 4 type bytes followed by the payload: the input of the checksum.
    fn type_and_data(chunk_type: &ChunkType, data: &Vec<u8>) -> (r: Vec<u8>)
        ensures
            r@ == chunk_type@ + data@,
    {
        let tb = chunk_type.bytes();
        let mut v: Vec<u8> = Vec::new();
        v.push(tb[0]);
        v.push(tb[1]);
        v.push(tb[2]);
        v.push(tb[3]);
        proof {
            assert(v@ =~= chunk_type@);
        }
        append_bytes(&mut v, data);
        v
    }

    /// Builds a chunk from a type code and a payload.  The length and
    /// checksum are computed here, so the result is always well formed.
    pub fn new(chunk_type: ChunkType, data: Vec<u8>) -> (r: Chunk)
        requires
            chunk_type.wf(),
            data@.len() <= u32::MAX,
        ensures
            r.wf(),
            r@ == (ChunkModel { ty: chunk_type@, data: data@ }),
    {
        let td = Self::type_and_data(&chunk_type, &data);
        let crc = crc32(&td);
        let length = data.len() as u32;
        Chunk { length, chunk_type, data, crc }
    }

    /// The declared payload length.
    pub fn length(&self) -> (r: u32)
        ensures
            self.wf() ==> r == self@.data.len(),
    {
        self.length
    }

    /// The chunk's type code.
    pub fn chunk_type(&self) -> (r: &ChunkType)
        ensures
            r@ == self@.ty,
            self.wf() ==> r.wf(),
    {
        &self.chunk_type
    }

    /// The payload bytes.
    pub fn data(&self) -> (r: &Vec<u8>)
        ensures
            r@ == self@.data,
    {
        &self.data
    }

    /// The stored checksum.
    pub fn crc(&self) -> (r: u32)
        ensures
            self.wf() ==> r == crc32_of(self@.ty + self@.data),
    {
        self.crc
    }

    /// The payload read as UTF-8 text; fails when it is not valid UTF-8.
    pub fn data_as_string(&self) -> (r: Result<String, PngError>)
        ensures
            match r {
                Ok(s) => valid_utf8(self@.data) && s@ == decode_utf8(self@.data),
                Err(e) => !valid_utf8(self@.data) && e == PngError::DecodeError,
            },
    {
        let v = vstd::slice::slice_to_vec(self.data.as_slice());
        match bytes_to_string(v) {
            Some(s) => Ok(s),
            None => Err(PngError::DecodeError),
        }
    }

    /// Serializes the chunk: length, type, payload, checksum.
    pub fn as_bytes(&self) -> (r: Vec<u8>)
        ensures
            self.wf() ==> r@ == chunk_model_bytes(self@),
    {
        let mut v: Vec<u8> = Vec::new();
        be32_write(&mut v, self.length);
        let tb = self.chunk_type.bytes();
        v.push(tb[0]);
        v.push(tb[1]);
        v.push(tb[2]);
        v.push(tb[3]);
        append_bytes(&mut v, &self.data);
        be32_write(&mut v, self.crc);
        proof {
            if self.wf() {
                assert(v@ =~= chunk_model_bytes(self@));
            }
        }
        v
    }

    /// Parses one chunk from `buf` at offset `pos`, returning the chunk and
    /// the number of bytes consumed (12 plus the payload length).  The
    /// outcome is exactly [`chunk_parse_result_at`] on the buffer.
    pub fn parse(buf: &Vec<u8>, pos: usize) -> (r: Result<(Chunk, usize), PngError>)
        requires
            pos <= buf@.len(),
        ensures
            match r {
                Ok((c, used)) => {
                    &&& chunk_parse_result_at(buf@, pos as int) == Ok::<ChunkModel, PngError>(c@)
                    &&& c.wf()
                    &&& used == 12 + c@.data.len()
                    &&& pos + used <= buf@.len()
                },
                Err(e) => chunk_parse_result_at(buf@, pos as int) == Err::<ChunkModel, PngError>(
                    e,
                ),
            },
    {
        let n = buf.len();
        if n - pos < 8 {
            return Err(PngError::Truncated);
        }
        let length = be32_read(buf, pos);
        let ty_bytes: [u8; 4] = [buf[pos + 4], buf[pos + 5], buf[pos + 6], buf[pos + 7]];
        proof {
            assert(ty_bytes@ =~= chunk_ty_at(buf@, pos as int));
        }
        let chunk_type = match ChunkType::try_from(ty_bytes) {
            Ok(ct) => ct,
            Err(e) => {
                return Err(PngError::ChunkType(e));
            },
        };
        let len_usize = length as usize;
        proof {
            assert(chunk_len_at(buf@, pos as int) == len_usize as int);
        }
        if n - pos < 12 || n - pos - 12 < len_usize {
            return Err(PngError::Truncated);
        }
        let data = copy_range(buf, pos + 8, len_usize);
        let td = Self::type_and_data(&chunk_type, &data);
        let computed = crc32(&td);
        let stored = be32_read(buf, pos + 8 + len_usize);
        if stored != computed {
            return Err(PngError::CrcMismatch(computed, stored));
        }
        let c = Chunk { length, chunk_type, data, crc: stored };
        proof {
            assert(c@ =~= chunk_model_at(buf@, pos as int)) by {
                assert(c@.ty =~= chunk_ty_at(buf@, pos as int));
            }
        }
        Ok((c, 12 + len_usize))
    }
}

} // verus!
