//! The container: a fixed 8-byte signature followed by an ordered sequence
//! of chunks.  Parsing walks the buffer chunk by chunk and fails fast;
//! serializing concatenates each chunk's wire form after the signature, and
//! is proved to be the exact inverse of parsing.

use vstd::prelude::*;
use crate::be32::{be32_decode, be32_encode, lemma_be32_decode_encode, lemma_be32_encode_decode};
use crate::chunk::{
    chunk_len_at, chunk_model_at, chunk_model_bytes, chunk_model_wf, chunk_parse_result_at,
    chunk_stored_crc_at, chunk_ty_at, crc32_of, append_bytes, Chunk, ChunkModel,
};
use crate::chunk_type::type_text_matches;
use crate::error::PngError;

verus! {

/// The fixed 8-byte file signature.
pub open spec fn signature() -> Seq<u8> {
    seq![0x89u8, 0x50u8, 0x4eu8, 0x47u8, 0x0du8, 0x0au8, 0x1au8, 0x0au8]
}

/// The concatenated wire forms of a chunk sequence.
pub open spec fn chunks_bytes(cs: Seq<ChunkModel>) -> Seq<u8>
    decreases cs.len(),
{
    if cs.len() == 0 {
        Seq::empty()
    } else {
        chunk_model_bytes(cs[0]) + chunks_bytes(cs.drop_first())
    }
}

/// The full serialized container: signature, then every chunk in order.
pub open spec fn png_bytes(cs: Seq<ChunkModel>) -> Seq<u8> {
    signature() + chunks_bytes(cs)
}

/// What parsing the tail of `b` from `pos` yields: chunks are read one after
/// the other until the end of the buffer is reached exactly, and the first
/// failing chunk aborts the whole parse with its error.
pub open spec fn parse_chunks_from(b: Seq<u8>, pos: int) -> Result<Seq<ChunkModel>, PngError>
    recommends
        0 <= pos <= b.len(),
    decreases b.len() - pos,
{
    if pos >= b.len() {
        Ok(Seq::empty())
    } else {
        match chunk_parse_result_at(b, pos) {
            Err(e) => Err(e),
            Ok(m) => if pos + 12 + m.data.len() <= b.len() {
                match parse_chunks_from(b, pos + 12 + m.data.len()) {
                    Err(e) => Err(e),
                    Ok(rest) => Ok(seq![m] + rest),
                }
            } else {
                // a successful chunk parse never overruns the buffer, so
                // this arm only keeps the recursion well founded
                Err(PngError::Truncated)
            },
        }
    }
}

/// No chunk before index `i` has a type code that spells `text`.
pub open spec fn no_match_before(cs: Seq<ChunkModel>, text: Seq<char>, i: int) -> bool {
    forall|j: int| 0 <= j < i ==> !type_text_matches((#[trigger] cs[j]).ty, text)
}

/// The chunk at index `i` is the first whose type code spells `text`.
pub open spec fn first_match_at(cs: Seq<ChunkModel>, text: Seq<char>, i: int) -> bool {
    &&& 0 <= i < cs.len()
    &&& type_text_matches(cs[i].ty, text)
    &&& no_match_before(cs, text, i)
}

/// The in-memory container: its ordered chunk sequence.  The signature is
/// fixed, so it is not stored.
pub struct Png {
    chunks: Vec<Chunk>,
}

impl View for Png {
    type V = Seq<ChunkModel>;

    closed spec fn view(&self) -> Seq<ChunkModel> {
        self.chunks@.map_values(|c: Chunk| c@)
    }
}

impl Png {
    /// Every stored chunk keeps its fields consistent.
    pub closed spec fn inv(self) -> bool {
        forall|i: int| 0 <= i < self.chunks@.len() ==> (#[trigger] self.chunks@[i]).wf()
    }

    /// The container is well formed: every chunk of it is.
    pub open spec fn wf(self) -> bool {
        self.inv() && forall|i: int| 0 <= i < self@.len() ==> chunk_model_wf(#[trigger] self@[i])
    }

    /// An empty container: just the signature, no chunks yet.
    pub fn new() -> (r: Png)
        ensures
            r.wf(),
            r@ == Seq::<ChunkModel>::empty(),
    {
        let p = Png { chunks: Vec::new() };
        proof {
            assert(p@ =~= Seq::<ChunkModel>::empty());
        }
        p
    }

    /// True when the buffer begins with the 8-byte signature.
    fn has_signature(buf: &Vec<u8>) -> (r: bool)
        requires
            buf@.len() >= 8,
        ensures
            r == (buf@.subrange(0, 8) == signature()),
    {
        let r = buf[0] == 0x89 && buf[1] == 0x50 && buf[2] == 0x4e && buf[3] == 0x47 && buf[4]
            == 0x0d && buf[5] == 0x0a && buf[6] == 0x1a && buf[7] == 0x0a;
        proof {
            let s = buf@.subrange(0, 8);
            if r {
                assert(s =~= signature());
            } else {
                if s == signature() {
                    assert(buf@[0] == 0x89 && buf@[1] == 0x50 && buf@[2] == 0x4e && buf@[3] == 0x47
                        && buf@[4] == 0x0d && buf@[5] == 0x0a && buf@[6] == 0x1a && buf@[7]
                        == 0x0a) by {
                        assert(s[0] == signature()[0] && s[1] == signature()[1] && s[2]
                            == signature()[2] && s[3] == signature()[3] && s[4] == signature()[4]
                            && s[5] == signature()[5] && s[6] == signature()[6] && s[7]
                            == signature()[7]);
                    }
                    assert(false);
                }
            }
        }
        r
    }

    /// Parses a full byte buffer: the signature is checked first, then
    /// chunks are read until the buffer ends exactly.  The chunk sequence of
    /// the result is exactly [`parse_chunks_from`] after the signature, and
    /// any failure is surfaced unchanged with no partial result.
    pub fn parse(buf: &Vec<u8>) -> (r: Result<Png, PngError>)
        ensures
            match r {
                Ok(p) => {
                    &&& p.wf()
                    &&& buf@.len() >= 8
                    &&& buf@.subrange(0, 8) == signature()
                    &&& parse_chunks_from(buf@, 8) == Ok::<Seq<ChunkModel>, PngError>(p@)
                    &&& png_bytes(p@) == buf@
                },
                Err(e) => if buf@.len() < 8 || buf@.subrange(0, 8) != signature() {
                    e == PngError::SignatureMismatch
                } else {
                    parse_chunks_from(buf@, 8) == Err::<Seq<ChunkModel>, PngError>(e)
                },
            },
    {
        let n = buf.len();
        if n < 8 {
            return Err(PngError::SignatureMismatch);
        }
        if !Self::has_signature(buf) {
            return Err(PngError::SignatureMismatch);
        }
        let mut chunks: Vec<Chunk> = Vec::new();
        let mut pos: usize = 8;
        proof {
            assert(chunks@.map_values(|c: Chunk| c@) =~= Seq::<ChunkModel>::empty());
        }
        while pos < n
            invariant
                8 <= pos <= n,
                n == buf@.len(),
                buf@.len() <= usize::MAX,
                buf@.len() >= 8,
                buf@.subrange(0, 8) == signature(),
                forall|i: int| 0 <= i < chunks@.len() ==> (#[trigger] chunks@[i]).wf(),
                match parse_chunks_from(buf@, pos as int) {
                    Ok(rest) => parse_chunks_from(buf@, 8) == Ok::<Seq<ChunkModel>, PngError>(
                        chunks@.map_values(|c: Chunk| c@) + rest,
                    ),
                    Err(e) => parse_chunks_from(buf@, 8) == Err::<Seq<ChunkModel>, PngError>(e),
                },
            decreases n - pos,
        {
            match Chunk::parse(buf, pos) {
                Ok((c, used)) => {
                    proof {
                        let models = chunks@.map_values(|c: Chunk| c@);
                        let pos2 = pos + 12 + c@.data.len();
                        assert(pos2 <= buf@.len());
                        assert(chunks@.push(c).map_values(|c: Chunk| c@) =~= models.push(c@));
                        match parse_chunks_from(buf@, pos2 as int) {
                            Ok(rest2) => {
                                assert(parse_chunks_from(buf@, pos as int)
                                    == Ok::<Seq<ChunkModel>, PngError>(seq![c@] + rest2));
                                assert(models + (seq![c@] + rest2) =~= models.push(c@) + rest2);
                            },
                            Err(_) => {
                                assert(parse_chunks_from(buf@, pos as int) == parse_chunks_from(
                                    buf@,
                                    pos2 as int,
                                ));
                            },
                        }
                    }
                    chunks.push(c);
                    pos = pos + used;
                },
                Err(e) => {
                    proof {
                        assert(parse_chunks_from(buf@, pos as int) == Err::<
                            Seq<ChunkModel>,
                            PngError,
                        >(e));
                    }
                    return Err(e);
                },
            }
        }
        let p = Png { chunks };
        proof {
            let models = p.chunks@.map_values(|c: Chunk| c@);
            assert(parse_chunks_from(buf@, pos as int) == Ok::<Seq<ChunkModel>, PngError>(
                Seq::empty(),
            ));
            assert(models + Seq::<ChunkModel>::empty() =~= models);
            assert forall|i: int| 0 <= i < p@.len() implies chunk_model_wf(#[trigger] p@[i]) by {
                assert(p@[i] == p.chunks@[i]@);
                assert(p.chunks@[i].wf());
            }
            lemma_serialize_parse_exact(buf@);
        }
        Ok(p)
    }

    /// Appends a chunk at the end of the sequence.  Always succeeds.
    pub fn append_chunk(&mut self, chunk: Chunk)
        ensures
            final(self)@ == old(self)@.push(chunk@),
            old(self).wf() && chunk.wf() ==> final(self).wf(),
    {
        self.chunks.push(chunk);
        proof {
            assert(self@ =~= old(self)@.push(chunk@));
        }
    }

    /// The index of the first chunk whose type code spells `chunk_type`.
    fn find_index(&self, chunk_type: &str) -> (r: Option<usize>)
        ensures
            match r {
                Some(i) => i < self@.len() && type_text_matches(self@[i as int].ty, chunk_type@)
                    && no_match_before(self@, chunk_type@, i as int),
                None => no_match_before(self@, chunk_type@, self@.len() as int),
            },
    {
        let n = self.chunks.len();
        let mut i: usize = 0;
        while i < n
            invariant
                i <= n,
                n == self.chunks@.len(),
                n == self@.len(),
                no_match_before(self@, chunk_type@, i as int),
                forall|j: int| 0 <= j < n ==> (#[trigger] self.chunks@[j])@ == self@[j],
            decreases n - i,
        {
            if self.chunks[i].chunk_type().matches_text(chunk_type) {
                return Some(i);
            }
            i = i + 1;
        }
        None
    }

    /// The first chunk whose type code spells `chunk_type`, if any.  Absence
    /// is not an error: the caller decides how to react.
    pub fn chunk_by_type(&self, chunk_type: &str) -> (r: Option<&Chunk>)
        ensures
            match r {
                Some(c) => {
                    &&& exists|i: int|
                        {
                            &&& 0 <= i < self@.len()
                            &&& type_text_matches((#[trigger] self@[i]).ty, chunk_type@)
                            &&& no_match_before(self@, chunk_type@, i)
                            &&& c@ == self@[i]
                        }
                    &&& self.wf() ==> c.wf()
                },
                None => no_match_before(self@, chunk_type@, self@.len() as int),
            },
    {
        match self.find_index(chunk_type) {
            Some(i) => {
                let c = &self.chunks[i];
                proof {
                    assert(c@ == self@[i as int]);
                    assert({
                        &&& 0 <= (i as int) && (i as int) < self@.len()
                        &&& type_text_matches(self@[i as int].ty, chunk_type@)
                        &&& no_match_before(self@, chunk_type@, i as int)
                        &&& c@ == self@[i as int]
                    });
                }
                Some(c)
            },
            None => None,
        }
    }

    /// Removes and returns the first chunk whose type code spells
    /// `chunk_type`, preserving the order of the remaining chunks; fails
    /// with `ChunkNotFound` when no chunk matches.
    pub fn remove_chunk(&mut self, chunk_type: &str) -> (r: Result<Chunk, PngError>)
        ensures
            match r {
                Ok(c) => {
                    &&& exists|i: int|
                        {
                            &&& 0 <= i < old(self)@.len()
                            &&& type_text_matches((#[trigger] old(self)@[i]).ty, chunk_type@)
                            &&& no_match_before(old(self)@, chunk_type@, i)
                            &&& c@ == old(self)@[i]
                            &&& final(self)@ == old(self)@.remove(i)
                        }
                    &&& old(self).wf() ==> final(self).wf() && c.wf()
                },
                Err(e) => {
                    &&& no_match_before(old(self)@, chunk_type@, old(self)@.len() as int)
                    &&& final(self)@ == old(self)@
                    &&& e matches PngError::ChunkNotFound(t) && t@ == chunk_type@
                },
            },
    {
        match self.find_index(chunk_type) {
            Some(i) => {
                proof {
                    assert(i < self.chunks@.len());
                }
                let c = self.chunks.remove(i);
                proof {
                    assert(final(self)@ =~= old(self)@.remove(i as int));
                    assert(c@ == old(self)@[i as int]);
                    if old(self).wf() {
                        assert forall|k: int| 0 <= k < self.chunks@.len() implies (
                        #[trigger] self.chunks@[k]).wf() by {
                            if k < i as int {
                                assert(self.chunks@[k] == old(self).chunks@[k]);
                            } else {
                                assert(self.chunks@[k] == old(self).chunks@[k + 1]);
                            }
                        }
                        assert forall|k: int| 0 <= k < self@.len() implies chunk_model_wf(
                            #[trigger] self@[k],
                        ) by {
                            assert(self@[k] == self.chunks@[k]@);
                            assert(self.chunks@[k].wf());
                        }
                    }
                    assert({
                        &&& 0 <= (i as int) && (i as int) < old(self)@.len()
                        &&& type_text_matches(old(self)@[i as int].ty, chunk_type@)
                        &&& no_match_before(old(self)@, chunk_type@, i as int)
                        &&& c@ == old(self)@[i as int]
                        &&& final(self)@ == old(self)@.remove(i as int)
                    });
                }
                Ok(c)
            },
            None => Err(PngError::ChunkNotFound(chunk_type.to_owned())),
        }
    }

    /// The stored chunks, in order.
    pub fn chunks(&self) -> (r: &Vec<Chunk>)
        ensures
            r@.len() == self@.len(),
            forall|i: int| 0 <= i < r@.len() ==> (#[trigger] r@[i])@ == self@[i],
            self.wf() ==> forall|i: int| 0 <= i < r@.len() ==> (#[trigger] r@[i]).wf(),
    {
        &self.chunks
    }

    /// Serializes the container: the signature, then every chunk in order.
    pub fn as_bytes(&self) -> (r: Vec<u8>)
        ensures
            self.wf() ==> r@ == png_bytes(self@),
    {
        let mut v: Vec<u8> = Vec::new();
        v.push(0x89);
        v.push(0x50);
        v.push(0x4e);
        v.push(0x47);
        v.push(0x0d);
        v.push(0x0a);
        v.push(0x1a);
        v.push(0x0a);
        proof {
            assert(v@ =~= signature());
            assert(self@.take(0) =~= Seq::<ChunkModel>::empty());
            assert(v@ =~= signature() + chunks_bytes(self@.take(0)));
        }
        let n = self.chunks.len();
        let mut i: usize = 0;
        while i < n
            invariant
                i <= n,
                n == self.chunks@.len(),
                n == self@.len(),
                self.wf() ==> v@ == signature() + chunks_bytes(self@.take(i as int)),
                forall|j: int| 0 <= j < n ==> (#[trigger] self.chunks@[j])@ == self@[j],
            decreases n - i,
        {
            let cb = self.chunks[i].as_bytes();
            append_bytes(&mut v, &cb);
            proof {
                if self.wf() {
                    assert(self.chunks@[i as int].wf());
                    assert(cb@ == chunk_model_bytes(self@[i as int]));
                    lemma_chunks_bytes_push(self@.take(i as int), self@[i as int]);
                    assert(self@.take(i as int).push(self@[i as int]) =~= self@.take(
                        i as int + 1,
                    ));
                }
            }
            i = i + 1;
        }
        proof {
            if self.wf() {
                assert(self@.take(n as int) =~= self@);
            }
        }
        v
    }
}

/// Serializing one more chunk appends its wire form at the end.
pub proof fn lemma_chunks_bytes_push(cs: Seq<ChunkModel>, m: ChunkModel)
    ensures
        chunks_bytes(cs.push(m)) == chunks_bytes(cs) + chunk_model_bytes(m),
    decreases cs.len(),
{
    if cs.len() == 0 {
        assert(cs.push(m)[0] == m);
        assert(cs.push(m).drop_first() =~= Seq::<ChunkModel>::empty());
        assert(chunk_model_bytes(m) + chunks_bytes(Seq::<ChunkModel>::empty()) =~= Seq::empty()
            + chunk_model_bytes(m));
    } else {
        lemma_chunks_bytes_push(cs.drop_first(), m);
        assert(cs.push(m)[0] == cs[0]);
        assert(cs.push(m).drop_first() =~= cs.drop_first().push(m));
        assert(chunk_model_bytes(cs[0]) + (chunks_bytes(cs.drop_first()) + chunk_model_bytes(m))
            =~= (chunk_model_bytes(cs[0]) + chunks_bytes(cs.drop_first())) + chunk_model_bytes(m));
    }
}

/// The wire form of one chunk is 12 bytes plus its payload.
pub proof fn lemma_chunk_model_bytes_len(m: ChunkModel)
    requires
        chunk_model_wf(m),
    ensures
        chunk_model_bytes(m).len() == 12 + m.data.len(),
{
}

/// A chunk's wire form, read back from anywhere inside a larger buffer,
/// parses to the chunk itself.
pub proof fn lemma_chunk_parse_exact(b: Seq<u8>, pos: int, m: ChunkModel)
    requires
        chunk_model_wf(m),
        0 <= pos,
        pos + chunk_model_bytes(m).len() <= b.len(),
        b.subrange(pos, pos + chunk_model_bytes(m).len() as int) == chunk_model_bytes(m),
    ensures
        chunk_parse_result_at(b, pos) == Ok::<ChunkModel, PngError>(m),
        chunk_len_at(b, pos) == m.data.len(),
{
    let len = m.data.len() as int;
    let lenw = m.data.len() as u32;
    let cb = chunk_model_bytes(m);
    lemma_chunk_model_bytes_len(m);
    let a = be32_encode(lenw);
    let c2 = be32_encode(crc32_of(m.ty + m.data));
    assert(a.len() == 4);
    assert(c2.len() == 4);
    assert(cb == a + m.ty + m.data + c2);
    assert forall|k: int| 0 <= k < cb.len() implies b[pos + k] == cb[k] by {
        assert(b.subrange(pos, pos + cb.len() as int)[k] == cb[k]);
    }
    assert forall|k: int| 0 <= k < 4 implies b[pos + k] == a[k] by {
        assert(b[pos + k] == cb[k]);
        assert(cb[k] == (a + m.ty + m.data)[k]);
        assert((a + m.ty + m.data)[k] == (a + m.ty)[k]);
        assert((a + m.ty)[k] == a[k]);
    }
    assert forall|k: int| 0 <= k < 4 implies b[pos + 4 + k] == m.ty[k] by {
        assert(b[pos + (4 + k)] == cb[4 + k]);
        assert(cb[4 + k] == (a + m.ty + m.data)[4 + k]);
        assert((a + m.ty + m.data)[4 + k] == (a + m.ty)[4 + k]);
        assert((a + m.ty)[4 + k] == m.ty[k]);
    }
    assert forall|k: int| 0 <= k < len implies b[pos + 8 + k] == m.data[k] by {
        assert(b[pos + (8 + k)] == cb[8 + k]);
        assert(cb[8 + k] == (a + m.ty + m.data)[8 + k]);
        assert((a + m.ty + m.data)[8 + k] == m.data[k]);
    }
    assert forall|k: int| 0 <= k < 4 implies b[pos + 8 + len + k] == c2[k] by {
        assert(b[pos + (8 + len + k)] == cb[8 + len + k]);
        assert(cb[8 + len + k] == c2[k]);
    }
    assert(b.subrange(pos, pos + 4) =~= a);
    lemma_be32_decode_encode(lenw);
    assert(chunk_len_at(b, pos) == len);
    assert(chunk_ty_at(b, pos) =~= m.ty);
    assert(b.subrange(pos + 8, pos + 8 + len) =~= m.data);
    assert(b.subrange(pos + 8 + len, pos + 12 + len) =~= c2);
    lemma_be32_decode_encode(crc32_of(m.ty + m.data));
    assert(chunk_stored_crc_at(b, pos) == crc32_of(m.ty + m.data));
    assert(chunk_model_at(b, pos) =~= m);
}

/// The concatenated wire forms of a well-formed chunk sequence, standing as
/// the whole tail of a buffer, parse back to that sequence.
pub proof fn lemma_parse_chunks_of_bytes(b: Seq<u8>, pos: int, cs: Seq<ChunkModel>)
    requires
        forall|i: int| 0 <= i < cs.len() ==> chunk_model_wf(#[trigger] cs[i]),
        0 <= pos <= b.len(),
        b.subrange(pos, b.len() as int) == chunks_bytes(cs),
    ensures
        parse_chunks_from(b, pos) == Ok::<Seq<ChunkModel>, PngError>(cs),
    decreases cs.len(),
{
    if cs.len() == 0 {
        assert(b.subrange(pos, b.len() as int).len() == chunks_bytes(cs).len());
        assert(chunks_bytes(cs).len() == 0);
        assert(pos == b.len());
        assert(cs =~= Seq::<ChunkModel>::empty());
    } else {
        let m = cs[0];
        let rest = cs.drop_first();
        let cb = chunk_model_bytes(m);
        lemma_chunk_model_bytes_len(m);
        assert(chunks_bytes(cs) == cb + chunks_bytes(rest));
        assert(b.subrange(pos, b.len() as int).len() == cb.len() + chunks_bytes(rest).len());
        assert forall|k: int| 0 <= k < b.len() - pos implies b[pos + k] == chunks_bytes(cs)[k] by {
            assert(b.subrange(pos, b.len() as int)[k] == chunks_bytes(cs)[k]);
        }
        assert(b.subrange(pos, pos + cb.len() as int) =~= cb);
        lemma_chunk_parse_exact(b, pos, m);
        let pos2 = pos + 12 + m.data.len() as int;
        assert(pos2 == pos + cb.len());
        assert forall|k: int| 0 <= k < chunks_bytes(rest).len() implies b[pos2 + k]
            == chunks_bytes(rest)[k] by {
            assert(b[pos + (cb.len() + k)] == chunks_bytes(cs)[cb.len() + k]);
            assert(chunks_bytes(cs)[cb.len() + k] == chunks_bytes(rest)[k]);
        }
        assert(b.subrange(pos2, b.len() as int) =~= chunks_bytes(rest));
        lemma_parse_chunks_of_bytes(b, pos2, rest);
        assert(seq![m] + rest =~= cs);
    }
}

/// Law (round trip): the serialized form of any well-formed chunk sequence
/// begins with the signature, and parsing its chunk region yields exactly
/// the same sequence.  Together with the contracts of [`Png::parse`] and
/// [`Png::as_bytes`], parsing a serialized container always succeeds and
/// gives back the container's own chunks.
pub proof fn lemma_round_trip(cs: Seq<ChunkModel>)
    requires
        forall|i: int| 0 <= i < cs.len() ==> chunk_model_wf(#[trigger] cs[i]),
    ensures
        png_bytes(cs).len() >= 8,
        png_bytes(cs).subrange(0, 8) == signature(),
        parse_chunks_from(png_bytes(cs), 8) == Ok::<Seq<ChunkModel>, PngError>(cs),
{
    let b = png_bytes(cs);
    assert(b.subrange(0, 8) =~= signature());
    assert(b.subrange(8, b.len() as int) =~= chunks_bytes(cs));
    lemma_parse_chunks_of_bytes(b, 8, cs);
}

/// Law (round trip, one chunk): the wire form of a single well-formed chunk
/// parses back to the chunk itself, its stored checksum agreeing with the
/// recomputed one.
pub proof fn lemma_chunk_round_trip(m: ChunkModel)
    requires
        chunk_model_wf(m),
    ensures
        chunk_parse_result_at(chunk_model_bytes(m), 0) == Ok::<ChunkModel, PngError>(m),
{
    let b = chunk_model_bytes(m);
    assert(b.subrange(0, b.len() as int) =~= b);
    lemma_chunk_parse_exact(b, 0, m);
}

/// A chunk that parses at `pos` is well formed, and serializing it gives
/// back exactly the bytes it was read from.
pub proof fn lemma_chunk_bytes_exact(b: Seq<u8>, pos: int)
    requires
        0 <= pos,
        chunk_parse_result_at(b, pos) is Ok,
    ensures
        ({
            let m = chunk_parse_result_at(b, pos)->Ok_0;
            &&& chunk_model_wf(m)
            &&& m.data.len() == chunk_len_at(b, pos)
            &&& pos + 12 + m.data.len() <= b.len()
            &&& chunk_model_bytes(m) == b.subrange(pos, pos + 12 + m.data.len() as int)
        }),
{
    let m = chunk_parse_result_at(b, pos)->Ok_0;
    let len = chunk_len_at(b, pos);
    assert(m == chunk_model_at(b, pos));
    assert(m.data.len() == len);
    assert(chunk_model_wf(m)) by {
        assert(be32_decode(b.subrange(pos, pos + 4)) <= u32::MAX);
    }
    let a = be32_encode(m.data.len() as u32);
    let c2 = be32_encode(crc32_of(m.ty + m.data));
    assert(a == b.subrange(pos, pos + 4)) by {
        assert(m.data.len() as u32 == be32_decode(b.subrange(pos, pos + 4)));
        lemma_be32_encode_decode(b.subrange(pos, pos + 4));
    }
    assert(c2 == b.subrange(pos + 8 + len, pos + 12 + len)) by {
        assert(crc32_of(m.ty + m.data) == chunk_stored_crc_at(b, pos));
        lemma_be32_encode_decode(b.subrange(pos + 8 + len, pos + 12 + len));
    }
    assert(chunk_model_bytes(m) == a + m.ty + m.data + c2);
    assert(chunk_model_bytes(m) =~= b.subrange(pos, pos + 12 + len)) by {
        assert forall|k: int| 0 <= k < 12 + len implies (a + m.ty + m.data + c2)[k] == b[pos
            + k] by {
            if k < 4 {
                assert((a + m.ty + m.data + c2)[k] == a[k]);
                assert(a[k] == b.subrange(pos, pos + 4)[k]);
            } else if k < 8 {
                assert((a + m.ty + m.data + c2)[k] == m.ty[k - 4]);
                assert(m.ty[k - 4] == b.subrange(pos + 4, pos + 8)[k - 4]);
            } else if k < 8 + len {
                assert((a + m.ty + m.data + c2)[k] == m.data[k - 8]);
                assert(m.data[k - 8] == b.subrange(pos + 8, pos + 8 + len)[k - 8]);
            } else {
                assert((a + m.ty + m.data + c2)[k] == c2[k - 8 - len]);
                assert(c2[k - 8 - len] == b.subrange(pos + 8 + len, pos + 12 + len)[k - 8 - len]);
            }
        }
    }
}

/// The chunk sequence parsed from the tail of a buffer serializes back to
/// exactly that tail.
pub proof fn lemma_parse_chunks_exact(b: Seq<u8>, pos: int)
    requires
        0 <= pos <= b.len(),
        parse_chunks_from(b, pos) is Ok,
    ensures
        chunks_bytes(parse_chunks_from(b, pos)->Ok_0) == b.subrange(pos, b.len() as int),
        forall|i: int|
            0 <= i < parse_chunks_from(b, pos)->Ok_0.len() ==> chunk_model_wf(
                #[trigger] parse_chunks_from(b, pos)->Ok_0[i],
            ),
    decreases b.len() - pos,
{
    let cs = parse_chunks_from(b, pos)->Ok_0;
    if pos >= b.len() {
        assert(chunks_bytes(cs) =~= b.subrange(pos, b.len() as int));
    } else {
        let m = chunk_parse_result_at(b, pos)->Ok_0;
        lemma_chunk_bytes_exact(b, pos);
        let pos2 = pos + 12 + m.data.len() as int;
        let rest = parse_chunks_from(b, pos2)->Ok_0;
        lemma_parse_chunks_exact(b, pos2);
        assert(cs == seq![m] + rest);
        assert(cs[0] == m);
        assert(cs.drop_first() =~= rest);
        assert(chunks_bytes(cs) == chunk_model_bytes(m) + chunks_bytes(rest));
        assert(chunk_model_bytes(m) + chunks_bytes(rest) =~= b.subrange(pos, b.len() as int));
        assert forall|i: int| 0 <= i < cs.len() implies chunk_model_wf(#[trigger] cs[i]) by {
            if i == 0 {
                assert(cs[i] == m);
            } else {
                assert(cs[i] == rest[i - 1]);
            }
        }
    }
}

/// Law (byte-exact round trip): a buffer that parses as a container is
/// byte-identical to the serialization of the chunk sequence it parsed to.
pub proof fn lemma_serialize_parse_exact(b: Seq<u8>)
    requires
        b.len() >= 8,
        b.subrange(0, 8) == signature(),
        parse_chunks_from(b, 8) is Ok,
    ensures
        png_bytes(parse_chunks_from(b, 8)->Ok_0) == b,
{
    lemma_parse_chunks_exact(b, 8);
    assert(png_bytes(parse_chunks_from(b, 8)->Ok_0) =~= b);
}

/// Law (removal shrinks): dropping the chunk at `i` shortens the serialized
/// container by exactly 12 bytes plus that chunk's payload length.
pub proof fn lemma_remove_shrinks(cs: Seq<ChunkModel>, i: int)
    requires
        0 <= i < cs.len(),
        chunk_model_wf(cs[i]),
    ensures
        png_bytes(cs.remove(i)).len() + 12 + cs[i].data.len() == png_bytes(cs).len(),
{
    lemma_chunks_bytes_remove(cs, i);
    lemma_chunk_model_bytes_len(cs[i]);
}

/// Dropping the chunk at `i` removes exactly its wire form from the
/// concatenation.
proof fn lemma_chunks_bytes_remove(cs: Seq<ChunkModel>, i: int)
    requires
        0 <= i < cs.len(),
    ensures
        chunks_bytes(cs.remove(i)).len() + chunk_model_bytes(cs[i]).len() == chunks_bytes(
            cs,
        ).len(),
    decreases i,
{
    if i == 0 {
        assert(cs.remove(0) =~= cs.drop_first());
    } else {
        lemma_chunks_bytes_remove(cs.drop_first(), i - 1);
        assert(cs.remove(i).drop_first() =~= cs.drop_first().remove(i - 1));
        assert(cs.remove(i)[0] == cs[0]);
        assert(cs.remove(i).len() > 0);
    }
}

} // verus!
