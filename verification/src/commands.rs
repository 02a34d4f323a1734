//! The computations behind the four container operations: each takes the
//! raw file bytes and plain values and returns the outcome, leaving file
//! reading and writing to the caller.

use vstd::prelude::*;
use vstd::string::StringSliceAdditionalSpecFns;
use vstd::utf8::{decode_utf8, valid_utf8};
use crate::chunk::{Chunk, ChunkModel};
use crate::chunk_type::{all_alpha, first_non_alpha, type_text_matches, ChunkType, ChunkTypeError};
use crate::error::PngError;
use crate::png::{first_match_at, no_match_before, parse_chunks_from, png_bytes, signature, Png};

verus! {

/// The buffer parses as a container: it carries the signature and its chunk
/// region parses.
pub open spec fn container_parses(b: Seq<u8>) -> bool {
    b.len() >= 8 && b.subrange(0, 8) == signature() && parse_chunks_from(b, 8) is Ok
}

/// The chunk sequence of a buffer that parses.
pub open spec fn container_chunks(b: Seq<u8>) -> Seq<ChunkModel> {
    parse_chunks_from(b, 8)->Ok_0
}

/// The error with which parsing a buffer fails.
pub open spec fn container_error(b: Seq<u8>) -> PngError {
    if b.len() < 8 || b.subrange(0, 8) != signature() {
        PngError::SignatureMismatch
    } else {
        parse_chunks_from(b, 8)->Err_0
    }
}

/// Builds a chunk of type `chunk_type` holding `message` as its payload,
/// appends it to the container parsed from `input`, and serializes the
/// result.  A bad type code is reported before the container is parsed.
pub fn encode(input: &Vec<u8>, chunk_type: &str, message: &str) -> (r: Result<Vec<u8>, PngError>)
    requires
        message.spec_bytes().len() <= u32::MAX,
    ensures
        match r {
            Ok(out) => {
                &&& chunk_type.spec_bytes().len() == 4
                &&& all_alpha(chunk_type.spec_bytes())
                &&& container_parses(input@)
                &&& out@ == png_bytes(
                    container_chunks(input@).push(
                        ChunkModel {
                            ty: chunk_type.spec_bytes(),
                            data: message.spec_bytes(),
                        },
                    ),
                )
            },
            Err(e) => if chunk_type.spec_bytes().len() != 4 {
                e == PngError::ChunkType(
                    ChunkTypeError::WrongLength(chunk_type.spec_bytes().len() as usize),
                )
            } else if !all_alpha(chunk_type.spec_bytes()) {
                e == PngError::ChunkType(
                    ChunkTypeError::InvalidByte(first_non_alpha(chunk_type.spec_bytes())),
                )
            } else {
                !container_parses(input@) && e == container_error(input@)
            },
        },
{
    let ct = match ChunkType::from_str(chunk_type) {
        Ok(ct) => ct,
        Err(e) => {
            return Err(PngError::ChunkType(e));
        },
    };
    let payload = chunk_type_payload(message);
    let chunk = Chunk::new(ct, payload);
    let mut png = match Png::parse(input) {
        Ok(p) => p,
        Err(e) => {
            return Err(e);
        },
    };
    png.append_chunk(chunk);
    Ok(png.as_bytes())
}

/// The message's bytes, as a vector.
fn chunk_type_payload(message: &str) -> (r: Vec<u8>)
    ensures
        r@ == message.spec_bytes(),
{
    message.as_bytes_vec()
}

/// Looks up the first chunk of type `chunk_type` in the container parsed
/// from `input` and reports its payload as text; absence of such a chunk is
/// a normal outcome, not an error.
pub fn decode(input: &Vec<u8>, chunk_type: &str) -> (r: Result<Option<String>, PngError>)
    ensures
        match r {
            Ok(Some(s)) => {
                &&& container_parses(input@)
                &&& exists|i: int|
                    {
                        &&& #[trigger] first_match_at(container_chunks(input@), chunk_type@, i)
                        &&& valid_utf8(container_chunks(input@)[i].data)
                        &&& s@ == decode_utf8(container_chunks(input@)[i].data)
                    }
            },
            Ok(None) => {
                &&& container_parses(input@)
                &&& no_match_before(
                    container_chunks(input@),
                    chunk_type@,
                    container_chunks(input@).len() as int,
                )
            },
            Err(e) => if !container_parses(input@) {
                e == container_error(input@)
            } else {
                e == PngError::DecodeError && exists|i: int|
                    {
                        &&& #[trigger] first_match_at(container_chunks(input@), chunk_type@, i)
                        &&& !valid_utf8(container_chunks(input@)[i].data)
                    }
            },
        },
{
    let png = match Png::parse(input) {
        Ok(p) => p,
        Err(e) => {
            return Err(e);
        },
    };
    match png.chunk_by_type(chunk_type) {
        Some(c) => {
            let r = c.data_as_string();
            proof {
                let cs = container_chunks(input@);
                assert(cs == png@);
                let i = choose|i: int|
                    {
                        &&& 0 <= i < png@.len()
                        &&& type_text_matches((#[trigger] png@[i]).ty, chunk_type@)
                        &&& no_match_before(png@, chunk_type@, i)
                        &&& c@ == png@[i]
                    };
                assert(first_match_at(cs, chunk_type@, i));
                assert(c@.data == cs[i].data);
            }
            match r {
                Ok(s) => Ok(Some(s)),
                Err(_) => Err(PngError::DecodeError),
            }
        },
        None => Ok(None),
    }
}

/// Removes the first chunk of type `chunk_type` from the container parsed
/// from `input`, returning the re-serialized container and the removed
/// chunk; a container with no such chunk is a hard failure.
pub fn remove(input: &Vec<u8>, chunk_type: &str) -> (r: Result<(Vec<u8>, Chunk), PngError>)
    ensures
        match r {
            Ok((out, c)) => {
                &&& container_parses(input@)
                &&& c.wf()
                &&& exists|i: int|
                    {
                        &&& #[trigger] first_match_at(container_chunks(input@), chunk_type@, i)
                        &&& c@ == container_chunks(input@)[i]
                        &&& out@ == png_bytes(container_chunks(input@).remove(i))
                    }
            },
            Err(e) => if !container_parses(input@) {
                e == container_error(input@)
            } else {
                &&& no_match_before(
                    container_chunks(input@),
                    chunk_type@,
                    container_chunks(input@).len() as int,
                )
                &&& e matches PngError::ChunkNotFound(t) && t@ == chunk_type@
            },
        },
{
    let mut png = match Png::parse(input) {
        Ok(p) => p,
        Err(e) => {
            return Err(e);
        },
    };
    let ghost prev: Seq<ChunkModel> = png@;
    match png.remove_chunk(chunk_type) {
        Ok(c) => {
            let out = png.as_bytes();
            proof {
                let cs = container_chunks(input@);
                assert(cs == prev);
                let i = choose|i: int|
                    {
                        &&& 0 <= i < prev.len()
                        &&& type_text_matches((#[trigger] prev[i]).ty, chunk_type@)
                        &&& no_match_before(prev, chunk_type@, i)
                        &&& c@ == prev[i]
                        &&& png@ == prev.remove(i)
                    };
                assert(first_match_at(cs, chunk_type@, i));
                assert(out@ == png_bytes(cs.remove(i)));
            }
            Ok((out, c))
        },
        Err(e) => Err(e),
    }
}

/// Renders the container parsed from `input` for display: the type code of
/// each chunk, as text, in sequence order.
pub fn print(input: &Vec<u8>) -> (r: Result<Vec<String>, PngError>)
    ensures
        match r {
            Ok(v) => {
                &&& container_parses(input@)
                &&& v@.len() == container_chunks(input@).len()
                &&& forall|i: int|
                    0 <= i < v@.len() ==> type_text_matches(
                        container_chunks(input@)[i].ty,
                        (#[trigger] v@[i])@,
                    )
            },
            Err(e) => !container_parses(input@) && e == container_error(input@),
        },
{
    let png = match Png::parse(input) {
        Ok(p) => p,
        Err(e) => {
            return Err(e);
        },
    };
    let chunks = png.chunks();
    let ghost cs = container_chunks(input@);
    let mut names: Vec<String> = Vec::new();
    let n = chunks.len();
    let mut i: usize = 0;
    while i < n
        invariant
            i <= n,
            n == chunks@.len(),
            cs.len() == n,
            names@.len() == i,
            png.wf(),
            forall|j: int| 0 <= j < n ==> (#[trigger] chunks@[j])@ == cs[j],
            forall|j: int| 0 <= j < n ==> (#[trigger] chunks@[j]).wf(),
            forall|j: int| 0 <= j < i ==> type_text_matches(cs[j].ty, (#[trigger] names@[j])@),
        decreases n - i,
    {
        let name = chunks[i].chunk_type().to_string();
        proof {
            let m = cs[i as int];
            assert forall|k: int| 0 <= k < 4 implies (#[trigger] name@[k]) as u32 == m.ty[k]
                as u32 by {
                assert(name@[k] == chunks@[i as int]@.ty[k] as char);
            }
            assert(type_text_matches(m.ty, name@));
        }
        names.push(name);
        i = i + 1;
    }
    Ok(names)
}

} // verus!
