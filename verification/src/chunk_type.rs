//! Chunk type codes: validated 4-byte tags whose byte values carry
//! bit-encoded property flags.

use vstd::prelude::*;
use vstd::string::StringSliceAdditionalSpecFns;

verus! {

/// A byte is 7-bit ASCII.
pub open spec fn is_ascii_byte(b: u8) -> bool {
    b < 128
}

/// A byte is an ASCII letter, upper or lower case.
pub open spec fn is_alpha_byte(b: u8) -> bool {
    (65 <= b && b <= 90) || (97 <= b && b <= 122)
}

/// Every byte of `t` is 7-bit ASCII.
pub open spec fn all_ascii(t: Seq<u8>) -> bool {
    forall|i: int| 0 <= i < t.len() ==> is_ascii_byte(#[trigger] t[i])
}

/// Every byte of `t` is an ASCII letter.
pub open spec fn all_alpha(t: Seq<u8>) -> bool {
    forall|i: int| 0 <= i < t.len() ==> is_alpha_byte(#[trigger] t[i])
}

/// The first of the four bytes that is not 7-bit ASCII.
pub open spec fn first_non_ascii(t: Seq<u8>) -> u8
    recommends
        t.len() == 4,
{
    if !is_ascii_byte(t[0]) {
        t[0]
    } else if !is_ascii_byte(t[1]) {
        t[1]
    } else if !is_ascii_byte(t[2]) {
        t[2]
    } else {
        t[3]
    }
}

/// The first of the four bytes that is not an ASCII letter.
pub open spec fn first_non_alpha(t: Seq<u8>) -> u8
    recommends
        t.len() == 4,
{
    if !is_alpha_byte(t[0]) {
        t[0]
    } else if !is_alpha_byte(t[1]) {
        t[1]
    } else if !is_alpha_byte(t[2]) {
        t[2]
    } else {
        t[3]
    }
}

/// The 4 tag bytes `ty`, read as ASCII characters, spell exactly `text`.
pub open spec fn type_text_matches(ty: Seq<u8>, text: Seq<char>) -> bool {
    text.len() == 4 && forall|i: int| 0 <= i < 4 ==> (#[trigger] text[i]) as u32 == ty[i] as u32
}

/// Why a chunk type code could not be built.
#[derive(Debug, PartialEq, Eq, Structural)]
pub enum ChunkTypeError {
    /// A byte outside the allowed set, and its value.
    InvalidByte(u8),
    /// A textual code that was not exactly 4 bytes long, and its length.
    WrongLength(usize),
}

/// A 4-byte chunk type tag.  Always built through [`ChunkType::try_from`]
/// (raw bytes, which must be 7-bit ASCII) or [`ChunkType::from_str`]
/// (text, which must be 4 ASCII letters).
#[derive(Debug, Clone, Copy, PartialEq, Eq)]
pub struct ChunkType {
    bytes: [u8; 4],
}

impl View for ChunkType {
    type V = Seq<u8>;

    closed spec fn view(&self) -> Seq<u8> {
        self.bytes@
    }
}

impl ChunkType {
    /// Every value that can be built is 4 bytes of 7-bit ASCII.
    pub open spec fn wf(self) -> bool {
        self@.len() == 4 && all_ascii(self@)
    }

    /// The raw 4 bytes of the tag.
    pub fn bytes(&self) -> (r: [u8; 4])
        ensures
            r@ == self@,
    {
        self.bytes
    }

    /// Builds a type code from raw bytes; every byte must be 7-bit ASCII,
    /// and the first offending byte is reported otherwise.
    pub fn try_from(bytes: [u8; 4]) -> (r: Result<ChunkType, ChunkTypeError>)
        ensures
            match r {
                Ok(ct) => all_ascii(bytes@) && ct@ == bytes@ && ct.wf(),
                Err(e) => !all_ascii(bytes@) && e == ChunkTypeError::InvalidByte(
                    first_non_ascii(bytes@),
                ),
            },
    {
        if bytes[0] >= 128 {
            Err(ChunkTypeError::InvalidByte(bytes[0]))
        } else if bytes[1] >= 128 {
            Err(ChunkTypeError::InvalidByte(bytes[1]))
        } else if bytes[2] >= 128 {
            Err(ChunkTypeError::InvalidByte(bytes[2]))
        } else if bytes[3] >= 128 {
            Err(ChunkTypeError::InvalidByte(bytes[3]))
        } else {
            proof {
                assert forall|i: int| 0 <= i < bytes@.len() implies is_ascii_byte(
                    #[trigger] bytes@[i],
                ) by {
                    assert(bytes@[0] < 128 && bytes@[1] < 128 && bytes@[2] < 128 && bytes@[3]
                        < 128);
                }
            }
            Ok(ChunkType { bytes })
        }
    }

    /// Builds a type code from text: it must be exactly 4 bytes long and
    /// consist of ASCII letters only.  A wrong length is reported before
    /// any byte is examined; otherwise the first non-letter byte is.
    pub fn from_str(s: &str) -> (r: Result<ChunkType, ChunkTypeError>)
        ensures
            match r {
                Ok(ct) => s.spec_bytes().len() == 4 && all_alpha(s.spec_bytes()) && ct@
                    == s.spec_bytes() && ct.wf(),
                Err(e) => if s.spec_bytes().len() != 4 {
                    e == ChunkTypeError::WrongLength(s.spec_bytes().len() as usize)
                } else {
                    !all_alpha(s.spec_bytes()) && e == ChunkTypeError::InvalidByte(
                        first_non_alpha(s.spec_bytes()),
                    )
                },
            },
    {
        let sb: &[u8] = s.as_bytes();
        if sb.len() != 4 {
            return Err(ChunkTypeError::WrongLength(sb.len()));
        }
        let bytes: [u8; 4] = [sb[0], sb[1], sb[2], sb[3]];
        proof {
            assert(bytes@ =~= s.spec_bytes());
        }
        if !Self::is_valid_byte(bytes[0]) {
            Err(ChunkTypeError::InvalidByte(bytes[0]))
        } else if !Self::is_valid_byte(bytes[1]) {
            Err(ChunkTypeError::InvalidByte(bytes[1]))
        } else if !Self::is_valid_byte(bytes[2]) {
            Err(ChunkTypeError::InvalidByte(bytes[2]))
        } else if !Self::is_valid_byte(bytes[3]) {
            Err(ChunkTypeError::InvalidByte(bytes[3]))
        } else {
            proof {
                assert forall|i: int| 0 <= i < bytes@.len() implies is_alpha_byte(
                    #[trigger] bytes@[i],
                ) by {
                    assert(is_alpha_byte(bytes@[0]) && is_alpha_byte(bytes@[1]) && is_alpha_byte(
                        bytes@[2],
                    ) && is_alpha_byte(bytes@[3]));
                }
            }
            Ok(ChunkType { bytes })
        }
    }

    /// True when bit `n` of `byte` is zero.
    pub fn is_bit_zero(byte: u8, n: u8) -> (r: bool)
        requires
            n < 8,
        ensures
            r == (byte & (1u8 << n) == 0),
    {
        let mask: u8 = 1u8 << n;
        byte & mask == 0
    }

    /// The chunk is critical: bit 5 of the first byte is zero.
    pub fn is_critical(&self) -> (r: bool)
        ensures
            r == (self@[0] & 0x20 == 0),
    {
        let b = self.bytes[0];
        let r = Self::is_bit_zero(b, 5);
        proof {
            assert((1u8 << 5u8) == 0x20u8) by (bit_vector);
        }
        r
    }

    /// The chunk is public: bit 5 of the second byte is zero.
    pub fn is_public(&self) -> (r: bool)
        ensures
            r == (self@[1] & 0x20 == 0),
    {
        let b = self.bytes[1];
        let r = Self::is_bit_zero(b, 5);
        proof {
            assert((1u8 << 5u8) == 0x20u8) by (bit_vector);
        }
        r
    }

    /// The reserved bit is valid: bit 5 of the third byte is zero.
    pub fn is_reserved_bit_valid(&self) -> (r: bool)
        ensures
            r == (self@[2] & 0x20 == 0),
    {
        let b = self.bytes[2];
        let r = Self::is_bit_zero(b, 5);
        proof {
            assert((1u8 << 5u8) == 0x20u8) by (bit_vector);
        }
        r
    }

    /// The chunk is safe to copy: bit 5 of the fourth byte is one
    /// (the sense is inverted relative to the other three flags).
    pub fn is_safe_to_copy(&self) -> (r: bool)
        ensures
            r == (self@[3] & 0x20 != 0),
    {
        let b = self.bytes[3];
        let r = !Self::is_bit_zero(b, 5);
        proof {
            assert((1u8 << 5u8) == 0x20u8) by (bit_vector);
        }
        r
    }

    /// The code conforms to the format: the third byte is an uppercase letter.
    pub fn is_valid(&self) -> (r: bool)
        ensures
            r == (65 <= self@[2] && self@[2] <= 90),
    {
        let b = self.bytes[2];
        65 <= b && b <= 90
    }

    /// The code does not conform to the format.
    pub fn is_err(&self) -> (r: bool)
        ensures
            r == !(65 <= self@[2] && self@[2] <= 90),
    {
        !self.is_valid()
    }

    /// The byte is allowed in a textual code: an ASCII letter.
    pub fn is_valid_byte(byte: u8) -> (r: bool)
        ensures
            r == is_alpha_byte(byte),
    {
        (65 <= byte && byte <= 90) || (97 <= byte && byte <= 122)
    }

    /// True when the tag, read as text, spells `text`.
    pub fn matches_text(&self, text: &str) -> (r: bool)
        ensures
            r == type_text_matches(self@, text@),
    {
        if text.unicode_len() != 4 {
            return false;
        }
        let b = self.bytes;
        let m0 = text.get_char(0) as u32 == b[0] as u32;
        let m1 = text.get_char(1) as u32 == b[1] as u32;
        let m2 = text.get_char(2) as u32 == b[2] as u32;
        let m3 = text.get_char(3) as u32 == b[3] as u32;
        let r = m0 && m1 && m2 && m3;
        proof {
            if r {
                assert forall|i: int| 0 <= i < 4 implies (#[trigger] text@[i]) as u32 == self@[i]
                    as u32 by {
                    assert(i == 0 || i == 1 || i == 2 || i == 3);
                }
            }
        }
        r
    }

    /// The tag rendered as text: its 4 bytes read as ASCII characters.
    pub fn to_string(&self) -> (r: String)
        requires
            self.wf(),
        ensures
            r@.len() == 4,
            forall|i: int| 0 <= i < 4 ==> r@[i] == self@[i] as char,
    {
        let v: Vec<u8> = vec![self.bytes[0], self.bytes[1], self.bytes[2], self.bytes[3]];
        proof {
            assert(v@ =~= self@);
            crate::text::lemma_ascii_bytes_decode(v@);
        }
        match crate::text::bytes_to_string(v) {
            Some(s) => s,
            None => vstd::pervasive::unreached(),
        }
    }
}

} // verus!
