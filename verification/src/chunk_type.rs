//! Four-byte chunk type tags and their bit-flag semantics.
//!
//! A type tag is four raw bytes. A well-formed tag consists of ASCII letters
//! only; bit `0x20` of each byte (the case bit) carries a meaning that depends
//! on the byte's position: critical/ancillary, public/private, reserved,
//! safe-to-copy.

use vstd::prelude::*;
use vstd::string::StringSliceAdditionalSpecFns;

verus! {

/// The bit of each tag byte that carries a flag (the ASCII case bit).
pub const FLAG_BIT: u8 = 0x20;

/// Errors from constructing a `ChunkType`.
#[derive(Debug, Clone, Copy, PartialEq, Eq)]
pub enum ChunkTypeError {
    /// The input was not exactly four bytes long.
    InvalidLen,
    /// Some input byte was not an ASCII letter.
    InvalidFormat,
}

/// True when `b` is an ASCII letter, upper or lower case.
pub open spec fn is_ascii_letter(b: u8) -> bool {
    (0x41 <= b && b <= 0x5a) || (0x61 <= b && b <= 0x7a)
}

/// True when every byte of `s` is an ASCII letter.
pub open spec fn all_letters(s: Seq<u8>) -> bool {
    forall|i: int| 0 <= i < s.len() ==> is_ascii_letter(#[trigger] s[i])
}

/// The tag is critical (required) when the flag bit of byte 0 is clear.
pub open spec fn spec_is_critical(code: Seq<u8>) -> bool {
    code[0] & FLAG_BIT == 0
}

/// The tag is public when the flag bit of byte 1 is clear.
pub open spec fn spec_is_public(code: Seq<u8>) -> bool {
    code[1] & FLAG_BIT == 0
}

/// The tag conforms to the current format version when the flag bit of
/// byte 2 is clear.
pub open spec fn spec_is_reserved_bit_valid(code: Seq<u8>) -> bool {
    code[2] & FLAG_BIT == 0
}

/// The tag is safe to copy when the flag bit of byte 3 is set.
pub open spec fn spec_is_safe_to_copy(code: Seq<u8>) -> bool {
    code[3] & FLAG_BIT == FLAG_BIT
}

/// A tag is valid when all four bytes are ASCII letters and the reserved
/// bit is clear.
pub open spec fn spec_is_valid(code: Seq<u8>) -> bool {
    all_letters(code) && spec_is_reserved_bit_valid(code)
}

/// A 4-byte chunk type tag. Equality is exact byte equality; case is
/// semantically meaningful and never normalized.
#[derive(Debug, PartialEq, Eq)]
pub struct ChunkType {
    code: [u8; 4],
}

impl View for ChunkType {
    type V = Seq<u8>;

    closed spec fn view(&self) -> Seq<u8> {
        self.code@
    }
}

/// Every chunk type consists of exactly four bytes.
pub broadcast proof fn lemma_chunk_type_len(t: &ChunkType)
    ensures
        (#[trigger] t@).len() == 4,
{
}

/// True when `b` is an ASCII letter, upper or lower case.
fn byte_is_letter(b: u8) -> (r: bool)
    ensures
        r == is_ascii_letter(b),
{
    (0x41 <= b && b <= 0x5a) || (0x61 <= b && b <= 0x7a)
}

impl ChunkType {
    /// Both constructors admit ASCII letters only, so every value is
    /// well formed.
    pub open spec fn wf(&self) -> bool {
        all_letters(self@)
    }

    /// Constructs a tag from four raw bytes; rejects any byte that is not
    /// an ASCII letter.
    pub fn from_bytes(value: [u8; 4]) -> (r: Result<ChunkType, ChunkTypeError>)
        ensures
            match r {
                Ok(t) => all_letters(value@) && t@ == value@ && t.wf(),
                Err(e) => !all_letters(value@) && e == ChunkTypeError::InvalidFormat,
            },
    {
        if byte_is_letter(value[0]) && byte_is_letter(value[1]) && byte_is_letter(value[2])
            && byte_is_letter(value[3]) {
            assert(all_letters(value@));
            Ok(ChunkType { code: value })
        } else {
            Err(ChunkTypeError::InvalidFormat)
        }
    }

    /// Constructs a tag from a string: the string must be exactly four
    /// bytes long, and those bytes must be ASCII letters.
    pub fn from_string(s: &str) -> (r: Result<ChunkType, ChunkTypeError>)
        ensures
            match r {
                Ok(t) => s.spec_bytes().len() == 4 && all_letters(s.spec_bytes()) && t@
                    == s.spec_bytes() && t.wf(),
                Err(ChunkTypeError::InvalidLen) => s.spec_bytes().len() != 4,
                Err(ChunkTypeError::InvalidFormat) => s.spec_bytes().len() == 4 && !all_letters(
                    s.spec_bytes(),
                ),
            },
    {
        let bytes = s.as_bytes();
        if bytes.len() != 4 {
            return Err(ChunkTypeError::InvalidLen);
        }
        let four: [u8; 4] = [bytes[0], bytes[1], bytes[2], bytes[3]];
        assert(four@ =~= s.spec_bytes());
        ChunkType::from_bytes(four)
    }

    /// The four raw bytes of the tag.
    pub fn bytes(&self) -> (r: [u8; 4])
        ensures
            r@ == self@,
    {
        self.code
    }

    /// True when all four bytes are ASCII letters and the reserved bit is
    /// clear.
    pub fn is_valid(&self) -> (r: bool)
        ensures
            r == spec_is_valid(self@),
    {
        let letters = byte_is_letter(self.code[0]) && byte_is_letter(self.code[1])
            && byte_is_letter(self.code[2]) && byte_is_letter(self.code[3]);
        if letters {
            assert(all_letters(self@));
        }
        letters && self.is_reserved_bit_valid()
    }

    /// True when the chunk is critical (required for correct display):
    /// the flag bit of byte 0 is clear.
    pub fn is_critical(&self) -> (r: bool)
        ensures
            r == spec_is_critical(self@),
    {
        self.code[0] & FLAG_BIT == 0
    }

    /// True when the chunk is public: the flag bit of byte 1 is clear.
    pub fn is_public(&self) -> (r: bool)
        ensures
            r == spec_is_public(self@),
    {
        self.code[1] & FLAG_BIT == 0
    }

    /// True when the tag conforms to the current format version: the flag
    /// bit of byte 2 is clear.
    pub fn is_reserved_bit_valid(&self) -> (r: bool)
        ensures
            r == spec_is_reserved_bit_valid(self@),
    {
        self.code[2] & FLAG_BIT == 0
    }

    /// True when the chunk is safe to copy by editors that do not
    /// recognize it: the flag bit of byte 3 is set.
    pub fn is_safe_to_copy(&self) -> (r: bool)
        ensures
            r == spec_is_safe_to_copy(self@),
    {
        self.code[3] & FLAG_BIT == FLAG_BIT
    }

    /// The tag rendered as text: each of the four bytes as one character.
    pub fn as_string(&self) -> (r: String)
        requires
            self.wf(),
        ensures
            r@.len() == 4,
            forall|i: int| 0 <= i < 4 ==> #[trigger] r@[i] == self@[i] as char,
    {
        let mut bytes: Vec<u8> = Vec::new();
        bytes.push(self.code[0]);
        bytes.push(self.code[1]);
        bytes.push(self.code[2]);
        bytes.push(self.code[3]);
        proof {
            assert(bytes@ =~= self@);
            crate::text::lemma_ascii_bytes_utf8(self@);
        }
        match crate::text::parse_utf8(bytes.as_slice()) {
            Some(s) => s.to_owned(),
            // Never taken: the tag bytes are ASCII letters, so they are
            // valid UTF-8.
            None => String::new(),
        }
    }
}

} // verus!
