//! The six-bit IA5 character set used by aircraft identifications, and its
//! translation to and from ASCII.
//!
//! Codes 0x01..=0x1A are the letters, 0x20 is the space, and 0x30..=0x39 are
//! the digits. Translation is lossy outside those sets: any other value maps
//! to a question mark, in either direction, without failing.
use vstd::prelude::*;

verus! {

/// The ASCII characters that the IA5 character set can represent:
/// the space, the digits and the upper-case letters.
pub open spec fn is_ia5_alphabet(c: u8) -> bool {
    c == 0x20 || (0x30 <= c <= 0x39) || (0x41 <= c <= 0x5a)
}

/// The IA5 codes that name a character of the alphabet.
pub open spec fn is_ia5_code(c: u8) -> bool {
    c == 0x20 || (0x30 <= c <= 0x39) || (0x01 <= c <= 0x1a)
}

/// ASCII character of an IA5 code; a question mark outside the defined set.
pub open spec fn spec_ia5_to_ascii(code: u8) -> u8 {
    if code == 0x20 {
        0x20
    } else if 0x30 <= code <= 0x39 {
        code
    } else if 0x01 <= code <= 0x1a {
        (code + 0x40) as u8
    } else {
        0x3f
    }
}

/// IA5 code of an ASCII character; a question mark outside the alphabet.
pub open spec fn spec_ascii_to_ia5(c: u8) -> u8 {
    if c == 0x20 {
        0x20
    } else if 0x30 <= c <= 0x39 {
        c
    } else if 0x41 <= c <= 0x5a {
        (c - 0x40) as u8
    } else {
        0x3f
    }
}

/// Translates one IA5 code to ASCII, substituting `?` for undefined codes.
pub fn ia5_to_ascii(code: u8) -> (r: u8)
    ensures
        r == spec_ia5_to_ascii(code),
{
    if code == 0x20 {
        0x20
    } else if 0x30 <= code && code <= 0x39 {
        code
    } else if 0x01 <= code && code <= 0x1a {
        code + 0x40
    } else {
        0x3f
    }
}

/// Translates one ASCII character to IA5, substituting `?` outside the
/// alphabet.
pub fn ascii_to_ia5(c: u8) -> (r: u8)
    ensures
        r == spec_ascii_to_ia5(c),
{
    if c == 0x20 {
        0x20
    } else if 0x30 <= c && c <= 0x39 {
        c
    } else if 0x41 <= c && c <= 0x5a {
        c - 0x40
    } else {
        0x3f
    }
}

/// Translating an alphabet character to IA5 and back is the identity;
/// every other value maps to a question mark in either direction.
pub proof fn lemma_ia5_ascii_identity(c: u8)
    ensures
        is_ia5_alphabet(c) ==> spec_ia5_to_ascii(spec_ascii_to_ia5(c)) == c,
        !is_ia5_alphabet(c) ==> spec_ascii_to_ia5(c) == 0x3f,
        !is_ia5_code(c) ==> spec_ia5_to_ascii(c) == 0x3f,
{
}

} // verus!
