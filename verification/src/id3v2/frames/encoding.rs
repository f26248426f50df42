//! The text encoding flag of ID3v2 frames.
use crate::id3v2::{ParseError, ParseResult};
use crate::id3v2::tag::Version;
use crate::io::{BufStream, StreamError};
use crate::string::Encoding;
use vstd::prelude::*;

verus! {

/// The encoding named by an encoding flag byte.
pub open spec fn spec_flag_encoding(flag: u8) -> Option<Encoding> {
    if flag == 0 {
        Some(Encoding::Latin1)
    } else if flag == 1 {
        Some(Encoding::Utf16)
    } else if flag == 2 {
        Some(Encoding::Utf16Be)
    } else if flag == 3 {
        Some(Encoding::Utf8)
    } else {
        None
    }
}

/// What reading an encoding flag at the start of `d` gives.
pub open spec fn spec_parse(d: Seq<u8>) -> ParseResult<Encoding> {
    if d.len() == 0 {
        Err(ParseError::IoError(StreamError::EndOfStream))
    } else {
        match spec_flag_encoding(d[0]) {
            Some(e) => Ok(e),
            None => Err(ParseError::MalformedData),
        }
    }
}

/// The encoding that is written for `enc` in a tag of `version`.
pub open spec fn spec_check(enc: Encoding, version: Version) -> Encoding {
    match enc {
        Encoding::Utf16Be | Encoding::Utf8 => if version.spec_major() < 4 {
            Encoding::Utf16
        } else {
            enc
        },
        Encoding::Utf16Le => Encoding::Utf16,
        _ => enc,
    }
}

/// The flag byte written for `enc`.
pub open spec fn spec_render(enc: Encoding) -> u8 {
    match enc {
        Encoding::Latin1 => 0,
        Encoding::Utf16 => 1,
        Encoding::Utf16Be => 2,
        Encoding::Utf8 => 3,
        Encoding::Utf16Le => 1,
    }
}

/// Whether the flag byte of `enc` names the encoding that a tag of `version` writes for it:
/// true except for UTF-8 and UTF-16BE in tags older than ID3v2.4, whose text is written as
/// UTF-16 under their own byte.
pub open spec fn flag_matches(enc: Encoding, version: Version) -> bool {
    spec_render(enc) == spec_render(spec_check(enc, version))
}

/// Reads an encoding flag from `stream`.
///
/// # Errors
/// If the stream is empty or the flag is not one of the four ID3v2 encodings, an error is
/// returned.
pub fn parse(stream: &mut BufStream) -> (r: ParseResult<Encoding>)
    ensures
        r == spec_parse(old(stream).rest()),
        final(stream).data() == old(stream).data(),
        r is Ok ==> final(stream).rest() == old(stream).rest().drop_first(),
{
    match stream.read_u8() {
        // Latin1
        Ok(0) => Ok(Encoding::Latin1),
        // UTF16 with BOM [Can be both LE or BE]
        Ok(1) => Ok(Encoding::Utf16),
        // UTF16 without BOM [Always BE]
        Ok(2) => Ok(Encoding::Utf16Be),
        // UTF-8
        Ok(3) => Ok(Encoding::Utf8),
        // Malformed.
        Ok(_) => Err(ParseError::MalformedData),
        Err(e) => Err(ParseError::IoError(e)),
    }
}

/// Maps `enc` to an encoding that a tag of `version` supports.
///
/// UTF-16BE and UTF-8 only exist in ID3v2.4 and become UTF-16 on older versions;
/// UTF-16LE is not part of the standard and always becomes UTF-16.
pub fn check(enc: Encoding, version: Version) -> (r: Encoding)
    ensures
        r == spec_check(enc, version),
{
    match enc {
        Encoding::Utf16Be | Encoding::Utf8 => if version.major() < 4 {
            Encoding::Utf16
        } else {
            enc
        },
        Encoding::Utf16Le => Encoding::Utf16,
        _ => enc,
    }
}

/// Returns the flag byte of `enc`.
pub fn render(enc: Encoding) -> (r: u8)
    ensures
        r == spec_render(enc),
{
    match enc {
        Encoding::Latin1 => 0,
        Encoding::Utf16 => 1,
        Encoding::Utf16Be => 2,
        Encoding::Utf8 => 3,
        Encoding::Utf16Le => 1,
    }
}

/// The flag of every encoding that a tag can hold is read back as that encoding.
pub proof fn lemma_flag_roundtrip(enc: Encoding, rest: Seq<u8>)
    requires
        enc != Encoding::Utf16Le,
    ensures
        spec_parse(seq![spec_render(enc)] + rest) == Ok::<Encoding, ParseError>(enc),
{
}

} // verus!
