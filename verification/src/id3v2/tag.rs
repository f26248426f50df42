//! Tag headers and meta information.
//!
//! This module contains the items for the ID3v2 header, version, and extended header.
use crate::id3v2::syncdata::{self, spec_to_u28, spec_to_u35, group7};
use crate::id3v2::{read_error, ParseError, ParseResult};
use crate::io::{BufStream, be_value, be_bytes, be_bytes_of, lemma_be_bytes_value, pow256};
use vstd::prelude::*;

verus! {

/// The version of an ID3v2 tag.
///
/// This enum represents the current version of a tag.
/// This cannot be used for writing tags. Instead, use [`SaveVersion`](SaveVersion)
#[derive(Clone, Copy, Debug, Eq, PartialEq, Structural)]
pub enum Version {
    /// ID3v2.2.
    V22,
    /// ID3v2.3.
    V23,
    /// ID3v2.4.
    V24,
}

impl Version {
    /// The major version number.
    pub open spec fn spec_major(self) -> u8 {
        match self {
            Version::V22 => 2,
            Version::V23 => 3,
            Version::V24 => 4,
        }
    }

    /// Returns the major version number of this version.
    #[verifier::when_used_as_spec(spec_major)]
    pub fn major(self) -> (m: u8)
        ensures
            m == self.spec_major(),
    {
        match self {
            Version::V22 => 2,
            Version::V23 => 3,
            Version::V24 => 4,
        }
    }

    /// A name for this version, such as `ID3v2.3`.
    pub fn name(&self) -> (s: &'static str)
        ensures
            s@ == match self {
                Version::V22 => "ID3v2.2"@,
                Version::V23 => "ID3v2.3"@,
                Version::V24 => "ID3v2.4"@,
            },
    {
        match self {
            Version::V22 => "ID3v2.2",
            Version::V23 => "ID3v2.3",
            Version::V24 => "ID3v2.4",
        }
    }
}

/// The version to save an ID3v2 tag with.
///
/// This enum differs from [`Version`](Version) in that it represents the ID3v2 versions
/// that musikr can create and write, that being ID3v2.3 and ID3v2.4.
#[derive(Clone, Copy, Debug, Eq, PartialEq, Structural)]
pub enum SaveVersion {
    /// ID3v2.3.
    V23,
    /// ID3v2.4.
    V24,
}

pub open spec fn save_version_spec(other: SaveVersion) -> Version {
    match other {
        SaveVersion::V23 => Version::V23,
        SaveVersion::V24 => Version::V24,
    }
}

impl From<SaveVersion> for Version {
    fn from(other: SaveVersion) -> (v: Self) {
        match other {
            SaveVersion::V23 => Version::V23,
            SaveVersion::V24 => Version::V24,
        }
    }
}

impl vstd::std_specs::convert::FromSpecImpl<SaveVersion> for Version {
    open spec fn obeys_from_spec() -> bool {
        true
    }

    open spec fn from_spec(other: SaveVersion) -> Version {
        save_version_spec(other)
    }
}

/// The overall flags for a tag.
#[derive(Clone, Copy, Debug, PartialEq, Eq, Structural)]
pub struct TagFlags {
    pub unsync: bool,
    pub extended: bool,
    pub experimental: bool,
    pub footer: bool,
}

impl Default for TagFlags {
    fn default() -> (f: Self)
        ensures
            f == (TagFlags { unsync: false, extended: false, experimental: false, footer: false }),
    {
        TagFlags { unsync: false, extended: false, experimental: false, footer: false }
    }
}

/// The flags held in a tag header's flag byte.
pub open spec fn spec_tag_flags(b: u8) -> TagFlags {
    TagFlags {
        unsync: b & 0x80 != 0,
        extended: b & 0x40 != 0,
        experimental: b & 0x20 != 0,
        footer: b & 0x10 != 0,
    }
}

/// The flag byte of a set of tag flags.
pub open spec fn spec_tag_flags_byte(f: TagFlags) -> u8 {
    ((if f.unsync { 0x80u8 } else { 0u8 }) | (if f.extended { 0x40u8 } else { 0u8 }) | (
    if f.experimental { 0x20u8 } else { 0u8 }) | (if f.footer { 0x10u8 } else { 0u8 }))
}

/// The ten bytes of a rendered tag header.
pub open spec fn spec_render_tag_header(version: Version, size: u32, flags: TagFlags) -> Seq<u8> {
    seq![0x49u8, 0x44u8, 0x33u8, version.spec_major(), 0u8, spec_tag_flags_byte(flags)] + seq![
        group7(size, 3),
        group7(size, 2),
        group7(size, 1),
        group7(size, 0),
    ]
}

/// The version named by the two version bytes of a header.
pub open spec fn spec_header_version(major: u8, minor: u8) -> Option<Version> {
    if major == 2 && minor == 0 {
        Some(Version::V22)
    } else if major == 3 && minor == 0 {
        Some(Version::V23)
    } else if major == 4 && minor == 0 {
        Some(Version::V24)
    } else {
        None
    }
}

/// Whether a flag byte sets a flag that `version` does not define.
pub open spec fn spec_unused_flags(version: Version, flags: u8) -> bool {
    (version == Version::V22 && flags & 0x4F != 0) || (version == Version::V23 && flags & 0x1F
        != 0) || (version == Version::V24 && flags & 0x0f != 0)
}

/// The error that parsing a ten-byte tag header meets, if any.
pub open spec fn spec_tag_header_error(raw: Seq<u8>) -> Option<ParseError> {
    if !(raw[0] == 0x49 && raw[1] == 0x44 && raw[2] == 0x33) {
        Some(ParseError::NotFound)
    } else if spec_header_version(raw[3], raw[4]) is None {
        Some(ParseError::Unsupported)
    } else if spec_unused_flags(spec_header_version(raw[3], raw[4])->0, raw[5]) {
        Some(ParseError::MalformedData)
    } else if spec_to_u28(raw.subrange(6, 10)) == 0 || spec_to_u28(raw.subrange(6, 10))
        > 256_000_000 {
        Some(ParseError::MalformedData)
    } else {
        None
    }
}

/// The header of an ID3v2 tag.
#[derive(Clone, Copy, Debug)]
pub struct TagHeader {
    version: Version,
    tag_size: u32,
    flags: TagFlags,
}

impl TagHeader {
    pub closed spec fn spec_version(&self) -> Version {
        self.version
    }

    pub closed spec fn spec_size(&self) -> u32 {
        self.tag_size
    }

    pub closed spec fn spec_flags(&self) -> TagFlags {
        self.flags
    }

    /// Parses a ten-byte tag header.
    ///
    /// # Errors
    /// `NotFound` without the `ID3` identifier, `Unsupported` for versions other than
    /// ID3v2.2, ID3v2.3 and ID3v2.4, and `MalformedData` when unused flags are set or
    /// the size is zero or beyond 256mb.
    pub fn parse(raw: [u8; 10]) -> (r: ParseResult<Self>)
        ensures
            match spec_tag_header_error(raw@) {
                Some(e) => r == Err::<TagHeader, ParseError>(e),
                None => r matches Ok(h) && h.version() == spec_header_version(raw[3], raw[4])->0
                    && h.size() == spec_to_u28(raw@.subrange(6, 10)) && h.flags()
                    == spec_tag_flags(raw[5]),
            },
    {
        // Verify that this header has a valid ID3 Identifier
        if !(raw[0] == 0x49 && raw[1] == 0x44 && raw[2] == 0x33) {
            return Err(ParseError::NotFound);
        }
        let version = if raw[3] == 2 && raw[4] == 0 {
            Version::V22
        } else if raw[3] == 3 && raw[4] == 0 {
            Version::V23
        } else if raw[3] == 4 && raw[4] == 0 {
            Version::V24
        } else {
            return Err(ParseError::Unsupported);
        };
        let flags = raw[5];
        // Treat any unused flags being set as malformed data.
        if (version == Version::V22 && flags & 0x4F != 0) || (version == Version::V23 && flags
            & 0x1F != 0) || (version == Version::V24 && flags & 0x0f != 0) {
            return Err(ParseError::MalformedData);
        }
        let flags = TagFlags {
            unsync: flags & 0x80 != 0,
            extended: flags & 0x40 != 0,
            experimental: flags & 0x20 != 0,
            footer: flags & 0x10 != 0,
        };
        let size_bytes: [u8; 4] = [raw[6], raw[7], raw[8], raw[9]];
        assert(size_bytes@ =~= raw@.subrange(6, 10));
        let tag_size = syncdata::to_u28(size_bytes);
        // ID3v2 tags must be at least 1 byte and never more than 256mb.
        if tag_size == 0 || tag_size > 256_000_000 {
            return Err(ParseError::MalformedData);
        }
        Ok(TagHeader { version, tag_size, flags })
    }

    /// Renders this header into its ten-byte form.
    pub fn render(&self) -> (r: [u8; 10])
        requires
            self.version() != Version::V22,
        ensures
            r@ == spec_render_tag_header(self.version(), self.size(), self.flags()),
    {
        let major: u8 = match self.version {
            Version::V24 => 4,
            _ => 3,
        };
        let f = self.flags;
        let flags: u8 = (if f.unsync { 0x80u8 } else { 0u8 }) | (if f.extended { 0x40u8 } else { 0u8 })
            | (if f.experimental { 0x20u8 } else { 0u8 }) | (if f.footer { 0x10u8 } else { 0u8 });
        // ID3v2 tag sizes are always syncsafe
        let size = syncdata::from_u28(self.tag_size);
        let r = [0x49u8, 0x44, 0x33, major, 0, flags, size[0], size[1], size[2], size[3]];
        assert(r@ =~= seq![0x49u8, 0x44u8, 0x33u8, self.version().major(), 0u8,
                spec_tag_flags_byte(self.flags())] + seq![group7(self.size(), 3),
                group7(self.size(), 2), group7(self.size(), 1), group7(self.size(), 0)]);
        r
    }

    /// Creates an empty header of `version`.
    pub fn with_version(version: Version) -> (h: Self)
        ensures
            h.version() == version,
            h.size() == 0,
            h.flags() == (TagFlags { unsync: false, extended: false, experimental: false, footer: false }),
    {
        TagHeader { version, tag_size: 0, flags: TagFlags::default() }
    }

    /// Returns the version of this tag.
    #[verifier::when_used_as_spec(spec_version)]
    pub fn version(&self) -> (v: Version)
        ensures
            v == self.spec_version(),
    {
        self.version
    }

    /// Returns the size of this tag.
    #[verifier::when_used_as_spec(spec_size)]
    pub fn size(&self) -> (s: u32)
        ensures
            s == self.spec_size(),
    {
        self.tag_size
    }

    /// Returns the flags of this tag.
    #[verifier::when_used_as_spec(spec_flags)]
    pub fn flags(&self) -> (f: TagFlags)
        ensures
            f == self.spec_flags(),
    {
        self.flags
    }

    /// Sets the version of this tag.
    pub fn set_version(&mut self, version: Version)
        ensures
            final(self).version() == version,
            final(self).size() == old(self).size(),
            final(self).flags() == old(self).flags(),
    {
        self.version = version;
    }

    /// Sets the size of this tag.
    pub fn set_size(&mut self, size: u32)
        ensures
            final(self).version() == old(self).version(),
            final(self).size() == size,
            final(self).flags() == old(self).flags(),
    {
        self.tag_size = size;
    }

    /// Sets the flags of this tag.
    pub fn set_flags(&mut self, flags: TagFlags)
        ensures
            final(self).version() == old(self).version(),
            final(self).size() == old(self).size(),
            final(self).flags() == flags,
    {
        self.flags = flags;
    }
}

/// A tag's extended header.
#[derive(Debug, Clone, Copy, PartialEq, Eq, Structural)]
pub struct ExtendedHeader {
    pub padding_size: Option<u32>,
    pub crc32: Option<u32>,
    pub is_update: bool,
    pub restrictions: Option<Restrictions>,
}

impl Default for ExtendedHeader {
    fn default() -> (h: Self)
        ensures
            h == (ExtendedHeader { padding_size: None, crc32: None, is_update: false, restrictions: None }),
    {
        ExtendedHeader { padding_size: None, crc32: None, is_update: false, restrictions: None }
    }
}

/// Tag restrictions, which describe how a tag was encoded.
#[derive(Clone, Copy, Debug, Eq, PartialEq, Structural)]
pub struct Restrictions {
    pub tag_size: TagSizeRestriction,
    pub text_encoding: TextEncodingRestriction,
    pub text_size: TextSizeRestriction,
    pub image_encoding: ImageEncodingRestriction,
    pub image_size: ImageSizeRestriction,
}

#[derive(Clone, Copy, Debug, Eq, PartialEq, Structural)]
pub enum TagSizeRestriction {
    Max128Frames1Mb,
    Max64Frames128Kb,
    Max32Frames40Kb,
    Max32Frames4Kb,
}

#[derive(Clone, Copy, Debug, Eq, PartialEq, Structural)]
pub enum TextEncodingRestriction {
    Unrestricted,
    Latin1OrUtf8,
}

#[derive(Clone, Copy, Debug, Eq, PartialEq, Structural)]
pub enum TextSizeRestriction {
    Unrestricted,
    LessThan1024Chars,
    LessThan128Chars,
    LessThan30Chars,
}

#[derive(Clone, Copy, Debug, Eq, PartialEq, Structural)]
pub enum ImageEncodingRestriction {
    Unrestricted,
    OnlyPngOrJpeg,
}

#[derive(Clone, Copy, Debug, Eq, PartialEq, Structural)]
pub enum ImageSizeRestriction {
    Unrestricted,
    LessThan256x256,
    LessThan64x64,
    Exactly64x64,
}

impl TagSizeRestriction {
    pub open spec fn spec_bits(self) -> u8 {
        match self {
            TagSizeRestriction::Max128Frames1Mb => 0,
            TagSizeRestriction::Max64Frames128Kb => 1,
            TagSizeRestriction::Max32Frames40Kb => 2,
            TagSizeRestriction::Max32Frames4Kb => 3,
        }
    }

    /// The number this restriction is written as.
    #[verifier::when_used_as_spec(spec_bits)]
    pub fn bits(self) -> (b: u8)
        ensures
            b == self.spec_bits(),
    {
        match self {
            TagSizeRestriction::Max128Frames1Mb => 0,
            TagSizeRestriction::Max64Frames128Kb => 1,
            TagSizeRestriction::Max32Frames40Kb => 2,
            TagSizeRestriction::Max32Frames4Kb => 3,
        }
    }
}

impl TextEncodingRestriction {
    pub open spec fn spec_bits(self) -> u8 {
        match self {
            TextEncodingRestriction::Unrestricted => 0,
            TextEncodingRestriction::Latin1OrUtf8 => 1,
        }
    }

    /// The number this restriction is written as.
    #[verifier::when_used_as_spec(spec_bits)]
    pub fn bits(self) -> (b: u8)
        ensures
            b == self.spec_bits(),
    {
        match self {
            TextEncodingRestriction::Unrestricted => 0,
            TextEncodingRestriction::Latin1OrUtf8 => 1,
        }
    }
}

impl TextSizeRestriction {
    pub open spec fn spec_bits(self) -> u8 {
        match self {
            TextSizeRestriction::Unrestricted => 0,
            TextSizeRestriction::LessThan1024Chars => 1,
            TextSizeRestriction::LessThan128Chars => 2,
            TextSizeRestriction::LessThan30Chars => 3,
        }
    }

    /// The number this restriction is written as.
    #[verifier::when_used_as_spec(spec_bits)]
    pub fn bits(self) -> (b: u8)
        ensures
            b == self.spec_bits(),
    {
        match self {
            TextSizeRestriction::Unrestricted => 0,
            TextSizeRestriction::LessThan1024Chars => 1,
            TextSizeRestriction::LessThan128Chars => 2,
            TextSizeRestriction::LessThan30Chars => 3,
        }
    }
}

impl ImageEncodingRestriction {
    pub open spec fn spec_bits(self) -> u8 {
        match self {
            ImageEncodingRestriction::Unrestricted => 0,
            ImageEncodingRestriction::OnlyPngOrJpeg => 1,
        }
    }

    /// The number this restriction is written as.
    #[verifier::when_used_as_spec(spec_bits)]
    pub fn bits(self) -> (b: u8)
        ensures
            b == self.spec_bits(),
    {
        match self {
            ImageEncodingRestriction::Unrestricted => 0,
            ImageEncodingRestriction::OnlyPngOrJpeg => 1,
        }
    }
}

impl ImageSizeRestriction {
    pub open spec fn spec_bits(self) -> u8 {
        match self {
            ImageSizeRestriction::Unrestricted => 0,
            ImageSizeRestriction::LessThan256x256 => 1,
            ImageSizeRestriction::LessThan64x64 => 2,
            ImageSizeRestriction::Exactly64x64 => 3,
        }
    }

    /// The number this restriction is written as.
    #[verifier::when_used_as_spec(spec_bits)]
    pub fn bits(self) -> (b: u8)
        ensures
            b == self.spec_bits(),
    {
        match self {
            ImageSizeRestriction::Unrestricted => 0,
            ImageSizeRestriction::LessThan256x256 => 1,
            ImageSizeRestriction::LessThan64x64 => 2,
            ImageSizeRestriction::Exactly64x64 => 3,
        }
    }
}

/// The restrictions held in a restriction byte. Only the second-lowest bit of the byte
/// reaches the image size restriction.
pub open spec fn spec_restrictions(r: u8) -> Restrictions {
    Restrictions {
        tag_size: if r >> 6 == 0 {
            TagSizeRestriction::Max128Frames1Mb
        } else if r >> 6 == 1 {
            TagSizeRestriction::Max64Frames128Kb
        } else if r >> 6 == 2 {
            TagSizeRestriction::Max32Frames40Kb
        } else {
            TagSizeRestriction::Max32Frames4Kb
        },
        text_encoding: if (r & 0x20) >> 5 == 0 {
            TextEncodingRestriction::Unrestricted
        } else {
            TextEncodingRestriction::Latin1OrUtf8
        },
        text_size: if (r & 0x18) >> 3 == 0 {
            TextSizeRestriction::Unrestricted
        } else if (r & 0x18) >> 3 == 1 {
            TextSizeRestriction::LessThan1024Chars
        } else if (r & 0x18) >> 3 == 2 {
            TextSizeRestriction::LessThan128Chars
        } else {
            TextSizeRestriction::LessThan30Chars
        },
        image_encoding: if (r & 0x4) >> 2 == 0 {
            ImageEncodingRestriction::Unrestricted
        } else {
            ImageEncodingRestriction::OnlyPngOrJpeg
        },
        image_size: if (r & 0x3) >> 1 == 0 {
            ImageSizeRestriction::Unrestricted
        } else {
            ImageSizeRestriction::LessThan256x256
        },
    }
}

/// The restriction byte of a set of restrictions.
pub open spec fn spec_restriction_bits(r: Restrictions) -> u8 {
    ((r.tag_size.spec_bits() << 6u8) | (r.text_encoding.spec_bits() << 5u8) | (
    r.text_size.spec_bits() << 3u8) | (r.image_encoding.spec_bits() << 2u8) | (
    r.image_size.spec_bits() << 1u8)) as u8
}

fn parse_restrictions(r: u8) -> (res: Restrictions)
    ensures
        res == spec_restrictions(r),
{
    let tag_size = if r >> 6 == 0 {
        TagSizeRestriction::Max128Frames1Mb
    } else if r >> 6 == 1 {
        TagSizeRestriction::Max64Frames128Kb
    } else if r >> 6 == 2 {
        TagSizeRestriction::Max32Frames40Kb
    } else {
        TagSizeRestriction::Max32Frames4Kb
    };
    let text_encoding = if (r & 0x20) >> 5 == 0 {
        TextEncodingRestriction::Unrestricted
    } else {
        TextEncodingRestriction::Latin1OrUtf8
    };
    let text_size = if (r & 0x18) >> 3 == 0 {
        TextSizeRestriction::Unrestricted
    } else if (r & 0x18) >> 3 == 1 {
        TextSizeRestriction::LessThan1024Chars
    } else if (r & 0x18) >> 3 == 2 {
        TextSizeRestriction::LessThan128Chars
    } else {
        TextSizeRestriction::LessThan30Chars
    };
    let image_encoding = if (r & 0x4) >> 2 == 0 {
        ImageEncodingRestriction::Unrestricted
    } else {
        ImageEncodingRestriction::OnlyPngOrJpeg
    };
    let image_size = if (r & 0x3) >> 1 == 0 {
        ImageSizeRestriction::Unrestricted
    } else {
        ImageSizeRestriction::LessThan256x256
    };
    Restrictions { tag_size, text_encoding, text_size, image_encoding, image_size }
}

/// What parsing an ID3v2.3 extended header at the start of `d` gives: the header and the
/// number of bytes it takes up.
pub open spec fn spec_parse_ext_v3(d: Seq<u8>) -> ParseResult<(ExtendedHeader, nat)> {
    if d.len() < 4 {
        Err(read_error(d, 0, 4))
    } else if be_value(d.take(4)) != 6 && be_value(d.take(4)) != 10 {
        Err(ParseError::MalformedData)
    } else if d.len() < 6 {
        Err(read_error(d, 4, 2))
    } else if d.len() < 10 {
        Err(read_error(d, 6, 4))
    } else {
        let flags = be_value(d.subrange(4, 6)) as u16;
        let padding = be_value(d.subrange(6, 10)) as u32;
        if flags & 0x8000 != 0 {
            if d.len() < 14 {
                Err(read_error(d, 10, 4))
            } else {
                Ok((ExtendedHeader {
                    padding_size: Some(padding),
                    crc32: Some(be_value(d.subrange(10, 14)) as u32),
                    is_update: false,
                    restrictions: None,
                }, 14))
            }
        } else {
            Ok((ExtendedHeader {
                padding_size: Some(padding),
                crc32: None,
                is_update: false,
                restrictions: None,
            }, 10))
        }
    }
}

/// The restriction section of an ID3v2.4 extended header at `p`, after the update and
/// CRC-32 sections have given `h`.
pub open spec fn spec_ext_v4_restrictions(d: Seq<u8>, p: int, flags: u8, h: ExtendedHeader) -> ParseResult<(ExtendedHeader, nat)> {
    if flags & 0x10 != 0 {
        if d.len() < p + 1 {
            Err(read_error(d, p, 1))
        } else if d[p] != 1 {
            Err(ParseError::MalformedData)
        } else if d.len() < p + 2 {
            Err(read_error(d, p + 1, 1))
        } else {
            Ok((ExtendedHeader { restrictions: Some(spec_restrictions(d[p + 1])), ..h }, (p + 2) as nat))
        }
    } else {
        Ok((h, p as nat))
    }
}

/// The CRC-32 section of an ID3v2.4 extended header at `p` and what follows it.
pub open spec fn spec_ext_v4_crc(d: Seq<u8>, p: int, flags: u8, h: ExtendedHeader) -> ParseResult<(ExtendedHeader, nat)> {
    if flags & 0x20 != 0 {
        if d.len() < p + 1 {
            Err(read_error(d, p, 1))
        } else if d[p] != 5 {
            Err(ParseError::MalformedData)
        } else if d.len() < p + 6 {
            Err(read_error(d, p + 1, 5))
        } else {
            spec_ext_v4_restrictions(d, p + 6, flags, ExtendedHeader {
                crc32: Some(spec_to_u35(d.subrange(p + 1, p + 6))),
                ..h
            })
        }
    } else {
        spec_ext_v4_restrictions(d, p, flags, h)
    }
}

/// What parsing an ID3v2.4 extended header at the start of `d` gives: the header and the
/// number of bytes it takes up.
pub open spec fn spec_parse_ext_v4(d: Seq<u8>) -> ParseResult<(ExtendedHeader, nat)> {
    let empty = ExtendedHeader { padding_size: None, crc32: None, is_update: false, restrictions: None };
    if d.len() < 4 {
        Err(read_error(d, 0, 4))
    } else if !(6 <= spec_to_u28(d.take(4)) <= 15) {
        Err(ParseError::MalformedData)
    } else if d.len() < 5 {
        Err(read_error(d, 4, 1))
    } else if d[4] != 1 {
        Err(ParseError::MalformedData)
    } else if d.len() < 6 {
        Err(read_error(d, 5, 1))
    } else {
        let flags = d[5];
        if flags & 0x40 != 0 {
            if d.len() < 7 {
                Err(read_error(d, 6, 1))
            } else if d[6] != 0 {
                Err(ParseError::MalformedData)
            } else {
                spec_ext_v4_crc(d, 7, flags, ExtendedHeader { is_update: true, ..empty })
            }
        } else {
            spec_ext_v4_crc(d, 6, flags, empty)
        }
    }
}

/// Where reading an ID3v2.3 extended header at the start of `d` stops when it fails: before
/// the field that is cut short, or after the size that is not allowed.
pub open spec fn ext_v3_stop(d: Seq<u8>) -> nat {
    if d.len() < 4 {
        0
    } else if be_value(d.take(4)) != 6 && be_value(d.take(4)) != 10 {
        4
    } else if d.len() < 6 {
        4
    } else if d.len() < 10 {
        6
    } else {
        10
    }
}

/// Where reading the restriction section of an ID3v2.4 extended header at `p` stops when it
/// fails.
pub open spec fn ext_v4_restrictions_stop(d: Seq<u8>, p: int) -> nat {
    if d.len() < p + 1 {
        p as nat
    } else {
        (p + 1) as nat
    }
}

/// Where reading the CRC-32 section of an ID3v2.4 extended header at `p`, and what follows
/// it, stops when it fails.
pub open spec fn ext_v4_crc_stop(d: Seq<u8>, p: int, flags: u8) -> nat {
    if flags & 0x20 != 0 {
        if d.len() < p + 1 {
            p as nat
        } else if d[p] != 5 || d.len() < p + 6 {
            (p + 1) as nat
        } else {
            ext_v4_restrictions_stop(d, p + 6)
        }
    } else {
        ext_v4_restrictions_stop(d, p)
    }
}

/// Where reading an ID3v2.4 extended header at the start of `d` stops when it fails: before
/// the field that is cut short, or after the field that is not allowed.
pub open spec fn ext_v4_stop(d: Seq<u8>) -> nat {
    if d.len() < 4 {
        0
    } else if !(6 <= spec_to_u28(d.take(4)) <= 15) {
        4
    } else if d.len() < 5 {
        4
    } else if d[4] != 1 || d.len() < 6 {
        5
    } else {
        let flags = d[5];
        if flags & 0x40 != 0 {
            if d.len() < 7 {
                6
            } else if d[6] != 0 {
                7
            } else {
                ext_v4_crc_stop(d, 7, flags)
            }
        } else {
            ext_v4_crc_stop(d, 6, flags)
        }
    }
}

/// Where reading an extended header of `version` at the start of `d` stops when it fails.
pub open spec fn ext_stop(d: Seq<u8>, version: Version) -> nat {
    match version {
        Version::V22 => 0,
        Version::V23 => ext_v3_stop(d),
        Version::V24 => ext_v4_stop(d),
    }
}

/// What parsing an extended header of `version` at the start of `d` gives.
pub open spec fn spec_parse_ext(d: Seq<u8>, version: Version) -> ParseResult<(ExtendedHeader, nat)> {
    match version {
        Version::V22 => Err(ParseError::Unsupported),
        Version::V23 => spec_parse_ext_v3(d),
        Version::V24 => spec_parse_ext_v4(d),
    }
}

/// The bytes of an ID3v2.3 extended header.
pub open spec fn spec_render_ext_v3(h: ExtendedHeader) -> Seq<u8> {
    let padding = match h.padding_size { Some(p) => p, None => 0 };
    match h.crc32 {
        Some(crc) => seq![0u8, 0u8, 0u8, 10u8, 0x80u8, 0u8] + be_bytes(padding as nat, 4) + be_bytes(crc as nat, 4),
        None => seq![0u8, 0u8, 0u8, 6u8, 0u8, 0u8] + be_bytes(padding as nat, 4),
    }
}

/// The bytes of an ID3v2.4 extended header.
pub open spec fn spec_render_ext_v4(h: ExtendedHeader) -> Seq<u8> {
    let size = 6 + (if h.is_update { 1int } else { 0 }) + (if h.crc32 is Some { 6int } else { 0 })
        + (if h.restrictions is Some { 2int } else { 0 });
    let flags = (if h.is_update { 0x40u8 } else { 0u8 }) | (if h.crc32 is Some { 0x20u8 } else { 0u8 })
        | (if h.restrictions is Some { 0x10u8 } else { 0u8 });
    seq![0u8, 0u8, 0u8, size as u8, 1u8, flags]
        + (if h.is_update { seq![0u8] } else { Seq::<u8>::empty() })
        + (match h.crc32 {
            Some(crc) => seq![5u8] + seq![group7(crc, 4), group7(crc, 3), group7(crc, 2), group7(crc, 1), group7(crc, 0)],
            None => Seq::<u8>::empty(),
        })
        + (match h.restrictions {
            Some(r) => seq![1u8, spec_restriction_bits(r)],
            None => Seq::<u8>::empty(),
        })
}

impl ExtendedHeader {
    /// Parses an extended header of `version` from `stream`.
    ///
    /// # Errors
    /// `Unsupported` for ID3v2.2, `MalformedData` for sizes and flag data that the
    /// version does not allow, and `IoError` when the stream ends early.
    pub fn parse(stream: &mut BufStream, version: Version) -> (r: ParseResult<Self>)
        ensures
            final(stream).data() == old(stream).data(),
            match r {
                Ok(h) => spec_parse_ext(old(stream).rest(), version) matches Ok((h2, n)) && h == h2
                    && final(stream).rest() == old(stream).rest().skip(n as int),
                Err(e) => spec_parse_ext(old(stream).rest(), version) == Err::<(ExtendedHeader, nat), ParseError>(e)
                    && final(stream).rest() == old(stream).rest().skip(ext_stop(old(stream).rest(), version) as int),
            },
    {
        match version {
            Version::V22 => Err(ParseError::Unsupported),
            Version::V23 => parse_ext_v3(stream),
            Version::V24 => parse_ext_v4(stream),
        }
    }

    /// Renders this extended header for `version`.
    pub fn render(&self, version: Version) -> (r: Vec<u8>)
        requires
            version != Version::V22,
        ensures
            r@ == if version == Version::V24 { spec_render_ext_v4(*self) } else { spec_render_ext_v3(*self) },
    {
        match version {
            Version::V24 => render_ext_v4(self),
            _ => render_ext_v3(self),
        }
    }

    /// This extended header with only the fields that `to` supports: ID3v2.3 has a padding
    /// size and no update flag or restrictions, ID3v2.4 has no padding size.
    pub open spec fn updated(self, to: SaveVersion) -> ExtendedHeader {
        match to {
            SaveVersion::V23 => ExtendedHeader {
                padding_size: Some(0),
                is_update: false,
                restrictions: None,
                ..self
            },
            SaveVersion::V24 => ExtendedHeader { padding_size: None, ..self },
        }
    }

    /// Adapts this extended header to the fields that `to` supports.
    pub fn update(&mut self, to: SaveVersion)
        ensures
            *final(self) == old(self).updated(to),
    {
        match to {
            SaveVersion::V23 => {
                self.padding_size = Some(0);
                self.is_update = false;
                self.restrictions = None;
            },
            SaveVersion::V24 => {
                self.padding_size = None;
            },
        }
    }
}

fn parse_ext_v3(stream: &mut BufStream) -> (r: ParseResult<ExtendedHeader>)
    ensures
        final(stream).data() == old(stream).data(),
        match r {
            Ok(h) => spec_parse_ext_v3(old(stream).rest()) matches Ok((h2, n)) && h == h2
                && final(stream).rest() == old(stream).rest().skip(n as int),
            Err(e) => spec_parse_ext_v3(old(stream).rest()) == Err::<(ExtendedHeader, nat), ParseError>(e)
                && final(stream).rest() == old(stream).rest().skip(ext_v3_stop(old(stream).rest()) as int),
        },
{
    let ghost d = stream.rest();
    let size = match stream.read_be_u32() {
        Ok(v) => v,
        Err(e) => return Err(ParseError::IoError(e)),
    };
    // The extended header should be 6 or 10 bytes
    if size != 6 && size != 10 {
        return Err(ParseError::MalformedData);
    }
    let flags = match stream.read_be_u16() {
        Ok(v) => v,
        Err(e) => return Err(ParseError::IoError(e)),
    };
    proof {
        assert(d.skip(4).take(2) =~= d.subrange(4, 6));
    }
    let padding = match stream.read_be_u32() {
        Ok(v) => v,
        Err(e) => return Err(ParseError::IoError(e)),
    };
    proof {
        assert(d.skip(4).skip(2).take(4) =~= d.subrange(6, 10));
        assert(d.skip(4).skip(2) =~= d.skip(6));
    }
    let mut header = ExtendedHeader {
        padding_size: Some(padding),
        crc32: None,
        is_update: false,
        restrictions: None,
    };
    if flags & 0x8000 != 0 {
        let crc = match stream.read_be_u32() {
            Ok(v) => v,
            Err(e) => return Err(ParseError::IoError(e)),
        };
        proof {
            assert(d.skip(6).skip(4).take(4) =~= d.subrange(10, 14));
            assert(d.skip(6).skip(4).skip(4) =~= d.skip(14));
        }
        header.crc32 = Some(crc);
    } else {
        proof {
            assert(d.skip(6).skip(4) =~= d.skip(10));
        }
    }
    Ok(header)
}

fn parse_ext_v4(stream: &mut BufStream) -> (r: ParseResult<ExtendedHeader>)
    ensures
        final(stream).data() == old(stream).data(),
        match r {
            Ok(h) => spec_parse_ext_v4(old(stream).rest()) matches Ok((h2, n)) && h == h2
                && final(stream).rest() == old(stream).rest().skip(n as int),
            Err(e) => spec_parse_ext_v4(old(stream).rest()) == Err::<(ExtendedHeader, nat), ParseError>(e)
                && final(stream).rest() == old(stream).rest().skip(ext_v4_stop(old(stream).rest()) as int),
        },
{
    let ghost d = stream.rest();
    let size_bytes = match stream.read_array::<4>() {
        Ok(v) => v,
        Err(e) => return Err(ParseError::IoError(e)),
    };
    let size = syncdata::to_u28(size_bytes);
    // An extended header can only be between 6 and 15 bytes
    if !(6 <= size && size <= 15) {
        return Err(ParseError::MalformedData);
    }
    // The flag count is always 1.
    let count = match stream.read_u8() {
        Ok(v) => v,
        Err(e) => return Err(ParseError::IoError(e)),
    };
    if count != 1 {
        return Err(ParseError::MalformedData);
    }
    let mut header = ExtendedHeader { padding_size: None, crc32: None, is_update: false, restrictions: None };
    let flags = match stream.read_u8() {
        Ok(v) => v,
        Err(e) => return Err(ParseError::IoError(e)),
    };
    proof {
        assert(d.skip(4).drop_first().drop_first() =~= d.skip(6));
    }
    let ghost mut p: int = 6;
    // Tag is an update.
    if flags & 0x40 != 0 {
        // Flag must have no accompanying data.
        let len = match stream.read_u8() {
            Ok(v) => v,
            Err(e) => return Err(ParseError::IoError(e)),
        };
        if len != 0 {
            return Err(ParseError::MalformedData);
        }
        header.is_update = true;
        proof {
            assert(d.skip(6).drop_first() =~= d.skip(7));
            p = 7;
        }
    }
    assert(stream.rest() == d.skip(p));
    assert(spec_parse_ext_v4(d) == spec_ext_v4_crc(d, p, flags, header));
    // CRC-32 data.
    if flags & 0x20 != 0 {
        // CRC-32 data must be a 35-bit syncsafe integer.
        let len = match stream.read_u8() {
            Ok(v) => v,
            Err(e) => return Err(ParseError::IoError(e)),
        };
        if len != 5 {
            return Err(ParseError::MalformedData);
        }
        let crc = match stream.read_array::<5>() {
            Ok(v) => v,
            Err(e) => return Err(ParseError::IoError(e)),
        };
        proof {
            assert(d.skip(p).drop_first().take(5) =~= d.subrange(p + 1, p + 6));
            assert(d.skip(p).drop_first().skip(5) =~= d.skip(p + 6));
        }
        header.crc32 = Some(syncdata::to_u35(crc));
        proof {
            p = p + 6;
        }
    }
    assert(stream.rest() == d.skip(p));
    assert(spec_parse_ext_v4(d) == spec_ext_v4_restrictions(d, p, flags, header));
    // Tag restrictions. These are flags for when the tag was encoded, so they are only kept.
    if flags & 0x10 != 0 {
        // Restrictions must be 1 byte in length.
        let len = match stream.read_u8() {
            Ok(v) => v,
            Err(e) => return Err(ParseError::IoError(e)),
        };
        if len != 1 {
            return Err(ParseError::MalformedData);
        }
        let restrictions = match stream.read_u8() {
            Ok(v) => v,
            Err(e) => return Err(ParseError::IoError(e)),
        };
        proof {
            assert(d.skip(p).drop_first().drop_first() =~= d.skip(p + 2));
        }
        header.restrictions = Some(parse_restrictions(restrictions));
    }
    Ok(header)
}

fn render_ext_v3(header: &ExtendedHeader) -> (r: Vec<u8>)
    ensures
        r@ == spec_render_ext_v3(*header),
{
    let padding: u32 = match header.padding_size {
        Some(p) => p,
        None => 0,
    };
    let mut data: Vec<u8> = Vec::new();
    data.push(0);
    data.push(0);
    data.push(0);
    let mut tail = be_bytes_of(padding as u64, 4);
    match header.crc32 {
        Some(crc) => {
            data.push(10);
            data.push(0x80);
            data.push(0);
            data.append(&mut tail);
            let mut c = be_bytes_of(crc as u64, 4);
            data.append(&mut c);
        },
        None => {
            data.push(6);
            data.push(0);
            data.push(0);
            data.append(&mut tail);
        },
    }
    assert(data@ =~= spec_render_ext_v3(*header));
    data
}

fn render_ext_v4(header: &ExtendedHeader) -> (r: Vec<u8>)
    ensures
        r@ == spec_render_ext_v4(*header),
{
    let mut size: u8 = 6;
    let flags: u8 = (if header.is_update { 0x40u8 } else { 0u8 }) | (if header.crc32.is_some() {
        0x20u8
    } else {
        0u8
    }) | (if header.restrictions.is_some() { 0x10u8 } else { 0u8 });
    let mut body: Vec<u8> = Vec::new();
    // The is update flag is always empty
    if header.is_update {
        size = size + 1;
        body.push(0);
    }
    let ghost b1 = body@;
    // CRC-32, also optional
    match header.crc32 {
        Some(crc) => {
            size = size + 6;
            body.push(5);
            let enc = syncdata::from_u35(crc);
            body.push(enc[0]);
            body.push(enc[1]);
            body.push(enc[2]);
            body.push(enc[3]);
            body.push(enc[4]);
        },
        None => {},
    }
    let ghost b2 = body@;
    // Restrictions
    match header.restrictions {
        Some(r) => {
            size = size + 2;
            body.push(1);
            let bits: u8 = (r.tag_size.bits() << 6u8) | (r.text_encoding.bits() << 5u8) | (
            r.text_size.bits() << 3u8) | (r.image_encoding.bits() << 2u8) | (r.image_size.bits()
                << 1u8);
            body.push(bits);
        },
        None => {},
    }
    let mut data: Vec<u8> = Vec::new();
    data.push(0);
    data.push(0);
    data.push(0);
    data.push(size);
    data.push(1);
    data.push(flags);
    data.append(&mut body);
    assert(data@ =~= spec_render_ext_v4(*header));
    data
}

} // verus!

verus! {

/// The flags of a tag are read back from the flag byte they are rendered to.
pub proof fn lemma_tag_flags_roundtrip(f: TagFlags)
    ensures
        spec_tag_flags(spec_tag_flags_byte(f)) == f,
{
    let (a, b, c, d) = (f.unsync, f.extended, f.experimental, f.footer);
    let x = spec_tag_flags_byte(f);
    assert(x == ((if a { 0x80u8 } else { 0u8 }) | (if b { 0x40u8 } else { 0u8 }) | (if c { 0x20u8 } else { 0u8 }) | (if d { 0x10u8 } else { 0u8 })));
    assert((x & 0x80 != 0) == a && (x & 0x40 != 0) == b && (x & 0x20 != 0) == c && (x & 0x10 != 0) == d
        && x & 0x0F == 0) by (bit_vector)
        requires
            x == ((if a { 0x80u8 } else { 0u8 }) | (if b { 0x40u8 } else { 0u8 }) | (if c { 0x20u8 } else { 0u8 }) | (if d { 0x10u8 } else { 0u8 })),
    ;
}

/// A rendered tag header parses back to the same version, size and flags, for every
/// ID3v2.3 or ID3v2.4 header whose size is between 1 byte and 256mb and whose flags the
/// version defines (an ID3v2.3 header has no footer flag).
pub proof fn lemma_tag_header_roundtrip(version: Version, size: u32, flags: TagFlags)
    requires
        version != Version::V22,
        0 < size <= 256_000_000,
        version == Version::V23 ==> !flags.footer,
    ensures
        spec_tag_header_error(spec_render_tag_header(version, size, flags)) is None,
        spec_header_version(spec_render_tag_header(version, size, flags)[3], spec_render_tag_header(version, size, flags)[4]) == Some(version),
        spec_to_u28(spec_render_tag_header(version, size, flags).subrange(6, 10)) == size,
        spec_tag_flags(spec_render_tag_header(version, size, flags)[5]) == flags,
{
    let raw = spec_render_tag_header(version, size, flags);
    lemma_tag_flags_roundtrip(flags);
    syncdata::lemma_u28_roundtrip(size);
    assert(raw.subrange(6, 10) =~= seq![group7(size, 3), group7(size, 2), group7(size, 1), group7(size, 0)]);
    let x = spec_tag_flags_byte(flags);
    let (a, b, c, d) = (flags.unsync, flags.extended, flags.experimental, flags.footer);
    assert(x & 0x0F == 0 && (!d ==> x & 0x1F == 0)) by (bit_vector)
        requires
            x == ((if a { 0x80u8 } else { 0u8 }) | (if b { 0x40u8 } else { 0u8 }) | (if c { 0x20u8 } else { 0u8 }) | (if d { 0x10u8 } else { 0u8 })),
    ;
}

} // verus!

verus! {

/// A restriction byte is read back into the restrictions it was rendered from, for every set
/// of restrictions whose image size restriction is `Unrestricted` or `LessThan256x256`.
pub proof fn lemma_restrictions_roundtrip(r: Restrictions)
    requires
        r.image_size.spec_bits() <= 1,
    ensures
        spec_restrictions(spec_restriction_bits(r)) == r,
{
    let a = r.tag_size.spec_bits();
    let b = r.text_encoding.spec_bits();
    let c = r.text_size.spec_bits();
    let d = r.image_encoding.spec_bits();
    let e = r.image_size.spec_bits();
    let x = spec_restriction_bits(r);
    assert(x >> 6 == a && (x & 0x20) >> 5 == b && (x & 0x18) >> 3 == c && (x & 0x4) >> 2 == d
        && (x & 0x3) >> 1 == e) by (bit_vector)
        requires
            a < 4,
            b < 2,
            c < 4,
            d < 2,
            e < 2,
            x == ((a << 6u8) | (b << 5u8) | (c << 3u8) | (d << 2u8) | (e << 1u8)) as u8,
    ;
}

/// A rendered ID3v2.4 extended header parses back to the same header and takes up all of its
/// bytes, whatever follows it, when it has no padding size (ID3v2.4 does not write one), its
/// CRC-32 fits in 31 bits, and its image size restriction is `Unrestricted` or
/// `LessThan256x256`.
pub proof fn lemma_ext_v4_roundtrip(h: ExtendedHeader, rest: Seq<u8>)
    requires
        h.padding_size is None,
        h.crc32 matches Some(c) ==> c < 0x8000_0000,
        h.restrictions matches Some(r) ==> r.image_size.spec_bits() <= 1,
    ensures
        spec_parse_ext_v4(spec_render_ext_v4(h) + rest) == Ok::<(ExtendedHeader, nat), ParseError>((h, spec_render_ext_v4(h).len())),
{
    let enc = spec_render_ext_v4(h);
    let d = enc + rest;
    let u = h.is_update;
    let c = h.crc32 is Some;
    let rr = h.restrictions is Some;
    let size = 6 + (if u { 1int } else { 0 }) + (if c { 6int } else { 0 }) + (if rr { 2int } else { 0 });
    let s8 = size as u8;
    assert(d.take(4) =~= seq![0u8, 0u8, 0u8, s8]);
    assert(((0u8 as u32) << 21) | ((0u8 as u32) << 14) | ((0u8 as u32) << 7) | (s8 as u32) == s8 as u32) by (bit_vector);
    assert(spec_to_u28(d.take(4)) == size);
    let flags = d[5];
    assert(flags == (if u { 0x40u8 } else { 0u8 }) | (if c { 0x20u8 } else { 0u8 }) | (if rr { 0x10u8 } else { 0u8 }));
    assert((flags & 0x40 != 0) == u && (flags & 0x20 != 0) == c && (flags & 0x10 != 0) == rr) by (bit_vector)
        requires
            flags == (if u { 0x40u8 } else { 0u8 }) | (if c { 0x20u8 } else { 0u8 }) | (if rr { 0x10u8 } else { 0u8 }),
    ;
    let p1: int = if u { 7 } else { 6 };
    let empty = ExtendedHeader { padding_size: None, crc32: None, is_update: false, restrictions: None };
    let h1 = ExtendedHeader { is_update: u, ..empty };
    if u {
        assert(d[6] == 0);
    }
    assert(spec_parse_ext_v4(d) == spec_ext_v4_crc(d, p1, flags, h1));
    let p2: int = if c { p1 + 6 } else { p1 };
    let h2 = ExtendedHeader { crc32: h.crc32, ..h1 };
    if let Some(crc) = h.crc32 {
        assert(d[p1] == 5);
        let g = d.subrange(p1 + 1, p1 + 6);
        assert(g =~= seq![group7(crc, 4), group7(crc, 3), group7(crc, 2), group7(crc, 1), group7(crc, 0)]);
        let (g0, g1, g2, g3, g4) = (g[0], g[1], g[2], g[3], g[4]);
        assert((((g0 & 7) as u32) << 28) | ((g1 as u32) << 21) | ((g2 as u32) << 14) | ((g3 as u32) << 7) | (g4 as u32) == crc) by (bit_vector)
            requires
                crc < 0x8000_0000,
                g0 == ((crc >> 28) & 0x7f) as u8,
                g1 == ((crc >> 21) & 0x7f) as u8,
                g2 == ((crc >> 14) & 0x7f) as u8,
                g3 == ((crc >> 7) & 0x7f) as u8,
                g4 == ((crc >> 0) & 0x7f) as u8,
        ;
    }
    assert(spec_ext_v4_crc(d, p1, flags, h1) == spec_ext_v4_restrictions(d, p2, flags, h2));
    if let Some(r) = h.restrictions {
        assert(d[p2] == 1);
        assert(d[p2 + 1] == spec_restriction_bits(r));
        lemma_restrictions_roundtrip(r);
    }
    assert(h == ExtendedHeader { restrictions: h.restrictions, ..h2 });
}

/// A rendered ID3v2.3 extended header parses back to the same header and takes up all of its
/// bytes, whatever follows it, when it has a padding size and none of the fields that only
/// ID3v2.4 writes.
pub proof fn lemma_ext_v3_roundtrip(h: ExtendedHeader, rest: Seq<u8>)
    requires
        h.padding_size is Some,
        !h.is_update,
        h.restrictions is None,
    ensures
        spec_parse_ext_v3(spec_render_ext_v3(h) + rest) == Ok::<(ExtendedHeader, nat), ParseError>((h, spec_render_ext_v3(h).len())),
{
    let enc = spec_render_ext_v3(h);
    let d = enc + rest;
    let padding = h.padding_size->0;
    lemma_be_bytes_value(padding as nat, 4);
    crate::io::lemma_pow256_values();
    reveal_with_fuel(be_value, 5);
    assert(d.subrange(6, 10) =~= be_bytes(padding as nat, 4));
    assert(be_value(d.subrange(6, 10)) as u32 == padding);
    match h.crc32 {
        Some(crc) => {
            lemma_be_bytes_value(crc as nat, 4);
            assert(d.take(4) =~= seq![0u8, 0u8, 0u8, 10u8]);
            assert(be_value(d.take(4)) == 10);
            assert(d.subrange(4, 6) =~= seq![0x80u8, 0u8]);
            assert(d.subrange(10, 14) =~= be_bytes(crc as nat, 4));
            assert(be_value(seq![0x80u8, 0u8]) == 0x8000);
            assert(0x8000u16 & 0x8000 != 0) by (bit_vector);
            assert(be_value(d.subrange(10, 14)) as u32 == crc);
            let r = ExtendedHeader { padding_size: Some(padding), crc32: Some(crc), is_update: false, restrictions: None };
            assert(r == h);
            assert(spec_parse_ext_v3(d) == Ok::<(ExtendedHeader, nat), ParseError>((r, 14)));
        },
        None => {
            assert(d.take(4) =~= seq![0u8, 0u8, 0u8, 6u8]);
            assert(be_value(d.take(4)) == 6);
            assert(d.subrange(4, 6) =~= seq![0u8, 0u8]);
            assert(be_value(seq![0u8, 0u8]) == 0);
            assert(0u16 & 0x8000 == 0) by (bit_vector);
            let r = ExtendedHeader { padding_size: Some(padding), crc32: None, is_update: false, restrictions: None };
            assert(r == h);
            assert(spec_parse_ext_v3(d) == Ok::<(ExtendedHeader, nat), ParseError>((r, 10)));
        },
    }
}

} // verus!
