//! Raw ID3v2 headers: the tag header, the extended header and frame headers, read from
//! byte slices as they are, with their flags spelled out.
use crate::err::{ParseError, ParseResult};
use crate::id3v2::frames::{ascii_chars, ascii_str};
use crate::id3v2::syncdata;
use crate::io::be_value;
use crate::raw;
use vstd::prelude::*;
use vstd::string::StringExecFns;
use vstd::utf8::encode_utf8;

verus! {

/// Whether a byte is accepted in a raw frame ID: an uppercase ASCII letter from `A` to `Z` or
/// a digit from `0` to `9`.
pub open spec fn is_raw_id_byte(b: u8) -> bool {
    (0x41 <= b <= 0x5A) || (0x30 <= b <= 0x39)
}

/// Whether every byte of `s` is accepted in a raw frame ID.
pub open spec fn raw_frame_id(s: Seq<u8>) -> bool {
    forall|i: int| 0 <= i < s.len() ==> is_raw_id_byte(#[trigger] s[i])
}

fn is_frame_id(frame_id: &[u8]) -> (r: bool)
    ensures
        r == raw_frame_id(frame_id@),
{
    let mut i: usize = 0;
    while i < frame_id.len()
        invariant
            i <= frame_id@.len(),
            forall|j: int| 0 <= j < i ==> is_raw_id_byte(#[trigger] frame_id@[j]),
        decreases frame_id@.len() - i,
    {
        let ch = frame_id[i];
        if !((0x41 <= ch && ch <= 0x5A) || (0x30 <= ch && ch <= 0x39)) {
            return false;
        }
        i = i + 1;
    }
    true
}

/// The value of the bit at `pos` of `byte`.
pub open spec fn bit(byte: u8, pos: u8) -> bool {
    (byte >> pos) & 1 == 1
}

// ---- TagHeader ----

/// The flags of a tag header.
#[derive(Debug, Clone, Copy, PartialEq, Eq, Structural)]
pub struct TagFlags {
    /// Whether the tag is unsynchronized.
    pub unsync: bool,
    /// Whether the tag has an extended header.
    pub extended: bool,
    /// Whether the tag is experimental.
    pub experimental: bool,
    /// Whether the tag has a footer.
    pub footer: bool,
}

/// The flags in a flag byte.
pub open spec fn spec_tag_flags(flags: u8) -> TagFlags {
    TagFlags {
        unsync: bit(flags, 7),
        extended: bit(flags, 6),
        experimental: bit(flags, 5),
        footer: bit(flags, 4),
    }
}

impl TagFlags {
    fn parse(flags: u8) -> (r: Self)
        ensures
            r == spec_tag_flags(flags),
    {
        TagFlags {
            unsync: raw::bit_at(7, flags),
            extended: raw::bit_at(6, flags),
            experimental: raw::bit_at(5, flags),
            footer: raw::bit_at(4, flags),
        }
    }
}

impl Default for TagFlags {
    fn default() -> (r: Self)
        ensures
            r == (TagFlags { unsync: false, extended: false, experimental: false, footer: false }),
    {
        TagFlags { unsync: false, extended: false, experimental: false, footer: false }
    }
}

/// The header of a tag: its version, size and flags.
pub struct TagHeader {
    major: u8,
    minor: u8,
    tag_size: usize,
    flags: TagFlags,
}

/// The error of reading a tag header from `data`, or `None` when it is a valid header.
pub open spec fn tag_header_error(data: Seq<u8>) -> Option<ParseError> {
    let major = data[3];
    let minor = data[4];
    let flags = data[5];
    let size = syncdata::spec_to_u28(data.subrange(6, 10));
    if data.take(3) != seq![0x49u8, 0x44u8, 0x33u8] {
        // The header must start with "ID3".
        Some(ParseError::InvalidData)
    } else if major == 0xFF || minor == 0xFF {
        Some(ParseError::InvalidData)
    } else if !(2 <= major < 5) {
        Some(ParseError::Unsupported)
    } else if (major == 4 && flags & 0x0F != 0) || (major == 3 && flags & 0x1F != 0) {
        Some(ParseError::InvalidData)
    } else if size == 0 || size > 256_000_000 {
        // Tags must be at least 1 byte and never more than 256MB.
        Some(ParseError::InvalidData)
    } else {
        None
    }
}

impl TagHeader {
    /// The major version of this header.
    pub closed spec fn spec_major(&self) -> u8 {
        self.major
    }

    /// The minor version of this header.
    pub closed spec fn spec_minor(&self) -> u8 {
        self.minor
    }

    /// The size of the tag.
    pub closed spec fn spec_size(&self) -> usize {
        self.tag_size
    }

    /// The flags of this header.
    pub closed spec fn spec_flags(&self) -> TagFlags {
        self.flags
    }

    /// Reads a tag header from the first ten bytes of `data`.
    ///
    /// # Errors
    /// If the data does not start with `ID3`, has an invalid version, flag or size, or a
    /// version other than ID3v2.2 to ID3v2.4, an error is returned.
    pub fn parse(data: &[u8]) -> (r: ParseResult<Self>)
        requires
            data@.len() >= 10,
        ensures
            match r {
                Ok(h) => {
                    &&& tag_header_error(data@) is None
                    &&& h.spec_major() == data@[3] && h.spec_minor() == data@[4]
                    &&& h.spec_flags() == spec_tag_flags(data@[5])
                    &&& h.spec_size() as nat == syncdata::spec_to_u28(data@.subrange(6, 10)) as nat
                },
                Err(e) => tag_header_error(data@) == Some(e),
            },
    {
        // Verify that this header has a valid ID3 identifier.
        if !(data[0] == 0x49 && data[1] == 0x44 && data[2] == 0x33) {
            proof {
                if data@.take(3) == seq![0x49u8, 0x44u8, 0x33u8] {
                    assert(data@.take(3)[0] == data@[0]);
                    assert(data@.take(3)[1] == data@[1]);
                    assert(data@.take(3)[2] == data@[2]);
                }
            }
            return Err(ParseError::InvalidData);
        }
        proof {
            assert(data@.take(3) =~= seq![0x49u8, 0x44u8, 0x33u8]);
        }
        let major = data[3];
        let minor = data[4];
        if major == 0xFF || minor == 0xFF {
            // Versions cannot be 0xFF.
            return Err(ParseError::InvalidData);
        }
        if !(2 <= major && major < 5) {
            // Versions must be 2.2, 2.3, or 2.4.
            return Err(ParseError::Unsupported);
        }
        // Check for invalid flags.
        let flags = data[5];
        if (major == 4 && flags & 0x0F != 0) || (major == 3 && flags & 0x1F != 0) {
            return Err(ParseError::InvalidData);
        }
        let flags = TagFlags::parse(data[5]);
        let size_bytes: [u8; 4] = [data[6], data[7], data[8], data[9]];
        proof {
            assert(size_bytes@ =~= data@.subrange(6, 10));
        }
        let tag_size = syncdata::to_u28(size_bytes) as usize;
        if tag_size == 0 || tag_size > 256_000_000 {
            return Err(ParseError::InvalidData);
        }
        Ok(TagHeader { major, minor, tag_size, flags })
    }

    /// Returns the major version of this header.
    pub fn major(&self) -> (r: u8)
        ensures
            r == self.spec_major(),
    {
        self.major
    }

    /// Returns the minor version of this header.
    pub fn minor(&self) -> (r: u8)
        ensures
            r == self.spec_minor(),
    {
        self.minor
    }

    /// Returns the size of the tag.
    pub fn size(&self) -> (r: usize)
        ensures
            r == self.spec_size(),
    {
        self.tag_size
    }

    /// Returns the flags of this header.
    pub fn flags(&self) -> (r: &TagFlags)
        ensures
            *r == self.spec_flags(),
    {
        &self.flags
    }

    /// Replaces the flags of this header.
    pub(crate) fn set_flags(&mut self, flags: TagFlags)
        ensures
            final(self).spec_flags() == flags,
            final(self).spec_major() == old(self).spec_major(),
            final(self).spec_minor() == old(self).spec_minor(),
            final(self).spec_size() == old(self).spec_size(),
    {
        self.flags = flags;
    }
}

// ---- ExtendedHeader ----

/// An extended header: its size and its data.
pub struct ExtendedHeader {
    size: usize,
    data: Vec<u8>,
}

/// The size field of an ID3v2.3 extended header.
pub open spec fn ext_v3_size(data: Seq<u8>) -> nat {
    be_value(data.take(4))
}

/// The size field of an ID3v2.4 extended header.
pub open spec fn ext_v4_size(data: Seq<u8>) -> nat {
    syncdata::spec_to_u28(data.take(4)) as nat
}

/// Whether one of the size bytes of an ID3v2.4 extended header is an uppercase ASCII letter,
/// which would mean that the extended header flag was set by mistake and that a frame starts
/// here.
pub open spec fn ext_v4_has_letter(data: Seq<u8>) -> bool {
    exists|i: int| 0 <= i < 4 && 0x41 <= #[trigger] data[i] <= 0x5A
}

/// Whether reading an extended header of `major` from `data` stays inside `data`.
pub open spec fn ext_in_bounds(major: u8, data: Seq<u8>) -> bool {
    &&& (major == 3 || major == 4) ==> data.len() >= 4
    &&& major == 3 && (ext_v3_size(data) == 6 || ext_v3_size(data) == 10) ==> data.len()
        >= ext_v3_size(data) + 4
    &&& major == 4 && !ext_v4_has_letter(data) && !(ext_v4_size(data) < 6 && ext_v4_size(data)
        + 4 > data.len()) ==> 4 <= ext_v4_size(data) <= data.len()
}

/// The error of reading an extended header of `major` from `data`, or `None`.
pub open spec fn ext_error(major: u8, data: Seq<u8>) -> Option<ParseError> {
    if major == 3 {
        if ext_v3_size(data) != 6 && ext_v3_size(data) != 10 {
            Some(ParseError::InvalidData)
        } else {
            None
        }
    } else if major == 4 {
        if ext_v4_has_letter(data) {
            Some(ParseError::InvalidData)
        } else if ext_v4_size(data) < 6 && ext_v4_size(data) + 4 > data.len() {
            Some(ParseError::InvalidData)
        } else {
            None
        }
    } else {
        Some(ParseError::Unsupported)
    }
}

impl ExtendedHeader {
    /// The size of this header.
    pub closed spec fn spec_size(&self) -> usize {
        self.size
    }

    /// The data of this header.
    pub closed spec fn spec_data(&self) -> Seq<u8> {
        self.data@
    }

    /// Reads an extended header of a tag of major version `major` from `data`.
    ///
    /// # Errors
    /// If the size is not valid for the version, or the version is not 3 or 4, an error is
    /// returned.
    pub fn parse(major: u8, data: &[u8]) -> (r: ParseResult<Self>)
        requires
            ext_in_bounds(major, data@),
        ensures
            match r {
                Ok(h) => ext_error(major, data@) is None && if major == 3 {
                    h.spec_size() as nat == ext_v3_size(data@) && h.spec_data() == data@.subrange(
                        4,
                        4 + ext_v3_size(data@) as int,
                    )
                } else {
                    h.spec_size() as nat == ext_v4_size(data@) && h.spec_data() == data@.subrange(
                        4,
                        ext_v4_size(data@) as int,
                    )
                },
                Err(e) => ext_error(major, data@) == Some(e),
            },
    {
        if major == 3 {
            read_ext_v3(data)
        } else if major == 4 {
            read_ext_v4(data)
        } else {
            Err(ParseError::Unsupported)
        }
    }

    /// Returns the size of this header.
    pub fn size(&self) -> (r: usize)
        ensures
            r == self.spec_size(),
    {
        self.size
    }

    /// Returns the data of this header.
    pub fn data(&self) -> (r: &Vec<u8>)
        ensures
            r@ == self.spec_data(),
    {
        &self.data
    }
}

fn read_ext_v3(data: &[u8]) -> (r: ParseResult<ExtendedHeader>)
    requires
        ext_in_bounds(3, data@),
    ensures
        match r {
            Ok(h) => ext_error(3, data@) is None && h.spec_size() as nat == ext_v3_size(data@)
                && h.spec_data() == data@.subrange(4, 4 + ext_v3_size(data@) as int),
            Err(e) => ext_error(3, data@) == Some(e),
        },
{
    let size = raw::to_size(&data[0..4]);
    proof {
        assert(data@.subrange(0, 4).take(4) =~= data@.take(4));
        crate::io::lemma_be_value_bound(data@.take(4));
        crate::io::lemma_pow256_values();
        assert(size as nat == ext_v3_size(data@));
    }
    // The extended header should be 6 or 10 bytes.
    if size != 6 && size != 10 {
        return Err(ParseError::InvalidData);
    }
    let data = vstd::slice::slice_to_vec(&data[4..size + 4]);
    Ok(ExtendedHeader { size, data })
}

fn read_ext_v4(data: &[u8]) -> (r: ParseResult<ExtendedHeader>)
    requires
        ext_in_bounds(4, data@),
    ensures
        match r {
            Ok(h) => ext_error(4, data@) is None && h.spec_size() as nat == ext_v4_size(data@)
                && h.spec_data() == data@.subrange(4, ext_v4_size(data@) as int),
            Err(e) => ext_error(4, data@) == Some(e),
        },
{
    // Certain taggers might have accidentally flipped the extended header flag, meaning that
    // frame data would start immediately. Uppercase ASCII letters would not abide by the
    // unsynchronization scheme and are present in every frame ID, so they mark that case.
    let mut i: usize = 0;
    while i < 4
        invariant
            i <= 4 <= data@.len(),
            forall|j: int| 0 <= j < i ==> !(0x41 <= #[trigger] data@[j] <= 0x5A),
        decreases 4 - i,
    {
        let byte = data[i];
        if 0x41 <= byte && byte <= 0x5A {
            return Err(ParseError::InvalidData);
        }
        i = i + 1;
    }
    let size_bytes: [u8; 4] = [data[0], data[1], data[2], data[3]];
    proof {
        assert(size_bytes@ =~= data@.take(4));
    }
    let size = syncdata::to_u28(size_bytes) as usize;
    // ID3v2.4 extended headers aren't as clear-cut size-wise, so this only checks if the
    // header abides by the spec.
    if size < 6 && (size as u64) + 4 > data.len() as u64 {
        return Err(ParseError::InvalidData);
    }
    let data = vstd::slice::slice_to_vec(&data[4..size]);
    Ok(ExtendedHeader { size, data })
}

// ---- FrameHeader ----

/// The flags of a frame header.
#[derive(Debug, Clone, Copy, PartialEq, Eq, Structural)]
pub struct FrameFlags {
    /// Whether the frame should be discarded when the tag is altered.
    pub tag_should_discard: bool,
    /// Whether the frame should be discarded when the file is altered.
    pub file_should_discard: bool,
    /// Whether the frame is read-only.
    pub read_only: bool,
    /// Whether the frame belongs to a group.
    pub has_group: bool,
    /// Whether the frame is compressed.
    pub compressed: bool,
    /// Whether the frame is encrypted.
    pub encrypted: bool,
    /// Whether the frame is unsynchronized.
    pub unsync: bool,
    /// Whether the frame has a data length indicator.
    pub has_data_len: bool,
}

impl Default for FrameFlags {
    fn default() -> (r: Self)
        ensures
            r == (FrameFlags {
                tag_should_discard: false,
                file_should_discard: false,
                read_only: false,
                has_group: false,
                compressed: false,
                encrypted: false,
                unsync: false,
                has_data_len: false,
            }),
    {
        FrameFlags {
            tag_should_discard: false,
            file_should_discard: false,
            read_only: false,
            has_group: false,
            compressed: false,
            encrypted: false,
            unsync: false,
            has_data_len: false,
        }
    }
}

/// The header of a frame: its ID, its size and its flags.
pub struct FrameHeader {
    frame_id: String,
    frame_size: usize,
    flags: FrameFlags,
}

/// The flags of an ID3v2.3 frame header.
pub open spec fn spec_flags_v3(stat: u8, format: u8) -> FrameFlags {
    FrameFlags {
        tag_should_discard: bit(stat, 7),
        file_should_discard: bit(stat, 6),
        read_only: bit(stat, 5),
        compressed: bit(format, 7),
        encrypted: bit(format, 6),
        has_group: bit(format, 5),
        unsync: false,
        has_data_len: false,
    }
}

/// The flags of an ID3v2.4 frame header.
pub open spec fn spec_flags_v4(stat: u8, format: u8) -> FrameFlags {
    FrameFlags {
        tag_should_discard: bit(stat, 6),
        file_should_discard: bit(stat, 5),
        read_only: bit(stat, 4),
        has_group: bit(format, 6),
        compressed: bit(format, 3),
        encrypted: bit(format, 2),
        unsync: bit(format, 1),
        has_data_len: bit(format, 0),
    }
}

/// The size of the ID3v2.4 frame header at the start of `data`.
///
/// ID3v2.4 sizes should be syncsafe, but iTunes wrote ID3v2.3 sizes for a time: when the
/// syncsafe size does not lead to a frame ID and the raw size does, the raw size is used.
/// Truncated data and padding keep the syncsafe size.
pub open spec fn spec_v4_frame_size(data: Seq<u8>) -> nat {
    let sync_size = syncdata::spec_to_u28(data.subrange(4, 8)) as nat;
    let start = sync_size + 10;
    if sync_size < 0x80 || data.len() < start + 4 || data[start as int] == 0 {
        sync_size
    } else if !raw_frame_id(data.subrange(start as int, start as int + 4)) {
        let raw_size = raw::spec_to_u32(data.subrange(4, 8)) as nat;
        if raw_frame_id(data.subrange(raw_size as int + 10, raw_size as int + 14)) {
            raw_size
        } else {
            sync_size
        }
    } else {
        sync_size
    }
}

/// Whether reading the ID3v2.4 frame header at the start of `data` stays inside `data`: the
/// iTunes size check reads the bytes after the raw size when the syncsafe size does not lead
/// to a frame ID.
pub open spec fn v4_frame_in_bounds(data: Seq<u8>) -> bool {
    let sync_size = syncdata::spec_to_u28(data.subrange(4, 8)) as nat;
    let start = sync_size + 10;
    let raw_size = raw::spec_to_u32(data.subrange(4, 8)) as nat;
    (sync_size >= 0x80 && data.len() >= start + 4 && data[start as int] != 0 && !raw_frame_id(
        data.subrange(start as int, start as int + 4),
    )) ==> data.len() >= raw_size + 14
}

/// The error of reading a frame header of `major` from `data`, or `None`.
pub open spec fn frame_header_error(major: u8, data: Seq<u8>) -> Option<ParseError> {
    if data.len() < 10 {
        Some(ParseError::NotEnoughData)
    } else if major != 3 && major != 4 {
        Some(ParseError::Unsupported)
    } else if !raw_frame_id(data.take(4)) {
        Some(ParseError::InvalidData)
    } else {
        None
    }
}

impl FrameHeader {
    /// The ID of this header.
    pub closed spec fn spec_id(&self) -> Seq<char> {
        self.frame_id@
    }

    /// The frame size of this header.
    pub closed spec fn spec_size(&self) -> usize {
        self.frame_size
    }

    /// The flags of this header.
    pub closed spec fn spec_flags(&self) -> FrameFlags {
        self.flags
    }

    /// Creates a header for `frame_id`, four uppercase ASCII letters or digits, with no flags
    /// and a zero size.
    pub fn new(frame_id: &str) -> (r: Self)
        requires
            encode_utf8(frame_id@).len() == 4,
            raw_frame_id(encode_utf8(frame_id@)),
        ensures
            r.spec_id() == frame_id@,
            r.spec_size() == 0,
            r.spec_flags() == FrameFlags::default_spec(),
    {
        Self::with_flags(frame_id, FrameFlags::default())
    }

    /// Creates a header for `frame_id`, four uppercase ASCII letters or digits, with `flags`
    /// and a zero size.
    pub fn with_flags(frame_id: &str, flags: FrameFlags) -> (r: Self)
        requires
            encode_utf8(frame_id@).len() == 4,
            raw_frame_id(encode_utf8(frame_id@)),
        ensures
            r.spec_id() == frame_id@,
            r.spec_size() == 0,
            r.spec_flags() == flags,
    {
        FrameHeader { frame_id: String::from_str(frame_id), frame_size: 0, flags }
    }

    /// Reads a frame header of a tag of major version `major` from the first ten bytes of
    /// `data`.
    ///
    /// # Errors
    /// If fewer than ten bytes are given, the version is not 3 or 4, or the ID is not valid,
    /// an error is returned.
    pub fn parse(major: u8, data: &[u8]) -> (r: ParseResult<Self>)
        requires
            major == 4 && data@.len() >= 10 ==> v4_frame_in_bounds(data@),
        ensures
            match r {
                Ok(h) => {
                    &&& frame_header_error(major, data@) is None
                    &&& h.spec_id() == ascii_chars(data@.take(4))
                    &&& if major == 3 {
                        &&& h.spec_size() as nat == raw::spec_to_u32(data@.subrange(4, 8)) as nat
                        &&& h.spec_flags() == spec_flags_v3(data@[8], data@[9])
                    } else {
                        &&& h.spec_size() as nat == spec_v4_frame_size(data@)
                        &&& h.spec_flags() == spec_flags_v4(data@[8], data@[9])
                    }
                },
                Err(e) => frame_header_error(major, data@) == Some(e),
            },
    {
        // Frame data must be at least 10 bytes to parse a header.
        if data.len() < 10 {
            return Err(ParseError::NotEnoughData);
        }
        // Frame header formats diverge across ID3v2 versions, so they are handled separately.
        if major == 3 {
            parse_frame_header_v3(data)
        } else if major == 4 {
            parse_frame_header_v4(data)
        } else {
            Err(ParseError::Unsupported)
        }
    }

    /// Returns the ID of this header.
    pub fn id(&self) -> (r: &String)
        ensures
            r@ == self.spec_id(),
    {
        &self.frame_id
    }

    /// Returns the frame size of this header.
    pub fn size(&self) -> (r: usize)
        ensures
            r == self.spec_size(),
    {
        self.frame_size
    }

    /// Returns the flags of this header.
    pub fn flags(&self) -> (r: &FrameFlags)
        ensures
            *r == self.spec_flags(),
    {
        &self.flags
    }

    /// Returns the flags of this header for modification.
    pub fn flags_mut(&mut self) -> (r: &mut FrameFlags)
        ensures
            *r == old(self).spec_flags(),
            final(self).spec_flags() == *final(r),
            final(self).spec_id() == old(self).spec_id(),
            final(self).spec_size() == old(self).spec_size(),
    {
        &mut self.flags
    }

    /// Sets the frame size of this header.
    pub(crate) fn set_size(&mut self, size: usize)
        ensures
            final(self).spec_size() == size,
            final(self).spec_id() == old(self).spec_id(),
            final(self).spec_flags() == old(self).spec_flags(),
    {
        self.frame_size = size;
    }
}

impl FrameFlags {
    /// The flags of a new frame: none.
    pub open spec fn default_spec() -> FrameFlags {
        FrameFlags {
            tag_should_discard: false,
            file_should_discard: false,
            read_only: false,
            has_group: false,
            compressed: false,
            encrypted: false,
            unsync: false,
            has_data_len: false,
        }
    }
}

/// Reads a frame ID made of raw ID bytes.
fn new_frame_id(frame_id: &[u8]) -> (r: ParseResult<String>)
    ensures
        match r {
            Ok(s) => raw_frame_id(frame_id@) && s@ == ascii_chars(frame_id@),
            Err(e) => !raw_frame_id(frame_id@) && e == ParseError::InvalidData,
        },
{
    if !is_frame_id(frame_id) {
        return Err(ParseError::InvalidData);
    }
    proof {
        assert forall|i: int| 0 <= i < frame_id@.len() implies frame_id@[i] < 0x80 by {
            assert(is_raw_id_byte(frame_id@[i]));
        }
    }
    Ok(String::from_str(ascii_str(frame_id)))
}

fn parse_frame_header_v3(data: &[u8]) -> (r: ParseResult<FrameHeader>)
    requires
        data@.len() >= 10,
    ensures
        match r {
            Ok(h) => {
                &&& raw_frame_id(data@.take(4))
                &&& h.spec_id() == ascii_chars(data@.take(4))
                &&& h.spec_size() as nat == raw::spec_to_u32(data@.subrange(4, 8)) as nat
                &&& h.spec_flags() == spec_flags_v3(data@[8], data@[9])
            },
            Err(e) => !raw_frame_id(data@.take(4)) && e == ParseError::InvalidData,
        },
{
    proof {
        assert(data@.subrange(0, 4) =~= data@.take(4));
    }
    let frame_id = match new_frame_id(&data[0..4]) {
        Ok(id) => id,
        Err(e) => return Err(e),
    };
    let frame_size = raw::to_size(&data[4..8]);
    let stat_flags = data[8];
    let format_flags = data[9];
    Ok(FrameHeader {
        frame_id,
        frame_size,
        flags: FrameFlags {
            tag_should_discard: raw::bit_at(7, stat_flags),
            file_should_discard: raw::bit_at(6, stat_flags),
            read_only: raw::bit_at(5, stat_flags),
            compressed: raw::bit_at(7, format_flags),
            encrypted: raw::bit_at(6, format_flags),
            has_group: raw::bit_at(5, format_flags),
            unsync: false,
            has_data_len: false,
        },
    })
}

fn parse_frame_header_v4(data: &[u8]) -> (r: ParseResult<FrameHeader>)
    requires
        data@.len() >= 10,
        v4_frame_in_bounds(data@),
    ensures
        match r {
            Ok(h) => {
                &&& raw_frame_id(data@.take(4))
                &&& h.spec_id() == ascii_chars(data@.take(4))
                &&& h.spec_size() as nat == spec_v4_frame_size(data@)
                &&& h.spec_flags() == spec_flags_v4(data@[8], data@[9])
            },
            Err(e) => !raw_frame_id(data@.take(4)) && e == ParseError::InvalidData,
        },
{
    proof {
        assert(data@.subrange(0, 4) =~= data@.take(4));
    }
    let frame_id = match new_frame_id(&data[0..4]) {
        Ok(id) => id,
        Err(e) => return Err(e),
    };
    let size_bytes: [u8; 4] = [data[4], data[5], data[6], data[7]];
    proof {
        assert(size_bytes@ =~= data@.subrange(4, 8));
    }
    let mut frame_size = syncdata::to_u28(size_bytes) as usize;
    if frame_size >= 0x80 {
        frame_size = handle_itunes_v4_size(frame_size, data);
    }
    let stat_flags = data[8];
    let format_flags = data[9];
    Ok(FrameHeader {
        frame_id,
        frame_size,
        flags: FrameFlags {
            tag_should_discard: raw::bit_at(6, stat_flags),
            file_should_discard: raw::bit_at(5, stat_flags),
            read_only: raw::bit_at(4, stat_flags),
            has_group: raw::bit_at(6, format_flags),
            compressed: raw::bit_at(3, format_flags),
            encrypted: raw::bit_at(2, format_flags),
            unsync: raw::bit_at(1, format_flags),
            has_data_len: raw::bit_at(0, format_flags),
        },
    })
}

/// Corrects a non-syncsafe ID3v2.4 frame size, as iTunes wrote for a time.
fn handle_itunes_v4_size(sync_size: usize, data: &[u8]) -> (r: usize)
    requires
        data@.len() >= 10,
        v4_frame_in_bounds(data@),
        sync_size as nat == syncdata::spec_to_u28(data@.subrange(4, 8)) as nat,
        sync_size >= 0x80,
    ensures
        r as nat == spec_v4_frame_size(data@),
{
    let len = data.len();
    // Ignore truncated data and padding.
    if (len as u64) < sync_size as u64 + 14 || data[sync_size + 10] == 0 {
        return sync_size;
    }
    let start = sync_size + 10;
    if !is_frame_id(&data[start..start + 4]) {
        // If the raw size leads to the next frame where the syncsafe size does not, the raw
        // size is used instead.
        let raw_size = raw::to_size(&data[4..8]);
        if is_frame_id(&data[raw_size + 10..raw_size + 14]) {
            return raw_size;
        }
    }
    sync_size
}

} // verus!
