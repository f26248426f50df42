//! ID3v2 tag reading and writing.
//!
//! ID3v2 is the primary metadata format for MP3 files. A tag is made of a header with
//! the version, tag size and flags, an optional extended header, and a list of frames.

pub mod syncdata;
pub mod tag;
pub mod frames;
pub mod compat;
pub mod header;
pub mod collections;

use crate::id3v2::collections::{added, keys_sorted, renders_frames, FrameMap, UnknownFrames};
use crate::id3v2::compat::{v3_downgraded, v4_upgrade_cuts_cleanly, v4_upgraded};
use crate::id3v2::frames::{
    decoded_in, frame_bytes, frame_read, handed, lemma_frame_reads_back, readable, reads_as,
    spec_frame_header, valid_frame_id, AnyFrame, DecodedFrame, DefaultFrameParser, FrameParser,
    ParsedFrame, UnknownFrame,
};
use crate::id3v2::tag::{
    ext_stop, save_version_spec, spec_header_version, spec_parse_ext, spec_render_tag_header,
    spec_tag_flags, spec_tag_header_error, ExtendedHeader, SaveVersion, TagFlags, TagHeader,
    Version,
};
use crate::id3v2::frames::Frame;
use crate::io::{BufStream, StreamError};
use vstd::prelude::*;

verus! {

/// The error type returned when parsing ID3v2 tags.
#[derive(Debug, Clone, Copy, PartialEq, Eq, Structural)]
pub enum ParseError {
    /// An unexpected end of data was encountered while parsing.
    IoError(StreamError),
    /// A part of the tag was not valid.
    MalformedData,
    /// The tag or a element of the tag is unsupported.
    Unsupported,
    /// The tag was not found in the given data.
    NotFound,
}

/// The error of reading `k` bytes at position `p` of `d` when fewer are left: a single byte
/// read reports the end of the stream, a longer read reports an underread.
pub open spec fn read_error(d: Seq<u8>, p: int, k: nat) -> ParseError {
    if k == 1 {
        ParseError::IoError(StreamError::EndOfStream)
    } else {
        ParseError::IoError(
            StreamError::BufferUnderread { len: k as usize, remaining: (d.len() - p) as usize },
        )
    }
}

/// The result given after a parsing operation.
pub type ParseResult<T> = Result<T, ParseError>;

/// The error type returned when saving ID3v2 tags.
#[derive(Debug, Clone, Copy, PartialEq, Eq, Structural)]
pub enum SaveError {
    /// A problem occurred while writing the tag.
    IoError(StreamError),
    /// The tag [or an element in the tag] was too large to be written.
    TooLarge,
}

/// The result given after a save operation.
pub type SaveResult<T> = Result<T, SaveError>;

// ---- Tags ----

/// Whether collecting the parsed frame `r` turns the known frames `entries` and the unknown
/// frames `unknowns` into `entries2` and `unknowns2`: a parsed frame is added to the known
/// frames, an unknown frame is kept, and a dropped frame is left out.
pub open spec fn collects(
    entries: Seq<(Seq<char>, AnyFrame)>,
    unknowns: Seq<UnknownFrame>,
    r: ParsedFrame,
    entries2: Seq<(Seq<char>, AnyFrame)>,
    unknowns2: Seq<UnknownFrame>,
) -> bool {
    match r {
        ParsedFrame::Frame(f) => unknowns2 == unknowns && exists|k: Seq<char>|
            (!f.is_custom() ==> k == f.spec_key()) && #[trigger] added(entries, k, f, entries2),
        ParsedFrame::Unknown(u) => entries2 == entries && unknowns2 == unknowns.push(u),
        ParsedFrame::Dropped => entries2 == entries && unknowns2 == unknowns,
    }
}

/// Whether `maps` and `lists` are the known and unknown frames before and after collecting
/// each of the parsed frames `results` in their order, starting from none.
pub open spec fn assembled(results: Seq<ParsedFrame>, maps: Seq<Seq<(Seq<char>, AnyFrame)>>, lists: Seq<Seq<UnknownFrame>>) -> bool {
    &&& maps.len() == results.len() + 1
    &&& lists.len() == results.len() + 1
    &&& maps[0].len() == 0
    &&& lists[0].len() == 0
    &&& forall|i: int|
        0 <= i < results.len() ==> collects(maps[i], lists[i], #[trigger] results[i], maps[i + 1], lists[i + 1])
}

/// The body of a tag read from `data` with the header `raw`: the data itself, or the data with
/// its unsynchronization undone for unsynchronized ID3v2.2 and ID3v2.3 tags.
pub open spec fn tag_body(raw: Seq<u8>, data: Seq<u8>) -> Seq<u8> {
    let version = spec_header_version(raw[3], raw[4])->0;
    if version != Version::V24 && spec_tag_flags(raw[5]).unsync {
        crate::id3v2::syncdata::spec_unsync(0, data)
    } else {
        data
    }
}

/// The extended header read from the body of a tag with the header `raw`, if its flags say it
/// has one and it can be read.
pub open spec fn tag_extended_header(raw: Seq<u8>, data: Seq<u8>) -> Option<ExtendedHeader> {
    let version = spec_header_version(raw[3], raw[4])->0;
    if spec_tag_flags(raw[5]).extended {
        match spec_parse_ext(tag_body(raw, data), version) {
            Ok((h, _)) => Some(h),
            Err(_) => None,
        }
    } else {
        None
    }
}

/// The bytes of an unknown frame rendered in a tag of `version`.
pub open spec fn unknown_frame_bytes(version: Version, u: UnknownFrame) -> Seq<u8> {
    if u.spec_id().len() < 4 {
        Seq::empty()
    } else {
        spec_frame_header(
            version,
            u.spec_id(),
            if version == Version::V24 {
                u.spec_flags() & 0xFFFD
            } else {
                u.spec_flags()
            },
            u.spec_data().len(),
        )->Some_0 + u.spec_data()
    }
}

/// The bytes of unknown frames rendered in a tag of `version`, one after another.
pub open spec fn unknown_bytes(version: Version, frames: Seq<UnknownFrame>) -> Seq<u8>
    decreases frames.len(),
{
    if frames.len() == 0 {
        Seq::empty()
    } else {
        unknown_bytes(version, frames.drop_last()) + unknown_frame_bytes(version, frames.last())
    }
}

/// Whether an unknown frame fits a frame header of `version`, which rendering it requires.
pub open spec fn unknown_fits(version: Version, u: UnknownFrame) -> bool {
    u.spec_id().len() == 4 ==> spec_frame_header(version, u.spec_id(), u.spec_flags(), u.spec_data().len()) is Some
}

/// The bytes of the extended header `e` in a tag of `version`.
pub open spec fn ext_bytes_of(e: ExtendedHeader, version: Version) -> Seq<u8> {
    if version == Version::V24 {
        crate::id3v2::tag::spec_render_ext_v4(e)
    } else {
        crate::id3v2::tag::spec_render_ext_v3(e)
    }
}

/// The version a tag of `version` is saved as: ID3v2.2 tags are saved as ID3v2.3 tags.
pub open spec fn saved_as(version: Version) -> SaveVersion {
    if version == Version::V24 {
        SaveVersion::V24
    } else {
        SaveVersion::V23
    }
}

/// The padding written after a tag body of `size` bytes: where a previous tag of `old_size`
/// bytes was larger, what it leaves but at most a hundredth of the file's `file_len` bytes,
/// and 1024 bytes otherwise.
pub open spec fn padding(old_size: u64, file_len: u64, size: nat) -> nat {
    if old_size >= size {
        let left = (old_size - size) as nat;
        let most = (file_len / 100) as nat;
        if left < most {
            left
        } else {
            most
        }
    } else {
        1024
    }
}

/// Whether `tag` is what reading a tag with the header `raw` from `data` with `parser` gives:
/// the header's version, size and flags, where the extended header flag is cleared if no
/// extended header can be read; the extended header; and the known and unknown frames
/// collected from the frames read one after another from the start of the frames, until a
/// frame cannot be read.
pub open spec fn tag_parsed<P: FrameParser>(raw: Seq<u8>, data: Seq<u8>, parser: P, tag: Tag) -> bool {
    let version = spec_header_version(raw[3], raw[4])->0;
    let flags = spec_tag_flags(raw[5]);
    let ext = tag_extended_header(raw, data);
    &&& tag.spec_header().version() == version
    &&& tag.spec_header().size() == crate::id3v2::syncdata::spec_to_u28(raw.subrange(6, 10))
    &&& tag.spec_header().flags() == TagFlags { extended: flags.extended && ext is Some, ..flags }
    &&& tag.spec_extended_header() == ext
    &&& tag.spec_unknown_frames().spec_version() == version
    &&& exists|results: Seq<ParsedFrame>, maps: Seq<Seq<(Seq<char>, AnyFrame)>>, lists: Seq<Seq<UnknownFrame>>|
        {
            &&& #[trigger] assembled(results, maps, lists)
            &&& maps.last() == tag.spec_frames().spec_entries()
            &&& lists.last() == tag.spec_unknown_frames().spec_frames()
            &&& exists|start: Seq<u8>|
                #[trigger] frames_start(raw, data, start) && frames_read(tag.spec_header(), parser, start, results)
        }
}

/// Whether the frames of a tag with the header `raw` and the data `data` are read from
/// `start`: the body after the extended header where there is one, or after the part of it
/// that was read where it cannot be read.
pub open spec fn frames_start(raw: Seq<u8>, data: Seq<u8>, start: Seq<u8>) -> bool {
    let version = spec_header_version(raw[3], raw[4])->0;
    let body = tag_body(raw, data);
    if spec_tag_flags(raw[5]).extended {
        match spec_parse_ext(body, version) {
            Ok((_, n)) => start == body.skip(n as int),
            Err(_) => start == body.skip(ext_stop(body, version) as int),
        }
    } else {
        start == body
    }
}

/// Whether `results` are the frames read one after another from `cuts[0]` with `parser` in a
/// tag with the header `header`, each from the data left by the one before.
pub open spec fn read_through<P: FrameParser>(header: TagHeader, parser: P, cuts: Seq<Seq<u8>>, results: Seq<ParsedFrame>) -> bool {
    &&& cuts.len() == results.len() + 1
    &&& forall|i: int|
        0 <= i < results.len() ==> frame_read(header, parser, cuts[i], Ok::<ParsedFrame, ParseError>(#[trigger] results[i]), cuts[i + 1])
}

/// Whether `results` are the frames read with `parser` in a tag with the header `header` from
/// `start`, one after another, until reading a frame failed.
pub open spec fn frames_read<P: FrameParser>(header: TagHeader, parser: P, start: Seq<u8>, results: Seq<ParsedFrame>) -> bool {
    exists|cuts: Seq<Seq<u8>>|
        {
            &&& #[trigger] read_through(header, parser, cuts, results)
            &&& cuts[0] == start
            &&& exists|e: ParseError, rest: Seq<u8>|
                frame_read(header, parser, cuts.last(), Err::<ParsedFrame, ParseError>(e), rest)
        }
}

/// The bytes of the frames `fs` written one after another to a tag of `version`.
pub open spec fn frames_bytes(fs: Seq<AnyFrame>, version: Version) -> Seq<u8>
    decreases fs.len(),
{
    if fs.len() == 0 {
        Seq::empty()
    } else {
        frame_bytes(fs[0], version) + frames_bytes(fs.drop_first(), version)
    }
}

/// `n` zero bytes, as padding.
pub open spec fn zeros(n: nat) -> Seq<u8> {
    Seq::new(n, |i: int| 0u8)
}

/// Whether each frame of `fs` can be written to a tag of `version` and read back.
pub open spec fn all_readable(fs: Seq<AnyFrame>, version: Version) -> bool {
    forall|i: int|
        0 <= i < fs.len() ==> readable(#[trigger] fs[i], version) && spec_frame_header(
            version,
            fs[i].spec_id(),
            0,
            fs[i].spec_render(version).len(),
        ) is Some
}

/// Whether the parsed frame `r` is `f` read back from a tag of `version`, with the key of `f`.
pub open spec fn read_back(f: AnyFrame, r: ParsedFrame, version: Version) -> bool {
    r matches ParsedFrame::Frame(g) && reads_as(f, g, version) && g.spec_key() == f.spec_key()
}

/// Padding read as a frame gives a dropped frame in an ID3v2.3 tag where at least ten bytes
/// of it are left, leaving the rest of it, and fails otherwise.
proof fn lemma_padding_read(header: TagHeader, padding: nat, r: ParseResult<ParsedFrame>, after: Seq<u8>)
    requires
        header.version() == Version::V23 || header.version() == Version::V24,
        header.version() == Version::V24 ==> !header.flags().unsync,
        frame_read(header, DefaultFrameParser { strict: true }, zeros(padding), r, after),
    ensures
        r is Ok ==> header.version() == Version::V23 && padding >= 10 && r == Ok::<ParsedFrame, ParseError>(
            ParsedFrame::Dropped,
        ) && after == zeros((padding - 10) as nat),
{
    let d = zeros(padding);
    let dr = choose|dr: ParseResult<DecodedFrame>|
        {
            &&& #[trigger] decoded_in(header, d, dr, after)
            &&& match dr {
                Err(e) => r == Err::<ParsedFrame, ParseError>(e),
                Ok(dec) => handed(header, DefaultFrameParser { strict: true }, dec, r),
            }
        };
    if padding >= 4 {
        assert(!valid_frame_id(d.take(4))) by {
            assert(d.take(4)[0] == 0);
        }
    }
    if padding >= 10 {
        assert(d.subrange(4, 8) =~= seq![0u8, 0u8, 0u8, 0u8]);
        assert(crate::io::be_value(seq![0u8, 0u8, 0u8, 0u8]) == 0) by {
            reveal_with_fuel(crate::io::be_value, 5);
        }
        assert(d.skip(10) =~= zeros((padding - 10) as nat));
    }
}

/// The reads after the frames, from the padding, give dropped frames, ten bytes of padding
/// each.
proof fn lemma_read_padding(
    header: TagHeader,
    results: Seq<ParsedFrame>,
    cuts: Seq<Seq<u8>>,
    n: int,
    padding: nat,
    j: int,
)
    requires
        header.version() == Version::V23 || header.version() == Version::V24,
        header.version() == Version::V24 ==> !header.flags().unsync,
        read_through(header, DefaultFrameParser { strict: true }, cuts, results),
        0 <= n <= j <= results.len(),
        cuts[n] == zeros(padding),
    ensures
        10 * (j - n) <= padding,
        cuts[j] == zeros((padding - 10 * (j - n)) as nat),
        forall|k: int| n <= k < j ==> #[trigger] results[k] == ParsedFrame::Dropped,
    decreases j - n,
{
    if j > n {
        lemma_read_padding(header, results, cuts, n, padding, j - 1);
        let left = (padding - 10 * (j - 1 - n)) as nat;
        assert(frame_read(
            header,
            DefaultFrameParser { strict: true },
            cuts[j - 1],
            Ok::<ParsedFrame, ParseError>(results[j - 1]),
            cuts[j],
        ));
        lemma_padding_read(header, left, Ok(results[j - 1]), cuts[j]);
    }
}

/// Frames that can be read back, written one after another to an ID3v2.3 or ID3v2.4 tag and
/// followed by padding, are read back by [`parse`](frames::parse) with the strict default
/// parser in their order, each as the frame it was written from with the same key; the
/// padding gives no frame.
pub proof fn lemma_frames_read_back(header: TagHeader, fs: Seq<AnyFrame>, padding: nat, results: Seq<ParsedFrame>)
    requires
        header.version() == Version::V23 || header.version() == Version::V24,
        header.version() == Version::V24 ==> !header.flags().unsync,
        all_readable(fs, header.version()),
        frames_read(
            header,
            DefaultFrameParser { strict: true },
            frames_bytes(fs, header.version()) + zeros(padding),
            results,
        ),
    ensures
        results.len() >= fs.len(),
        forall|j: int| 0 <= j < fs.len() ==> read_back(fs[j], #[trigger] results[j], header.version()),
        forall|j: int| fs.len() <= j < results.len() ==> #[trigger] results[j] == ParsedFrame::Dropped,
{
    let v = header.version();
    let parser = DefaultFrameParser { strict: true };
    let start = frames_bytes(fs, v) + zeros(padding);
    let cuts = choose|cuts: Seq<Seq<u8>>|
        {
            &&& #[trigger] read_through(header, parser, cuts, results)
            &&& cuts[0] == start
            &&& exists|e: ParseError, rest: Seq<u8>|
                frame_read(header, parser, cuts.last(), Err::<ParsedFrame, ParseError>(e), rest)
        };
    let n = fs.len() as int;
    if results.len() < n {
        let m = results.len() as int;
        lemma_read_prefix(header, fs, padding, results, cuts, m);
        let (e, rest) = choose|e: ParseError, rest: Seq<u8>|
            frame_read(header, parser, cuts.last(), Err::<ParsedFrame, ParseError>(e), rest);
        let f = fs[m];
        let tail = fs.skip(m + 1);
        assert(fs.skip(m).drop_first() =~= tail);
        assert(fs.skip(m)[0] == f);
        let after = frames_bytes(tail, v) + zeros(padding);
        assert(cuts[m] =~= frame_bytes(f, v) + after);
        if tail.len() > 0 {
            assert(tail[0] == fs[m + 1]);
            lemma_frame_bytes_start(tail[0], v);
            assert(after.take(4) =~= frame_bytes(tail[0], v).take(4));
        } else {
            assert(after =~= zeros(padding));
        }
        lemma_frame_reads_back(header, f, after, Err(e), rest);
    } else {
        lemma_read_prefix(header, fs, padding, results, cuts, n);
        assert(fs.skip(n) =~= Seq::<AnyFrame>::empty());
        assert(cuts[n] =~= zeros(padding));
        lemma_read_padding(header, results, cuts, n, padding, results.len() as int);
    }
}

/// The bytes of a frame that can be read back start with its ID, which is a valid frame ID.
proof fn lemma_frame_bytes_start(f: AnyFrame, version: Version)
    requires
        version == Version::V23 || version == Version::V24,
        readable(f, version),
        spec_frame_header(version, f.spec_id(), 0, f.spec_render(version).len()) is Some,
    ensures
        frame_bytes(f, version).len() >= 10,
        frame_bytes(f, version).take(4) == f.spec_id(),
        valid_frame_id(f.spec_id()),
{
    let id = f.spec_id();
    let body = f.spec_render(version);
    match f {
        AnyFrame::Text(t) => {
            t.spec_frame_id().lemma_id_len();
        },
        AnyFrame::UserText(_) => {
            assert(valid_frame_id(id)) by {
                assert(id == seq![0x54u8, 0x58u8, 0x58u8, 0x58u8]);
            }
        },
        AnyFrame::Comments(_) => {
            assert(valid_frame_id(id)) by {
                assert(id == seq![0x43u8, 0x4Fu8, 0x4Du8, 0x4Du8]);
            }
        },
        AnyFrame::UserUrl(_) => {
            assert(valid_frame_id(id)) by {
                assert(id == seq![0x57u8, 0x58u8, 0x58u8, 0x58u8]);
            }
        },
        _ => {},
    }
    if version == Version::V24 {
        crate::io::lemma_be_bytes_value(0, 4);
        assert(frame_bytes(f, version).take(4) =~= id);
    } else {
        crate::io::lemma_be_bytes_value(body.len(), 4);
        assert(frame_bytes(f, version).take(4) =~= id);
    }
}

/// Frames written one after another, then padding, are read back in their order: the reads
/// of the first `i` frames give frames read back as they were written, and leave the frames
/// after them and the padding.
#[verifier::rlimit(40)]
proof fn lemma_read_prefix(
    header: TagHeader,
    fs: Seq<AnyFrame>,
    padding: nat,
    results: Seq<ParsedFrame>,
    cuts: Seq<Seq<u8>>,
    i: int,
)
    requires
        header.version() == Version::V23 || header.version() == Version::V24,
        header.version() == Version::V24 ==> !header.flags().unsync,
        all_readable(fs, header.version()),
        read_through(header, DefaultFrameParser { strict: true }, cuts, results),
        cuts[0] == frames_bytes(fs, header.version()) + zeros(padding),
        0 <= i <= fs.len(),
        i <= results.len(),
    ensures
        cuts[i] == frames_bytes(fs.skip(i), header.version()) + zeros(padding),
        forall|j: int| 0 <= j < i ==> read_back(fs[j], #[trigger] results[j], header.version()),
    decreases i,
{
    let v = header.version();
    if i == 0 {
        assert(fs.skip(0) =~= fs);
    } else {
        lemma_read_prefix(header, fs, padding, results, cuts, i - 1);
        let f = fs[i - 1];
        let tail = fs.skip(i);
        assert(fs.skip(i - 1).drop_first() =~= tail);
        assert(fs.skip(i - 1)[0] == f);
        let rest = frames_bytes(tail, v) + zeros(padding);
        assert(cuts[i - 1] =~= frame_bytes(f, v) + rest);
        assert(readable(f, v));
        if tail.len() > 0 {
            assert(readable(tail[0], v)) by {
                assert(tail[0] == fs[i]);
            }
            assert(tail[0] == fs[i]);
            lemma_frame_bytes_start(tail[0], v);
            assert(rest.take(4) =~= frame_bytes(tail[0], v).take(4));
        } else {
            assert(rest =~= zeros(padding));
        }
        assert(frame_read(
            header,
            DefaultFrameParser { strict: true },
            cuts[i - 1],
            Ok::<ParsedFrame, ParseError>(results[i - 1]),
            cuts[i],
        ));
        lemma_frame_reads_back(header, f, rest, Ok(results[i - 1]), cuts[i]);
    }
}


/// Whether `r` is what rendering the updated tag `tag` gives, with `frame_bytes` as its
/// rendered known frames, for a file whose previous tag took `old_size` bytes after its header
/// and whose length is `file_len` bytes.
pub open spec fn saved(tag: Tag, old_size: u64, file_len: u64, frame_bytes: Seq<u8>, r: SaveResult<Vec<u8>>) -> bool {
    let v = tag.spec_header().version();
    let ext_bytes = match tag.spec_extended_header() {
        Some(e) => ext_bytes_of(e, v),
        None => Seq::<u8>::empty(),
    };
    let unknowns = tag.spec_unknown_frames();
    let unknown = if unknowns.spec_version() == v {
        unknown_bytes(v, unknowns.spec_frames())
    } else {
        Seq::<u8>::empty()
    };
    let body = ext_bytes + frame_bytes + unknown;
    let size = body.len() + padding(old_size, file_len, body.len());
    if frame_bytes.len() + unknown.len() == 0 {
        r matches Ok(bytes) && bytes@.len() == 0 && tag.spec_header().size() == 0
    } else if size > 256_000_000 {
        r == Err::<Vec<u8>, SaveError>(SaveError::TooLarge)
    } else {
        r matches Ok(bytes) && bytes@ == spec_render_tag_header(v, size as u32, tag.spec_header().flags())
            + body + Seq::new(padding(old_size, file_len, body.len()), |i: int| 0u8) && tag.spec_header().size() == size
    }
}

/// An ID3v2 tag.
///
/// A tag can be created programmatically, or it can be read from the bytes of a file. A tag
/// exposes its extended header and frames; its header's flags are managed internally.
pub struct Tag {
    header: TagHeader,
    /// The tag's extended header. This is optional.
    pub extended_header: Option<ExtendedHeader>,
    /// A collection of known frames found during parsing and/or modified during runtime.
    pub frames: FrameMap,
    /// A collection of unknown frames encountered during parsing.
    pub unknown_frames: UnknownFrames,
}

impl Tag {
    /// The header of this tag.
    pub closed spec fn spec_header(&self) -> TagHeader {
        self.header
    }

    /// The extended header of this tag.
    pub closed spec fn spec_extended_header(&self) -> Option<ExtendedHeader> {
        self.extended_header
    }

    /// The known frames of this tag.
    pub closed spec fn spec_frames(&self) -> FrameMap {
        self.frames
    }

    /// The unknown frames of this tag.
    pub closed spec fn spec_unknown_frames(&self) -> UnknownFrames {
        self.unknown_frames
    }

    /// Creates an empty ID3v2.4 tag.
    pub fn new() -> (r: Self)
        ensures
            r.spec_header().version() == Version::V24,
            r.spec_header().size() == 0,
            r.spec_extended_header() == None::<ExtendedHeader>,
            r.spec_frames().spec_entries().len() == 0,
            r.spec_unknown_frames().spec_version() == Version::V24,
            r.spec_unknown_frames().spec_frames().len() == 0,
    {
        Self::with_version(SaveVersion::V24)
    }

    /// Creates an empty tag with the specified `version`.
    pub fn with_version(version: SaveVersion) -> (r: Self)
        ensures
            r.spec_header().version() == save_version_spec(version),
            r.spec_header().size() == 0,
            r.spec_header().flags() == (TagFlags { unsync: false, extended: false, experimental: false, footer: false }),
            r.spec_extended_header() == None::<ExtendedHeader>,
            r.spec_frames().spec_entries().len() == 0,
            r.spec_unknown_frames().spec_version() == save_version_spec(version),
            r.spec_unknown_frames().spec_frames().len() == 0,
    {
        let v = match version {
            SaveVersion::V23 => Version::V23,
            SaveVersion::V24 => Version::V24,
        };
        Tag {
            header: TagHeader::with_version(v),
            extended_header: None,
            frames: FrameMap::new(),
            unknown_frames: UnknownFrames::new(v, Vec::new()),
        }
    }

    /// Returns the version of this tag. ID3v2.2 tags keep their version until they are
    /// saved or updated.
    pub fn version(&self) -> (r: Version)
        ensures
            r == self.spec_header().version(),
    {
        self.header.version()
    }

    /// Returns the size of this tag in bytes, as of when it was last read or saved.
    pub fn size(&self) -> (r: u32)
        ensures
            r == self.spec_header().size(),
    {
        self.header.size()
    }

    /// Updates the tag to `to`. Frames are renamed, merged, parsed or removed as the version
    /// requires (see [`to_v3`](compat::to_v3) and [`to_v4`](compat::to_v4)).
    pub fn update(&mut self, to: SaveVersion)
        requires
            to == SaveVersion::V24 ==> v4_upgrade_cuts_cleanly(old(self).spec_frames().spec_entries()),
        ensures
            final(self).spec_header().version() == save_version_spec(to),
            final(self).spec_header().size() == old(self).spec_header().size(),
            final(self).spec_header().flags() == old(self).spec_header().flags(),
            final(self).spec_extended_header() == match old(self).spec_extended_header() {
                Some(e) => Some(e.updated(to)),
                None => None,
            },
            to == SaveVersion::V23 ==> v3_downgraded(old(self).spec_frames().spec_entries(), final(self).spec_frames().spec_entries()),
            to == SaveVersion::V24 ==> v4_upgraded(old(self).spec_frames().spec_entries(), final(self).spec_frames().spec_entries()),
            keys_sorted(final(self).spec_frames().spec_entries()),
            final(self).spec_unknown_frames() == old(self).spec_unknown_frames(),
    {
        match to {
            SaveVersion::V23 => compat::to_v3(&mut self.frames),
            SaveVersion::V24 => compat::to_v4(&mut self.frames),
        }
        self.extended_header = match self.extended_header {
            Some(e) => {
                let mut e = e;
                e.update(to);
                Some(e)
            },
            None => None,
        };
        let v = match to {
            SaveVersion::V23 => Version::V23,
            SaveVersion::V24 => Version::V24,
        };
        self.header.set_version(v);
    }

    /// Reads a tag from its ten-byte header `raw` and the tag data `data` that follows it,
    /// parsing each frame with `parser` until the data ends or a frame cannot be parsed.
    ///
    /// ID3v2.2 and ID3v2.3 tags flagged as unsynchronized are resynchronized first. A tag
    /// flagged as having an extended header that cannot be read has the flag cleared.
    ///
    /// # Errors
    /// If the header is not a valid tag header, the error of reading it is returned, with
    /// malformed headers reported as `NotFound`.
    pub fn parse_with_parser<P: FrameParser>(raw: [u8; 10], data: &[u8], parser: &P) -> (r: ParseResult<Self>)
        ensures
            match spec_tag_header_error(raw@) {
                Some(e) => r == Err::<Tag, ParseError>(
                    if e == ParseError::MalformedData {
                        ParseError::NotFound
                    } else {
                        e
                    },
                ),
                None => r matches Ok(tag) && tag_parsed(raw@, data@, *parser, tag),
            },
    {
        let mut header = match TagHeader::parse(raw) {
            Ok(h) => h,
            Err(ParseError::MalformedData) => return Err(ParseError::NotFound),
            Err(e) => return Err(e),
        };
        let body: Vec<u8> = if header.version() != Version::V24 && header.flags().unsync {
            let mut s = BufStream::new(data);
            syncdata::decode(&mut s)
        } else {
            vstd::slice::slice_to_vec(data)
        };
        proof {
            assert(body@ == tag_body(raw@, data@));
        }
        let mut stream = BufStream::new(body.as_slice());
        let mut extended_header: Option<ExtendedHeader> = None;
        if header.flags().extended {
            match ExtendedHeader::parse(&mut stream, header.version()) {
                Ok(h) => extended_header = Some(h),
                Err(_) => {
                    let f = header.flags();
                    header.set_flags(TagFlags { extended: false, ..f });
                },
            }
        }
        let ghost start = stream.rest();
        proof {
            assert(frames_start(raw@, data@, start));
        }
        let mut frames = FrameMap::new();
        let mut unknowns: Vec<UnknownFrame> = Vec::new();
        let ghost mut results: Seq<ParsedFrame> = Seq::empty();
        let ghost mut maps: Seq<Seq<(Seq<char>, AnyFrame)>> = seq![frames.spec_entries()];
        let ghost mut lists: Seq<Seq<UnknownFrame>> = seq![unknowns@];
        let ghost mut cuts: Seq<Seq<u8>> = seq![start];
        loop
            invariant_except_break
                cuts.last() == stream.rest(),
            invariant
                assembled(results, maps, lists),
                maps.last() == frames.spec_entries(),
                lists.last() == unknowns@,
                read_through(header, *parser, cuts, results),
                cuts[0] == start,
            ensures
                assembled(results, maps, lists),
                maps.last() == frames.spec_entries(),
                lists.last() == unknowns@,
                read_through(header, *parser, cuts, results),
                cuts[0] == start,
                exists|e: ParseError, rest: Seq<u8>|
                    frame_read(header, *parser, cuts.last(), Err::<ParsedFrame, ParseError>(e), rest),
            decreases stream.rest().len(),
        {
            let ghost before = frames.spec_entries();
            let ghost before_unknowns = unknowns@;
            let ghost here = stream.rest();
            let parsed = frames::parse(&header, &mut stream, parser);
            let ghost r = parsed;
            match parsed {
                Ok(ParsedFrame::Frame(frame)) => frames.add(frame),
                Ok(ParsedFrame::Unknown(u)) => unknowns.push(u),
                Ok(ParsedFrame::Dropped) => {},
                Err(_) => {
                    proof {
                        assert(frame_read(header, *parser, cuts.last(), Err::<ParsedFrame, ParseError>(r->Err_0), stream.rest()));
                    }
                    break;
                },
            }
            proof {
                let p = r->Ok_0;
                assert(collects(before, before_unknowns, p, frames.spec_entries(), unknowns@));
                let old_results = results;
                let old_maps = maps;
                let old_lists = lists;
                let old_cuts = cuts;
                results = results.push(p);
                maps = maps.push(frames.spec_entries());
                lists = lists.push(unknowns@);
                cuts = cuts.push(stream.rest());
                assert forall|i: int| 0 <= i < results.len() implies frame_read(
                    header,
                    *parser,
                    cuts[i],
                    Ok::<ParsedFrame, ParseError>(#[trigger] results[i]),
                    cuts[i + 1],
                ) by {
                    if i < old_results.len() {
                        assert(results[i] == old_results[i]);
                        assert(cuts[i] == old_cuts[i] && cuts[i + 1] == old_cuts[i + 1]);
                    } else {
                        assert(cuts[i] == here);
                    }
                }
                assert forall|i: int| 0 <= i < results.len() implies collects(
                    maps[i],
                    lists[i],
                    #[trigger] results[i],
                    maps[i + 1],
                    lists[i + 1],
                ) by {
                    if i < old_results.len() {
                        assert(results[i] == old_results[i]);
                        assert(maps[i] == old_maps[i] && maps[i + 1] == old_maps[i + 1]);
                        assert(lists[i] == old_lists[i] && lists[i + 1] == old_lists[i + 1]);
                    }
                }
            }
        }
        let version = header.version();
        let tag = Tag {
            header,
            extended_header,
            frames,
            unknown_frames: UnknownFrames::new(version, unknowns),
        };
        proof {
            assert(assembled(results, maps, lists));
            assert(frames_read(tag.spec_header(), *parser, start, results));
        }
        Ok(tag)
    }

    /// Reads a tag from its ten-byte header `raw` and the tag data `data` that follows it,
    /// parsing frames with the [`DefaultFrameParser`](DefaultFrameParser) in strict mode.
    ///
    /// # Errors
    /// As [`parse_with_parser`](Tag::parse_with_parser).
    pub fn parse(raw: [u8; 10], data: &[u8]) -> (r: ParseResult<Self>)
        ensures
            match spec_tag_header_error(raw@) {
                Some(e) => r == Err::<Tag, ParseError>(
                    if e == ParseError::MalformedData {
                        ParseError::NotFound
                    } else {
                        e
                    },
                ),
                None => r matches Ok(tag) && tag_parsed(raw@, data@, DefaultFrameParser { strict: true }, tag),
            },
    {
        Self::parse_with_parser(raw, data, &DefaultFrameParser::default())
    }

    /// Whether this tag can be saved: the dates of an ID3v2.4 tag can be cut where upgrading
    /// its frames cuts them, and the unknown frames that are written fit their headers.
    pub open spec fn spec_writable(&self) -> bool {
        let v = save_version_spec(saved_as(self.spec_header().version()));
        let unknowns = self.spec_unknown_frames();
        &&& self.spec_header().version() == Version::V24 ==> v4_upgrade_cuts_cleanly(
            self.spec_frames().spec_entries(),
        )
        &&& unknowns.spec_version() == v ==> forall|i: int|
            0 <= i < unknowns.spec_frames().len() ==> unknown_fits(v, #[trigger] unknowns.spec_frames()[i])
    }

    /// Returns whether this tag can be saved; [`render`](Tag::render) requires it.
    pub fn is_writable(&self) -> (r: bool)
        ensures
            r == self.spec_writable(),
    {
        let v = match self.header.version() {
            Version::V24 => Version::V24,
            _ => Version::V23,
        };
        if self.header.version() == Version::V24 && !compat::upgrade_cuts_cleanly(&self.frames) {
            return false;
        }
        if self.unknown_frames.version() != v {
            return true;
        }
        let frames = self.unknown_frames.frames();
        let mut i: usize = 0;
        while i < frames.len()
            invariant
                i <= frames@.len(),
                frames@ == self.spec_unknown_frames().spec_frames(),
                v == save_version_spec(saved_as(self.spec_header().version())),
                self.spec_unknown_frames().spec_version() == v,
                self.spec_header().version() == Version::V24 ==> v4_upgrade_cuts_cleanly(
                    self.spec_frames().spec_entries(),
                ),
                forall|j: int| 0 <= j < i ==> unknown_fits(v, #[trigger] frames@[j]),
            decreases frames@.len() - i,
        {
            if !frames::unknown_fits_header(v, &frames[i]) {
                proof {
                    assert(!unknown_fits(v, self.spec_unknown_frames().spec_frames()[i as int]));
                }
                return false;
            }
            i = i + 1;
        }
        true
    }

    /// Renders this tag for saving it to a file whose previous tag took `old_size` bytes after
    /// its header and whose length is `file_len` bytes.
    ///
    /// The tag is first updated to ID3v2.3, or to ID3v2.4 if it is an ID3v2.4 tag, and its
    /// flags are reset, keeping only the extended header flag. The known frames are rendered,
    /// then the unknown frames if they were read from a tag of the version saved. Padding
    /// follows: where the previous tag was larger, what it leaves but at most a hundredth of the
    /// file, and 1 KiB otherwise. A tag without frames renders to nothing, which removes a
    /// previous tag.
    ///
    /// # Errors
    /// If the tag with its padding takes more than 256 MB, `TooLarge` is returned.
    #[verifier::rlimit(50)]
    pub fn render(&mut self, old_size: u64, file_len: u64) -> (r: SaveResult<Vec<u8>>)
        requires
            old(self).spec_writable(),
        ensures
            final(self).spec_header().version() == save_version_spec(saved_as(old(self).spec_header().version())),
            final(self).spec_extended_header() == match old(self).spec_extended_header() {
                Some(e) => Some(e.updated(saved_as(old(self).spec_header().version()))),
                None => None,
            },
            saved_as(old(self).spec_header().version()) == SaveVersion::V23 ==> v3_downgraded(
                old(self).spec_frames().spec_entries(),
                final(self).spec_frames().spec_entries(),
            ),
            saved_as(old(self).spec_header().version()) == SaveVersion::V24 ==> v4_upgraded(
                old(self).spec_frames().spec_entries(),
                final(self).spec_frames().spec_entries(),
            ),
            final(self).spec_unknown_frames() == old(self).spec_unknown_frames(),
            final(self).spec_header().flags() == (TagFlags {
                unsync: false,
                extended: final(self).spec_extended_header() is Some,
                experimental: false,
                footer: false,
            }),
            exists|frame_bytes: Seq<u8>|
                #[trigger] renders_frames(final(self).spec_frames().spec_entries(), final(self).spec_header().version(), frame_bytes)
                    && saved(*final(self), old_size, file_len, frame_bytes, r),
    {
        let to = match self.header.version() {
            Version::V24 => SaveVersion::V24,
            _ => SaveVersion::V23,
        };
        self.update(to);
        let version = self.header.version();
        let has_ext = self.extended_header.is_some();
        self.header.set_flags(TagFlags { unsync: false, extended: has_ext, experimental: false, footer: false });
        let mut tag_data: Vec<u8> = match &self.extended_header {
            Some(ext) => ext.render(version),
            None => Vec::new(),
        };
        let ghost ext_part = tag_data@;
        let start_len = tag_data.len();
        let mut frame_data = self.frames.render(&self.header);
        let ghost frame_bytes = frame_data@;
        tag_data.append(&mut frame_data);
        let ghost before_unknown = tag_data@;
        let ghost unknown_part = if self.spec_unknown_frames().spec_version() == version {
            unknown_bytes(version, self.spec_unknown_frames().spec_frames())
        } else {
            Seq::<u8>::empty()
        };
        proof {
            assert(ext_part == match self.spec_extended_header() {
                Some(e) => ext_bytes_of(e, version),
                None => Seq::<u8>::empty(),
            });
            assert(before_unknown == ext_part + frame_bytes);
        }
        if self.unknown_frames.version() == version {
            let unknowns = self.unknown_frames.frames();
            let mut i: usize = 0;
            while i < unknowns.len()
                invariant
                    i <= unknowns@.len(),
                    unknowns@ == self.spec_unknown_frames().spec_frames(),
                    version == self.spec_header().version(),
                    version != Version::V22,
                    forall|j: int| 0 <= j < unknowns@.len() ==> unknown_fits(version, #[trigger] unknowns@[j]),
                    tag_data@ == before_unknown + unknown_bytes(version, unknowns@.take(i as int)),
                decreases unknowns@.len() - i,
            {
                proof {
                    assert(unknown_fits(version, unknowns@[i as int]));
                }
                let mut d = frames::render_unknown(&self.header, &unknowns[i]);
                proof {
                    assert(unknowns@.take(i + 1).drop_last() =~= unknowns@.take(i as int));
                    if unknowns@[i as int].spec_id().len() < 4 {
                        assert(d@ =~= Seq::<u8>::empty());
                    }
                    assert(d@ == unknown_frame_bytes(version, unknowns@[i as int]));
                }
                tag_data.append(&mut d);
                proof {
                    assert(tag_data@ =~= before_unknown + unknown_bytes(version, unknowns@.take(i + 1)));
                }
                i = i + 1;
            }
            proof {
                assert(unknowns@.take(i as int) =~= unknowns@);
            }
        }
        proof {
            assert(tag_data@ == ext_part + frame_bytes + unknown_part);
            assert(renders_frames(self.spec_frames().spec_entries(), version, frame_bytes));
        }
        if tag_data.len() > start_len {
            let body_len = tag_data.len();
            if body_len > 256_000_000 {
                let r = Err(SaveError::TooLarge);
                proof {
                    assert(saved(*self, old_size, file_len, frame_bytes, r));
                    assert(renders_frames(self.spec_frames().spec_entries(), self.spec_header().version(), frame_bytes));
                }
                return r;
            }
            let tag_size = body_len as u64;
            let padding_size: u64 = if old_size >= tag_size {
                let left = old_size - tag_size;
                let most = file_len / 100;
                if left < most {
                    left
                } else {
                    most
                }
            } else {
                1024
            };
            if padding_size > 256_000_000 - tag_size {
                let r = Err(SaveError::TooLarge);
                proof {
                    assert(padding_size == padding(old_size, file_len, tag_data@.len()));
                    assert(saved(*self, old_size, file_len, frame_bytes, r));
                    assert(renders_frames(self.spec_frames().spec_entries(), self.spec_header().version(), frame_bytes));
                }
                return r;
            }
            let total = tag_size + padding_size;
            self.header.set_size(total as u32);
            let ghost body = tag_data@;
            let mut k: u64 = 0;
            while k < padding_size
                invariant
                    k <= padding_size,
                    tag_data@ == body + Seq::new(k as nat, |i: int| 0u8),
                decreases padding_size - k,
            {
                tag_data.push(0);
                proof {
                    assert(tag_data@ =~= body + Seq::new((k + 1) as nat, |i: int| 0u8));
                }
                k = k + 1;
            }
            let head = self.header.render();
            let mut out = vstd::slice::slice_to_vec(head.as_slice());
            out.append(&mut tag_data);
            proof {
                assert(padding_size == padding(old_size, file_len, body.len()));
                assert(total == body.len() + padding(old_size, file_len, body.len()));
                assert(out@ == spec_render_tag_header(version, total as u32, self.spec_header().flags()) + body
                    + Seq::new(padding(old_size, file_len, body.len()), |i: int| 0u8));
                assert(frame_bytes.len() + unknown_part.len() > 0);
            }
            let r = Ok(out);
            proof {
                assert(saved(*self, old_size, file_len, frame_bytes, r));
                assert(renders_frames(self.spec_frames().spec_entries(), self.spec_header().version(), frame_bytes));
            }
            r
        } else {
            self.header.set_size(0);
            let r = Ok(Vec::new());
            proof {
                assert(frame_bytes.len() + unknown_part.len() == 0);
                assert(saved(*self, old_size, file_len, frame_bytes, r));
                assert(renders_frames(self.spec_frames().spec_entries(), self.spec_header().version(), frame_bytes));
            }
            r
        }
    }

    /// Removes all known and unknown frames and the extended header.
    pub fn clear(&mut self)
        ensures
            final(self).spec_header() == old(self).spec_header(),
            final(self).spec_extended_header() == None::<ExtendedHeader>,
            final(self).spec_frames().spec_entries().len() == 0,
            final(self).spec_unknown_frames().spec_version() == old(self).spec_header().version(),
            final(self).spec_unknown_frames().spec_frames().len() == 0,
    {
        self.frames.clear();
        self.unknown_frames = UnknownFrames::new(self.header.version(), Vec::new());
        self.extended_header = None;
    }
}


} // verus!
