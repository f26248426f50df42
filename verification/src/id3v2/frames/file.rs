//! Frames that contain files.
use crate::id3v2::frames::bin::{after_owner, latin1_terminated, spec_owner};
use crate::id3v2::frames::encoding;
use crate::id3v2::frames::text::{key_with, known_id, make_key};
use crate::id3v2::frames::{Frame, FrameId};
use crate::id3v2::tag::{TagHeader, Version};
use crate::id3v2::{read_error, ParseError, ParseResult};
use crate::io::{BufStream, StreamError};
use crate::string::{self, spec_decode, spec_nul, spec_render, terminated_data, terminated_len, Encoding};
use vstd::prelude::*;
use vstd::string::StringExecFns;

verus! {

/// The kind of picture that an attached picture frame holds.
#[derive(Clone, Copy, Debug, Eq, PartialEq, Structural)]
pub enum PictureType {
    Other,
    FileIcon,
    OtherFileIcon,
    FrontCover,
    BackCover,
    LeafletPage,
    Media,
    LeadArtist,
    Artist,
    Conductor,
    Band,
    Composer,
    Writer,
    RecordingLocation,
    DuringRecording,
    DuringPerformance,
    MovieScreenCapture,
    ColoredFish,
    Illustration,
    BandLogo,
    PublisherLogo,
}

impl PictureType {
    /// The value that a byte names; unknown bytes are `Other`.
    pub open spec fn spec_parse(byte: u8) -> Self {
        if byte == 0x00 {
            PictureType::Other
        } else if byte == 0x01 {
            PictureType::FileIcon
        } else if byte == 0x02 {
            PictureType::OtherFileIcon
        } else if byte == 0x03 {
            PictureType::FrontCover
        } else if byte == 0x04 {
            PictureType::BackCover
        } else if byte == 0x05 {
            PictureType::LeafletPage
        } else if byte == 0x06 {
            PictureType::Media
        } else if byte == 0x07 {
            PictureType::LeadArtist
        } else if byte == 0x08 {
            PictureType::Artist
        } else if byte == 0x09 {
            PictureType::Conductor
        } else if byte == 0x0A {
            PictureType::Band
        } else if byte == 0x0B {
            PictureType::Composer
        } else if byte == 0x0C {
            PictureType::Writer
        } else if byte == 0x0D {
            PictureType::RecordingLocation
        } else if byte == 0x0E {
            PictureType::DuringRecording
        } else if byte == 0x0F {
            PictureType::DuringPerformance
        } else if byte == 0x10 {
            PictureType::MovieScreenCapture
        } else if byte == 0x11 {
            PictureType::ColoredFish
        } else if byte == 0x12 {
            PictureType::Illustration
        } else if byte == 0x13 {
            PictureType::BandLogo
        } else if byte == 0x14 {
            PictureType::PublisherLogo
        } else {
            PictureType::Other
        }
    }

    /// The byte this value is written as.
    pub open spec fn spec_byte(self) -> u8 {
        match self {
            PictureType::Other => 0x00,
            PictureType::FileIcon => 0x01,
            PictureType::OtherFileIcon => 0x02,
            PictureType::FrontCover => 0x03,
            PictureType::BackCover => 0x04,
            PictureType::LeafletPage => 0x05,
            PictureType::Media => 0x06,
            PictureType::LeadArtist => 0x07,
            PictureType::Artist => 0x08,
            PictureType::Conductor => 0x09,
            PictureType::Band => 0x0A,
            PictureType::Composer => 0x0B,
            PictureType::Writer => 0x0C,
            PictureType::RecordingLocation => 0x0D,
            PictureType::DuringRecording => 0x0E,
            PictureType::DuringPerformance => 0x0F,
            PictureType::MovieScreenCapture => 0x10,
            PictureType::ColoredFish => 0x11,
            PictureType::Illustration => 0x12,
            PictureType::BandLogo => 0x13,
            PictureType::PublisherLogo => 0x14,
        }
    }

    /// Returns the value that `byte` names; unknown bytes are `Other`.
    pub fn parse(byte: u8) -> (r: Self)
        ensures
            r == Self::spec_parse(byte),
    {
        match byte {
            0x00 => PictureType::Other,
            0x01 => PictureType::FileIcon,
            0x02 => PictureType::OtherFileIcon,
            0x03 => PictureType::FrontCover,
            0x04 => PictureType::BackCover,
            0x05 => PictureType::LeafletPage,
            0x06 => PictureType::Media,
            0x07 => PictureType::LeadArtist,
            0x08 => PictureType::Artist,
            0x09 => PictureType::Conductor,
            0x0A => PictureType::Band,
            0x0B => PictureType::Composer,
            0x0C => PictureType::Writer,
            0x0D => PictureType::RecordingLocation,
            0x0E => PictureType::DuringRecording,
            0x0F => PictureType::DuringPerformance,
            0x10 => PictureType::MovieScreenCapture,
            0x11 => PictureType::ColoredFish,
            0x12 => PictureType::Illustration,
            0x13 => PictureType::BandLogo,
            0x14 => PictureType::PublisherLogo,
            _ => PictureType::Other,
        }
    }

    /// Returns the byte this value is written as.
    pub fn to_byte(self) -> (b: u8)
        ensures
            b == self.spec_byte(),
    {
        match self {
            PictureType::Other => 0x00,
            PictureType::FileIcon => 0x01,
            PictureType::OtherFileIcon => 0x02,
            PictureType::FrontCover => 0x03,
            PictureType::BackCover => 0x04,
            PictureType::LeafletPage => 0x05,
            PictureType::Media => 0x06,
            PictureType::LeadArtist => 0x07,
            PictureType::Artist => 0x08,
            PictureType::Conductor => 0x09,
            PictureType::Band => 0x0A,
            PictureType::Composer => 0x0B,
            PictureType::Writer => 0x0C,
            PictureType::RecordingLocation => 0x0D,
            PictureType::DuringRecording => 0x0E,
            PictureType::DuringPerformance => 0x0F,
            PictureType::MovieScreenCapture => 0x10,
            PictureType::ColoredFish => 0x11,
            PictureType::Illustration => 0x12,
            PictureType::BandLogo => 0x13,
            PictureType::PublisherLogo => 0x14,
        }
    }
}

impl PictureType {
    /// The name of this picture type.
    pub open spec fn spec_name(self) -> Seq<char> {
        match self {
            PictureType::Other => "Other"@,
            PictureType::FileIcon => "FileIcon"@,
            PictureType::OtherFileIcon => "OtherFileIcon"@,
            PictureType::FrontCover => "FrontCover"@,
            PictureType::BackCover => "BackCover"@,
            PictureType::LeafletPage => "LeafletPage"@,
            PictureType::Media => "Media"@,
            PictureType::LeadArtist => "LeadArtist"@,
            PictureType::Artist => "Artist"@,
            PictureType::Conductor => "Conductor"@,
            PictureType::Band => "Band"@,
            PictureType::Composer => "Composer"@,
            PictureType::Writer => "Writer"@,
            PictureType::RecordingLocation => "RecordingLocation"@,
            PictureType::DuringRecording => "DuringRecording"@,
            PictureType::DuringPerformance => "DuringPerformance"@,
            PictureType::MovieScreenCapture => "MovieScreenCapture"@,
            PictureType::ColoredFish => "ColoredFish"@,
            PictureType::Illustration => "Illustration"@,
            PictureType::BandLogo => "BandLogo"@,
            PictureType::PublisherLogo => "PublisherLogo"@,
        }
    }

    /// Returns the name of this picture type.
    pub fn name(self) -> (r: &'static str)
        ensures
            r@ == self.spec_name(),
    {
        match self {
            PictureType::Other => "Other",
            PictureType::FileIcon => "FileIcon",
            PictureType::OtherFileIcon => "OtherFileIcon",
            PictureType::FrontCover => "FrontCover",
            PictureType::BackCover => "BackCover",
            PictureType::LeafletPage => "LeafletPage",
            PictureType::Media => "Media",
            PictureType::LeadArtist => "LeadArtist",
            PictureType::Artist => "Artist",
            PictureType::Conductor => "Conductor",
            PictureType::Band => "Band",
            PictureType::Composer => "Composer",
            PictureType::Writer => "Writer",
            PictureType::RecordingLocation => "RecordingLocation",
            PictureType::DuringRecording => "DuringRecording",
            PictureType::DuringPerformance => "DuringPerformance",
            PictureType::MovieScreenCapture => "MovieScreenCapture",
            PictureType::ColoredFish => "ColoredFish",
            PictureType::Illustration => "Illustration",
            PictureType::BandLogo => "BandLogo",
            PictureType::PublisherLogo => "PublisherLogo",
        }
    }
}

/// The picture types of the ID3v2 table, by name, in the order of their bytes: the name at
/// place `b` is that of the type written as byte `b`.
pub open spec fn picture_type_names() -> Seq<Seq<char>> {
    seq![
        "Other"@,
        "FileIcon"@,
        "OtherFileIcon"@,
        "FrontCover"@,
        "BackCover"@,
        "LeafletPage"@,
        "Media"@,
        "LeadArtist"@,
        "Artist"@,
        "Conductor"@,
        "Band"@,
        "Composer"@,
        "Writer"@,
        "RecordingLocation"@,
        "DuringRecording"@,
        "DuringPerformance"@,
        "MovieScreenCapture"@,
        "ColoredFish"@,
        "Illustration"@,
        "BandLogo"@,
        "PublisherLogo"@,
    ]
}

/// Picture types and their bytes follow the ID3v2 table: the byte of every type is its place
/// in the table, every byte of the table is read as the type at that place, a type is read
/// back from its byte, and bytes past the table are read as `Other`.
pub proof fn lemma_picture_type_table()
    ensures
        picture_type_names().len() == 0x15,
        forall|t: PictureType| #[trigger] t.spec_byte() < 0x15 && picture_type_names()[t.spec_byte() as int] == t.spec_name(),
        forall|b: u8| b < 0x15 ==> (#[trigger] PictureType::spec_parse(b)).spec_name() == picture_type_names()[b as int],
        forall|t: PictureType| #[trigger] PictureType::spec_parse(t.spec_byte()) == t,
        forall|b: u8| b < 0x15 ==> (#[trigger] PictureType::spec_parse(b)).spec_byte() == b,
        forall|b: u8| b >= 0x15 ==> #[trigger] PictureType::spec_parse(b) == PictureType::Other,
        forall|s: PictureType, t: PictureType| #[trigger] s.spec_byte() == #[trigger] t.spec_byte() ==> s == t,
{
    assert(picture_type_names().len() == 0x15);
            assert(picture_type_names()[0] == "Other"@);
            assert(picture_type_names()[1] == "FileIcon"@);
            assert(picture_type_names()[2] == "OtherFileIcon"@);
            assert(picture_type_names()[3] == "FrontCover"@);
            assert(picture_type_names()[4] == "BackCover"@);
            assert(picture_type_names()[5] == "LeafletPage"@);
            assert(picture_type_names()[6] == "Media"@);
            assert(picture_type_names()[7] == "LeadArtist"@);
            assert(picture_type_names()[8] == "Artist"@);
            assert(picture_type_names()[9] == "Conductor"@);
            assert(picture_type_names()[10] == "Band"@);
            assert(picture_type_names()[11] == "Composer"@);
            assert(picture_type_names()[12] == "Writer"@);
            assert(picture_type_names()[13] == "RecordingLocation"@);
            assert(picture_type_names()[14] == "DuringRecording"@);
            assert(picture_type_names()[15] == "DuringPerformance"@);
            assert(picture_type_names()[16] == "MovieScreenCapture"@);
            assert(picture_type_names()[17] == "ColoredFish"@);
            assert(picture_type_names()[18] == "Illustration"@);
            assert(picture_type_names()[19] == "BandLogo"@);
            assert(picture_type_names()[20] == "PublisherLogo"@);
}

impl Default for PictureType {
    fn default() -> (r: Self)
        ensures
            r == PictureType::FrontCover,
    {
        PictureType::FrontCover
    }
}

/// The MIME type of an attached picture: the one written in the frame, or `image/` when it is
/// empty, as the spec implies.
pub open spec fn spec_mime(written: Seq<char>) -> Seq<char> {
    if written.len() == 0 {
        "image/"@
    } else {
        written
    }
}

/// The MIME type named by an ID3v2.2 image format: `PNG` and `JPG` map to their MIME types,
/// every other format to `image/`.
pub open spec fn spec_legacy_mime(format: Seq<u8>) -> Seq<char> {
    if format == seq![0x50u8, 0x4Eu8, 0x47u8] {
        "image/png"@
    } else if format == seq![0x4Au8, 0x50u8, 0x47u8] {
        "image/jpeg"@
    } else {
        "image/"@
    }
}

/// The error of parsing `d` as the body of an `APIC` frame, or `None` when it parses.
pub open spec fn apic_error(d: Seq<u8>) -> Option<ParseError> {
    match encoding::spec_parse(d) {
        Err(e) => Some(e),
        Ok(_) => if after_owner(d.drop_first()).len() == 0 {
            Some(ParseError::IoError(StreamError::EndOfStream))
        } else {
            None
        },
    }
}

/// The error of parsing `d` as the body of an ID3v2.2 `PIC` frame, or `None` when it parses.
pub open spec fn pic_error(d: Seq<u8>) -> Option<ParseError> {
    match encoding::spec_parse(d) {
        Err(e) => Some(e),
        Ok(_) => if d.len() < 4 {
            Some(read_error(d, 1, 3))
        } else if d.len() < 5 {
            Some(ParseError::IoError(StreamError::EndOfStream))
        } else {
            None
        },
    }
}

/// A picture attached to the audio, such as its cover, the `APIC` frame.
#[derive(Debug, Clone)]
pub struct AttachedPictureFrame {
    /// The encoding that the frame will use to write `desc`.
    pub encoding: Encoding,
    /// The MIME type of the picture.
    pub mime: String,
    /// A description of the picture.
    pub desc: String,
    /// What the picture shows.
    pub pic_type: PictureType,
    /// The picture data.
    pub picture: Vec<u8>,
}

impl Default for AttachedPictureFrame {
    fn default() -> (r: Self)
        ensures
            r.encoding == Encoding::Utf8,
            r.mime@.len() == 0,
            r.desc@.len() == 0,
            r.pic_type == PictureType::FrontCover,
            r.picture@.len() == 0,
    {
        Self {
            encoding: Encoding::default(),
            mime: String::new(),
            desc: String::new(),
            pic_type: PictureType::default(),
            picture: Vec::new(),
        }
    }
}

/// The bytes of `APIC`.
pub open spec fn apic() -> Seq<u8> {
    seq![0x41u8, 0x50u8, 0x49u8, 0x43u8]
}

impl AttachedPictureFrame {
    /// Whether the picture type, description and picture of `self` are what follows in `d`,
    /// the part of a picture frame after the MIME type or image format.
    pub open spec fn tail_is_parse_of(self, d: Seq<u8>) -> bool {
        let rest = d.drop_first();
        &&& d.len() > 0
        &&& self.pic_type == PictureType::spec_parse(d[0])
        &&& self.desc@ == spec_decode(self.encoding, terminated_data(self.encoding, rest))
        &&& self.picture@ == rest.skip(terminated_len(self.encoding, rest) as int)
    }

    /// Whether `self` is what parsing `d` as the body of an `APIC` frame gives.
    pub open spec fn is_parse_of(self, d: Seq<u8>) -> bool {
        &&& apic_error(d) is None
        &&& self.encoding == encoding::spec_parse(d)->Ok_0
        &&& self.mime@ == spec_mime(spec_owner(d.drop_first()))
        &&& self.tail_is_parse_of(after_owner(d.drop_first()))
    }

    /// The picture type of a rendered picture frame is read back as it was: whatever frame is
    /// read from what follows the encoding byte and the MIME type of the body that `self`
    /// renders has the picture type of `self`.
    pub proof fn lemma_picture_type_read_back(self, version: Version, g: AttachedPictureFrame)
        requires
            g.tail_is_parse_of(self.spec_render(version).skip(1 + latin1_terminated(self.mime@).len() as int)),
        ensures
            g.pic_type == self.pic_type,
    {
        let head = seq![encoding::spec_render(self.encoding)] + latin1_terminated(self.mime@);
        let d = self.spec_render(version);
        assert(d[head.len() as int] == self.pic_type.spec_byte());
        assert(d.skip(head.len() as int)[0] == self.pic_type.spec_byte());
        lemma_picture_type_table();
    }

    /// Whether `self` is what parsing `d` as the body of an ID3v2.2 `PIC` frame gives.
    pub open spec fn is_legacy_parse_of(self, d: Seq<u8>) -> bool {
        &&& pic_error(d) is None
        &&& self.encoding == encoding::spec_parse(d)->Ok_0
        &&& self.mime@ == spec_legacy_mime(d.subrange(1, 4))
        &&& self.tail_is_parse_of(d.skip(4))
    }

    /// Reads the picture type, description and picture.
    fn parse_tail(stream: &mut BufStream, encoding: Encoding, mime: String) -> (r: ParseResult<Self>)
        ensures
            match r {
                Ok(f) => {
                    &&& f.encoding == encoding
                    &&& f.mime == mime
                    &&& f.tail_is_parse_of(old(stream).rest())
                },
                Err(e) => old(stream).rest().len() == 0 && e == ParseError::IoError(
                    StreamError::EndOfStream,
                ),
            },
    {
        let pic_type = match stream.read_u8() {
            Ok(b) => PictureType::parse(b),
            Err(e) => return Err(ParseError::IoError(e)),
        };
        let desc = string::read_terminated(encoding, stream);
        let picture = vstd::slice::slice_to_vec(stream.take_rest());
        Ok(Self { encoding, mime, desc, pic_type, picture })
    }

    /// Parses the body of an `APIC` frame from the rest of `stream`.
    ///
    /// # Errors
    /// If the encoding flag is missing or invalid, or the picture type is missing, an error is
    /// returned.
    pub fn parse(stream: &mut BufStream) -> (r: ParseResult<Self>)
        ensures
            match r {
                Ok(f) => f.is_parse_of(old(stream).rest()),
                Err(e) => apic_error(old(stream).rest()) == Some(e),
            },
    {
        let encoding = match encoding::parse(stream) {
            Ok(e) => e,
            Err(e) => return Err(e),
        };
        let mut mime = string::read_terminated(Encoding::Latin1, stream);
        // image/ is implied when there is no mime type.
        if mime.as_str().is_empty() {
            mime.append("image/");
            proof {
                reveal_strlit("image/");
            }
        }
        Self::parse_tail(stream, encoding, mime)
    }

    /// Parses the body of an ID3v2.2 `PIC` frame from the rest of `stream`.
    ///
    /// ID3v2.2 frames hold a 3-byte image format instead of a MIME type: `PNG` and `JPG` map
    /// to `image/png` and `image/jpeg`, and every other format to `image/`.
    ///
    /// # Errors
    /// If the encoding flag is missing or invalid, or the image format or picture type is cut
    /// short, an error is returned.
    pub fn parse_v2(stream: &mut BufStream) -> (r: ParseResult<Self>)
        ensures
            match r {
                Ok(f) => f.is_legacy_parse_of(old(stream).rest()),
                Err(e) => pic_error(old(stream).rest()) == Some(e),
            },
    {
        let ghost d = stream.rest();
        let encoding = match encoding::parse(stream) {
            Ok(e) => e,
            Err(e) => return Err(e),
        };
        let format = match stream.read_array::<3>() {
            Ok(f) => f,
            Err(e) => return Err(ParseError::IoError(e)),
        };
        proof {
            assert(d.drop_first().take(3) =~= d.subrange(1, 4));
            assert(d.drop_first().skip(3) =~= d.skip(4));
            assert(format@ == d.subrange(1, 4));
        }
        let mime = if format[0] == 0x50 && format[1] == 0x4E && format[2] == 0x47 {
            proof {
                assert(format@ =~= seq![0x50u8, 0x4Eu8, 0x47u8]);
            }
            String::from_str("image/png")
        } else if format[0] == 0x4A && format[1] == 0x50 && format[2] == 0x47 {
            proof {
                assert(format@ =~= seq![0x4Au8, 0x50u8, 0x47u8]);
                assert(format@ != seq![0x50u8, 0x4Eu8, 0x47u8]);
            }
            String::from_str("image/jpeg")
        } else {
            proof {
                assert(format@ != seq![0x50u8, 0x4Eu8, 0x47u8]) by {
                    if format@ == seq![0x50u8, 0x4Eu8, 0x47u8] {
                        assert(format@[0] == 0x50u8);
                    }
                }
                assert(format@ != seq![0x4Au8, 0x50u8, 0x47u8]) by {
                    if format@ == seq![0x4Au8, 0x50u8, 0x47u8] {
                        assert(format@[0] == 0x4Au8);
                    }
                }
            }
            String::from_str("image/")
        };
        Self::parse_tail(stream, encoding, mime)
    }

    /// The body of this frame in a tag of `version`.
    ///
    /// The encoding byte is that of the frame's own encoding, while the text is written in the
    /// encoding that a tag of `version` supports in its place: UTF-8 or UTF-16BE text in an
    /// ID3v2.3 tag is written as UTF-16 under the byte of UTF-8 or UTF-16BE.
    pub open spec fn spec_render(&self, version: Version) -> Seq<u8> {
        let enc = encoding::spec_check(self.encoding, version);
        seq![encoding::spec_render(self.encoding)] + latin1_terminated(self.mime@) + seq![
            self.pic_type.spec_byte(),
        ] + spec_render(enc, self.desc@) + spec_nul(enc) + self.picture@
    }

    /// The MIME type, description and picture type of this frame, as
    /// `mime "desc" [type]`, where an empty description is left out.
    pub fn display(&self) -> (r: String)
        ensures
            r@ == self.mime@ + " "@ + (if self.desc@.len() > 0 {
                "\""@ + self.desc@ + "\" "@
            } else {
                Seq::empty()
            }) + "["@ + self.pic_type.spec_name() + "]"@,
    {
        let mut s = self.mime.clone();
        s.append(" ");
        if !self.desc.as_str().is_empty() {
            s.append("\"");
            s.append(self.desc.as_str());
            s.append("\" ");
        }
        s.append("[");
        s.append(self.pic_type.name());
        s.append("]");
        s
    }
}

impl Frame for AttachedPictureFrame {
    fn id(&self) -> (r: FrameId)
        ensures
            r.spec_bytes() == apic(),
    {
        known_id(0x41, 0x50, 0x49, 0x43)
    }

    fn key(&self) -> (r: String)
        ensures
            r@ == key_with(apic(), self.desc@),
    {
        // Technically the spec says that there can only be one FileIcon and OtherFileIcon
        // APIC frame per tag, but pretty much no tagger enforces this.
        make_key(self.id(), self.desc.as_str())
    }

    fn is_empty(&self) -> (r: bool)
        ensures
            r == (self.picture@.len() == 0),
    {
        self.picture.len() == 0
    }

    fn render(&self, tag_header: &TagHeader) -> (r: Vec<u8>)
        ensures
            r@ == self.spec_render(tag_header.version()),
    {
        let mut result: Vec<u8> = Vec::new();
        let encoding = encoding::check(self.encoding, tag_header.version());
        result.push(encoding::render(self.encoding));
        let mut mime = string::render_terminated(Encoding::Latin1, self.mime.as_str());
        result.append(&mut mime);
        result.push(self.pic_type.to_byte());
        let mut desc = string::render_terminated(encoding, self.desc.as_str());
        result.append(&mut desc);
        let mut picture = vstd::slice::slice_to_vec(self.picture.as_slice());
        result.append(&mut picture);
        assert(result@ =~= self.spec_render(tag_header.version()));
        result
    }
}

/// An encapsulated file of any type, the `GEOB` frame.
#[derive(Debug, Clone)]
pub struct GeneralObjectFrame {
    /// The encoding that the frame will use to write `filename` and `desc`.
    pub encoding: Encoding,
    /// The MIME type of the file.
    pub mime: String,
    /// The name of the file.
    pub filename: String,
    /// A description of the file.
    pub desc: String,
    /// The file data.
    pub data: Vec<u8>,
}

impl Default for GeneralObjectFrame {
    fn default() -> (r: Self)
        ensures
            r.encoding == Encoding::Utf8,
            r.mime@.len() == 0,
            r.filename@.len() == 0,
            r.desc@.len() == 0,
            r.data@.len() == 0,
    {
        Self {
            encoding: Encoding::default(),
            mime: String::new(),
            filename: String::new(),
            desc: String::new(),
            data: Vec::new(),
        }
    }
}

/// The bytes of `GEOB`.
pub open spec fn geob() -> Seq<u8> {
    seq![0x47u8, 0x45u8, 0x4Fu8, 0x42u8]
}

impl GeneralObjectFrame {
    /// Whether `self` is what parsing `d` as the body of a `GEOB` frame gives.
    pub open spec fn is_parse_of(self, d: Seq<u8>) -> bool {
        let enc = self.encoding;
        let r1 = after_owner(d.drop_first());
        let r2 = r1.skip(terminated_len(enc, r1) as int);
        &&& encoding::spec_parse(d) is Ok
        &&& enc == encoding::spec_parse(d)->Ok_0
        &&& self.mime@ == spec_owner(d.drop_first())
        &&& self.filename@ == spec_decode(enc, terminated_data(enc, r1))
        &&& self.desc@ == spec_decode(enc, terminated_data(enc, r2))
        &&& self.data@ == r2.skip(terminated_len(enc, r2) as int)
    }

    /// Parses the body of a `GEOB` frame from the rest of `stream`.
    ///
    /// # Errors
    /// If the encoding flag is missing or invalid, an error is returned.
    pub fn parse(stream: &mut BufStream) -> (r: ParseResult<Self>)
        ensures
            match r {
                Ok(f) => f.is_parse_of(old(stream).rest()),
                Err(e) => encoding::spec_parse(old(stream).rest()) == Err::<Encoding, ParseError>(e),
            },
    {
        let encoding = match encoding::parse(stream) {
            Ok(e) => e,
            Err(e) => return Err(e),
        };
        let mime = string::read_terminated(Encoding::Latin1, stream);
        let filename = string::read_terminated(encoding, stream);
        let desc = string::read_terminated(encoding, stream);
        let data = vstd::slice::slice_to_vec(stream.take_rest());
        Ok(Self { encoding, mime, filename, desc, data })
    }

    /// The body of this frame in a tag of `version`.
    ///
    /// The encoding byte is that of the frame's own encoding, while the text is written in the
    /// encoding that a tag of `version` supports in its place: UTF-8 or UTF-16BE text in an
    /// ID3v2.3 tag is written as UTF-16 under the byte of UTF-8 or UTF-16BE.
    pub open spec fn spec_render(&self, version: Version) -> Seq<u8> {
        let enc = encoding::spec_check(self.encoding, version);
        seq![encoding::spec_render(self.encoding)] + latin1_terminated(self.mime@) + spec_render(
            enc,
            self.filename@,
        ) + spec_nul(enc) + spec_render(enc, self.desc@) + spec_nul(enc) + self.data@
    }

    /// The MIME type, file name and description of this frame, as `mime "filename" [desc]`,
    /// where empty parts are left out.
    pub fn display(&self) -> (r: String)
        ensures
            r@ == (if self.mime@.len() > 0 {
                self.mime@ + " "@
            } else {
                Seq::empty()
            }) + (if self.filename@.len() > 0 {
                "\""@ + self.filename@ + "\""@
            } else {
                Seq::empty()
            }) + (if self.desc@.len() > 0 {
                " ["@ + self.desc@ + "]"@
            } else {
                Seq::empty()
            }),
    {
        let mut s = String::new();
        if !self.mime.as_str().is_empty() {
            s.append(self.mime.as_str());
            s.append(" ");
        }
        if !self.filename.as_str().is_empty() {
            s.append("\"");
            s.append(self.filename.as_str());
            s.append("\"");
        }
        if !self.desc.as_str().is_empty() {
            s.append(" [");
            s.append(self.desc.as_str());
            s.append("]");
        }
        s
    }
}

impl Frame for GeneralObjectFrame {
    fn id(&self) -> (r: FrameId)
        ensures
            r.spec_bytes() == geob(),
    {
        known_id(0x47, 0x45, 0x4F, 0x42)
    }

    fn key(&self) -> (r: String)
        ensures
            r@ == key_with(geob(), self.desc@),
    {
        make_key(self.id(), self.desc.as_str())
    }

    fn is_empty(&self) -> (r: bool)
        ensures
            r == (self.data@.len() == 0),
    {
        self.data.len() == 0
    }

    fn render(&self, tag_header: &TagHeader) -> (r: Vec<u8>)
        ensures
            r@ == self.spec_render(tag_header.version()),
    {
        let mut result: Vec<u8> = Vec::new();
        let encoding = encoding::check(self.encoding, tag_header.version());
        result.push(encoding::render(self.encoding));
        let mut mime = string::render_terminated(Encoding::Latin1, self.mime.as_str());
        result.append(&mut mime);
        let mut filename = string::render_terminated(encoding, self.filename.as_str());
        result.append(&mut filename);
        let mut desc = string::render_terminated(encoding, self.desc.as_str());
        result.append(&mut desc);
        let mut data = vstd::slice::slice_to_vec(self.data.as_slice());
        result.append(&mut data);
        assert(result@ =~= self.spec_render(tag_header.version()));
        result
    }
}

} // verus!
