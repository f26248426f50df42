//! URL information frames.
//!
//! URL frames contain a link to a webpage. The structure of these frames are similar to text
//! frames, however with some key differences:
//!
//! - The URL itself is always written as Latin-1.
//! - There cannot be multiple URLs in a frame.
//!
//! The validity of the URLs in a frame is not checked.
use crate::id3v2::frames::encoding;
use crate::id3v2::frames::text::{key_with, known_id, make_key};
use crate::id3v2::frames::{ascii_chars, id_code, Frame, FrameId};
use crate::id3v2::tag::{TagHeader, Version};
use crate::id3v2::{ParseError, ParseResult};
use crate::io::BufStream;
use crate::string::{
    self, fits, latin1_byte, lemma_render_decode, lemma_terminated_roundtrip, no_nul_char,
    spec_decode, spec_nul, spec_render, terminated_data, terminated_len, Encoding,
};
use vstd::prelude::*;
use vstd::string::StringExecFns;

verus! {

/// Whether a frame ID code belongs to a [`UrlFrame`](UrlFrame).
pub open spec fn is_url_id(code: u32) -> bool {
    code == 0x5743_4F4D // WCOM
    || code == 0x5743_4F50 // WCOP
    || code == 0x574F_4146 // WOAF
    || code == 0x574F_4152 // WOAR
    || code == 0x574F_4153 // WOAS
    || code == 0x574F_5253 // WORS
    || code == 0x5750_4159 // WPAY
    || code == 0x5750_5542 // WPUB
}

/// Specific URL metadata.
///
/// The valid IDs are `WCOM` (where the media can be bought), `WCOP` (copyright notice),
/// `WOAF` (official file webpage), `WOAR` (official artist webpage), `WOAS` (official source
/// webpage), `WORS` (radio station webpage), `WPAY` (payment page) and `WPUB` (publisher).
///
/// `WFED` is not a URL frame: iTunes treats it as a text frame.
#[derive(Debug, Clone)]
pub struct UrlFrame {
    frame_id: FrameId,
    /// The URL of this string.
    pub url: String,
}

impl UrlFrame {
    /// The Frame ID of this frame.
    pub closed spec fn spec_frame_id(&self) -> FrameId {
        self.frame_id
    }

    /// The URL of this frame.
    pub closed spec fn spec_url(&self) -> Seq<char> {
        self.url@
    }

    /// Creates a new instance of this frame from `frame_id`, with an empty URL.
    pub fn new(frame_id: FrameId) -> (r: Self)
        requires
            is_url_id(id_code(frame_id.spec_bytes())),
        ensures
            r.spec_frame_id() == frame_id,
            r.spec_url().len() == 0,
    {
        Self { frame_id, url: String::new() }
    }

    /// Parses the body of a `frame_id` frame from the rest of `stream`, which never fails.
    pub fn parse(frame_id: FrameId, stream: &mut BufStream) -> (r: ParseResult<Self>)
        ensures
            r matches Ok(f) && f.spec_frame_id() == frame_id && f.spec_url() == spec_decode(
                Encoding::Utf8,
                old(stream).rest(),
            ),
    {
        let url = string::read(Encoding::Utf8, stream);
        Ok(Self { frame_id, url })
    }

    /// Returns if `frame_id` is valid for this frame.
    pub fn is_id(frame_id: FrameId) -> (r: bool)
        ensures
            r == is_url_id(id_code(frame_id.spec_bytes())),
    {
        let code = frame_id.code();
        code == 0x5743_4F4D // WCOM
        || code == 0x5743_4F50 // WCOP
        || code == 0x574F_4146 // WOAF
        || code == 0x574F_4152 // WOAR
        || code == 0x574F_4153 // WOAS
        || code == 0x574F_5253 // WORS
        || code == 0x5750_4159 // WPAY
        || code == 0x5750_5542 // WPUB
    }

    /// The URL of this frame.
    pub fn display(&self) -> (r: String)
        ensures
            r@ == self.spec_url(),
    {
        self.url.clone()
    }
}

/// Latin-1 bytes of ASCII text are its UTF-8 bytes.
proof fn lemma_ascii_latin1_utf8(chars: Seq<char>)
    requires
        forall|i: int| 0 <= i < chars.len() ==> chars[i] as u32 <= 0x7F,
    ensures
        spec_render(Encoding::Latin1, chars) == spec_render(Encoding::Utf8, chars),
    decreases chars.len(),
{
    if chars.len() > 0 {
        let rest = chars.drop_first();
        lemma_ascii_latin1_utf8(rest);
        let c = chars[0];
        let v = c as u32;
        assert(v <= 0x7F ==> (v & 0x7F) as u8 == v as u8) by (bit_vector);
        assert(spec_render(Encoding::Latin1, chars) =~= seq![latin1_byte(c)] + spec_render(
            Encoding::Latin1,
            rest,
        ));
    }
}

/// A URL of ASCII characters is read back as itself.
pub proof fn lemma_url_roundtrip(f: UrlFrame)
    requires
        forall|i: int| 0 <= i < f.spec_url().len() ==> f.spec_url()[i] as u32 <= 0x7F,
    ensures
        spec_decode(Encoding::Utf8, spec_render(Encoding::Latin1, f.spec_url())) == f.spec_url(),
{
    lemma_ascii_latin1_utf8(f.spec_url());
    lemma_render_decode(Encoding::Utf8, f.spec_url());
}

impl Frame for UrlFrame {
    fn id(&self) -> (r: FrameId)
        ensures
            r == self.spec_frame_id(),
    {
        self.frame_id
    }

    fn key(&self) -> (r: String)
        ensures
            r@ == ascii_chars(self.spec_frame_id().spec_bytes()),
    {
        String::from_str(self.frame_id.as_str())
    }

    fn is_empty(&self) -> (r: bool)
        ensures
            r == (self.spec_url().len() == 0),
    {
        self.url.as_str().is_empty()
    }

    fn render(&self, tag_header: &TagHeader) -> (r: Vec<u8>)
        ensures
            r@ == spec_render(Encoding::Latin1, self.spec_url()),
    {
        string::render(Encoding::Latin1, self.url.as_str())
    }
}

/// URL information not represented by other frames.
///
/// This frame can be used to add program-specific tags without having to create a new frame
/// implementation. The only ID for this frame is `WXXX`. Identifying information should be
/// put into the `desc` field.
#[derive(Debug, Clone)]
pub struct UserUrlFrame {
    /// The encoding that the frame will use to write `desc`.
    pub encoding: Encoding,
    /// A description of the URL.
    pub desc: String,
    /// The URL.
    pub url: String,
}

impl Default for UserUrlFrame {
    fn default() -> (r: Self)
        ensures
            r.encoding == Encoding::Utf8,
            r.desc@.len() == 0,
            r.url@.len() == 0,
    {
        Self { encoding: Encoding::default(), desc: String::new(), url: String::new() }
    }
}

/// The bytes of `WXXX`.
pub open spec fn wxxx() -> Seq<u8> {
    seq![0x57u8, 0x58u8, 0x58u8, 0x58u8]
}

impl UserUrlFrame {
    /// Whether `self` is what parsing `d` as the body of a `WXXX` frame gives.
    pub open spec fn is_parse_of(self, d: Seq<u8>) -> bool {
        let rest = d.drop_first();
        &&& encoding::spec_parse(d) is Ok
        &&& self.encoding == encoding::spec_parse(d)->Ok_0
        &&& self.desc@ == spec_decode(self.encoding, terminated_data(self.encoding, rest))
        &&& self.url@ == spec_decode(
            Encoding::Latin1,
            rest.skip(terminated_len(self.encoding, rest) as int),
        )
    }

    /// Parses the body of a `WXXX` frame from the rest of `stream`.
    ///
    /// # Errors
    /// If the encoding flag is missing or invalid, an error is returned.
    pub fn parse(stream: &mut BufStream) -> (r: ParseResult<Self>)
        ensures
            match r {
                Ok(f) => f.is_parse_of(old(stream).rest()),
                Err(e) => encoding::spec_parse(old(stream).rest()) == Err::<Encoding, ParseError>(e),
            },
    {
        let encoding = match encoding::parse(stream) {
            Ok(e) => e,
            Err(e) => return Err(e),
        };
        let desc = string::read_terminated(encoding, stream);
        let url = string::read(Encoding::Latin1, stream);
        Ok(Self { encoding, desc, url })
    }

    /// The body of this frame in a tag of `version`.
    ///
    /// The encoding byte is that of the frame's own encoding, while the text is written in the
    /// encoding that a tag of `version` supports in its place: UTF-8 or UTF-16BE text in an
    /// ID3v2.3 tag is written as UTF-16 under the byte of UTF-8 or UTF-16BE.
    pub open spec fn spec_render(&self, version: Version) -> Seq<u8> {
        let enc = encoding::spec_check(self.encoding, version);
        seq![encoding::spec_render(self.encoding)] + spec_render(enc, self.desc@) + spec_nul(enc)
            + spec_render(Encoding::Latin1, self.url@)
    }

    /// The URL of this frame.
    pub fn display(&self) -> (r: String)
        ensures
            r@ == self.url@,
    {
        self.url.clone()
    }
}

/// A user URL frame written to a tag of `version` is read back with the encoding it was
/// written in, its description and its URL, where its encoding byte names that encoding, the
/// description has no NUL character and fits the encoding, and the URL fits in Latin-1.
pub proof fn lemma_user_url_roundtrip(f: UserUrlFrame, version: Version)
    requires
        encoding::flag_matches(f.encoding, version),
        no_nul_char(f.desc@),
        fits(encoding::spec_check(f.encoding, version), f.desc@),
        fits(Encoding::Latin1, f.url@),
    ensures
        encoding::spec_parse(f.spec_render(version)) == Ok::<Encoding, ParseError>(
            encoding::spec_check(f.encoding, version),
        ),
        forall|g: UserUrlFrame|
            #[trigger] g.is_parse_of(f.spec_render(version)) ==> g.encoding == encoding::spec_check(
                f.encoding,
                version,
            ) && g.desc@ == f.desc@ && g.url@ == f.url@,
{
    let e = encoding::spec_check(f.encoding, version);
    let link = spec_render(Encoding::Latin1, f.url@);
    let rest = spec_render(e, f.desc@) + spec_nul(e) + link;
    encoding::lemma_flag_roundtrip(e, rest);
    assert(f.spec_render(version) =~= seq![encoding::spec_render(e)] + rest);
    assert((seq![encoding::spec_render(e)] + rest).drop_first() =~= rest);
    lemma_terminated_roundtrip(e, f.desc@, link);
    lemma_render_decode(Encoding::Latin1, f.url@);
}

impl Frame for UserUrlFrame {
    fn id(&self) -> (r: FrameId)
        ensures
            r.spec_bytes() == wxxx(),
    {
        known_id(0x57, 0x58, 0x58, 0x58)
    }

    fn key(&self) -> (r: String)
        ensures
            r@ == key_with(wxxx(), self.desc@),
    {
        make_key(self.id(), self.desc.as_str())
    }

    fn is_empty(&self) -> (r: bool)
        ensures
            r == (self.url@.len() == 0),
    {
        self.url.as_str().is_empty()
    }

    fn render(&self, tag_header: &TagHeader) -> (r: Vec<u8>)
        ensures
            r@ == self.spec_render(tag_header.version()),
    {
        let mut result: Vec<u8> = Vec::new();
        let encoding = encoding::check(self.encoding, tag_header.version());
        result.push(encoding::render(self.encoding));
        let mut desc = string::render_terminated(encoding, self.desc.as_str());
        result.append(&mut desc);
        let mut url = string::render(Encoding::Latin1, self.url.as_str());
        result.append(&mut url);
        result
    }
}

} // verus!
