//! Text information frames.
//!
//! Text frames store specific text information, such as a song name. A couple of details are
//! common across all of them:
//!
//! - Text frames expose an encoding that will be used when the frame is written.
//! - A text frame implementation can correspond to multiple Frame IDs.
//! - A text frame can contain more than one string, separated by NUL terminators.
use crate::id3v2::collections::{
    entries_insert, key_before, key_lt, key_position, keys_sorted, lemma_insert_sorted,
    lemma_key_position, lemma_position_at, lookup, same_key,
};
use crate::id3v2::frames::encoding;
use crate::id3v2::frames::types::spec_language_or_default;
use crate::id3v2::frames::{ascii_chars, id_code, strings_view, valid_frame_id, Frame, FrameId, Language};
use crate::id3v2::tag::{TagHeader, Version};
use crate::id3v2::{read_error, ParseError, ParseResult};
use crate::io::BufStream;
use crate::string::{
    self, fits, lemma_render_decode, lemma_render_nonempty, lemma_render_nul_free,
    lemma_terminated_len_pos, lemma_terminated_roundtrip, lemma_terminated_whole, no_nul_char,
    spec_decode, spec_nul, spec_render, terminated_data, terminated_len, Encoding,
};
use vstd::prelude::*;
use vstd::string::StringExecFns;

verus! {

// ---- Text fields ----

/// The strings of a text field: NUL-terminated strings read one after another until the data
/// is exhausted, leaving out the empty ones that padding produces.
pub open spec fn spec_parse_text(enc: Encoding, d: Seq<u8>) -> Seq<Seq<char>>
    decreases d.len(),
{
    if d.len() == 0 {
        Seq::empty()
    } else {
        let n = terminated_len(enc, d);
        if 0 < n <= d.len() {
            let s = spec_decode(enc, terminated_data(enc, d));
            let tail = spec_parse_text(enc, d.skip(n as int));
            if s.len() == 0 {
                tail
            } else {
                seq![s] + tail
            }
        } else {
            Seq::empty()
        }
    }
}

/// The bytes of a text field: the strings rendered in `enc` and separated by NUL terminators,
/// with no terminator after the last one.
pub open spec fn spec_render_text(enc: Encoding, text: Seq<Seq<char>>) -> Seq<u8>
    decreases text.len(),
{
    if text.len() == 0 {
        Seq::empty()
    } else if text.len() == 1 {
        spec_render(enc, text[0])
    } else {
        spec_render_text(enc, text.drop_last()) + spec_nul(enc) + spec_render(enc, text.last())
    }
}

/// Whether every string of `text` can be written to a text field and read back: it is not
/// empty, has no NUL character, and fits the encoding.
pub open spec fn writable_strings(enc: Encoding, text: Seq<Seq<char>>) -> bool {
    forall|i: int|
        0 <= i < text.len() ==> (#[trigger] text[i]).len() > 0 && no_nul_char(text[i]) && fits(
            enc,
            text[i],
        )
}

/// A text field of two strings or more is the first string, a terminator, and the field of
/// the others.
proof fn lemma_render_text_front(enc: Encoding, text: Seq<Seq<char>>)
    requires
        text.len() >= 2,
    ensures
        spec_render_text(enc, text) == spec_render(enc, text[0]) + spec_nul(enc) + spec_render_text(
            enc,
            text.drop_first(),
        ),
    decreases text.len(),
{
    if text.len() > 2 {
        let front = text.drop_last();
        let back = text.drop_first();
        lemma_render_text_front(enc, front);
        assert(front.drop_first() =~= back.drop_last());
        assert(back.last() == text.last());
        assert(front[0] == text[0]);
        let a = spec_render(enc, text[0]);
        let n = spec_nul(enc);
        let m = spec_render_text(enc, back.drop_last());
        let z = spec_render(enc, text.last());
        assert(spec_render_text(enc, back) == m + n + z);
        assert(spec_render_text(enc, text) == (a + n + m) + n + z);
        assert((a + n + m) + n + z =~= a + n + (m + n + z));
    } else {
        assert(text.drop_first() =~= seq![text[1]]);
        assert(text.drop_last() =~= seq![text[0]]);
        assert(spec_render_text(enc, text.drop_first()) == spec_render(enc, text[1]));
        assert(spec_render_text(enc, text.drop_last()) == spec_render(enc, text[0]));
        assert(text.last() == text[1]);
    }
}

/// A text field is read back as the strings it was written from, where each of them can be
/// written and read back.
pub proof fn lemma_text_roundtrip(enc: Encoding, text: Seq<Seq<char>>)
    requires
        writable_strings(enc, text),
    ensures
        spec_parse_text(enc, spec_render_text(enc, text)) == text,
    decreases text.len(),
{
    if text.len() == 1 {
        let d = spec_render(enc, text[0]);
        lemma_render_nul_free(enc, text[0]);
        lemma_terminated_whole(enc, d);
        lemma_render_nonempty(enc, text[0]);
        lemma_render_decode(enc, text[0]);
        assert(d.skip(d.len() as int) =~= Seq::<u8>::empty());
        assert(spec_parse_text(enc, Seq::<u8>::empty()) =~= Seq::<Seq<char>>::empty());
        assert(seq![text[0]] + Seq::<Seq<char>>::empty() =~= text);
    } else if text.len() >= 2 {
        let rest = text.drop_first();
        assert(writable_strings(enc, rest)) by {
            assert forall|i: int| 0 <= i < rest.len() implies (#[trigger] rest[i]).len() > 0
                && no_nul_char(rest[i]) && fits(enc, rest[i]) by {
                assert(rest[i] == text[i + 1]);
            }
        }
        lemma_text_roundtrip(enc, rest);
        lemma_render_text_front(enc, text);
        let r0 = spec_render(enc, text[0]);
        let d = spec_render_text(enc, text);
        lemma_terminated_roundtrip(enc, text[0], spec_render_text(enc, rest));
        assert(d.len() > 0);
        assert(text =~= seq![text[0]] + rest);
    } else {
        assert(spec_render_text(enc, text) =~= Seq::<u8>::empty());
    }
}

/// Reads the strings of a text field from the rest of `stream`.
///
/// Text frames can contain multiple strings separated by a NUL terminator. Taggers sometimes
/// pad their text frames with zeroes, so empty strings are not kept.
pub fn parse_text(encoding: Encoding, stream: &mut BufStream) -> (r: Vec<String>)
    ensures
        strings_view(r@) == spec_parse_text(encoding, old(stream).rest()),
        final(stream).rest().len() == 0,
        final(stream).data() == old(stream).data(),
{
    let mut text: Vec<String> = Vec::new();
    while !stream.is_empty()
        invariant
            stream.data() == old(stream).data(),
            strings_view(text@) + spec_parse_text(encoding, stream.rest()) == spec_parse_text(
                encoding,
                old(stream).rest(),
            ),
        decreases stream.rest().len(),
    {
        let ghost before = stream.rest();
        let ghost old_text = text@;
        proof {
            lemma_terminated_len_pos(encoding, before);
        }
        let string = string::read_terminated(encoding, stream);
        if !string.as_str().is_empty() {
            text.push(string);
        }
        proof {
            let s = spec_decode(encoding, terminated_data(encoding, before));
            let tail = spec_parse_text(encoding, stream.rest());
            if s.len() == 0 {
                assert(text@ == old_text);
            } else {
                assert(strings_view(text@) =~= strings_view(old_text).push(s));
                assert(strings_view(old_text).push(s) + tail =~= strings_view(old_text) + (seq![s]
                    + tail));
            }
        }
    }
    proof {
        assert(spec_parse_text(encoding, stream.rest()) =~= Seq::<Seq<char>>::empty());
        assert(strings_view(text@) + Seq::<Seq<char>>::empty() =~= strings_view(text@));
    }
    text
}

/// Renders the strings of a text field, separated by NUL terminators.
pub fn render_text(encoding: Encoding, text: &[String]) -> (r: Vec<u8>)
    ensures
        r@ == spec_render_text(encoding, strings_view(text@)),
{
    let mut result: Vec<u8> = Vec::new();
    let mut i: usize = 0;
    while i < text.len()
        invariant
            i <= text@.len(),
            result@ == spec_render_text(encoding, strings_view(text@.take(i as int))),
        decreases text@.len() - i,
    {
        // Separate each string by a NUL except for the last string.
        // For frames with a single string, there will be no NUL terminator.
        if i > 0 {
            result.push(0);
            if encoding.nul_size() == 2 {
                result.push(0);
            }
        }
        let mut rendered = string::render(encoding, text[i].as_str());
        result.append(&mut rendered);
        proof {
            let prev = strings_view(text@.take(i as int));
            let next = strings_view(text@.take(i + 1));
            assert(next.drop_last() =~= prev);
            assert(next.last() == text@[i as int]@);
            if i > 0 {
                assert(result@ =~= spec_render_text(encoding, prev) + spec_nul(encoding)
                    + spec_render(encoding, next.last()));
            } else {
                assert(next =~= seq![text@[0]@]);
            }
        }
        i = i + 1;
    }
    proof {
        assert(text@.take(i as int) =~= text@);
    }
    result
}

// ---- Frame IDs ----

/// Whether a frame ID code belongs to a [`TextFrame`](TextFrame).
pub open spec fn is_text_id(code: u32) -> bool {
    // Text
    code == 0x5441_4C42 // TALB
    || code == 0x5443_4F4D // TCOM
    || code == 0x5443_4F4E // TCON
    || code == 0x5443_4F50 // TCOP
    || code == 0x5445_4E43 // TENC
    || code == 0x5445_5854 // TEXT
    || code == 0x5446_4C54 // TFLT
    || code == 0x5449_5431 // TIT1
    || code == 0x5449_5432 // TIT2
    || code == 0x5449_5433 // TIT3
    || code == 0x544B_4559 // TKEY
    || code == 0x544C_414E // TLAN
    || code == 0x544D_4544 // TMED
    || code == 0x544F_414C // TOAL
    || code == 0x544F_464E // TOFN
    || code == 0x544F_4C59 // TOLY
    || code == 0x544F_5045 // TOPE
    || code == 0x544F_574E // TOWN
    || code == 0x5450_4531 // TPE1
    || code == 0x5450_4532 // TPE2
    || code == 0x5450_4533 // TPE3
    || code == 0x5450_4534 // TPE4
    || code == 0x5450_5542 // TPUB
    || code == 0x5452_534E // TRSN
    || code == 0x5452_534F // TRSO
    || code == 0x5453_5243 // TSRC
    || code == 0x5453_5345 // TSSE
    || code == 0x5452_4441 // TRDA
    || code == 0x544D_4F4F // TMOO
    || code == 0x5450_524F // TPRO
    || code == 0x5453_4F41 // TSOA
    || code == 0x5453_4F50 // TSOP
    || code == 0x5453_4F54 // TSOT
    || code == 0x5453_5354 // TSST
    || code == 0x5453_4F32 // TSO2
    || code == 0x5453_4F43 // TSOC
    || code == 0x5443_4154 // TCAT
    || code == 0x5444_4553 // TDES
    || code == 0x5447_4944 // TGID
    || code == 0x544B_5744 // TKWD
    // Numeric
    || code == 0x544C_454E // TLEN
    || code == 0x5459_4552 // TYER
    || code == 0x5444_4154 // TDAT
    || code == 0x5449_4D45 // TIME
    || code == 0x544F_5259 // TORY
    || code == 0x5453_495A // TSIZ
    || code == 0x5443_4D50 // TCMP
    || code == 0x5444_4C59 // TDLY
    || code == 0x5442_504D // TBPM
    // Numeric part
    || code == 0x5450_4F53 // TPOS
    || code == 0x5452_434B // TRCK
    // Timestamps
    || code == 0x5444_454E // TDEN
    || code == 0x5444_4F52 // TDOR
    || code == 0x5444_5243 // TDRC
    || code == 0x5444_524C // TDRL
    || code == 0x5444_5447 // TDTG
    // iTunes WFED [Podcast URL], MVNM [Movement Name], MVIN [Movement Number],
    // and GRP1 [Grouping] are all actually text frames
    || code == 0x5746_4544 // WFED
    || code == 0x4D56_4E4D // MVNM
    || code == 0x4D56_494E // MVIN
    || code == 0x4752_5031 // GRP1
}

/// The ID of a frame that is given by its four bytes, whose validity is checked here.
pub(crate) fn known_id(b0: u8, b1: u8, b2: u8, b3: u8) -> (r: FrameId)
    requires
        valid_frame_id(seq![b0, b1, b2, b3]),
    ensures
        r.spec_bytes() == seq![b0, b1, b2, b3],
{
    let id: [u8; 4] = [b0, b1, b2, b3];
    assert(id@ =~= seq![b0, b1, b2, b3]);
    FrameId::new(&id)
}

// ---- TextFrame ----

/// Specific text-based metadata.
///
/// This frame corresponds to many different frames, many with their own invariants that are
/// not enforced here for simplicity: word frames (such as `TIT2`, `TALB` and `TPE1`), numeric
/// frames (such as `TBPM`, `TLEN` and `TYER`), numeric part frames (`TPOS`, `TRCK`, `MVIN`) and
/// timestamp frames (such as `TDRC`). The iTunes frames `WFED`, `MVNM`, `MVIN` and `GRP1` are
/// text frames as well.
#[derive(Debug, Clone)]
pub struct TextFrame {
    frame_id: FrameId,
    /// The encoding that the frame will use to write `text`.
    pub encoding: Encoding,
    /// The text content of this frame. If the field is empty or if all strings
    /// in the field are empty, then the frame will not be written.
    pub text: Vec<String>,
}

impl TextFrame {
    /// The Frame ID of this frame.
    pub closed spec fn spec_frame_id(&self) -> FrameId {
        self.frame_id
    }

    /// The encoding of this frame.
    pub closed spec fn spec_encoding(&self) -> Encoding {
        self.encoding
    }

    /// The strings of this frame.
    pub closed spec fn spec_text(&self) -> Seq<String> {
        self.text@
    }

    /// Creates a new instance of this frame from `frame_id`, with the default encoding and
    /// no text.
    pub fn new(frame_id: FrameId) -> (r: Self)
        requires
            is_text_id(id_code(frame_id.spec_bytes())),
        ensures
            r.spec_frame_id() == frame_id,
            r.spec_encoding() == Encoding::Utf8,
            r.spec_text().len() == 0,
    {
        Self { frame_id, encoding: Encoding::default(), text: Vec::new() }
    }

    /// Returns if `frame_id` is valid for this frame.
    pub fn is_id(frame_id: FrameId) -> (r: bool)
        ensures
            r == is_text_id(id_code(frame_id.spec_bytes())),
    {
        let code = frame_id.code();
        // Text
        code == 0x5441_4C42 // TALB
        || code == 0x5443_4F4D // TCOM
        || code == 0x5443_4F4E // TCON
        || code == 0x5443_4F50 // TCOP
        || code == 0x5445_4E43 // TENC
        || code == 0x5445_5854 // TEXT
        || code == 0x5446_4C54 // TFLT
        || code == 0x5449_5431 // TIT1
        || code == 0x5449_5432 // TIT2
        || code == 0x5449_5433 // TIT3
        || code == 0x544B_4559 // TKEY
        || code == 0x544C_414E // TLAN
        || code == 0x544D_4544 // TMED
        || code == 0x544F_414C // TOAL
        || code == 0x544F_464E // TOFN
        || code == 0x544F_4C59 // TOLY
        || code == 0x544F_5045 // TOPE
        || code == 0x544F_574E // TOWN
        || code == 0x5450_4531 // TPE1
        || code == 0x5450_4532 // TPE2
        || code == 0x5450_4533 // TPE3
        || code == 0x5450_4534 // TPE4
        || code == 0x5450_5542 // TPUB
        || code == 0x5452_534E // TRSN
        || code == 0x5452_534F // TRSO
        || code == 0x5453_5243 // TSRC
        || code == 0x5453_5345 // TSSE
        || code == 0x5452_4441 // TRDA
        || code == 0x544D_4F4F // TMOO
        || code == 0x5450_524F // TPRO
        || code == 0x5453_4F41 // TSOA
        || code == 0x5453_4F50 // TSOP
        || code == 0x5453_4F54 // TSOT
        || code == 0x5453_5354 // TSST
        || code == 0x5453_4F32 // TSO2
        || code == 0x5453_4F43 // TSOC
        || code == 0x5443_4154 // TCAT
        || code == 0x5444_4553 // TDES
        || code == 0x5447_4944 // TGID
        || code == 0x544B_5744 // TKWD
        // Numeric
        || code == 0x544C_454E // TLEN
        || code == 0x5459_4552 // TYER
        || code == 0x5444_4154 // TDAT
        || code == 0x5449_4D45 // TIME
        || code == 0x544F_5259 // TORY
        || code == 0x5453_495A // TSIZ
        || code == 0x5443_4D50 // TCMP
        || code == 0x5444_4C59 // TDLY
        || code == 0x5442_504D // TBPM
        // Numeric part
        || code == 0x5450_4F53 // TPOS
        || code == 0x5452_434B // TRCK
        // Timestamps
        || code == 0x5444_454E // TDEN
        || code == 0x5444_4F52 // TDOR
        || code == 0x5444_5243 // TDRC
        || code == 0x5444_524C // TDRL
        || code == 0x5444_5447 // TDTG
        // iTunes frames that are actually text frames
        || code == 0x5746_4544 // WFED
        || code == 0x4D56_4E4D // MVNM
        || code == 0x4D56_494E // MVIN
        || code == 0x4752_5031 // GRP1
    }

    /// Whether `self` is what parsing `d` as the body of a `frame_id` frame gives.
    pub open spec fn is_parse_of(self, frame_id: FrameId, d: Seq<u8>) -> bool {
        &&& encoding::spec_parse(d) is Ok
        &&& self.spec_frame_id() == frame_id
        &&& self.spec_encoding() == encoding::spec_parse(d)->Ok_0
        &&& strings_view(self.spec_text()) == spec_parse_text(self.spec_encoding(), d.drop_first())
    }

    /// Parses the body of a `frame_id` frame from the rest of `stream`.
    ///
    /// # Errors
    /// If the encoding flag is missing or invalid, an error is returned.
    pub fn parse(frame_id: FrameId, stream: &mut BufStream) -> (r: ParseResult<Self>)
        ensures
            match r {
                Ok(f) => f.is_parse_of(frame_id, old(stream).rest()),
                Err(e) => encoding::spec_parse(old(stream).rest()) == Err::<Encoding, ParseError>(e),
            },
    {
        let encoding = match encoding::parse(stream) {
            Ok(e) => e,
            Err(e) => return Err(e),
        };
        let text = parse_text(encoding, stream);
        Ok(Self { frame_id, encoding, text })
    }

    /// The body of this frame in a tag of `version`.
    ///
    /// The encoding byte is that of the frame's own encoding, while the text is written in the
    /// encoding that a tag of `version` supports in its place: UTF-8 or UTF-16BE text in an
    /// ID3v2.3 tag is written as UTF-16 under the byte of UTF-8 or UTF-16BE.
    pub open spec fn spec_render(&self, version: Version) -> Seq<u8> {
        let enc = encoding::spec_check(self.spec_encoding(), version);
        seq![encoding::spec_render(self.spec_encoding())] + spec_render_text(enc, strings_view(self.spec_text()))
    }

    /// The text of this frame, its strings joined with `, `.
    pub fn display(&self) -> (r: String)
        ensures
            r@ == spec_join(strings_view(self.spec_text())),
    {
        join_strings(self.text.as_slice())
    }

    /// Creates a new instance of this frame from `frame_id` with the default encoding and the
    /// strings `text`.
    pub fn with_strings(frame_id: FrameId, text: Vec<String>) -> (r: Self)
        requires
            is_text_id(id_code(frame_id.spec_bytes())),
        ensures
            r.spec_frame_id() == frame_id,
            r.spec_encoding() == Encoding::Utf8,
            r.spec_text() == text@,
    {
        Self { frame_id, encoding: Encoding::default(), text }
    }

    /// Takes the strings of this frame.
    pub fn into_strings(self) -> (r: Vec<String>)
        ensures
            r@ == self.spec_text(),
    {
        self.text
    }

    /// Returns the strings of this frame.
    pub fn strings(&self) -> (r: &[String])
        ensures
            r@ == self.spec_text(),
    {
        self.text.as_slice()
    }

    /// Adds the strings of `other` after the strings of this frame.
    pub fn merge(&mut self, other: TextFrame)
        ensures
            final(self).spec_frame_id() == old(self).spec_frame_id(),
            final(self).spec_encoding() == old(self).spec_encoding(),
            final(self).spec_text() == old(self).spec_text() + other.spec_text(),
    {
        let mut more = other.text;
        self.text.append(&mut more);
    }
}

/// Whether every string of `text` is empty.
pub open spec fn all_empty(text: Seq<String>) -> bool {
    forall|i: int| 0 <= i < text.len() ==> (#[trigger] text[i])@.len() == 0
}

fn strings_all_empty(text: &[String]) -> (r: bool)
    ensures
        r == all_empty(text@),
{
    let mut i: usize = 0;
    while i < text.len()
        invariant
            i <= text@.len(),
            forall|j: int| 0 <= j < i ==> (#[trigger] text@[j])@.len() == 0,
        decreases text@.len() - i,
    {
        if !text[i].as_str().is_empty() {
            return false;
        }
        i = i + 1;
    }
    true
}

/// Strings joined with `, `.
pub open spec fn spec_join(text: Seq<Seq<char>>) -> Seq<char>
    decreases text.len(),
{
    if text.len() == 0 {
        Seq::empty()
    } else if text.len() == 1 {
        text[0]
    } else {
        spec_join(text.drop_last()) + seq![',', ' '] + text.last()
    }
}

/// Joins strings with `, `.
pub fn join_strings(text: &[String]) -> (r: String)
    ensures
        r@ == spec_join(strings_view(text@)),
{
    let mut result = String::new();
    let mut i: usize = 0;
    while i < text.len()
        invariant
            i <= text@.len(),
            result@ == spec_join(strings_view(text@.take(i as int))),
        decreases text@.len() - i,
    {
        if i > 0 {
            result.append(", ");
        }
        result.append(text[i].as_str());
        proof {
            let prev = strings_view(text@.take(i as int));
            let next = strings_view(text@.take(i + 1));
            assert(next.drop_last() =~= prev);
            reveal_strlit(", ");
            if i == 0 {
                assert(next =~= seq![text@[0]@]);
            }
        }
        i = i + 1;
    }
    proof {
        assert(text@.take(i as int) =~= text@);
    }
    result
}

impl Frame for TextFrame {
    fn id(&self) -> (r: FrameId)
        ensures
            r == self.spec_frame_id(),
    {
        self.frame_id
    }

    fn key(&self) -> (r: String)
        ensures
            r@ == ascii_chars(self.spec_frame_id().spec_bytes()),
    {
        String::from_str(self.frame_id.as_str())
    }

    fn is_empty(&self) -> (r: bool)
        ensures
            r == all_empty(self.spec_text()),
    {
        strings_all_empty(self.text.as_slice())
    }

    fn render(&self, tag_header: &TagHeader) -> (r: Vec<u8>)
        ensures
            r@ == self.spec_render(tag_header.version()),
    {
        let mut result: Vec<u8> = Vec::new();
        let encoding = encoding::check(self.encoding, tag_header.version());
        result.push(encoding::render(self.encoding));
        let mut text = render_text(encoding, self.text.as_slice());
        result.append(&mut text);
        result
    }
}

/// A text frame written to a tag of `version` is read back with the encoding it was written
/// in and its strings, where its encoding byte names that encoding and each of its strings
/// can be written and read back.
pub proof fn lemma_text_frame_roundtrip(f: TextFrame, version: Version)
    requires
        encoding::flag_matches(f.spec_encoding(), version),
        writable_strings(encoding::spec_check(f.spec_encoding(), version), strings_view(f.spec_text())),
    ensures
        encoding::spec_parse(f.spec_render(version)) == Ok::<Encoding, ParseError>(
            encoding::spec_check(f.spec_encoding(), version),
        ),
        spec_parse_text(encoding::spec_check(f.spec_encoding(), version), f.spec_render(version).drop_first())
            == strings_view(f.spec_text()),
        forall|g: TextFrame|
            #[trigger] g.is_parse_of(f.spec_frame_id(), f.spec_render(version)) ==> g.spec_frame_id()
                == f.spec_frame_id() && g.spec_encoding() == encoding::spec_check(f.spec_encoding(), version)
                && strings_view(g.spec_text()) == strings_view(f.spec_text()),
{
    let e = encoding::spec_check(f.spec_encoding(), version);
    let body = spec_render_text(e, strings_view(f.spec_text()));
    encoding::lemma_flag_roundtrip(e, body);
    lemma_text_roundtrip(e, strings_view(f.spec_text()));
    assert(f.spec_render(version) =~= seq![encoding::spec_render(e)] + body);
    assert((seq![encoding::spec_render(e)] + body).drop_first() =~= body);
}

// ---- UserTextFrame ----

/// Text information not represented by other frames.
///
/// This frame can be used to add program-defined tags without having to create a new frame
/// implementation. The only ID for this frame is `TXXX`. Identifying information should be
/// put into the `desc` field.
#[derive(Debug, Clone)]
pub struct UserTextFrame {
    /// The encoding that the frame will use to write `desc` and `text`.
    pub encoding: Encoding,
    /// A description of the contents in this frame. This should be unique
    /// and non-empty.
    pub desc: String,
    /// The text content of this frame.
    pub text: Vec<String>,
}

impl Default for UserTextFrame {
    fn default() -> (r: Self)
        ensures
            r.encoding == Encoding::Utf8,
            r.desc@.len() == 0,
            r.text@.len() == 0,
    {
        Self { encoding: Encoding::default(), desc: String::new(), text: Vec::new() }
    }
}

impl UserTextFrame {
    /// Whether `self` is what parsing `d` as the body of a `TXXX` frame gives.
    pub open spec fn is_parse_of(self, d: Seq<u8>) -> bool {
        let rest = d.drop_first();
        &&& encoding::spec_parse(d) is Ok
        &&& self.encoding == encoding::spec_parse(d)->Ok_0
        &&& self.desc@ == spec_decode(self.encoding, terminated_data(self.encoding, rest))
        &&& strings_view(self.text@) == spec_parse_text(
            self.encoding,
            rest.skip(terminated_len(self.encoding, rest) as int),
        )
    }

    /// Parses the body of a `TXXX` frame from the rest of `stream`.
    ///
    /// # Errors
    /// If the encoding flag is missing or invalid, an error is returned.
    pub fn parse(stream: &mut BufStream) -> (r: ParseResult<Self>)
        ensures
            match r {
                Ok(f) => f.is_parse_of(old(stream).rest()),
                Err(e) => encoding::spec_parse(old(stream).rest()) == Err::<Encoding, ParseError>(e),
            },
    {
        let encoding = match encoding::parse(stream) {
            Ok(e) => e,
            Err(e) => return Err(e),
        };
        let desc = string::read_terminated(encoding, stream);
        let text = parse_text(encoding, stream);
        Ok(Self { encoding, desc, text })
    }

    /// The body of this frame in a tag of `version`.
    ///
    /// The encoding byte is that of the frame's own encoding, while the text is written in the
    /// encoding that a tag of `version` supports in its place: UTF-8 or UTF-16BE text in an
    /// ID3v2.3 tag is written as UTF-16 under the byte of UTF-8 or UTF-16BE.
    pub open spec fn spec_render(&self, version: Version) -> Seq<u8> {
        let enc = encoding::spec_check(self.encoding, version);
        seq![encoding::spec_render(self.encoding)] + spec_render(enc, self.desc@) + spec_nul(enc)
            + spec_render_text(enc, strings_view(self.text@))
    }

    /// The text of this frame, its strings joined with `, `.
    pub fn display(&self) -> (r: String)
        ensures
            r@ == spec_join(strings_view(self.text@)),
    {
        join_strings(self.text.as_slice())
    }
}

/// A user text frame written to a tag of `version` is read back with the encoding it was
/// written in, its description and its strings, where its encoding byte names that encoding,
/// the description has no NUL character and fits the encoding, and each string can be written
/// and read back.
pub proof fn lemma_user_text_roundtrip(f: UserTextFrame, version: Version)
    requires
        encoding::flag_matches(f.encoding, version),
        no_nul_char(f.desc@),
        fits(encoding::spec_check(f.encoding, version), f.desc@),
        writable_strings(encoding::spec_check(f.encoding, version), strings_view(f.text@)),
    ensures
        encoding::spec_parse(f.spec_render(version)) == Ok::<Encoding, ParseError>(
            encoding::spec_check(f.encoding, version),
        ),
        forall|g: UserTextFrame|
            #[trigger] g.is_parse_of(f.spec_render(version)) ==> g.encoding == encoding::spec_check(
                f.encoding,
                version,
            ) && g.desc@ == f.desc@ && strings_view(g.text@) == strings_view(f.text@),
{
    let e = encoding::spec_check(f.encoding, version);
    let text = spec_render_text(e, strings_view(f.text@));
    let rest = spec_render(e, f.desc@) + spec_nul(e) + text;
    encoding::lemma_flag_roundtrip(e, rest);
    assert(f.spec_render(version) =~= seq![encoding::spec_render(e)] + rest);
    assert((seq![encoding::spec_render(e)] + rest).drop_first() =~= rest);
    lemma_terminated_roundtrip(e, f.desc@, text);
    lemma_text_roundtrip(e, strings_view(f.text@));
}

/// The key of a frame made of an ID and one distinguishing string.
pub open spec fn key_with(id: Seq<u8>, s: Seq<char>) -> Seq<char> {
    ascii_chars(id) + seq![':'] + s
}

/// The key of a frame made of an ID and two distinguishing strings.
pub open spec fn key_with2(id: Seq<u8>, s: Seq<char>, t: Seq<char>) -> Seq<char> {
    ascii_chars(id) + seq![':'] + s + seq![':'] + t
}

/// Builds the key `id:s`.
pub(crate) fn make_key(id: FrameId, s: &str) -> (r: String)
    ensures
        r@ == key_with(id.spec_bytes(), s@),
{
    let mut key = String::from_str(id.as_str());
    key.append(":");
    key.append(s);
    proof {
        reveal_strlit(":");
    }
    key
}

/// Builds the key `id:s:t`.
pub(crate) fn make_key2(id: FrameId, s: &str, t: &str) -> (r: String)
    ensures
        r@ == key_with2(id.spec_bytes(), s@, t@),
{
    let mut key = make_key(id, s);
    key.append(":");
    key.append(t);
    proof {
        reveal_strlit(":");
    }
    key
}

/// The bytes of `TXXX`.
pub open spec fn txxx() -> Seq<u8> {
    seq![0x54u8, 0x58u8, 0x58u8, 0x58u8]
}

impl Frame for UserTextFrame {
    fn id(&self) -> (r: FrameId)
        ensures
            r.spec_bytes() == txxx(),
    {
        known_id(0x54, 0x58, 0x58, 0x58)
    }

    fn key(&self) -> (r: String)
        ensures
            r@ == key_with(txxx(), self.desc@),
    {
        make_key(self.id(), self.desc.as_str())
    }

    fn is_empty(&self) -> (r: bool)
        ensures
            r == (self.desc@.len() == 0 && self.text@.len() == 0),
    {
        self.desc.as_str().is_empty() && self.text.len() == 0
    }

    fn render(&self, tag_header: &TagHeader) -> (r: Vec<u8>)
        ensures
            r@ == self.spec_render(tag_header.version()),
    {
        let mut result: Vec<u8> = Vec::new();
        let encoding = encoding::check(self.encoding, tag_header.version());
        result.push(encoding::render(self.encoding));
        // Append the description, then the text normally.
        let mut desc = string::render_terminated(encoding, self.desc.as_str());
        result.append(&mut desc);
        let mut text = render_text(encoding, self.text.as_slice());
        result.append(&mut text);
        result
    }
}

// ---- CommentsFrame ----

/// A frame that contains a comment.
///
/// This frame differs from [`UserTextFrame`](UserTextFrame) in that instead of containing
/// program-defined text information, the frame instead contains user-defined text information
/// without any specific format.
#[derive(Debug, Clone)]
pub struct CommentsFrame {
    /// The encoding that the frame will use to write `desc` and `text`.
    pub encoding: Encoding,
    /// The language that `desc` and `text` is written in.
    pub lang: Language,
    /// The description of the text, usually written by a user. Can be empty.
    pub desc: String,
    /// The text contents of this frame.
    pub text: String,
}

impl Default for CommentsFrame {
    fn default() -> (r: Self)
        ensures
            r.encoding == Encoding::Utf8,
            r.lang.spec_code() == seq![0x78u8, 0x78u8, 0x78u8],
            r.desc@.len() == 0,
            r.text@.len() == 0,
    {
        Self {
            encoding: Encoding::default(),
            lang: Language::default(),
            desc: String::new(),
            text: String::new(),
        }
    }
}

/// The error of a frame body that starts with an encoding flag and a language code, or
/// `None` when both can be read.
pub open spec fn lang_header_error(d: Seq<u8>) -> Option<ParseError> {
    match encoding::spec_parse(d) {
        Err(e) => Some(e),
        Ok(_) => if d.len() < 4 {
            Some(read_error(d, 1, 3))
        } else {
            None
        },
    }
}

/// Reads the language code that follows an encoding flag.
pub(crate) fn read_language(stream: &mut BufStream) -> (r: ParseResult<Language>)
    ensures
        final(stream).data() == old(stream).data(),
        match r {
            Ok(l) => {
                &&& old(stream).rest().len() >= 3
                &&& l.spec_code() == spec_language_or_default(old(stream).rest().take(3))
                &&& final(stream).rest() == old(stream).rest().skip(3)
            },
            Err(e) => {
                &&& old(stream).rest().len() < 3
                &&& e == ParseError::IoError(
                    crate::io::StreamError::BufferUnderread {
                        len: 3,
                        remaining: old(stream).rest().len() as usize,
                    },
                )
            },
        },
{
    match stream.read_array::<3>() {
        Ok(code) => Ok(Language::or_default(&code)),
        Err(e) => Err(ParseError::IoError(e)),
    }
}

impl CommentsFrame {
    /// Whether `self` is what parsing `d` as the body of a `COMM` frame gives.
    pub open spec fn is_parse_of(self, d: Seq<u8>) -> bool {
        let rest = d.skip(4);
        &&& lang_header_error(d) is None
        &&& self.encoding == encoding::spec_parse(d)->Ok_0
        &&& self.lang.spec_code() == spec_language_or_default(d.subrange(1, 4))
        &&& self.desc@ == spec_decode(self.encoding, terminated_data(self.encoding, rest))
        &&& self.text@ == spec_decode(
            self.encoding,
            rest.skip(terminated_len(self.encoding, rest) as int),
        )
    }

    /// Parses the body of a `COMM` frame from the rest of `stream`.
    ///
    /// # Errors
    /// If the encoding flag is missing or invalid, or the language code is cut short, an error
    /// is returned.
    pub fn parse(stream: &mut BufStream) -> (r: ParseResult<Self>)
        ensures
            match r {
                Ok(f) => f.is_parse_of(old(stream).rest()),
                Err(e) => lang_header_error(old(stream).rest()) == Some(e),
            },
    {
        let ghost d = stream.rest();
        let encoding = match encoding::parse(stream) {
            Ok(e) => e,
            Err(e) => return Err(e),
        };
        let lang = match read_language(stream) {
            Ok(l) => l,
            Err(e) => return Err(e),
        };
        let desc = string::read_terminated(encoding, stream);
        let text = string::read(encoding, stream);
        proof {
            assert(d.drop_first().take(3) =~= d.subrange(1, 4));
            assert(d.drop_first().skip(3) =~= d.skip(4));
        }
        Ok(Self { encoding, lang, desc, text })
    }

    /// The body of this frame in a tag of `version`.
    pub open spec fn spec_render(&self, version: Version) -> Seq<u8> {
        let enc = encoding::spec_check(self.encoding, version);
        seq![encoding::spec_render(enc)] + self.lang.spec_code() + spec_render(enc, self.desc@)
            + spec_nul(enc) + spec_render(enc, self.text@)
    }

    /// The text of this frame.
    pub fn display(&self) -> (r: String)
        ensures
            r@ == self.text@,
    {
        self.text.clone()
    }
}

/// A comment written to a tag of `version` is read back with the encoding it was written in,
/// its description and its text, where the description has no NUL character and both fit
/// the encoding. Its language is read back as the code it holds where that is a language
/// code, and as `xxx` otherwise.
pub proof fn lemma_comments_roundtrip(f: CommentsFrame, version: Version)
    requires
        no_nul_char(f.desc@),
        fits(encoding::spec_check(f.encoding, version), f.desc@),
        fits(encoding::spec_check(f.encoding, version), f.text@),
    ensures
        lang_header_error(f.spec_render(version)) is None,
        forall|g: CommentsFrame|
            #[trigger] g.is_parse_of(f.spec_render(version)) ==> g.encoding == encoding::spec_check(
                f.encoding,
                version,
            ) && g.lang.spec_code() == spec_language_or_default(f.lang.spec_code()) && g.desc@
                == f.desc@ && g.text@ == f.text@,
{
    let e = encoding::spec_check(f.encoding, version);
    let d = f.spec_render(version);
    let code = f.lang.spec_code();
    let text = spec_render(e, f.text@);
    let rest = spec_render(e, f.desc@) + spec_nul(e) + text;
    f.lang.lemma_code_len();
    encoding::lemma_flag_roundtrip(e, code + rest);
    assert(d =~= seq![encoding::spec_render(e)] + (code + rest));
    assert(d.subrange(1, 4) =~= code);
    assert(d.skip(4) =~= rest);
    lemma_terminated_roundtrip(e, f.desc@, text);
    lemma_render_decode(e, f.text@);
}

/// The bytes of `COMM`.
pub open spec fn comm() -> Seq<u8> {
    seq![0x43u8, 0x4Fu8, 0x4Du8, 0x4Du8]
}

impl Frame for CommentsFrame {
    fn id(&self) -> (r: FrameId)
        ensures
            r.spec_bytes() == comm(),
    {
        known_id(0x43, 0x4F, 0x4D, 0x4D)
    }

    fn key(&self) -> (r: String)
        ensures
            r@ == key_with2(comm(), self.desc@, ascii_chars(self.lang.spec_code())),
    {
        make_key2(self.id(), self.desc.as_str(), self.lang.as_str())
    }

    fn is_empty(&self) -> (r: bool)
        ensures
            r == (self.text@.len() == 0),
    {
        self.text.as_str().is_empty()
    }

    fn render(&self, tag_header: &TagHeader) -> (r: Vec<u8>)
        ensures
            r@ == self.spec_render(tag_header.version()),
    {
        let mut result: Vec<u8> = Vec::new();
        let encoding = encoding::check(self.encoding, tag_header.version());
        result.push(encoding::render(encoding));
        let lang = self.lang.inner();
        result.push(lang[0]);
        result.push(lang[1]);
        result.push(lang[2]);
        let mut desc = string::render_terminated(encoding, self.desc.as_str());
        result.append(&mut desc);
        let mut text = string::render(encoding, self.text.as_str());
        result.append(&mut text);
        proof {
            assert(lang@ =~= seq![lang[0], lang[1], lang[2]]);
        }
        result
    }
}

// ---- CreditsFrame ----

/// Whether a frame ID code belongs to a [`CreditsFrame`](CreditsFrame): `IPLS`, `TIPL` or
/// `TMCL`.
pub open spec fn is_credits_id(code: u32) -> bool {
    code == 0x4950_4C53 // IPLS
    || code == 0x5449_504C // TIPL
    || code == 0x544D_434C // TMCL
}

/// The bytes of `TIPL`.
pub open spec fn tipl() -> Seq<u8> {
    seq![0x54u8, 0x49u8, 0x50u8, 0x4Cu8]
}

/// The bytes of `TMCL`.
pub open spec fn tmcl() -> Seq<u8> {
    seq![0x54u8, 0x4Du8, 0x43u8, 0x4Cu8]
}

/// The bytes of `IPLS`.
pub open spec fn ipls() -> Seq<u8> {
    seq![0x49u8, 0x50u8, 0x4Cu8, 0x53u8]
}

/// The key of a credits frame with ID `id`: `TMCL` for a musician credits list, and `TIPL`
/// for an involved people list of either version.
pub open spec fn credits_key(id: Seq<u8>) -> Seq<char> {
    if id == tmcl() {
        ascii_chars(tmcl())
    } else {
        ascii_chars(tipl())
    }
}

/// The role and people pairs of `pairs`, both taken by their characters.
pub open spec fn pairs_view(pairs: Seq<(String, String)>) -> Seq<(Seq<char>, Seq<char>)> {
    pairs.map_values(|e: (String, String)| (e.0@, e.1@))
}

/// The first `n` strings of `text` taken two at a time as role and people pairs, each put in
/// under its role in place of an earlier pair with that role.
pub open spec fn credits_of(text: Seq<Seq<char>>, n: nat) -> Seq<(Seq<char>, Seq<char>)>
    decreases n,
{
    if n < 2 {
        Seq::empty()
    } else {
        let m = (n - 2) as nat;
        entries_insert(credits_of(text, m), text[m as int], text[m as int + 1])
    }
}

/// The pairs of `pairs` whose role and people are both present.
pub open spec fn complete_pairs(pairs: Seq<(Seq<char>, Seq<char>)>) -> Seq<(Seq<char>, Seq<char>)>
    decreases pairs.len(),
{
    if pairs.len() == 0 {
        Seq::empty()
    } else {
        let rest = complete_pairs(pairs.drop_last());
        if pairs.last().0.len() > 0 && pairs.last().1.len() > 0 {
            rest.push(pairs.last())
        } else {
            rest
        }
    }
}

/// The bytes of role and people pairs: each role terminated, then its people, with a
/// terminator between pairs.
pub open spec fn spec_render_pairs(enc: Encoding, pairs: Seq<(Seq<char>, Seq<char>)>) -> Seq<u8>
    decreases pairs.len(),
{
    if pairs.len() == 0 {
        Seq::empty()
    } else {
        let front = spec_render_pairs(enc, pairs.drop_last());
        let pair = spec_render(enc, pairs.last().0) + spec_nul(enc) + spec_render(enc, pairs.last().1);
        if pairs.len() == 1 {
            pair
        } else {
            front + spec_nul(enc) + pair
        }
    }
}

/// The pairs of `a` with the pairs of `b` put in after them, in order, each in place of a
/// pair with its role.
pub open spec fn people_extend(a: Seq<(Seq<char>, Seq<char>)>, b: Seq<(Seq<char>, Seq<char>)>) -> Seq<(Seq<char>, Seq<char>)>
    decreases b.len(),
{
    if b.len() == 0 {
        a
    } else {
        entries_insert(people_extend(a, b.drop_last()), b.last().0, b.last().1)
    }
}

/// The lines `role: people` of role and people pairs, one line for each pair.
pub open spec fn credits_lines(pairs: Seq<(Seq<char>, Seq<char>)>) -> Seq<char>
    decreases pairs.len(),
{
    if pairs.len() == 0 {
        Seq::empty()
    } else {
        let line = pairs.last().0 + seq![':', ' '] + pairs.last().1;
        if pairs.len() == 1 {
            line
        } else {
            credits_lines(pairs.drop_last()) + seq!['\n'] + line
        }
    }
}

/// The place among `pairs` of the first pair whose role does not come before `role`.
fn role_position(pairs: &Vec<(String, String)>, role: &str) -> (p: usize)
    requires
        keys_sorted(pairs_view(pairs@)),
    ensures
        p == key_position(pairs_view(pairs@), role@),
{
    let ghost view = pairs_view(pairs@);
    let mut i: usize = 0;
    while i < pairs.len() && key_before(pairs[i].0.as_str(), role)
        invariant
            view == pairs_view(pairs@),
            i <= pairs.len(),
            forall|j: int| 0 <= j < i ==> key_lt(#[trigger] view[j].0, role@),
        decreases pairs.len() - i,
    {
        i = i + 1;
    }
    proof {
        lemma_position_at(view, role@, i as int);
    }
    i
}

/// Puts the pair `role`, `people` into `pairs` under its role, in place of a pair with that
/// role.
fn insert_pair(pairs: &mut Vec<(String, String)>, role: String, people: String)
    requires
        keys_sorted(pairs_view(old(pairs)@)),
    ensures
        keys_sorted(pairs_view(final(pairs)@)),
        pairs_view(final(pairs)@) == entries_insert(pairs_view(old(pairs)@), role@, people@),
{
    let ghost before = pairs_view(pairs@);
    let ghost k = role@;
    let ghost v = people@;
    let p = role_position(pairs, role.as_str());
    proof {
        lemma_key_position(before, k);
        lemma_insert_sorted(before, k, v);
    }
    if p < pairs.len() && same_key(pairs[p].0.as_str(), role.as_str()) {
        pairs.set(p, (role, people));
    } else {
        pairs.insert(p, (role, people));
    }
    proof {
        assert(pairs_view(pairs@) =~= entries_insert(before, k, v));
    }
}

/// A mapping between involved people and their roles.
///
/// All entries in this frame are kept in alphabetical order, by role. A role cannot be mapped
/// to multiple strings. It's recommended that `TIPL` and `TMCL` are used over `IPLS`, as those
/// frames will automatically be downgraded to `IPLS` if the tag is saved with ID3v2.3.
///
/// ```text
/// IPLS [ID3v2.3] Maps between a role and a list of people for that role
/// TIPL [ID3v2.4] Maps between a role and a list of people for that role
/// TMCL [ID3v2.4] Maps between an instrument and the people who played that instrument
/// ```
///
/// Regardless of the version, `TIPL` and `TMCL` are the keys of the frame in a
/// [`FrameMap`](crate::id3v2::collections::FrameMap).
#[derive(Debug)]
pub struct CreditsFrame {
    frame_id: FrameId,
    encoding: Encoding,
    people: Vec<(String, String)>,
}

impl CreditsFrame {
    #[verifier::type_invariant]
    spec fn inv(&self) -> bool {
        &&& is_credits_id(id_code(self.frame_id.spec_bytes()))
        &&& keys_sorted(pairs_view(self.people@))
    }

    /// The Frame ID of this frame.
    pub closed spec fn spec_frame_id(&self) -> FrameId {
        self.frame_id
    }

    /// The encoding that the frame will use to write its people.
    pub closed spec fn spec_encoding(&self) -> Encoding {
        self.encoding
    }

    /// The role and people pairs of this frame, in the order of the roles.
    pub closed spec fn spec_people(&self) -> Seq<(Seq<char>, Seq<char>)> {
        pairs_view(self.people@)
    }

    /// Creates a new instance of this frame from `frame_id`, with the default encoding and no
    /// people.
    pub fn new(frame_id: FrameId) -> (r: Self)
        requires
            is_credits_id(id_code(frame_id.spec_bytes())),
        ensures
            r.spec_frame_id() == frame_id,
            r.spec_encoding() == Encoding::Utf8,
            r.spec_people().len() == 0,
    {
        let r = Self { frame_id, encoding: Encoding::default(), people: Vec::new() };
        proof {
            assert(pairs_view(r.people@) =~= Seq::<(Seq<char>, Seq<char>)>::empty());
        }
        r
    }

    /// Returns if `frame_id` is valid for this frame.
    pub fn is_id(frame_id: FrameId) -> (r: bool)
        ensures
            r == is_credits_id(id_code(frame_id.spec_bytes())),
    {
        let code = frame_id.code();
        code == 0x4950_4C53 || code == 0x5449_504C || code == 0x544D_434C
    }

    /// Returns the encoding that the frame will use to write its people.
    pub fn encoding(&self) -> (r: Encoding)
        ensures
            r == self.spec_encoding(),
    {
        self.encoding
    }

    /// Sets the encoding that the frame will use to write its people.
    pub fn set_encoding(&mut self, encoding: Encoding)
        ensures
            final(self).spec_frame_id() == old(self).spec_frame_id(),
            final(self).spec_encoding() == encoding,
            final(self).spec_people() == old(self).spec_people(),
    {
        proof {
            use_type_invariant(&*self);
        }
        self.encoding = encoding;
    }

    /// Returns the role and people pairs of this frame, in the order of the roles.
    pub fn people(&self) -> (r: &[(String, String)])
        ensures
            pairs_view(r@) == self.spec_people(),
            keys_sorted(self.spec_people()),
    {
        proof {
            use_type_invariant(self);
        }
        self.people.as_slice()
    }

    /// Returns the people of `role`, if there are any.
    pub fn get(&self, role: &str) -> (r: Option<&String>)
        ensures
            keys_sorted(self.spec_people()),
            r matches Some(p) ==> lookup(self.spec_people(), role@) == Some(p@),
            r is None ==> lookup(self.spec_people(), role@) is None,
    {
        proof {
            use_type_invariant(self);
        }
        let p = role_position(&self.people, role);
        if p < self.people.len() && same_key(self.people[p].0.as_str(), role) {
            Some(&self.people[p].1)
        } else {
            None
        }
    }

    /// Maps `role` to `people`, in place of the people that `role` was mapped to before.
    pub fn insert(&mut self, role: String, people: String)
        ensures
            final(self).spec_frame_id() == old(self).spec_frame_id(),
            final(self).spec_encoding() == old(self).spec_encoding(),
            final(self).spec_people() == entries_insert(old(self).spec_people(), role@, people@),
    {
        proof {
            use_type_invariant(&*self);
        }
        let mut pairs: Vec<(String, String)> = Vec::new();
        std::mem::swap(&mut pairs, &mut self.people);
        insert_pair(&mut pairs, role, people);
        self.people = pairs;
    }

    /// Puts the pairs of `other` into this frame, in order, each in place of a pair with its
    /// role.
    pub fn extend(&mut self, other: CreditsFrame)
        ensures
            final(self).spec_frame_id() == old(self).spec_frame_id(),
            final(self).spec_encoding() == old(self).spec_encoding(),
            final(self).spec_people() == people_extend(old(self).spec_people(), other.spec_people()),
    {
        proof {
            use_type_invariant(&*self);
        }
        let ghost more = other.spec_people();
        let mut pairs: Vec<(String, String)> = Vec::new();
        std::mem::swap(&mut pairs, &mut self.people);
        let ghost start = pairs_view(pairs@);
        let CreditsFrame { people: others, .. } = other;
        let mut i: usize = 0;
        while i < others.len()
            invariant
                i <= others@.len(),
                more == pairs_view(others@),
                keys_sorted(pairs_view(pairs@)),
                pairs_view(pairs@) == people_extend(start, more.take(i as int)),
            decreases others@.len() - i,
        {
            let role = others[i].0.clone();
            let those = others[i].1.clone();
            insert_pair(&mut pairs, role, those);
            proof {
                assert(more.take(i + 1).drop_last() =~= more.take(i as int));
                assert(more.take(i + 1).last() == more[i as int]);
            }
            i = i + 1;
        }
        proof {
            assert(more.take(i as int) =~= more);
        }
        self.people = pairs;
    }

    /// Changes the ID of this frame to another credits frame ID.
    pub(crate) fn set_id(&mut self, frame_id: FrameId)
        requires
            is_credits_id(id_code(frame_id.spec_bytes())),
        ensures
            final(self).spec_frame_id() == frame_id,
            final(self).spec_encoding() == old(self).spec_encoding(),
            final(self).spec_people() == old(self).spec_people(),
    {
        proof {
            use_type_invariant(&*self);
        }
        self.frame_id = frame_id;
    }

    /// Whether `self` is what parsing `d` as the body of a `frame_id` frame gives: the strings
    /// after the encoding flag, a trailing unpaired string dropped, taken two at a time.
    pub open spec fn is_parse_of(self, frame_id: FrameId, d: Seq<u8>) -> bool {
        let text = spec_parse_text(self.spec_encoding(), d.drop_first());
        &&& encoding::spec_parse(d) is Ok
        &&& self.spec_frame_id() == frame_id
        &&& self.spec_encoding() == encoding::spec_parse(d)->Ok_0
        &&& self.spec_people() == credits_of(text, (text.len() - text.len() % 2) as nat)
    }

    /// Parses the body of a `frame_id` frame from the rest of `stream`.
    ///
    /// # Errors
    /// If the encoding flag is missing or invalid, an error is returned.
    pub fn parse(frame_id: FrameId, stream: &mut BufStream) -> (r: ParseResult<Self>)
        requires
            is_credits_id(id_code(frame_id.spec_bytes())),
        ensures
            match r {
                Ok(f) => f.is_parse_of(frame_id, old(stream).rest()),
                Err(e) => encoding::spec_parse(old(stream).rest()) == Err::<Encoding, ParseError>(e),
            },
    {
        let encoding = match encoding::parse(stream) {
            Ok(e) => e,
            Err(e) => return Err(e),
        };
        let text = parse_text(encoding, stream);
        let ghost strings = strings_view(text@);
        // The spec says that the frame must contain an even number of strings; an unpaired
        // string at the end is dropped.
        let n = text.len() - text.len() % 2;
        let mut people: Vec<(String, String)> = Vec::new();
        let mut i: usize = 0;
        proof {
            assert(pairs_view(people@) =~= Seq::<(Seq<char>, Seq<char>)>::empty());
        }
        while i < n
            invariant
                n <= text.len(),
                n % 2 == 0,
                i % 2 == 0,
                i <= n,
                strings == strings_view(text@),
                keys_sorted(pairs_view(people@)),
                pairs_view(people@) == credits_of(strings, i as nat),
            decreases n - i,
        {
            let role = text[i].clone();
            let those = text[i + 1].clone();
            proof {
                assert(strings[i as int] == role@);
                assert(strings[i + 1] == those@);
            }
            insert_pair(&mut people, role, those);
            i = i + 2;
        }
        Ok(Self { frame_id, encoding, people })
    }

    /// The body of this frame in a tag of `version`: the pairs whose role and people are both
    /// present, as incomplete pairs would make the frame malformed.
    ///
    /// The encoding byte is that of the frame's own encoding, while the text is written in the
    /// encoding that a tag of `version` supports in its place: UTF-8 or UTF-16BE text in an
    /// ID3v2.3 tag is written as UTF-16 under the byte of UTF-8 or UTF-16BE.
    pub open spec fn spec_render(&self, version: Version) -> Seq<u8> {
        let enc = encoding::spec_check(self.spec_encoding(), version);
        seq![encoding::spec_render(self.spec_encoding())] + spec_render_pairs(enc, complete_pairs(self.spec_people()))
    }

    /// The pairs of this frame, one line `role: people` for each.
    pub fn display(&self) -> (r: String)
        ensures
            r@ == credits_lines(self.spec_people()),
    {
        let mut result = String::new();
        let mut i: usize = 0;
        let ghost all = self.spec_people();
        while i < self.people.len()
            invariant
                all == self.spec_people(),
                i <= self.people@.len(),
                result@ == credits_lines(all.take(i as int)),
            decreases self.people@.len() - i,
        {
            if i > 0 {
                result.append("\n");
            }
            result.append(self.people[i].0.as_str());
            result.append(": ");
            result.append(self.people[i].1.as_str());
            proof {
                reveal_strlit("\n");
                reveal_strlit(": ");
                assert(all.take(i + 1).drop_last() =~= all.take(i as int));
                assert(all.take(i + 1).last() == all[i as int]);
                assert(all[i as int] == (self.people@[i as int].0@, self.people@[i as int].1@));
                if i == 0 {
                    assert(result@ =~= credits_lines(all.take(1)));
                } else {
                    assert(result@ =~= credits_lines(all.take(i + 1)));
                }
            }
            i = i + 1;
        }
        proof {
            assert(all.take(i as int) =~= all);
        }
        result
    }
}

impl Clone for CreditsFrame {
    fn clone(&self) -> (r: Self)
        ensures
            r.spec_frame_id() == self.spec_frame_id(),
            r.spec_encoding() == self.spec_encoding(),
            r.spec_people() == self.spec_people(),
    {
        proof {
            use_type_invariant(self);
        }
        let mut people: Vec<(String, String)> = Vec::new();
        let mut i: usize = 0;
        while i < self.people.len()
            invariant
                i <= self.people@.len(),
                people@.len() == i,
                pairs_view(people@) == pairs_view(self.people@).take(i as int),
            decreases self.people@.len() - i,
        {
            let role = self.people[i].0.clone();
            let those = self.people[i].1.clone();
            let ghost before = people@;
            people.push((role, those));
            proof {
                assert(people@ == before.push(self.people@[i as int]));
                assert(before.len() == i);
                assert(pairs_view(people@).len() == i + 1);
                assert(pairs_view(people@)[i as int] == pairs_view(self.people@)[i as int]);
                assert forall|j: int| 0 <= j < i implies #[trigger] pairs_view(people@)[j]
                    == pairs_view(before)[j] by {
                    assert(people@[j] == before[j]);
                }
                assert(pairs_view(people@) =~= pairs_view(self.people@).take(i + 1));
            }
            i = i + 1;
        }
        proof {
            assert(pairs_view(self.people@).take(i as int) =~= pairs_view(self.people@));
        }
        Self { frame_id: self.frame_id, encoding: self.encoding, people }
    }
}

/// Renders the pairs of `pairs` whose role and people are both present.
fn render_pairs(encoding: Encoding, pairs: &[(String, String)]) -> (r: Vec<u8>)
    ensures
        r@ == spec_render_pairs(encoding, complete_pairs(pairs_view(pairs@))),
{
    let mut result: Vec<u8> = Vec::new();
    let mut count: usize = 0;
    let mut i: usize = 0;
    let ghost all = pairs_view(pairs@);
    while i < pairs.len()
        invariant
            all == pairs_view(pairs@),
            i <= pairs@.len(),
            count == complete_pairs(all.take(i as int)).len(),
            count <= i,
            result@ == spec_render_pairs(encoding, complete_pairs(all.take(i as int))),
        decreases pairs@.len() - i,
    {
        let ghost prev = complete_pairs(all.take(i as int));
        proof {
            assert(all.take(i + 1).drop_last() =~= all.take(i as int));
            assert(all.take(i + 1).last() == all[i as int]);
            assert(all[i as int] == (pairs@[i as int].0@, pairs@[i as int].1@));
        }
        if !pairs[i].0.as_str().is_empty() && !pairs[i].1.as_str().is_empty() {
            if count > 0 {
                result.push(0);
                if encoding.nul_size() == 2 {
                    result.push(0);
                }
            }
            let mut role = string::render_terminated(encoding, pairs[i].0.as_str());
            result.append(&mut role);
            let mut those = string::render(encoding, pairs[i].1.as_str());
            result.append(&mut those);
            count = count + 1;
            proof {
                let next = prev.push(all[i as int]);
                assert(next.drop_last() =~= prev);
                assert(next.last() == all[i as int]);
                if prev.len() == 0 {
                    assert(result@ =~= spec_render_pairs(encoding, next));
                } else {
                    assert(result@ =~= spec_render_pairs(encoding, next));
                }
            }
        }
        i = i + 1;
    }
    proof {
        assert(all.take(i as int) =~= all);
    }
    result
}

impl Frame for CreditsFrame {
    fn id(&self) -> (r: FrameId)
        ensures
            r == self.spec_frame_id(),
    {
        self.frame_id
    }

    fn key(&self) -> (r: String)
        ensures
            r@ == credits_key(self.spec_frame_id().spec_bytes()),
    {
        // The ID3v2.4 frames are the key of this frame, whatever the version, so that `IPLS`
        // and `TIPL` cannot be in one tag together.
        if self.frame_id.code() == 0x544D_434C {
            proof {
                assert(self.frame_id.spec_bytes() =~= tmcl());
            }
            String::from_str(known_id(0x54, 0x4D, 0x43, 0x4C).as_str())
        } else {
            proof {
                if self.frame_id.spec_bytes() == tmcl() {
                    assert(id_code(self.frame_id.spec_bytes()) == 0x544D_434C);
                }
            }
            String::from_str(known_id(0x54, 0x49, 0x50, 0x4C).as_str())
        }
    }

    fn is_empty(&self) -> (r: bool)
        ensures
            r == (complete_pairs(self.spec_people()).len() == 0),
    {
        let mut i: usize = 0;
        let ghost all = self.spec_people();
        while i < self.people.len()
            invariant
                all == self.spec_people(),
                i <= self.people@.len(),
                complete_pairs(all.take(i as int)).len() == 0,
            decreases self.people@.len() - i,
        {
            proof {
                assert(all.take(i + 1).drop_last() =~= all.take(i as int));
                assert(all.take(i + 1).last() == all[i as int]);
                assert(all[i as int] == (self.people@[i as int].0@, self.people@[i as int].1@));
            }
            if !self.people[i].0.as_str().is_empty() && !self.people[i].1.as_str().is_empty() {
                proof {
                    lemma_complete_pairs_grow(all, i as int);
                }
                return false;
            }
            i = i + 1;
        }
        proof {
            assert(all.take(i as int) =~= all);
        }
        true
    }

    fn render(&self, tag_header: &TagHeader) -> (r: Vec<u8>)
        ensures
            r@ == self.spec_render(tag_header.version()),
    {
        let mut result: Vec<u8> = Vec::new();
        let encoding = encoding::check(self.encoding, tag_header.version());
        result.push(encoding::render(self.encoding));
        let mut pairs = render_pairs(encoding, self.people.as_slice());
        result.append(&mut pairs);
        result
    }
}

/// A complete pair at place `i` is kept, whatever follows it.
proof fn lemma_complete_pairs_grow(all: Seq<(Seq<char>, Seq<char>)>, i: int)
    requires
        0 <= i < all.len(),
        all[i].0.len() > 0 && all[i].1.len() > 0,
    ensures
        complete_pairs(all).len() > 0,
    decreases all.len(),
{
    if i < all.len() - 1 {
        assert(all.drop_last()[i] == all[i]);
        lemma_complete_pairs_grow(all.drop_last(), i);
    }
}

} // verus!
