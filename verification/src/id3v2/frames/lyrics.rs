//! Lyrics frames.
use crate::id3v2::frames::encoding;
use crate::id3v2::frames::text::{key_with2, known_id, lang_header_error, make_key2, read_language};
use crate::id3v2::frames::types::spec_language_or_default;
use crate::id3v2::frames::{ascii_chars, Frame, FrameId, Language, TimestampFormat};
use crate::id3v2::tag::{TagHeader, Version};
use crate::id3v2::{ParseError, ParseResult};
use crate::io::{be_bytes, be_value, BufStream, StreamError};
use crate::string::{
    self, chars_of, lemma_terminated_len_pos, push_str_chars, spec_decode, spec_nul, spec_render,
    terminated_data, terminated_len, Encoding,
};
use vstd::prelude::*;
use vstd::string::StringExecFns;

verus! {

// ---- UnsyncLyricsFrame ----

/// The lyrics or text transcription of the audio, the `USLT` frame.
#[derive(Debug, Clone)]
pub struct UnsyncLyricsFrame {
    /// The encoding that the frame will use to write `desc` and `lyrics`.
    pub encoding: Encoding,
    /// The language that the lyrics are written in.
    pub lang: Language,
    /// A description of the lyrics.
    pub desc: String,
    /// The lyrics.
    pub lyrics: String,
}

impl Default for UnsyncLyricsFrame {
    fn default() -> (r: Self)
        ensures
            r.encoding == Encoding::Utf8,
            r.lang.spec_code() == seq![0x78u8, 0x78u8, 0x78u8],
            r.desc@.len() == 0,
            r.lyrics@.len() == 0,
    {
        Self {
            encoding: Encoding::default(),
            lang: Language::default(),
            desc: String::new(),
            lyrics: String::new(),
        }
    }
}

/// The bytes of `USLT`.
pub open spec fn uslt() -> Seq<u8> {
    seq![0x55u8, 0x53u8, 0x4Cu8, 0x54u8]
}

impl UnsyncLyricsFrame {
    /// Whether `self` is what parsing `d` as the body of a `USLT` frame gives.
    pub open spec fn is_parse_of(self, d: Seq<u8>) -> bool {
        let rest = d.skip(4);
        &&& lang_header_error(d) is None
        &&& self.encoding == encoding::spec_parse(d)->Ok_0
        &&& self.lang.spec_code() == spec_language_or_default(d.subrange(1, 4))
        &&& self.desc@ == spec_decode(self.encoding, terminated_data(self.encoding, rest))
        &&& self.lyrics@ == spec_decode(
            self.encoding,
            rest.skip(terminated_len(self.encoding, rest) as int),
        )
    }

    /// Parses the body of a `USLT` frame from the rest of `stream`.
    ///
    /// # Errors
    /// If the encoding flag is missing or invalid, or the language code is cut short, an error
    /// is returned.
    pub fn parse(stream: &mut BufStream) -> (r: ParseResult<Self>)
        ensures
            match r {
                Ok(f) => f.is_parse_of(old(stream).rest()),
                Err(e) => lang_header_error(old(stream).rest()) == Some(e),
            },
    {
        let ghost d = stream.rest();
        let encoding = match encoding::parse(stream) {
            Ok(e) => e,
            Err(e) => return Err(e),
        };
        let lang = match read_language(stream) {
            Ok(l) => l,
            Err(e) => return Err(e),
        };
        let desc = string::read_terminated(encoding, stream);
        let lyrics = string::read(encoding, stream);
        proof {
            assert(d.drop_first().take(3) =~= d.subrange(1, 4));
            assert(d.drop_first().skip(3) =~= d.skip(4));
        }
        Ok(Self { encoding, lang, desc, lyrics })
    }

    /// The body of this frame in a tag of `version`.
    ///
    /// The encoding byte is that of the frame's own encoding, while the text is written in the
    /// encoding that a tag of `version` supports in its place: UTF-8 or UTF-16BE text in an
    /// ID3v2.3 tag is written as UTF-16 under the byte of UTF-8 or UTF-16BE.
    pub open spec fn spec_render(&self, version: Version) -> Seq<u8> {
        let enc = encoding::spec_check(self.encoding, version);
        seq![encoding::spec_render(self.encoding)] + self.lang.spec_code() + spec_render(
            enc,
            self.desc@,
        ) + spec_nul(enc) + spec_render(enc, self.lyrics@)
    }

    /// The lyrics of this frame.
    pub fn display(&self) -> (r: String)
        ensures
            r@ == self.lyrics@,
    {
        self.lyrics.clone()
    }
}

/// Appends the three bytes of a language code.
pub(crate) fn push_language(result: &mut Vec<u8>, lang: &Language)
    ensures
        final(result)@ == old(result)@ + lang.spec_code(),
{
    let code = lang.inner();
    result.push(code[0]);
    result.push(code[1]);
    result.push(code[2]);
    assert(code@ =~= seq![code[0], code[1], code[2]]);
}

impl Frame for UnsyncLyricsFrame {
    fn id(&self) -> (r: FrameId)
        ensures
            r.spec_bytes() == uslt(),
    {
        known_id(0x55, 0x53, 0x4C, 0x54)
    }

    fn key(&self) -> (r: String)
        ensures
            r@ == key_with2(uslt(), self.desc@, ascii_chars(self.lang.spec_code())),
    {
        make_key2(self.id(), self.desc.as_str(), self.lang.as_str())
    }

    fn is_empty(&self) -> (r: bool)
        ensures
            r == (self.lyrics@.len() == 0),
    {
        self.lyrics.as_str().is_empty()
    }

    fn render(&self, tag_header: &TagHeader) -> (r: Vec<u8>)
        ensures
            r@ == self.spec_render(tag_header.version()),
    {
        let mut result: Vec<u8> = Vec::new();
        let encoding = encoding::check(self.encoding, tag_header.version());
        result.push(encoding::render(self.encoding));
        push_language(&mut result, &self.lang);
        let mut desc = string::render_terminated(encoding, self.desc.as_str());
        result.append(&mut desc);
        let mut lyrics = string::render(encoding, self.lyrics.as_str());
        result.append(&mut lyrics);
        result
    }
}

// ---- SyncedLyricsFrame ----

/// The kind of content that a synced lyrics frame holds.
#[derive(Clone, Copy, Debug, Eq, PartialEq, Structural)]
pub enum SyncedContentType {
    Other,
    Lyrics,
    TextTranscription,
    Movement,
    Events,
    Chord,
    Trivia,
    WebpageUrls,
    ImageUrls,
}

impl SyncedContentType {
    /// The value that a byte names; unknown bytes are `Other`.
    pub open spec fn spec_parse(byte: u8) -> Self {
        if byte == 0x00 {
            SyncedContentType::Other
        } else if byte == 0x01 {
            SyncedContentType::Lyrics
        } else if byte == 0x02 {
            SyncedContentType::TextTranscription
        } else if byte == 0x03 {
            SyncedContentType::Movement
        } else if byte == 0x04 {
            SyncedContentType::Events
        } else if byte == 0x05 {
            SyncedContentType::Chord
        } else if byte == 0x06 {
            SyncedContentType::Trivia
        } else if byte == 0x07 {
            SyncedContentType::WebpageUrls
        } else if byte == 0x08 {
            SyncedContentType::ImageUrls
        } else {
            SyncedContentType::Other
        }
    }

    /// The byte this value is written as.
    pub open spec fn spec_byte(self) -> u8 {
        match self {
            SyncedContentType::Other => 0x00,
            SyncedContentType::Lyrics => 0x01,
            SyncedContentType::TextTranscription => 0x02,
            SyncedContentType::Movement => 0x03,
            SyncedContentType::Events => 0x04,
            SyncedContentType::Chord => 0x05,
            SyncedContentType::Trivia => 0x06,
            SyncedContentType::WebpageUrls => 0x07,
            SyncedContentType::ImageUrls => 0x08,
        }
    }

    /// Returns the value that `byte` names; unknown bytes are `Other`.
    pub fn parse(byte: u8) -> (r: Self)
        ensures
            r == Self::spec_parse(byte),
    {
        match byte {
            0x00 => SyncedContentType::Other,
            0x01 => SyncedContentType::Lyrics,
            0x02 => SyncedContentType::TextTranscription,
            0x03 => SyncedContentType::Movement,
            0x04 => SyncedContentType::Events,
            0x05 => SyncedContentType::Chord,
            0x06 => SyncedContentType::Trivia,
            0x07 => SyncedContentType::WebpageUrls,
            0x08 => SyncedContentType::ImageUrls,
            _ => SyncedContentType::Other,
        }
    }

    /// Returns the byte this value is written as.
    pub fn to_byte(self) -> (b: u8)
        ensures
            b == self.spec_byte(),
    {
        match self {
            SyncedContentType::Other => 0x00,
            SyncedContentType::Lyrics => 0x01,
            SyncedContentType::TextTranscription => 0x02,
            SyncedContentType::Movement => 0x03,
            SyncedContentType::Events => 0x04,
            SyncedContentType::Chord => 0x05,
            SyncedContentType::Trivia => 0x06,
            SyncedContentType::WebpageUrls => 0x07,
            SyncedContentType::ImageUrls => 0x08,
        }
    }
}


impl Default for SyncedContentType {
    fn default() -> (r: Self)
        ensures
            r == SyncedContentType::Lyrics,
    {
        SyncedContentType::Lyrics
    }
}

/// A lyric and the time at which it occurs.
///
/// Lyrics are ordered by their time first, then by their text.
#[derive(Debug, Clone, Eq, PartialEq, Ord, PartialOrd)]
pub struct SyncedText {
    /// The time of the lyric, in the unit of the frame's timestamp format.
    pub time: u32,
    /// The text of the lyric.
    pub text: String,
}

impl Default for SyncedText {
    fn default() -> (r: Self)
        ensures
            r.time == 0,
            r.text@.len() == 0,
    {
        Self { time: 0, text: String::new() }
    }
}

/// The text that a lyric is displayed as: one leading line break, or else one trailing line
/// break (`\r\n` or `\n`), is left out.
pub open spec fn spec_lyric_display(t: Seq<char>) -> Seq<char> {
    if t.len() > 0 && t[0] == '\n' {
        t.drop_first()
    } else if t.len() > 0 && t.last() == '\n' {
        if t.len() >= 2 && t[t.len() - 2] == '\r' {
            t.take(t.len() - 2)
        } else {
            t.drop_last()
        }
    } else {
        t
    }
}

impl SyncedText {
    /// The text of this lyric without a leading or trailing line break. The time is not
    /// included.
    pub fn display(&self) -> (r: String)
        ensures
            r@ == spec_lyric_display(self.text@),
    {
        let chars = chars_of(self.text.as_str());
        let n = chars.len();
        let (start, end) = if n > 0 && chars[0] == '\n' {
            (1, n)
        } else if n > 0 && chars[n - 1] == '\n' {
            if n >= 2 && chars[n - 2] == '\r' {
                (0, n - 2)
            } else {
                (0, n - 1)
            }
        } else {
            (0, n)
        };
        let mut s = String::new();
        push_str_chars(&mut s, chars.as_slice(), start, end);
        proof {
            let t = self.text@;
            assert(t.subrange(start as int, end as int) =~= spec_lyric_display(t));
        }
        s
    }
}

/// The text and time of each lyric.
pub open spec fn lyrics_view(v: Seq<SyncedText>) -> Seq<(Seq<char>, u32)> {
    v.map_values(|l: SyncedText| (l.text@, l.time))
}

/// Whether `d` starts with a UTF-16 byte order mark.
pub open spec fn starts_with_bom(d: Seq<u8>) -> bool {
    d.len() >= 2 && ((d[0] == 0xFF && d[1] == 0xFE) || (d[0] == 0xFE && d[1] == 0xFF))
}

/// The encoding used for lyrics without a byte order mark: a UTF-16 frame whose description
/// starts with a byte order mark uses the byte order it names.
pub open spec fn spec_implicit_encoding(enc: Encoding, d: Seq<u8>) -> Encoding {
    if enc == Encoding::Utf16 && d.len() >= 2 && d[0] == 0xFF && d[1] == 0xFE {
        Encoding::Utf16Le
    } else if enc == Encoding::Utf16 && d.len() >= 2 && d[0] == 0xFE && d[1] == 0xFF {
        Encoding::Utf16Be
    } else {
        enc
    }
}

/// The error of peeking at two bytes of a stream of `total` bytes when one is left.
pub open spec fn bom_peek_error(total: nat) -> ParseError {
    ParseError::IoError(
        StreamError::OutOfBounds {
            pos: if total + 1 <= usize::MAX {
                (total + 1) as usize
            } else {
                usize::MAX
            },
            len: total as usize,
        },
    )
}

/// The lyrics read from `d`, in a stream of `total` bytes: each a terminated string, in the
/// frame's encoding when it starts with a byte order mark and in `implicit` otherwise, then a
/// big-endian 32-bit time.
pub open spec fn spec_parse_lyrics(enc: Encoding, implicit: Encoding, d: Seq<u8>, total: nat) -> ParseResult<Seq<(Seq<char>, u32)>>
    decreases d.len(),
{
    if d.len() == 0 {
        Ok(Seq::empty())
    } else if d.len() < 2 {
        Err(bom_peek_error(total))
    } else {
        let e = if starts_with_bom(d) {
            enc
        } else {
            implicit
        };
        let n = terminated_len(e, d);
        let rest = d.skip(n as int);
        if !(0 < n <= d.len()) {
            Ok(Seq::empty())
        } else if rest.len() < 4 {
            Err(
                ParseError::IoError(
                    StreamError::BufferUnderread { len: 4, remaining: rest.len() as usize },
                ),
            )
        } else {
            let lyric = (spec_decode(e, terminated_data(e, d)), be_value(rest.take(4)) as u32);
            match spec_parse_lyrics(enc, implicit, rest.skip(4), total) {
                Ok(tail) => Ok(seq![lyric] + tail),
                Err(err) => Err(err),
            }
        }
    }
}

/// The bytes of lyrics: each text terminated in `enc`, then its time as a big-endian 32-bit
/// number.
pub open spec fn spec_render_lyrics(enc: Encoding, l: Seq<(Seq<char>, u32)>) -> Seq<u8>
    decreases l.len(),
{
    if l.len() == 0 {
        Seq::empty()
    } else {
        spec_render_lyrics(enc, l.drop_last()) + spec_render(enc, l.last().0) + spec_nul(enc)
            + be_bytes(l.last().1 as nat, 4)
    }
}

/// Lyrics synchronized to the audio, the `SYLT` frame.
#[derive(Debug, Clone)]
pub struct SyncedLyricsFrame {
    /// The encoding that the frame will use to write `desc` and `lyrics`.
    pub encoding: Encoding,
    /// The language that the lyrics are written in.
    pub lang: Language,
    /// The unit of the times of the lyrics.
    pub format: TimestampFormat,
    /// What the lyrics are.
    pub content_type: SyncedContentType,
    /// A description of the lyrics.
    pub desc: String,
    /// The lyrics and their times.
    pub lyrics: Vec<SyncedText>,
}

impl Default for SyncedLyricsFrame {
    fn default() -> (r: Self)
        ensures
            r.encoding == Encoding::Utf8,
            r.lang.spec_code() == seq![0x78u8, 0x78u8, 0x78u8],
            r.format == TimestampFormat::Millis,
            r.content_type == SyncedContentType::Lyrics,
            r.desc@.len() == 0,
            r.lyrics@.len() == 0,
    {
        Self {
            encoding: Encoding::default(),
            lang: Language::default(),
            format: TimestampFormat::default(),
            content_type: SyncedContentType::default(),
            desc: String::new(),
            lyrics: Vec::new(),
        }
    }
}

/// The bytes of `SYLT`.
pub open spec fn sylt() -> Seq<u8> {
    seq![0x53u8, 0x59u8, 0x4Cu8, 0x54u8]
}

/// The error of parsing `d` as the body of a `SYLT` frame in a stream of `total` bytes, or
/// `None` when it parses.
pub open spec fn sylt_error(d: Seq<u8>, total: nat) -> Option<ParseError> {
    match lang_header_error(d) {
        Some(e) => Some(e),
        None => if d.len() < 6 {
            Some(ParseError::IoError(StreamError::EndOfStream))
        } else {
            let enc = encoding::spec_parse(d)->Ok_0;
            let body = d.skip(6);
            let implicit = spec_implicit_encoding(enc, body);
            match spec_parse_lyrics(
                enc,
                implicit,
                body.skip(terminated_len(enc, body) as int),
                total,
            ) {
                Ok(_) => None,
                Err(e) => Some(e),
            }
        },
    }
}

impl SyncedLyricsFrame {
    /// Whether `self` is what parsing `d` as the body of a `SYLT` frame gives, in a stream of
    /// `total` bytes.
    pub open spec fn is_parse_of(self, d: Seq<u8>, total: nat) -> bool {
        let body = d.skip(6);
        let enc = self.encoding;
        &&& sylt_error(d, total) is None
        &&& enc == encoding::spec_parse(d)->Ok_0
        &&& self.lang.spec_code() == spec_language_or_default(d.subrange(1, 4))
        &&& self.format == TimestampFormat::spec_parse(d[4])
        &&& self.content_type == SyncedContentType::spec_parse(d[5])
        &&& self.desc@ == spec_decode(enc, terminated_data(enc, body))
        &&& spec_parse_lyrics(
            enc,
            spec_implicit_encoding(enc, body),
            body.skip(terminated_len(enc, body) as int),
            total,
        ) == Ok::<Seq<(Seq<char>, u32)>, ParseError>(lyrics_view(self.lyrics@))
    }

    /// Parses the body of a `SYLT` frame from the rest of `stream`.
    ///
    /// For UTF-16 frames, a tagger might only write the byte order mark to the description and
    /// nowhere else. Lyrics without a byte order mark then use the byte order of the description.
    ///
    /// # Errors
    /// If the header fields are cut short or invalid, a lyric is cut short before its two first
    /// bytes or its time, an error is returned.
    pub fn parse(stream: &mut BufStream) -> (r: ParseResult<Self>)
        ensures
            match r {
                Ok(f) => f.is_parse_of(old(stream).rest(), old(stream).data().len()),
                Err(e) => sylt_error(old(stream).rest(), old(stream).data().len()) == Some(e),
            },
    {
        let ghost d = stream.rest();
        let ghost total = stream.data().len();
        let encoding = match encoding::parse(stream) {
            Ok(e) => e,
            Err(e) => return Err(e),
        };
        let lang = match read_language(stream) {
            Ok(l) => l,
            Err(e) => return Err(e),
        };
        proof {
            assert(d.drop_first().take(3) =~= d.subrange(1, 4));
            assert(d.drop_first().skip(3) =~= d.skip(4));
        }
        let format = match stream.read_u8() {
            Ok(b) => TimestampFormat::parse(b),
            Err(e) => return Err(ParseError::IoError(e)),
        };
        let content_type = match stream.read_u8() {
            Ok(b) => SyncedContentType::parse(b),
            Err(e) => return Err(ParseError::IoError(e)),
        };
        proof {
            assert(d.skip(4).drop_first().drop_first() =~= d.skip(6));
        }
        let ghost body = stream.rest();
        let implicit_enc = match encoding {
            Encoding::Utf16 => match stream.peek(0..2) {
                Ok(bom) => if bom[0] == 0xFF && bom[1] == 0xFE {
                    Encoding::Utf16Le
                } else if bom[0] == 0xFE && bom[1] == 0xFF {
                    Encoding::Utf16Be
                } else {
                    encoding
                },
                Err(_) => encoding,
            },
            _ => encoding,
        };
        let desc = string::read_terminated(encoding, stream);
        let lyrics = match parse_lyrics(encoding, implicit_enc, stream) {
            Ok(l) => l,
            Err(e) => return Err(e),
        };
        Ok(SyncedLyricsFrame { encoding, lang, format, content_type, desc, lyrics })
    }

    /// The body of this frame in a tag of `version`.
    ///
    /// The encoding byte is that of the frame's own encoding, while the text is written in the
    /// encoding that a tag of `version` supports in its place: UTF-8 or UTF-16BE text in an
    /// ID3v2.3 tag is written as UTF-16 under the byte of UTF-8 or UTF-16BE.
    pub open spec fn spec_render(&self, version: Version) -> Seq<u8> {
        let enc = encoding::spec_check(self.encoding, version);
        seq![encoding::spec_render(self.encoding)] + self.lang.spec_code() + seq![
            self.format.spec_byte(),
            self.content_type.spec_byte(),
        ] + spec_render(enc, self.desc@) + spec_nul(enc) + spec_render_lyrics(
            enc,
            lyrics_view(self.lyrics@),
        )
    }

    /// The lyrics of this frame, one per line.
    pub fn display(&self) -> (r: String)
        ensures
            r@ == spec_join_lines(self.lyrics@),
    {
        let mut s = String::new();
        let mut i: usize = 0;
        while i < self.lyrics.len()
            invariant
                i <= self.lyrics@.len(),
                s@ == spec_join_lines(self.lyrics@.take(i as int)),
            decreases self.lyrics@.len() - i,
        {
            if i > 0 {
                s.append("\n");
            }
            let line = self.lyrics[i].display();
            s.append(line.as_str());
            proof {
                reveal_strlit("\n");
                assert(self.lyrics@.take(i + 1).drop_last() =~= self.lyrics@.take(i as int));
            }
            i = i + 1;
        }
        proof {
            assert(self.lyrics@.take(i as int) =~= self.lyrics@);
        }
        s
    }
}

/// The displayed lyrics, one per line.
pub open spec fn spec_join_lines(l: Seq<SyncedText>) -> Seq<char>
    decreases l.len(),
{
    if l.len() == 0 {
        Seq::empty()
    } else if l.len() == 1 {
        spec_lyric_display(l[0].text@)
    } else {
        spec_join_lines(l.drop_last()) + seq!['\n'] + spec_lyric_display(l.last().text@)
    }
}

/// Reads the lyrics of a synced lyrics frame from the rest of `stream`.
fn parse_lyrics(encoding: Encoding, implicit_enc: Encoding, stream: &mut BufStream) -> (r: ParseResult<Vec<SyncedText>>)
    ensures
        match r {
            Ok(l) => spec_parse_lyrics(encoding, implicit_enc, old(stream).rest(), old(stream).data().len())
                == Ok::<Seq<(Seq<char>, u32)>, ParseError>(lyrics_view(l@)),
            Err(e) => spec_parse_lyrics(encoding, implicit_enc, old(stream).rest(), old(stream).data().len())
                == Err::<Seq<(Seq<char>, u32)>, ParseError>(e),
        },
{
    let ghost d = stream.rest();
    let ghost total = stream.data().len();
    let mut lyrics: Vec<SyncedText> = Vec::new();
    while !stream.is_empty()
        invariant
            stream.data().len() == total,
            d == old(stream).rest(),
            total == old(stream).data().len(),
            spec_parse_lyrics(encoding, implicit_enc, d, total) == match spec_parse_lyrics(
                encoding,
                implicit_enc,
                stream.rest(),
                total,
            ) {
                Ok(t) => Ok(lyrics_view(lyrics@) + t),
                Err(e) => Err::<Seq<(Seq<char>, u32)>, ParseError>(e),
            },
        decreases stream.rest().len(),
    {
        let ghost before = stream.rest();
        let ghost old_lyrics = lyrics@;
        // If the lyric does not have a BOM, use the implicit encoding.
        let bom = match stream.peek(0..2) {
            Ok(b) => b,
            Err(e) => {
                proof {
                    assert(stream.cursor() + 1 == total);
                    assert(spec_parse_lyrics(encoding, implicit_enc, before, total) == Err::<
                        Seq<(Seq<char>, u32)>,
                        ParseError,
                    >(ParseError::IoError(e)));
                }
                return Err(ParseError::IoError(e));
            },
        };
        let enc = if (bom[0] == 0xFF && bom[1] == 0xFE) || (bom[0] == 0xFE && bom[1] == 0xFF) {
            encoding
        } else {
            implicit_enc
        };
        proof {
            lemma_terminated_len_pos(enc, before);
        }
        let text = string::read_terminated(enc, stream);
        proof {
            assert(bom@ == before.subrange(0, 2));
            assert(starts_with_bom(before) == ((bom[0] == 0xFF && bom[1] == 0xFE) || (bom[0] == 0xFE
                && bom[1] == 0xFF)));
        }
        let time = match stream.read_be_u32() {
            Ok(t) => t,
            Err(e) => {
                proof {
                    assert(spec_parse_lyrics(encoding, implicit_enc, before, total) == Err::<
                        Seq<(Seq<char>, u32)>,
                        ParseError,
                    >(ParseError::IoError(e)));
                }
                return Err(ParseError::IoError(e));
            },
        };
        lyrics.push(SyncedText { time, text });
        proof {
            let lyric = (spec_decode(enc, terminated_data(enc, before)), time);
            assert(lyrics_view(lyrics@) =~= lyrics_view(old_lyrics).push(lyric));
            match spec_parse_lyrics(encoding, implicit_enc, stream.rest(), total) {
                Ok(t) => {
                    assert(lyrics_view(old_lyrics).push(lyric) + t =~= lyrics_view(old_lyrics)
                        + (seq![lyric] + t));
                },
                Err(_) => {},
            }
        }
    }
    proof {
        assert(lyrics_view(lyrics@) + Seq::<(Seq<char>, u32)>::empty() =~= lyrics_view(lyrics@));
    }
    Ok(lyrics)
}

impl Frame for SyncedLyricsFrame {
    fn id(&self) -> (r: FrameId)
        ensures
            r.spec_bytes() == sylt(),
    {
        known_id(0x53, 0x59, 0x4C, 0x54)
    }

    fn key(&self) -> (r: String)
        ensures
            r@ == key_with2(sylt(), self.desc@, ascii_chars(self.lang.spec_code())),
    {
        make_key2(self.id(), self.desc.as_str(), self.lang.as_str())
    }

    fn is_empty(&self) -> (r: bool)
        ensures
            r == (self.lyrics@.len() == 0),
    {
        self.lyrics.len() == 0
    }

    fn render(&self, tag_header: &TagHeader) -> (r: Vec<u8>)
        ensures
            r@ == self.spec_render(tag_header.version()),
    {
        let mut result: Vec<u8> = Vec::new();
        let encoding = encoding::check(self.encoding, tag_header.version());
        result.push(encoding::render(self.encoding));
        push_language(&mut result, &self.lang);
        result.push(self.format.to_byte());
        result.push(self.content_type.to_byte());
        let mut desc = string::render_terminated(encoding, self.desc.as_str());
        result.append(&mut desc);
        let ghost head = result@;
        let mut i: usize = 0;
        while i < self.lyrics.len()
            invariant
                i <= self.lyrics@.len(),
                result@ == head + spec_render_lyrics(encoding, lyrics_view(self.lyrics@.take(i as int))),
            decreases self.lyrics@.len() - i,
        {
            let lyric = &self.lyrics[i];
            let mut text = string::render_terminated(encoding, lyric.text.as_str());
            result.append(&mut text);
            let mut time = crate::io::be_bytes_of(lyric.time as u64, 4);
            result.append(&mut time);
            proof {
                assert(lyrics_view(self.lyrics@.take(i + 1)).drop_last() =~= lyrics_view(
                    self.lyrics@.take(i as int),
                ));
            }
            i = i + 1;
        }
        proof {
            assert(self.lyrics@.take(i as int) =~= self.lyrics@);
            assert(result@ =~= self.spec_render(tag_header.version()));
        }
        result
    }
}

} // verus!
