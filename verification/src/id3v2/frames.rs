//! Frame parsing and implementations.
//!
//! An ID3v2 tag is primarily made up of chunks of data, called "Frames" by the spec.
//! Frames are highly structured and can contain a variety of information about the media,
//! including text, URLs, binary data, and audio adjustments.

pub mod encoding;
pub mod text;
pub mod url;
pub mod bin;
pub mod stats;
pub mod lyrics;
pub mod owner;
pub mod events;
pub mod file;
pub mod audio;
pub mod types;

pub use audio::v23::{EqualizationFrame, RelativeVolumeFrame, Volume, VolumeAdjustment};
pub use bin::{FileIdFrame, MusicCdIdFrame, PodcastFrame, PrivateFrame};
pub use events::{Bpm, Event, EventTimingCodesFrame, EventType, SyncedTempoCodesFrame, Tempo};
pub use file::{AttachedPictureFrame, GeneralObjectFrame, PictureType};
pub use lyrics::{SyncedContentType, SyncedLyricsFrame, SyncedText, UnsyncLyricsFrame};
pub use owner::{OwnershipFrame, TermsOfUseFrame};
pub use stats::{PlayCounterFrame, PopularimeterFrame};
pub use text::{CommentsFrame, CreditsFrame, TextFrame, UserTextFrame};
pub use types::{Language, LanguageError, TimestampFormat};
pub use url::{UrlFrame, UserUrlFrame};

use crate::id3v2::tag::{TagHeader, Version};
use crate::id3v2::{compat, syncdata, ParseError, ParseResult, SaveError, SaveResult};
use crate::io::BufStream;
use crate::string::{spec_decode, Encoding};
use vstd::prelude::*;

verus! {

/// Whether a byte may appear in a frame ID: an uppercase ASCII letter or a digit.
pub open spec fn is_id_byte(b: u8) -> bool {
    (0x41 <= b <= 0x5A) || (0x30 <= b <= 0x39)
}

/// Whether `c` may appear in a frame ID: an uppercase ASCII letter or a digit.
pub open spec fn is_id_char(c: char) -> bool {
    (('A' as int) <= (c as int) <= ('Z' as int)) || (('0' as int) <= (c as int) <= ('9' as int))
}

/// Whether every byte of `s` may appear in a frame ID.
pub open spec fn valid_frame_id(s: Seq<u8>) -> bool {
    forall|i: int| 0 <= i < s.len() ==> is_id_byte(#[trigger] s[i])
}

/// The views of a list of strings.
pub open spec fn strings_view(v: Seq<String>) -> Seq<Seq<char>> {
    v.map_values(|s: String| s@)
}

/// The big-endian number formed by the four bytes of a frame ID, which names the ID compactly.
pub open spec fn id_code(id: Seq<u8>) -> u32 {
    (id[0] as u32 * 0x100_0000 + id[1] as u32 * 0x1_0000 + id[2] as u32 * 0x100 + id[3] as u32) as u32
}

/// The big-endian number formed by the three bytes of an ID3v2.2 frame ID.
pub open spec fn legacy_code(id: Seq<u8>) -> u32 {
    (id[0] as u32 * 0x1_0000 + id[1] as u32 * 0x100 + id[2] as u32) as u32
}

/// The number that [`legacy_code`](legacy_code) gives for `id`.
pub fn legacy_code_of(id: &[u8; 3]) -> (r: u32)
    ensures
        r == legacy_code(id@),
{
    id[0] as u32 * 0x1_0000 + id[1] as u32 * 0x100 + id[2] as u32
}

/// The characters of ASCII bytes.
pub open spec fn ascii_chars(s: Seq<u8>) -> Seq<char> {
    s.map_values(|b: u8| b as char)
}

/// Interprets ASCII bytes as a string with `std::str::from_utf8`, which accepts every
/// sequence of ASCII bytes and maps each byte to the character of the same value.
#[verifier::external_body]
pub(crate) fn ascii_str(bytes: &[u8]) -> (r: &str)
    requires
        forall|i: int| 0 <= i < bytes@.len() ==> bytes@[i] < 0x80,
    ensures
        r@ == ascii_chars(bytes@),
{
    match core::str::from_utf8(bytes) {
        Ok(s) => s,
        Err(_) => "",
    }
}

/// Whether `data` contains only valid frame ID bytes.
pub fn validate(frame_id: &[u8]) -> (r: bool)
    ensures
        r == valid_frame_id(frame_id@),
{
    let mut i: usize = 0;
    while i < frame_id.len()
        invariant
            i <= frame_id@.len(),
            forall|j: int| 0 <= j < i ==> is_id_byte(#[trigger] frame_id@[j]),
        decreases frame_id@.len() - i,
    {
        let ch = frame_id[i];
        // Valid frame IDs can only contain uppercase ASCII chars and numbers.
        if !((0x41 <= ch && ch <= 0x5A) || (0x30 <= ch && ch <= 0x39)) {
            return false;
        }
        i = i + 1;
    }
    true
}

/// A representation of an ID3v2.3 or ID3v2.4 Frame ID.
///
/// Frame IDs are 4-byte sequences consisting of uppercase ASCII characters or
/// numbers.
#[derive(Clone, Copy, Debug, Eq, Hash)]
pub struct FrameId([u8; 4]);

impl PartialEq for FrameId {
    fn eq(&self, other: &Self) -> (r: bool) {
        let r = self.0[0] == other.0[0] && self.0[1] == other.0[1] && self.0[2] == other.0[2]
            && self.0[3] == other.0[3];
        proof {
            if r {
                assert(self.0@ =~= other.0@);
            }
        }
        r
    }
}

impl vstd::std_specs::cmp::PartialEqSpecImpl for FrameId {
    open spec fn obeys_eq_spec() -> bool {
        true
    }

    open spec fn eq_spec(&self, other: &Self) -> bool {
        self.spec_bytes() == other.spec_bytes()
    }
}

/// The error returned when a [`FrameId`](FrameId) is not valid.
#[derive(Debug, Clone, Copy)]
pub struct FrameIdError(());

impl FrameId {
    #[verifier::type_invariant]
    spec fn inv(self) -> bool {
        valid_frame_id(self.0@)
    }

    /// The four bytes of this ID.
    pub closed spec fn spec_bytes(self) -> Seq<u8> {
        self.0@
    }

    /// An ID is four bytes long.
    pub proof fn lemma_id_len(self)
        ensures
            self.spec_bytes().len() == 4,
    {
    }

    /// Creates an instance.
    pub fn new(id: &[u8; 4]) -> (r: Self)
        requires
            valid_frame_id(id@),
        ensures
            r.spec_bytes() == id@,
    {
        FrameId(*id)
    }

    /// Fallibly creates an instance.
    ///
    /// # Errors
    /// If `id` is not a valid Frame ID, then an error will be returned.
    pub fn try_new(id: &[u8; 4]) -> (r: Result<Self, FrameIdError>)
        ensures
            r is Ok <==> valid_frame_id(id@),
            r matches Ok(f) ==> f.spec_bytes() == id@,
    {
        if !validate(id.as_slice()) {
            return Err(FrameIdError(()));
        }
        Ok(FrameId(*id))
    }

    /// Parses a Frame ID from a string of four uppercase ASCII letters and digits.
    ///
    /// # Errors
    /// If `s` is not four characters long, or holds a character other than `A` to `Z` and
    /// `0` to `9`, an error is returned.
    pub fn from_str(s: &str) -> (r: Result<Self, FrameIdError>)
        ensures
            r is Ok <==> s@.len() == 4 && forall|i: int| 0 <= i < 4 ==> is_id_char(#[trigger] s@[i]),
            r matches Ok(f) ==> ascii_chars(f.spec_bytes()) == s@,
    {
        let chars = crate::string::chars_of(s);
        if chars.len() != 4 {
            return Err(FrameIdError(()));
        }
        let mut id: [u8; 4] = [0; 4];
        let mut i: usize = 0;
        while i < 4
            invariant
                chars@ == s@,
                chars@.len() == 4,
                i <= 4,
                forall|j: int| 0 <= j < i ==> is_id_char(#[trigger] chars@[j]),
                forall|j: int| 0 <= j < i ==> id@[j] as int == chars@[j] as int,
            decreases 4 - i,
        {
            let c = chars[i];
            if !(('A' <= c && c <= 'Z') || ('0' <= c && c <= '9')) {
                return Err(FrameIdError(()));
            }
            id.set(i, c as u8);
            i = i + 1;
        }
        proof {
            assert forall|j: int| 0 <= j < 4 implies is_id_byte(#[trigger] id@[j]) by {
                assert(is_id_char(chars@[j]));
            }
            assert(ascii_chars(id@) =~= s@) by {
                assert forall|j: int| 0 <= j < 4 implies ascii_chars(id@)[j] == s@[j] by {
                    assert(id@[j] as int == chars@[j] as int);
                }
            }
        }
        Ok(FrameId(id))
    }

    /// Returns a copy of the internal array of this instance.
    pub fn inner(&self) -> (r: [u8; 4])
        ensures
            r@ == self.spec_bytes(),
            valid_frame_id(r@),
    {
        proof {
            use_type_invariant(self);
        }
        self.0
    }

    /// Interprets this Frame ID as a string.
    pub fn as_str(&self) -> (r: &str)
        ensures
            r@ == ascii_chars(self.spec_bytes()),
    {
        proof {
            use_type_invariant(self);
        }
        ascii_str(self.0.as_slice())
    }

    /// The number that [`id_code`](id_code) gives for this ID.
    pub fn code(&self) -> (r: u32)
        ensures
            r == id_code(self.spec_bytes()),
    {
        self.0[0] as u32 * 0x100_0000 + self.0[1] as u32 * 0x1_0000 + self.0[2] as u32 * 0x100
            + self.0[3] as u32
    }

    /// Whether this ID is the four bytes `id`.
    pub fn is(&self, id: [u8; 4]) -> (r: bool)
        ensures
            r == (self.spec_bytes() == id@),
    {
        let r = self.0[0] == id[0] && self.0[1] == id[1] && self.0[2] == id[2] && self.0[3] == id[3];
        proof {
            if r {
                assert(self.0@ =~= id@);
            }
        }
        r
    }
}

/// Describes the behavior of a frame implementation.
///
/// This trait is used as both a specification of frame behavior, and as the type of
/// custom frames in a collection.
pub trait Frame {
    /// Returns the [`FrameId`](FrameId) of this frame.
    fn id(&self) -> FrameId;

    /// Returns the unique key of this frame: the Frame ID, followed by any information
    /// that marks this frame as unique from other frames, delimited by `:`.
    fn key(&self) -> String;

    /// Returns whether this frame is considered "empty", that is, too empty to be written.
    fn is_empty(&self) -> bool;

    /// Generates the binary representation of the body of this frame.
    ///
    /// Frames with an encoding write their text in the encoding that the tag version
    /// supports in its place. All but comments write the byte of their own encoding before
    /// it, so UTF-8 or UTF-16BE text in an ID3v2.3 tag is written as UTF-16 under the byte
    /// of UTF-8 or UTF-16BE; comments write the byte of the encoding their text is written in.
    fn render(&self, tag_header: &TagHeader) -> Vec<u8>;
}


/// A frame of any kind: one of the frames of this library, or a custom frame.
///
/// Parsed frames are held in this form, so that the kind of a frame can be found by matching
/// on it.
pub enum AnyFrame {
    /// A [`TextFrame`](TextFrame).
    Text(TextFrame),
    /// A [`UserTextFrame`](UserTextFrame).
    UserText(UserTextFrame),
    /// A [`CreditsFrame`](CreditsFrame).
    Credits(CreditsFrame),
    /// A [`CommentsFrame`](CommentsFrame).
    Comments(CommentsFrame),
    /// A [`UrlFrame`](UrlFrame).
    Url(UrlFrame),
    /// A [`UserUrlFrame`](UserUrlFrame).
    UserUrl(UserUrlFrame),
    /// A [`FileIdFrame`](FileIdFrame).
    FileId(FileIdFrame),
    /// A [`MusicCdIdFrame`](MusicCdIdFrame).
    MusicCdId(MusicCdIdFrame),
    /// A [`PrivateFrame`](PrivateFrame).
    Private(PrivateFrame),
    /// A [`PodcastFrame`](PodcastFrame).
    Podcast(PodcastFrame),
    /// A [`PopularimeterFrame`](PopularimeterFrame).
    Popularimeter(PopularimeterFrame),
    /// A [`PlayCounterFrame`](PlayCounterFrame).
    PlayCounter(PlayCounterFrame),
    /// A [`OwnershipFrame`](OwnershipFrame).
    Ownership(OwnershipFrame),
    /// A [`TermsOfUseFrame`](TermsOfUseFrame).
    TermsOfUse(TermsOfUseFrame),
    /// A [`UnsyncLyricsFrame`](UnsyncLyricsFrame).
    UnsyncLyrics(UnsyncLyricsFrame),
    /// A [`SyncedLyricsFrame`](SyncedLyricsFrame).
    SyncedLyrics(SyncedLyricsFrame),
    /// A [`EventTimingCodesFrame`](EventTimingCodesFrame).
    EventTimingCodes(EventTimingCodesFrame),
    /// A [`SyncedTempoCodesFrame`](SyncedTempoCodesFrame).
    SyncedTempoCodes(SyncedTempoCodesFrame),
    /// A [`AttachedPictureFrame`](AttachedPictureFrame).
    AttachedPicture(AttachedPictureFrame),
    /// A [`GeneralObjectFrame`](GeneralObjectFrame).
    GeneralObject(GeneralObjectFrame),
    /// A [`RelativeVolumeFrame`](RelativeVolumeFrame).
    RelativeVolume(RelativeVolumeFrame),
    /// An [`EqualizationFrame`](EqualizationFrame).
    Equalization(EqualizationFrame),
    /// A frame implemented outside this library.
    Custom(Box<dyn Frame>),
}

impl AnyFrame {
    /// The ID of this frame. Custom frames are not described.
    pub open spec fn spec_id(&self) -> Seq<u8> {
        match self {
            AnyFrame::Text(f) => f.spec_frame_id().spec_bytes(),
            AnyFrame::UserText(_) => text::txxx(),
            AnyFrame::Credits(f) => f.spec_frame_id().spec_bytes(),
            AnyFrame::Comments(_) => text::comm(),
            AnyFrame::Url(f) => f.spec_frame_id().spec_bytes(),
            AnyFrame::UserUrl(_) => url::wxxx(),
            AnyFrame::FileId(_) => bin::ufid(),
            AnyFrame::MusicCdId(_) => bin::mcdi(),
            AnyFrame::Private(_) => bin::priv_id(),
            AnyFrame::Podcast(_) => bin::pcst(),
            AnyFrame::Popularimeter(_) => stats::popm(),
            AnyFrame::PlayCounter(_) => stats::pcnt(),
            AnyFrame::Ownership(_) => owner::owne(),
            AnyFrame::TermsOfUse(_) => owner::user(),
            AnyFrame::UnsyncLyrics(_) => lyrics::uslt(),
            AnyFrame::SyncedLyrics(_) => lyrics::sylt(),
            AnyFrame::EventTimingCodes(_) => events::etco(),
            AnyFrame::SyncedTempoCodes(_) => events::sytc(),
            AnyFrame::AttachedPicture(_) => file::apic(),
            AnyFrame::GeneralObject(_) => file::geob(),
            AnyFrame::RelativeVolume(_) => audio::v23::rvad(),
            AnyFrame::Equalization(_) => audio::v23::equa(),
            AnyFrame::Custom(_) => Seq::empty(),
        }
    }

    /// The body of this frame in a tag of `version`. Custom frames are not described.
    pub open spec fn spec_render(&self, version: Version) -> Seq<u8> {
        match self {
            AnyFrame::Text(f) => f.spec_render(version),
            AnyFrame::UserText(f) => f.spec_render(version),
            AnyFrame::Credits(f) => f.spec_render(version),
            AnyFrame::Comments(f) => f.spec_render(version),
            AnyFrame::Url(f) => crate::string::spec_render(Encoding::Latin1, f.spec_url()),
            AnyFrame::UserUrl(f) => f.spec_render(version),
            AnyFrame::FileId(f) => bin::latin1_terminated(f.owner@) + f.identifier@,
            AnyFrame::MusicCdId(f) => f.data@,
            AnyFrame::Private(f) => bin::latin1_terminated(f.owner@) + f.data@,
            AnyFrame::Podcast(_) => bin::podcast_body(),
            AnyFrame::Popularimeter(f) => f.spec_render(),
            AnyFrame::PlayCounter(f) => stats::spec_render_play_count(f.plays),
            AnyFrame::Ownership(f) => f.spec_render(version),
            AnyFrame::TermsOfUse(f) => f.spec_render(version),
            AnyFrame::UnsyncLyrics(f) => f.spec_render(version),
            AnyFrame::SyncedLyrics(f) => f.spec_render(version),
            AnyFrame::EventTimingCodes(f) => f.spec_render(),
            AnyFrame::SyncedTempoCodes(f) => f.spec_render(),
            AnyFrame::AttachedPicture(f) => f.spec_render(version),
            AnyFrame::GeneralObject(f) => f.spec_render(version),
            AnyFrame::RelativeVolume(f) => f.spec_render(),
            AnyFrame::Equalization(f) => f.spec_render(),
            AnyFrame::Custom(_) => Seq::empty(),
        }
    }

    /// The key of this frame: its ID, then what tells it apart from other frames of that
    /// ID. Custom frames are not described.
    pub open spec fn spec_key(&self) -> Seq<char> {
        match self {
            AnyFrame::Text(f) => ascii_chars(f.spec_frame_id().spec_bytes()),
            AnyFrame::UserText(f) => text::key_with(text::txxx(), f.desc@),
            AnyFrame::Credits(f) => text::credits_key(f.spec_frame_id().spec_bytes()),
            AnyFrame::Comments(f) => text::key_with2(text::comm(), f.desc@, ascii_chars(f.lang.spec_code())),
            AnyFrame::Url(f) => ascii_chars(f.spec_frame_id().spec_bytes()),
            AnyFrame::UserUrl(f) => text::key_with(url::wxxx(), f.desc@),
            AnyFrame::FileId(f) => text::key_with(bin::ufid(), f.owner@),
            AnyFrame::MusicCdId(_) => ascii_chars(bin::mcdi()),
            AnyFrame::Private(f) => text::key_with(bin::priv_id(), f.owner@),
            AnyFrame::Podcast(_) => ascii_chars(bin::pcst()),
            AnyFrame::Popularimeter(f) => text::key_with(stats::popm(), f.email@),
            AnyFrame::PlayCounter(_) => ascii_chars(stats::pcnt()),
            AnyFrame::Ownership(_) => ascii_chars(owner::owne()),
            AnyFrame::TermsOfUse(f) => text::key_with(owner::user(), ascii_chars(f.lang.spec_code())),
            AnyFrame::UnsyncLyrics(f) => text::key_with2(lyrics::uslt(), f.desc@, ascii_chars(f.lang.spec_code())),
            AnyFrame::SyncedLyrics(f) => text::key_with2(lyrics::sylt(), f.desc@, ascii_chars(f.lang.spec_code())),
            AnyFrame::EventTimingCodes(_) => ascii_chars(events::etco()),
            AnyFrame::SyncedTempoCodes(_) => ascii_chars(events::sytc()),
            AnyFrame::AttachedPicture(f) => text::key_with(file::apic(), f.desc@),
            AnyFrame::GeneralObject(f) => text::key_with(file::geob(), f.desc@),
            AnyFrame::RelativeVolume(_) => ascii_chars(audio::v23::rvad()),
            AnyFrame::Equalization(_) => ascii_chars(audio::v23::equa()),
            AnyFrame::Custom(_) => Seq::empty(),
        }
    }

    /// Whether this frame is too empty to be written. Custom frames are not described.
    pub open spec fn spec_empty(&self) -> bool {
        match self {
            AnyFrame::Text(f) => text::all_empty(f.spec_text()),
            AnyFrame::UserText(f) => f.desc@.len() == 0 && f.text@.len() == 0,
            AnyFrame::Credits(f) => text::complete_pairs(f.spec_people()).len() == 0,
            AnyFrame::Comments(f) => f.text@.len() == 0,
            AnyFrame::Url(f) => f.spec_url().len() == 0,
            AnyFrame::UserUrl(f) => f.url@.len() == 0,
            AnyFrame::FileId(f) => f.owner@.len() == 0 || f.identifier@.len() == 0,
            AnyFrame::MusicCdId(f) => f.data@.len() == 0,
            AnyFrame::Private(f) => f.data@.len() == 0,
            AnyFrame::Podcast(_) => false,
            AnyFrame::Popularimeter(_) => false,
            AnyFrame::PlayCounter(_) => false,
            AnyFrame::Ownership(_) => false,
            AnyFrame::TermsOfUse(f) => f.text@.len() == 0,
            AnyFrame::UnsyncLyrics(f) => f.lyrics@.len() == 0,
            AnyFrame::SyncedLyrics(f) => f.lyrics@.len() == 0,
            AnyFrame::EventTimingCodes(f) => f.events@.len() == 0,
            AnyFrame::SyncedTempoCodes(f) => f.tempos@.len() == 0,
            AnyFrame::AttachedPicture(f) => f.picture@.len() == 0,
            AnyFrame::GeneralObject(f) => f.data@.len() == 0,
            AnyFrame::RelativeVolume(_) => false,
            AnyFrame::Equalization(f) => f.adjustments@.is_empty(),
            AnyFrame::Custom(_) => false,
        }
    }

    /// Whether this frame is implemented outside this library.
    pub open spec fn is_custom(&self) -> bool {
        self is Custom
    }
}

impl Frame for AnyFrame {
    fn id(&self) -> (r: FrameId)
        ensures
            !self.is_custom() ==> r.spec_bytes() == self.spec_id(),
    {
        match self {
            AnyFrame::Text(f) => f.id(),
            AnyFrame::UserText(f) => f.id(),
            AnyFrame::Credits(f) => f.id(),
            AnyFrame::Comments(f) => f.id(),
            AnyFrame::Url(f) => f.id(),
            AnyFrame::UserUrl(f) => f.id(),
            AnyFrame::FileId(f) => f.id(),
            AnyFrame::MusicCdId(f) => f.id(),
            AnyFrame::Private(f) => f.id(),
            AnyFrame::Podcast(f) => f.id(),
            AnyFrame::Popularimeter(f) => f.id(),
            AnyFrame::PlayCounter(f) => f.id(),
            AnyFrame::Ownership(f) => f.id(),
            AnyFrame::TermsOfUse(f) => f.id(),
            AnyFrame::UnsyncLyrics(f) => f.id(),
            AnyFrame::SyncedLyrics(f) => f.id(),
            AnyFrame::EventTimingCodes(f) => f.id(),
            AnyFrame::SyncedTempoCodes(f) => f.id(),
            AnyFrame::AttachedPicture(f) => f.id(),
            AnyFrame::GeneralObject(f) => f.id(),
            AnyFrame::RelativeVolume(f) => f.id(),
            AnyFrame::Equalization(f) => f.id(),
            AnyFrame::Custom(f) => f.id(),
        }
    }

    fn key(&self) -> (r: String)
        ensures
            !self.is_custom() ==> r@ == self.spec_key(),
    {
        match self {
            AnyFrame::Text(f) => f.key(),
            AnyFrame::UserText(f) => f.key(),
            AnyFrame::Credits(f) => f.key(),
            AnyFrame::Comments(f) => f.key(),
            AnyFrame::Url(f) => f.key(),
            AnyFrame::UserUrl(f) => f.key(),
            AnyFrame::FileId(f) => f.key(),
            AnyFrame::MusicCdId(f) => f.key(),
            AnyFrame::Private(f) => f.key(),
            AnyFrame::Podcast(f) => f.key(),
            AnyFrame::Popularimeter(f) => f.key(),
            AnyFrame::PlayCounter(f) => f.key(),
            AnyFrame::Ownership(f) => f.key(),
            AnyFrame::TermsOfUse(f) => f.key(),
            AnyFrame::UnsyncLyrics(f) => f.key(),
            AnyFrame::SyncedLyrics(f) => f.key(),
            AnyFrame::EventTimingCodes(f) => f.key(),
            AnyFrame::SyncedTempoCodes(f) => f.key(),
            AnyFrame::AttachedPicture(f) => f.key(),
            AnyFrame::GeneralObject(f) => f.key(),
            AnyFrame::RelativeVolume(f) => f.key(),
            AnyFrame::Equalization(f) => f.key(),
            AnyFrame::Custom(f) => f.key(),
        }
    }

    fn is_empty(&self) -> (r: bool)
        ensures
            !self.is_custom() ==> r == self.spec_empty(),
    {
        match self {
            AnyFrame::Text(f) => f.is_empty(),
            AnyFrame::UserText(f) => f.is_empty(),
            AnyFrame::Credits(f) => f.is_empty(),
            AnyFrame::Comments(f) => f.is_empty(),
            AnyFrame::Url(f) => f.is_empty(),
            AnyFrame::UserUrl(f) => f.is_empty(),
            AnyFrame::FileId(f) => f.is_empty(),
            AnyFrame::MusicCdId(f) => f.is_empty(),
            AnyFrame::Private(f) => f.is_empty(),
            AnyFrame::Podcast(f) => f.is_empty(),
            AnyFrame::Popularimeter(f) => f.is_empty(),
            AnyFrame::PlayCounter(f) => f.is_empty(),
            AnyFrame::Ownership(f) => f.is_empty(),
            AnyFrame::TermsOfUse(f) => f.is_empty(),
            AnyFrame::UnsyncLyrics(f) => f.is_empty(),
            AnyFrame::SyncedLyrics(f) => f.is_empty(),
            AnyFrame::EventTimingCodes(f) => f.is_empty(),
            AnyFrame::SyncedTempoCodes(f) => f.is_empty(),
            AnyFrame::AttachedPicture(f) => f.is_empty(),
            AnyFrame::GeneralObject(f) => f.is_empty(),
            AnyFrame::RelativeVolume(f) => f.is_empty(),
            AnyFrame::Equalization(f) => f.is_empty(),
            AnyFrame::Custom(f) => f.is_empty(),
        }
    }

    fn render(&self, tag_header: &TagHeader) -> (r: Vec<u8>)
        ensures
            !self.is_custom() ==> r@ == self.spec_render(tag_header.version()),
    {
        match self {
            AnyFrame::Text(f) => f.render(tag_header),
            AnyFrame::UserText(f) => f.render(tag_header),
            AnyFrame::Credits(f) => f.render(tag_header),
            AnyFrame::Comments(f) => f.render(tag_header),
            AnyFrame::Url(f) => f.render(tag_header),
            AnyFrame::UserUrl(f) => f.render(tag_header),
            AnyFrame::FileId(f) => f.render(tag_header),
            AnyFrame::MusicCdId(f) => f.render(tag_header),
            AnyFrame::Private(f) => f.render(tag_header),
            AnyFrame::Podcast(f) => f.render(tag_header),
            AnyFrame::Popularimeter(f) => f.render(tag_header),
            AnyFrame::PlayCounter(f) => f.render(tag_header),
            AnyFrame::Ownership(f) => f.render(tag_header),
            AnyFrame::TermsOfUse(f) => f.render(tag_header),
            AnyFrame::UnsyncLyrics(f) => f.render(tag_header),
            AnyFrame::SyncedLyrics(f) => f.render(tag_header),
            AnyFrame::EventTimingCodes(f) => f.render(tag_header),
            AnyFrame::SyncedTempoCodes(f) => f.render(tag_header),
            AnyFrame::AttachedPicture(f) => f.render(tag_header),
            AnyFrame::GeneralObject(f) => f.render(tag_header),
            AnyFrame::RelativeVolume(f) => f.render(tag_header),
            AnyFrame::Equalization(f) => f.render(tag_header),
            AnyFrame::Custom(f) => f.render(tag_header),
        }
    }
}

} // verus!

verus! {

// ---- Unknown frames ----

/// A frame that could not be fully parsed.
///
/// Some frames cannot be parsed, such as encrypted frames or ID3v2.2 frames that have no
/// ID3v2.3 analogue. If this is the case, then this struct is returned. `UnknownFrame`
/// instances are immutable and are dropped when a tag is upgraded.
///
/// Generally, these invariants are guaranteed:
/// - The Frame ID is 3 or 4 bytes; a 4-byte ID is made of uppercase ASCII letters or digits.
/// - The frame body has been decoded from the unsynchronization scheme.
///
/// These invariants cannot be guaranteed:
/// - The frame has been fully decompressed.
/// - The frame will be sane, even if fully decoded.
#[derive(Debug)]
pub struct UnknownFrame {
    frame_id: Vec<u8>,
    flags: u16,
    data: Vec<u8>,
}

impl UnknownFrame {
    #[verifier::type_invariant]
    spec fn inv(self) -> bool {
        &&& self.frame_id@.len() == 3 || self.frame_id@.len() == 4
        &&& self.frame_id@.len() == 4 ==> valid_frame_id(self.frame_id@)
    }

    /// The ID of this frame.
    pub closed spec fn spec_id(&self) -> Seq<u8> {
        self.frame_id@
    }

    /// The flags of this frame.
    pub closed spec fn spec_flags(&self) -> u16 {
        self.flags
    }

    /// The data of this frame.
    pub closed spec fn spec_data(&self) -> Seq<u8> {
        self.data@
    }

    /// Creates an unknown frame from frame data and its flags. The data is the whole buffer
    /// of the data's stream.
    fn new(data: FrameData, flags: u16) -> (r: Self)
        ensures
            r.spec_id() == data.spec_id(),
            r.spec_flags() == flags,
            r.spec_data() == data.spec_stream().data(),
    {
        match data {
            FrameData::Normal(frame_id, stream) => {
                let id = frame_id.inner();
                let frame_id = vstd::slice::slice_to_vec(id.as_slice());
                Self { frame_id, flags, data: stream.to_vec() }
            },
            FrameData::Legacy(frame_id, stream) => {
                let frame_id = vstd::slice::slice_to_vec(frame_id.as_slice());
                Self { frame_id, flags, data: stream.to_vec() }
            },
        }
    }

    /// Returns the ID of this frame.
    ///
    /// This will be a valid frame ID, but may be 3 bytes or 4 bytes depending on the tag
    /// version.
    pub fn id(&self) -> (r: &[u8])
        ensures
            r@ == self.spec_id(),
            r@.len() == 3 || r@.len() == 4,
            r@.len() == 4 ==> valid_frame_id(r@),
    {
        proof {
            use_type_invariant(self);
        }
        self.frame_id.as_slice()
    }

    /// Returns the two flag bytes of this frame.
    ///
    /// This can be used as a guide for further parsing of this frame.
    pub fn flags(&self) -> (r: u16)
        ensures
            r == self.spec_flags(),
    {
        self.flags
    }

    /// The data of the frame.
    ///
    /// This will include the entire frame body, including data length indicators and other
    /// auxiliary data.
    pub fn data(&self) -> (r: &[u8])
        ensures
            r@ == self.spec_data(),
    {
        self.data.as_slice()
    }
}

impl Clone for UnknownFrame {
    fn clone(&self) -> (r: Self)
        ensures
            r.spec_id() == self.spec_id(),
            r.spec_flags() == self.spec_flags(),
            r.spec_data() == self.spec_data(),
    {
        proof {
            use_type_invariant(self);
        }
        Self {
            frame_id: vstd::slice::slice_to_vec(self.frame_id.as_slice()),
            flags: self.flags,
            data: vstd::slice::slice_to_vec(self.data.as_slice()),
        }
    }
}

// ---- Frame parsers ----

/// Frame data that has not been fully parsed.
///
/// The data in this enum has already had the header parsed and the frame body fully decoded,
/// but has not been parsed into a [`Frame`](Frame) implementation yet.
pub enum FrameData<'a> {
    /// Legacy ID3v2.2 frame data, with a 3-byte ID. This can originate from an ID3v2.2 tag,
    /// or from an ID3v2.3 tag that still uses ID3v2.2 frames.
    Legacy([u8; 3], BufStream<'a>),
    /// Normal frame data for ID3v2.3+.
    Normal(FrameId, BufStream<'a>),
}

impl<'a> FrameData<'a> {
    /// The ID of this data.
    pub open spec fn spec_id(&self) -> Seq<u8> {
        match self {
            FrameData::Legacy(id, _) => id@,
            FrameData::Normal(id, _) => id.spec_bytes(),
        }
    }

    /// The stream of this data.
    pub open spec fn spec_stream(&self) -> BufStream<'a> {
        match self {
            FrameData::Legacy(_, s) => *s,
            FrameData::Normal(_, s) => *s,
        }
    }
}

/// A result returned from the use of a [`FrameParser`] implementation.
pub enum FrameResult<'a> {
    /// A frame implementation was successfully parsed.
    Frame(AnyFrame),
    /// The frame could not be fully parsed or decoded.
    Unknown(FrameData<'a>),
    /// The frame should be ignored.
    Dropped,
}

/// Specifies the behavior of a custom frame parser.
///
/// Implementing this on a type allows custom frame implementations to be parsed from a tag.
/// When parsing, it is highly recommended to always call [`DefaultFrameParser`] before any
/// custom logic, so that any IDs already handled by this library are assigned to their
/// specific implementation.
pub trait FrameParser {
    /// Whether `r` is what this parser gives for `data` in a tag with the header `tag_header`.
    spec fn parses<'a>(&self, tag_header: TagHeader, data: FrameData<'a>, r: ParseResult<FrameResult<'a>>) -> bool;

    /// Determine and parse a frame from the given data.
    ///
    /// It's not recommended to parse frame data solely based off the tag version: the
    /// version can be ID3v2.3 while the `data` is still [`FrameData::Legacy`].
    fn parse<'a>(&self, tag_header: &TagHeader, data: FrameData<'a>) -> (r: ParseResult<FrameResult<'a>>)
        ensures
            self.parses(*tag_header, data, r),
    ;
}

/// The default [`FrameParser`](FrameParser) used by the tag parsing process.
///
/// This parser supports the most common parts of the ID3v2 specification, including mapping
/// legacy ID3v2.2 frames to modern ID3v2.3 frames.
#[derive(Debug, Clone, Copy)]
pub struct DefaultFrameParser {
    /// Whether to error out when a frame fails to parse. If this is true, tag parsing will
    /// stop as soon as a frame handled by this implementation fails to correctly parse.
    pub strict: bool,
}

impl Default for DefaultFrameParser {
    fn default() -> (r: Self)
        ensures
            r.strict,
    {
        Self { strict: true }
    }
}

// ---- What the frame kinds give ----

/// What the general frame kinds give for the body `d` of a frame with ID `id` in a stream of
/// `total` bytes: `Ok(Some(f))` for a parsed frame, `Ok(None)` for an ID that no kind handles,
/// `Err(e)` for a body that does not parse.
pub open spec fn body_parses_as(id: Seq<u8>, d: Seq<u8>, total: nat, r: ParseResult<Option<AnyFrame>>) -> bool {
    let code = id_code(id);
    if code == 0x5546_4944 {
        // UFID
        r matches Ok(Some(AnyFrame::FileId(f))) && f.owner@ == bin::spec_owner(d) && f.identifier@
            == bin::after_owner(d)
    } else if text::is_text_id(code) {
        match r {
            Ok(Some(AnyFrame::Text(f))) => f.spec_frame_id().spec_bytes() == id && f.is_parse_of(
                f.spec_frame_id(),
                d,
            ),
            Err(e) => encoding::spec_parse(d) == Err::<Encoding, ParseError>(e),
            _ => false,
        }
    } else if code == 0x5458_5858 {
        // TXXX
        match r {
            Ok(Some(AnyFrame::UserText(f))) => f.is_parse_of(d),
            Err(e) => encoding::spec_parse(d) == Err::<Encoding, ParseError>(e),
            _ => false,
        }
    } else if url::is_url_id(code) {
        r matches Ok(Some(AnyFrame::Url(f))) && f.spec_frame_id().spec_bytes() == id && f.spec_url()
            == spec_decode(Encoding::Utf8, d)
    } else if code == 0x5758_5858 {
        // WXXX
        match r {
            Ok(Some(AnyFrame::UserUrl(f))) => f.is_parse_of(d),
            Err(e) => encoding::spec_parse(d) == Err::<Encoding, ParseError>(e),
            _ => false,
        }
    } else if code == 0x4D43_4449 {
        // MCDI
        r matches Ok(Some(AnyFrame::MusicCdId(f))) && f.data@ == d
    } else if code == 0x4554_434F {
        // ETCO
        match r {
            Ok(Some(AnyFrame::EventTimingCodes(f))) => f.is_parse_of(d),
            Err(e) => events::etco_error(d) == Some(e),
            _ => false,
        }
    } else if code == 0x5553_4C54 {
        // USLT
        match r {
            Ok(Some(AnyFrame::UnsyncLyrics(f))) => f.is_parse_of(d),
            Err(e) => text::lang_header_error(d) == Some(e),
            _ => false,
        }
    } else if code == 0x5359_4C54 {
        // SYLT
        match r {
            Ok(Some(AnyFrame::SyncedLyrics(f))) => f.is_parse_of(d, total),
            Err(e) => lyrics::sylt_error(d, total) == Some(e),
            _ => false,
        }
    } else if code == 0x434F_4D4D {
        // COMM
        match r {
            Ok(Some(AnyFrame::Comments(f))) => f.is_parse_of(d),
            Err(e) => text::lang_header_error(d) == Some(e),
            _ => false,
        }
    } else if code == 0x4150_4943 {
        // APIC
        match r {
            Ok(Some(AnyFrame::AttachedPicture(f))) => f.is_parse_of(d),
            Err(e) => file::apic_error(d) == Some(e),
            _ => false,
        }
    } else if code == 0x4745_4F42 {
        // GEOB
        match r {
            Ok(Some(AnyFrame::GeneralObject(f))) => f.is_parse_of(d),
            Err(e) => encoding::spec_parse(d) == Err::<Encoding, ParseError>(e),
            _ => false,
        }
    } else if code == 0x5043_4E54 {
        // PCNT
        r matches Ok(Some(AnyFrame::PlayCounter(f))) && f.plays as nat == stats::spec_play_count(d)
    } else if code == 0x504F_504D {
        // POPM
        match r {
            Ok(Some(AnyFrame::Popularimeter(f))) => f.is_parse_of(d),
            Err(e) => bin::after_owner(d).len() == 0 && e == ParseError::IoError(
                crate::io::StreamError::EndOfStream,
            ),
            _ => false,
        }
    } else if code == 0x5553_4552 {
        // USER
        match r {
            Ok(Some(AnyFrame::TermsOfUse(f))) => f.is_parse_of(d),
            Err(e) => text::lang_header_error(d) == Some(e),
            _ => false,
        }
    } else if code == 0x4F57_4E45 {
        // OWNE
        match r {
            Ok(Some(AnyFrame::Ownership(f))) => f.is_parse_of(d),
            Err(e) => owner::owne_error(d) == Some(e),
            _ => false,
        }
    } else if code == 0x5052_4956 {
        // PRIV
        r matches Ok(Some(AnyFrame::Private(f))) && f.owner@ == bin::spec_owner(d) && f.data@
            == bin::after_owner(d)
    } else if code == 0x5043_5354 {
        // PCST
        match r {
            Ok(Some(AnyFrame::Podcast(_))) => d == bin::podcast_body(),
            Err(e) => d != bin::podcast_body() && e == ParseError::MalformedData,
            _ => false,
        }
    } else {
        r == Ok::<Option<AnyFrame>, ParseError>(None)
    }
}

/// What the frame kinds of ID3v2.3 give for the body `d` of a frame with ID `id`: the
/// ID3v2.3-specific `RVAD` and `EQUA` frames, or one of the general frames.
pub open spec fn body_parses_as_v3(id: Seq<u8>, d: Seq<u8>, total: nat, r: ParseResult<Option<AnyFrame>>) -> bool {
    if id_code(id) == 0x4950_4C53 {
        // IPLS
        credits_parse_as(id, d, r)
    } else if id_code(id) == 0x5256_4144 {
        // RVAD
        match r {
            Ok(Some(AnyFrame::RelativeVolume(f))) => f.is_parse_of(d),
            Err(e) => audio::v23::rvad_error(d) == Some(e),
            _ => false,
        }
    } else if id_code(id) == 0x4551_5541 {
        // EQUA
        match r {
            Ok(Some(AnyFrame::Equalization(f))) => audio::v23::spec_parse_equa(d) == Ok::<
                Map<u16, Volume>,
                ParseError,
            >(f.adjustments@),
            Err(e) => audio::v23::spec_parse_equa(d) == Err::<Map<u16, Volume>, ParseError>(e),
            _ => false,
        }
    } else {
        body_parses_as(id, d, total, r)
    }
}

/// What parsing the body `d` of a credits frame with ID `id` gives.
pub open spec fn credits_parse_as(id: Seq<u8>, d: Seq<u8>, r: ParseResult<Option<AnyFrame>>) -> bool {
    match r {
        Ok(Some(AnyFrame::Credits(f))) => f.spec_frame_id().spec_bytes() == id && f.is_parse_of(
            f.spec_frame_id(),
            d,
        ),
        Err(e) => encoding::spec_parse(d) == Err::<Encoding, ParseError>(e),
        _ => false,
    }
}

/// What the frame kinds of ID3v2.4 give for the body `d` of a frame with ID `id`: the
/// ID3v2.4-specific `TIPL` and `TMCL` frames, or one of the general frames.
pub open spec fn body_parses_as_v4(id: Seq<u8>, d: Seq<u8>, total: nat, r: ParseResult<Option<AnyFrame>>) -> bool {
    if id_code(id) == 0x5449_504C || id_code(id) == 0x544D_434C {
        // TIPL, TMCL
        credits_parse_as(id, d, r)
    } else {
        body_parses_as(id, d, total, r)
    }
}

/// What the frame kinds give according to a frame parser result: a frame, no frame, or an
/// error.
pub open spec fn result_kinds<'a>(r: ParseResult<FrameResult<'a>>) -> ParseResult<Option<AnyFrame>> {
    match r {
        Ok(FrameResult::Frame(f)) => Ok(Some(f)),
        Ok(_) => Ok(None),
        Err(e) => Err(e),
    }
}

/// What a frame parser gives for the body of a frame with ID `id` that the frame kinds in
/// `kinds` handle: a frame, an error, or, when no kind handles the ID, the body handed back
/// as unknown under that ID.
pub open spec fn parses_with<'a>(
    kinds: spec_fn(ParseResult<Option<AnyFrame>>) -> bool,
    id: Seq<u8>,
    s: BufStream<'a>,
    r: ParseResult<FrameResult<'a>>,
) -> bool {
    match r {
        Ok(FrameResult::Unknown(back)) => {
            &&& back matches FrameData::Normal(i, b) && i.spec_bytes() == id && b == s
            &&& kinds(Ok(None))
        },
        Ok(FrameResult::Dropped) => false,
        _ => kinds(result_kinds(r)),
    }
}

/// What the default parser gives for `data` in a tag of `version`, before strict mode is
/// applied.
pub open spec fn default_parses_as<'a>(version: Version, data: FrameData<'a>, r: ParseResult<FrameResult<'a>>) -> bool {
    let s = data.spec_stream();
    let d = s.rest();
    let total = s.data().len();
    match data {
        FrameData::Legacy(id, _) => if legacy_code(id@) == 0x504943 {
            // PIC
            match r {
                Ok(FrameResult::Frame(AnyFrame::AttachedPicture(f))) => f.is_legacy_parse_of(d),
                Err(e) => file::pic_error(d) == Some(e),
                _ => false,
            }
        } else {
            match compat::spec_upgrade_v2_id(legacy_code(id@)) {
                Some(v3) => parses_with(
                    |k: ParseResult<Option<AnyFrame>>| body_parses_as_v3(v3, d, total, k),
                    v3,
                    s,
                    r,
                ),
                None => r == Ok::<FrameResult<'a>, ParseError>(FrameResult::Unknown(data)),
            }
        },
        FrameData::Normal(id, _) => if version == Version::V24 {
            parses_with(
                |k: ParseResult<Option<AnyFrame>>| body_parses_as_v4(id.spec_bytes(), d, total, k),
                id.spec_bytes(),
                s,
                r,
            )
        } else {
            parses_with(
                |k: ParseResult<Option<AnyFrame>>| body_parses_as_v3(id.spec_bytes(), d, total, k),
                id.spec_bytes(),
                s,
                r,
            )
        },
    }
}

} // verus!


verus! {

impl DefaultFrameParser {
    /// Parses the body of a frame with a legacy ID3v2.2 ID. `PIC` frames are parsed
    /// separately; other IDs are converted to their ID3v2.3 analogues, as this preserves the
    /// most frames, and IDs without one are unknown.
    fn match_frame_v2<'a>(&self, tag_header: &TagHeader, frame_id: [u8; 3], stream: BufStream<'a>) -> (r: ParseResult<FrameResult<'a>>)
        ensures
            default_parses_as(tag_header.version(), FrameData::Legacy(frame_id, stream), r),
    {
        let mut stream = stream;
        if legacy_code_of(&frame_id) == 0x504943 {
            // AttachedPictureFrame is subtly different in ID3v2.2, so it is handled separately.
            match AttachedPictureFrame::parse_v2(&mut stream) {
                Ok(f) => Ok(FrameResult::Frame(AnyFrame::AttachedPicture(f))),
                Err(e) => Err(e),
            }
        } else {
            match compat::upgrade_v2_id(&frame_id) {
                Ok(v3_id) => self.match_frame_v3(tag_header, v3_id, stream),
                Err(_) => Ok(FrameResult::Unknown(FrameData::Legacy(frame_id, stream))),
            }
        }
    }

    /// Parses the body of an ID3v2.3 frame: the version-specific `RVAD` and `EQUA` frames, or
    /// one of the general frames.
    fn match_frame_v3<'a>(&self, tag_header: &TagHeader, frame_id: FrameId, stream: BufStream<'a>) -> (r: ParseResult<FrameResult<'a>>)
        ensures
            parses_with(
                |k: ParseResult<Option<AnyFrame>>|
                    body_parses_as_v3(frame_id.spec_bytes(), stream.rest(), stream.data().len(), k),
                frame_id.spec_bytes(),
                stream,
                r,
            ),
    {
        let mut stream = stream;
        if frame_id.code() == 0x4950_4C53 {
            // Involved People List
            match CreditsFrame::parse(frame_id, &mut stream) {
                Ok(f) => Ok(FrameResult::Frame(AnyFrame::Credits(f))),
                Err(e) => Err(e),
            }
        } else if frame_id.code() == 0x5256_4144 {
            // Relative volume adjustment [Frames 4.12]
            match RelativeVolumeFrame::parse(&mut stream) {
                Ok(f) => Ok(FrameResult::Frame(AnyFrame::RelativeVolume(f))),
                Err(e) => Err(e),
            }
        } else if frame_id.code() == 0x4551_5541 {
            // Equalization [Frames 4.13]
            match EqualizationFrame::parse(&mut stream) {
                Ok(f) => Ok(FrameResult::Frame(AnyFrame::Equalization(f))),
                Err(e) => Err(e),
            }
        } else {
            // Not version-specific, go down to general frames
            self.match_frame(tag_header, frame_id, stream)
        }
    }

    /// Parses the body of an ID3v2.4 frame: the version-specific `TIPL` and `TMCL` frames, or
    /// one of the general frames.
    fn match_frame_v4<'a>(&self, tag_header: &TagHeader, frame_id: FrameId, stream: BufStream<'a>) -> (r: ParseResult<FrameResult<'a>>)
        ensures
            parses_with(
                |k: ParseResult<Option<AnyFrame>>|
                    body_parses_as_v4(frame_id.spec_bytes(), stream.rest(), stream.data().len(), k),
                frame_id.spec_bytes(),
                stream,
                r,
            ),
    {
        let mut stream = stream;
        let code = frame_id.code();
        if code == 0x5449_504C || code == 0x544D_434C {
            // Involved People List & Musician Credits List [Frames 4.2.2]
            match CreditsFrame::parse(frame_id, &mut stream) {
                Ok(f) => Ok(FrameResult::Frame(AnyFrame::Credits(f))),
                Err(e) => Err(e),
            }
        } else {
            // Not version-specific, go down to general frames
            self.match_frame(tag_header, frame_id, stream)
        }
    }

    /// Parses the body of a frame that is not version-specific.
    fn match_frame<'a>(&self, tag_header: &TagHeader, frame_id: FrameId, stream: BufStream<'a>) -> (r: ParseResult<FrameResult<'a>>)
        ensures
            parses_with(
                |k: ParseResult<Option<AnyFrame>>|
                    body_parses_as(frame_id.spec_bytes(), stream.rest(), stream.data().len(), k),
                frame_id.spec_bytes(),
                stream,
                r,
            ),
    {
        let code = frame_id.code();
        let mut stream = stream;
        if code == 0x5546_4944 {
            // Unique File Identifier [Frames 4.1]
            match FileIdFrame::parse(&mut stream) {
                Ok(f) => Ok(FrameResult::Frame(AnyFrame::FileId(f))),
                Err(e) => Err(e),
            }
        } else if TextFrame::is_id(frame_id) {
            // Generic Text Information [Frames 4.2]
            match TextFrame::parse(frame_id, &mut stream) {
                Ok(f) => Ok(FrameResult::Frame(AnyFrame::Text(f))),
                Err(e) => Err(e),
            }
        } else if code == 0x5458_5858 {
            // User-Defined Text Information [Frames 4.2.6]
            match UserTextFrame::parse(&mut stream) {
                Ok(f) => Ok(FrameResult::Frame(AnyFrame::UserText(f))),
                Err(e) => Err(e),
            }
        } else if UrlFrame::is_id(frame_id) {
            // Generic URL Link [Frames 4.3]
            match UrlFrame::parse(frame_id, &mut stream) {
                Ok(f) => Ok(FrameResult::Frame(AnyFrame::Url(f))),
                Err(e) => Err(e),
            }
        } else if code == 0x5758_5858 {
            // User-Defined URL Link [Frames 4.3.2]
            match UserUrlFrame::parse(&mut stream) {
                Ok(f) => Ok(FrameResult::Frame(AnyFrame::UserUrl(f))),
                Err(e) => Err(e),
            }
        } else if code == 0x4D43_4449 {
            // Music CD Identifier [Frames 4.4]
            match MusicCdIdFrame::parse(&mut stream) {
                Ok(f) => Ok(FrameResult::Frame(AnyFrame::MusicCdId(f))),
                Err(e) => Err(e),
            }
        } else if code == 0x4554_434F {
            // Event timing codes [Frames 4.5]
            match EventTimingCodesFrame::parse(&mut stream) {
                Ok(f) => Ok(FrameResult::Frame(AnyFrame::EventTimingCodes(f))),
                Err(e) => Err(e),
            }
        } else if code == 0x5553_4C54 {
            // Unsynchronized Lyrics [Frames 4.8]
            match UnsyncLyricsFrame::parse(&mut stream) {
                Ok(f) => Ok(FrameResult::Frame(AnyFrame::UnsyncLyrics(f))),
                Err(e) => Err(e),
            }
        } else if code == 0x5359_4C54 {
            // Synchronized Lyrics [Frames 4.9]
            match SyncedLyricsFrame::parse(&mut stream) {
                Ok(f) => Ok(FrameResult::Frame(AnyFrame::SyncedLyrics(f))),
                Err(e) => Err(e),
            }
        } else if code == 0x434F_4D4D {
            // Comments [Frames 4.10]
            match CommentsFrame::parse(&mut stream) {
                Ok(f) => Ok(FrameResult::Frame(AnyFrame::Comments(f))),
                Err(e) => Err(e),
            }
        } else if code == 0x4150_4943 {
            // Attached Picture [Frames 4.14]
            match AttachedPictureFrame::parse(&mut stream) {
                Ok(f) => Ok(FrameResult::Frame(AnyFrame::AttachedPicture(f))),
                Err(e) => Err(e),
            }
        } else if code == 0x4745_4F42 {
            // General Encapsulated Object [Frames 4.15]
            match GeneralObjectFrame::parse(&mut stream) {
                Ok(f) => Ok(FrameResult::Frame(AnyFrame::GeneralObject(f))),
                Err(e) => Err(e),
            }
        } else if code == 0x5043_4E54 {
            // Play Counter [Frames 4.16]
            match PlayCounterFrame::parse(&mut stream) {
                Ok(f) => Ok(FrameResult::Frame(AnyFrame::PlayCounter(f))),
                Err(e) => Err(e),
            }
        } else if code == 0x504F_504D {
            // Popularimeter [Frames 4.17]
            match PopularimeterFrame::parse(&mut stream) {
                Ok(f) => Ok(FrameResult::Frame(AnyFrame::Popularimeter(f))),
                Err(e) => Err(e),
            }
        } else if code == 0x5553_4552 {
            // Terms of use frame [Frames 4.22]
            match TermsOfUseFrame::parse(&mut stream) {
                Ok(f) => Ok(FrameResult::Frame(AnyFrame::TermsOfUse(f))),
                Err(e) => Err(e),
            }
        } else if code == 0x4F57_4E45 {
            // Ownership frame [Frames 4.23]
            match OwnershipFrame::parse(&mut stream) {
                Ok(f) => Ok(FrameResult::Frame(AnyFrame::Ownership(f))),
                Err(e) => Err(e),
            }
        } else if code == 0x5052_4956 {
            // Private Frame [Frames 4.27]
            match PrivateFrame::parse(&mut stream) {
                Ok(f) => Ok(FrameResult::Frame(AnyFrame::Private(f))),
                Err(e) => Err(e),
            }
        } else if code == 0x5043_5354 {
            // iTunes Podcast Frame
            match PodcastFrame::parse(&mut stream) {
                Ok(f) => Ok(FrameResult::Frame(AnyFrame::Podcast(f))),
                Err(e) => Err(e),
            }
        } else {
            // No idea, return an unknown frame
            Ok(FrameResult::Unknown(FrameData::Normal(frame_id, stream)))
        }
    }
}

impl FrameParser for DefaultFrameParser {
    /// What the default parser gives: what [`default_parses_as`](default_parses_as) describes,
    /// with a failure dropped unless the parser is strict.
    open spec fn parses<'a>(&self, tag_header: TagHeader, data: FrameData<'a>, r: ParseResult<FrameResult<'a>>) -> bool {
        match r {
            Err(e) => self.strict && default_parses_as(tag_header.version(), data, Err(e)),
            Ok(FrameResult::Dropped) => !self.strict && exists|e: ParseError|
                default_parses_as(tag_header.version(), data, Err(e)),
            Ok(other) => default_parses_as(tag_header.version(), data, Ok(other)),
        }
    }

    fn parse<'a>(&self, tag_header: &TagHeader, data: FrameData<'a>) -> (r: ParseResult<FrameResult<'a>>)
    {
        let ghost version = tag_header.version();
        let ghost input = data;
        let result = match data {
            FrameData::Legacy(frame_id, stream) => self.match_frame_v2(tag_header, frame_id, stream),
            // ID3v2.2 tags only hand out legacy data, so normal data is parsed as ID3v2.3.
            FrameData::Normal(frame_id, stream) => match tag_header.version() {
                Version::V24 => self.match_frame_v4(tag_header, frame_id, stream),
                _ => self.match_frame_v3(tag_header, frame_id, stream),
            },
        };
        proof {
            assert(default_parses_as(version, input, result));
        }
        match result {
            Ok(frame) => Ok(frame),
            Err(err) => {
                if self.strict {
                    Err(err)
                } else {
                    // Strict mode is not on, so this frame is dropped.
                    Ok(FrameResult::Dropped)
                }
            },
        }
    }
}

} // verus!

verus! {

// ---- Decompression ----

/// The declaration of the error that `miniz_oxide` returns when decompression fails.
#[verifier::external_type_specification]
#[verifier::external_body]
pub struct ExDecompressError(miniz_oxide::inflate::DecompressError);

/// What `miniz_oxide::inflate::decompress_to_vec_zlib` gives for zlib data: the decompressed
/// bytes, or nothing when the data is not a valid zlib stream.
pub uninterp spec fn zlib_inflate(data: Seq<u8>) -> Option<Seq<u8>>;

/// Decompresses zlib data with `miniz_oxide::inflate::decompress_to_vec_zlib`, which is
/// deterministic: it succeeds exactly when `zlib_inflate` names a result, and gives that
/// result. Nothing is stated about what the decompressed bytes are.
#[verifier::external_body]
fn decompress_zlib(input: &[u8]) -> (r: Result<Vec<u8>, miniz_oxide::inflate::DecompressError>)
    ensures
        r is Ok <==> zlib_inflate(input@) is Some,
        r matches Ok(v) ==> zlib_inflate(input@) == Some(v@),
{
    miniz_oxide::inflate::decompress_to_vec_zlib(input)
}

/// Decompresses the rest of `src` as zlib data.
///
/// # Errors
/// If the data is not a valid zlib stream, `MalformedData` is returned.
pub fn inflate_frame(src: &mut BufStream) -> (r: ParseResult<Vec<u8>>)
    ensures
        final(src).data() == old(src).data(),
        final(src).rest().len() == 0,
        match r {
            Ok(v) => zlib_inflate(old(src).rest()) == Some(v@),
            Err(e) => zlib_inflate(old(src).rest()) is None && e == ParseError::MalformedData,
        },
{
    match decompress_zlib(src.take_rest()) {
        Ok(v) => Ok(v),
        Err(_) => Err(ParseError::MalformedData),
    }
}

// ---- Frame headers ----

/// A frame whose header has been read and whose body has been decoded, ready to be handed to
/// a [`FrameParser`](FrameParser).
pub enum DecodedFrame<'a> {
    /// The frame is empty and is skipped.
    Dropped,
    /// The frame cannot be decoded, such as an encrypted frame.
    Unknown(UnknownFrame),
    /// An ID3v2.2 frame, whose body lies in the tag.
    Legacy([u8; 3], BufStream<'a>),
    /// A frame whose body lies in the tag.
    Normal(FrameId, BufStream<'a>),
    /// A frame whose body was decoded into a buffer of its own, read from the given position.
    Decoded(FrameId, Vec<u8>, usize),
}

/// The size field of the ID3v2.3 frame header at the start of `d`.
pub open spec fn v3_size(d: Seq<u8>) -> nat {
    crate::io::be_value(d.subrange(4, 8))
}

/// The flags of the frame header at the start of `d`.
pub open spec fn header_flags(d: Seq<u8>) -> u16 {
    crate::io::be_value(d.subrange(8, 10)) as u16
}

/// The error of reading `n` bytes from a stream of which `d` is left after reading `p`.
pub open spec fn underread(d: Seq<u8>, p: int, n: nat) -> ParseError {
    ParseError::IoError(
        crate::io::StreamError::BufferUnderread { len: n as usize, remaining: (d.len() - p) as usize },
    )
}

/// The error of skipping to position `pos` of a buffer of `len` bytes.
pub open spec fn skip_error(pos: nat, len: nat) -> ParseError {
    ParseError::IoError(
        crate::io::StreamError::OutOfBounds {
            pos: if pos <= usize::MAX {
                pos as usize
            } else {
                usize::MAX
            },
            len: len as usize,
        },
    )
}

/// Whether the ID3v2.3 frame at the start of `d` has an ID3v2.2 ID followed by a zero byte,
/// as some taggers write.
pub open spec fn v3_legacy_id(d: Seq<u8>) -> bool {
    !valid_frame_id(d.take(4)) && valid_frame_id(d.take(3)) && d[3] == 0
}

/// The error of reading the ID3v2.3 frame at the start of `d`, or `None` when it can be read.
pub open spec fn v3_error(d: Seq<u8>) -> Option<ParseError> {
    let size = v3_size(d);
    let flags = header_flags(d);
    if d.len() < 4 {
        Some(underread(d, 0, 4))
    } else if d.len() < 8 {
        Some(underread(d, 4, 4))
    } else if d.len() < 10 {
        Some(underread(d, 8, 2))
    } else if size == 0 {
        None
    } else if d.len() - 10 < size {
        Some(underread(d, 10, size))
    } else if !valid_frame_id(d.take(4)) && !v3_legacy_id(d) {
        Some(ParseError::MalformedData)
    } else if valid_frame_id(d.take(4)) && flags & 0x40 == 0 && flags & 0x80 != 0 && size < 4 {
        Some(skip_error(4, size))
    } else {
        None
    }
}

/// The position after the grouping byte of a frame body of `len` bytes: frame grouping is
/// ignored, so its byte is skipped when the body holds at least four bytes.
pub open spec fn v3_group_skip(flags: u16, len: nat) -> usize {
    if flags & 0x20 != 0 && len >= 4 {
        1
    } else {
        0
    }
}

/// Whether `r` is what reading the ID3v2.3 frame header at the start of `d` and decoding the
/// body gives, with `rest` left after it.
pub open spec fn decoded_v3<'a>(d: Seq<u8>, r: ParseResult<DecodedFrame<'a>>, rest: Seq<u8>) -> bool {
    let size = v3_size(d);
    let flags = header_flags(d);
    let body = d.subrange(10, 10 + size as int);
    match r {
        Err(e) => v3_error(d) == Some(e),
        Ok(dec) => {
            &&& v3_error(d) is None
            &&& rest == d.skip(10 + size as int)
            &&& match dec {
                DecodedFrame::Dropped => size == 0,
                DecodedFrame::Legacy(id, s) => {
                    &&& size > 0 && v3_legacy_id(d)
                    &&& id@ == d.take(3)
                    &&& s.data() == body && s.cursor() == 0
                },
                DecodedFrame::Unknown(u) => {
                    &&& size > 0 && valid_frame_id(d.take(4))
                    &&& u.spec_id() == d.take(4) && u.spec_flags() == flags
                    &&& u.spec_data() == body
                    &&& (flags & 0x40 != 0 || (flags & 0x80 != 0 && zlib_inflate(
                        body.skip(4),
                    ) is None))
                },
                DecodedFrame::Normal(id, s) => {
                    &&& size > 0 && id.spec_bytes() == d.take(4)
                    &&& flags & 0x40 == 0 && flags & 0x80 == 0
                    &&& s.data() == body && s.cursor() == v3_group_skip(flags, size)
                },
                DecodedFrame::Decoded(id, v, p) => {
                    &&& size > 0 && id.spec_bytes() == d.take(4)
                    &&& flags & 0x40 == 0 && flags & 0x80 != 0
                    &&& zlib_inflate(body.skip(4)) == Some(v@)
                    &&& p == v3_group_skip(flags, v@.len())
                },
            }
        },
    }
}

/// Reads the ID3v2.3 frame header at the start of `stream` and decodes the body.
///
/// Empty frames are skipped, as they are common. An ID3v2.2 ID followed by a zero byte is
/// corrected. Encrypted frames cannot be decoded, as encryption is vendor-specific, and so are
/// frames that fail to decompress. The grouping byte is skipped.
pub fn decode_frame_v3<'a>(stream: &mut BufStream<'a>) -> (r: ParseResult<DecodedFrame<'a>>)
    ensures
        final(stream).data() == old(stream).data(),
        decoded_v3(old(stream).rest(), r, final(stream).rest()),
{
    let ghost d = stream.rest();
    let id_bytes = match stream.read_array::<4>() {
        Ok(b) => b,
        Err(e) => return Err(ParseError::IoError(e)),
    };
    let size32 = match stream.read_be_u32() {
        Ok(s) => s,
        Err(e) => return Err(ParseError::IoError(e)),
    };
    let flags = match stream.read_be_u16() {
        Ok(f) => f,
        Err(e) => return Err(ParseError::IoError(e)),
    };
    proof {
        assert(d.skip(4).take(4) =~= d.subrange(4, 8));
        assert(d.skip(4).skip(4).take(2) =~= d.subrange(8, 10));
        assert(d.skip(4).skip(4).skip(2) =~= d.skip(10));
    }
    let size = size32 as usize;
    // Technically, the spec says that empty frames are a sign of a malformed tag, but they
    // are so common that they are just skipped so other frames can be found.
    if size == 0 {
        return Ok(DecodedFrame::Dropped);
    }
    let mut sub = match stream.slice_stream(size) {
        Ok(s) => s,
        Err(e) => return Err(ParseError::IoError(e)),
    };
    proof {
        assert(d.skip(10).take(size as int) =~= d.subrange(10, 10 + size));
        assert(d.skip(10).skip(size as int) =~= d.skip(10 + size));
    }
    // Certain taggers will write ID3v2.2 frames to ID3v2.3 frames.
    let frame_id = match FrameId::try_new(&id_bytes) {
        Ok(id) => id,
        Err(_) => {
            let v2_id: [u8; 3] = [id_bytes[0], id_bytes[1], id_bytes[2]];
            proof {
                assert(v2_id@ =~= d.take(3));
                assert(id_bytes@ =~= d.take(4));
            }
            if validate(v2_id.as_slice()) && id_bytes[3] == 0 {
                return Ok(DecodedFrame::Legacy(v2_id, sub));
            }
            return Err(ParseError::MalformedData);
        },
    };
    proof {
        assert(id_bytes@ =~= d.take(4));
    }
    // Encryption is vendor-specific, so it cannot be decoded.
    if flags & 0x40 != 0 {
        return Ok(DecodedFrame::Unknown(UnknownFrame::new(FrameData::Normal(frame_id, sub), flags)));
    }
    // Frame-specific compression. This flag also adds a data length indicator that is skipped.
    if flags & 0x80 != 0 {
        match sub.skip(4) {
            Ok(_) => {},
            Err(e) => return Err(ParseError::IoError(e)),
        }
        let decoded = match inflate_frame(&mut sub) {
            Ok(v) => v,
            Err(_) => {
                return Ok(
                    DecodedFrame::Unknown(UnknownFrame::new(FrameData::Normal(frame_id, sub), flags)),
                );
            },
        };
        // Frame grouping is ignored.
        let skip = if flags & 0x20 != 0 && decoded.len() >= 4 {
            1
        } else {
            0
        };
        return Ok(DecodedFrame::Decoded(frame_id, decoded, skip));
    }
    // Frame grouping. Pretty much nobody uses this, so it is ignored.
    if flags & 0x20 != 0 && sub.len() >= 4 {
        match sub.skip(1) {
            Ok(_) => {},
            Err(e) => return Err(ParseError::IoError(e)),
        }
    }
    Ok(DecodedFrame::Normal(frame_id, sub))
}

} // verus!

verus! {

/// The four bytes at `at` in `rest`, or `fallback` when they are out of range.
pub open spec fn peek_id(rest: Seq<u8>, at: nat, fallback: Seq<u8>) -> Seq<u8> {
    if at + 4 <= rest.len() {
        rest.subrange(at as int, at as int + 4)
    } else {
        fallback
    }
}

/// The size of the ID3v2.4 frame at the start of `d`.
///
/// ID3v2.4 sizes should be syncsafe, but iTunes wrote ID3v2.3-style sizes for a while: when
/// the syncsafe size does not lead to the next frame and the plain size does, the plain size
/// is used.
pub open spec fn v4_size(d: Seq<u8>) -> nat {
    let raw = d.subrange(4, 8);
    let size = syncdata::spec_to_u28(raw) as nat;
    if size >= 0x80 {
        let rest = d.skip(8);
        let next = peek_id(rest, size + 2, seq![0u8, 0u8, 0u8, 0u8]);
        if next[0] != 0 && !valid_frame_id(next) {
            let plain = syncdata::be_u32(raw) as nat;
            if valid_frame_id(peek_id(rest, plain + 2, next)) {
                plain
            } else {
                size
            }
        } else {
            size
        }
    } else {
        size
    }
}

/// The buffer an ID3v2.4 frame body is read from: decoded from the unsynchronization scheme
/// when the frame or the whole tag is unsynchronized.
pub open spec fn v4_buffer(body: Seq<u8>, flags: u16, tag_unsync: bool) -> Seq<u8> {
    if flags & 0x2 != 0 || tag_unsync {
        syncdata::spec_unsync(0, body)
    } else {
        body
    }
}

/// The position in the buffer after the grouping byte, which is skipped.
pub open spec fn v4_group_skip(flags: u16) -> nat {
    if flags & 0x40 != 0 {
        1
    } else {
        0
    }
}

/// The position in the buffer after the data length indicator, which is skipped. Some taggers
/// do not set the indicator flag when the frame is compressed, so compression implies it.
pub open spec fn v4_data_start(flags: u16) -> nat {
    v4_group_skip(flags) + if flags & 0x1 != 0 || flags & 0x8 != 0 {
        4nat
    } else {
        0nat
    }
}

/// The error of reading the ID3v2.4 frame at the start of `d`, or `None` when it can be read.
pub open spec fn v4_error(d: Seq<u8>, tag_unsync: bool) -> Option<ParseError> {
    let size = v4_size(d);
    let flags = header_flags(d);
    let buffer = v4_buffer(d.subrange(10, 10 + size as int), flags, tag_unsync);
    if d.len() < 4 {
        Some(underread(d, 0, 4))
    } else if !valid_frame_id(d.take(4)) {
        Some(ParseError::MalformedData)
    } else if d.len() < 8 {
        Some(underread(d, 4, 4))
    } else if d.len() < 10 {
        Some(underread(d, 8, 2))
    } else if size == 0 {
        None
    } else if d.len() - 10 < size {
        Some(underread(d, 10, size))
    } else if flags & 0x40 != 0 && buffer.len() < 1 {
        Some(skip_error(1, buffer.len()))
    } else if flags & 0x4 != 0 {
        None
    } else if (flags & 0x1 != 0 || flags & 0x8 != 0) && buffer.len() < v4_data_start(flags) {
        Some(skip_error(v4_data_start(flags), buffer.len()))
    } else {
        None
    }
}

/// Peeks at the four bytes at `at` in the rest of `stream`, if they are there.
fn peek_four(stream: &BufStream, at: u64) -> (r: Option<[u8; 4]>)
    ensures
        match r {
            Some(b) => at + 4 <= stream.rest().len() && b@ == stream.rest().subrange(
                at as int,
                at + 4,
            ),
            None => at + 4 > stream.rest().len(),
        },
{
    let rem = stream.remaining();
    if at > rem as u64 || (rem as u64) - at < 4 {
        return None;
    }
    let start = at as usize;
    match stream.peek(start..start + 4) {
        Ok(bytes) => {
            let b: [u8; 4] = [bytes[0], bytes[1], bytes[2], bytes[3]];
            assert(b@ =~= stream.rest().subrange(at as int, at + 4));
            Some(b)
        },
        Err(_) => None,
    }
}

/// Reads the size of an ID3v2.4 frame, correcting the non-syncsafe sizes that iTunes wrote.
fn read_v4_size(size_bytes: [u8; 4], stream: &BufStream) -> (r: u32)
    ensures
        r as nat == ({
            let raw = size_bytes@;
            let size = syncdata::spec_to_u28(raw) as nat;
            if size >= 0x80 {
                let rest = stream.rest();
                let next = peek_id(rest, size + 2, seq![0u8, 0u8, 0u8, 0u8]);
                if next[0] != 0 && !valid_frame_id(next) {
                    let plain = syncdata::be_u32(raw) as nat;
                    if valid_frame_id(peek_id(rest, plain + 2, next)) {
                        plain
                    } else {
                        size
                    }
                } else {
                    size
                }
            } else {
                size
            }
        }),
{
    let size = syncdata::to_u28(size_bytes);
    if size >= 0x80 {
        let mut next_id: [u8; 4] = [0, 0, 0, 0];
        if let Some(id) = peek_four(stream, size as u64 + 2) {
            next_id = id;
        }
        proof {
            assert(next_id@ == peek_id(stream.rest(), (size + 2) as nat, seq![0u8, 0u8, 0u8, 0u8]));
        }
        if next_id[0] != 0 && !validate(next_id.as_slice()) {
            // If the plain size leads to the next frame where the syncsafe size does not,
            // the plain size is used instead.
            let plain = ((size_bytes[0] as u32) << 24) | ((size_bytes[1] as u32) << 16) | ((
            size_bytes[2] as u32) << 8) | (size_bytes[3] as u32);
            let ghost first = next_id@;
            if let Some(id) = peek_four(stream, plain as u64 + 2) {
                next_id = id;
            }
            proof {
                assert(next_id@ == peek_id(stream.rest(), (plain + 2) as nat, first));
            }
            if validate(next_id.as_slice()) {
                return plain;
            }
        }
    }
    size
}

/// Whether `r` is what reading the ID3v2.4 frame header at the start of `d` and decoding the
/// body gives in a tag that is unsynchronized as a whole where `tag_unsync` holds, with
/// `rest` left after it.
pub open spec fn decoded_v4<'a>(d: Seq<u8>, tag_unsync: bool, r: ParseResult<DecodedFrame<'a>>, rest: Seq<u8>) -> bool {
    let size = v4_size(d);
    let flags = header_flags(d);
    let body = d.subrange(10, 10 + size as int);
    let buffer = v4_buffer(body, flags, tag_unsync);
    let unsync = flags & 0x2 != 0 || tag_unsync;
    let start = v4_data_start(flags);
    match r {
        Err(e) => v4_error(d, tag_unsync) == Some(e),
        Ok(dec) => {
            &&& v4_error(d, tag_unsync) is None
            &&& rest == d.skip(10 + size as int)
            &&& match dec {
                DecodedFrame::Dropped => size == 0,
                DecodedFrame::Unknown(u) => {
                    &&& size > 0
                    &&& u.spec_id() == d.take(4) && u.spec_flags() == flags
                    &&& u.spec_data() == buffer
                    &&& (flags & 0x4 != 0 || (flags & 0x8 != 0 && zlib_inflate(
                        buffer.skip(start as int),
                    ) is None))
                },
                DecodedFrame::Legacy(_, _) => false,
                DecodedFrame::Normal(id, s) => {
                    &&& size > 0 && id.spec_bytes() == d.take(4)
                    &&& !unsync && flags & 0x4 == 0 && flags & 0x8 == 0
                    &&& s.data() == body && s.cursor() == start
                },
                DecodedFrame::Decoded(id, v, p) => {
                    &&& size > 0 && id.spec_bytes() == d.take(4)
                    &&& flags & 0x4 == 0
                    &&& if flags & 0x8 != 0 {
                        zlib_inflate(buffer.skip(start as int)) == Some(v@) && p == 0
                    } else {
                        unsync && v@ == buffer && p == start
                    }
                },
            }
        },
    }
}

/// Reads the ID3v2.4 frame header at the start of `stream` and decodes the body, with the
/// whole tag unsynchronized when `tag_unsync` holds.
///
/// Empty frames are skipped. The body is decoded from the unsynchronization scheme when the
/// frame or the tag is unsynchronized. The grouping byte and the data length indicator are
/// skipped. Encrypted frames cannot be decoded, and neither can frames that fail to
/// decompress.
pub fn decode_frame_v4<'a>(stream: &mut BufStream<'a>, tag_unsync: bool) -> (r: ParseResult<DecodedFrame<'a>>)
    ensures
        final(stream).data() == old(stream).data(),
        decoded_v4(old(stream).rest(), tag_unsync, r, final(stream).rest()),
{
    let ghost d = stream.rest();
    let id_bytes = match stream.read_array::<4>() {
        Ok(b) => b,
        Err(e) => return Err(ParseError::IoError(e)),
    };
    let frame_id = match FrameId::try_new(&id_bytes) {
        Ok(id) => id,
        Err(_) => return Err(ParseError::MalformedData),
    };
    let size_bytes = match stream.read_array::<4>() {
        Ok(b) => b,
        Err(e) => return Err(ParseError::IoError(e)),
    };
    proof {
        assert(id_bytes@ =~= d.take(4));
        assert(d.skip(4).take(4) =~= d.subrange(4, 8));
        assert(d.skip(4).skip(4) =~= d.skip(8));
    }
    let size = read_v4_size(size_bytes, stream) as usize;
    let flags = match stream.read_be_u16() {
        Ok(f) => f,
        Err(e) => return Err(ParseError::IoError(e)),
    };
    proof {
        assert(d.skip(8).take(2) =~= d.subrange(8, 10));
        assert(d.skip(8).skip(2) =~= d.skip(10));
    }
    // Empty frames are common enough that they are skipped so other frames can be found.
    if size == 0 {
        return Ok(DecodedFrame::Dropped);
    }
    let sub = match stream.slice_stream(size) {
        Ok(s) => s,
        Err(e) => return Err(ParseError::IoError(e)),
    };
    proof {
        assert(d.skip(10).take(size as int) =~= d.subrange(10, 10 + size));
        assert(d.skip(10).skip(size as int) =~= d.skip(10 + size));
    }
    // Frame-specific unsynchronization. The spec is vague about whether the non-size bytes
    // are affected by unsynchronization, so it is assumed that they are.
    if flags & 0x2 != 0 || tag_unsync {
        let mut src = sub;
        let buffer = syncdata::decode(&mut src);
        let mut body = BufStream::new(buffer.as_slice());
        let step = match decode_v4_steps(&frame_id, flags, &mut body) {
            Ok(step) => step,
            Err(e) => return Err(e),
        };
        return match step {
            BodyStep::Unknown(u) => Ok(DecodedFrame::Unknown(u)),
            BodyStep::Inflated(v) => Ok(DecodedFrame::Decoded(frame_id, v, 0)),
            BodyStep::Plain => {
                let pos = body.pos();
                Ok(DecodedFrame::Decoded(frame_id, buffer, pos))
            },
        };
    }
    let mut body = sub;
    match decode_v4_steps(&frame_id, flags, &mut body) {
        Ok(BodyStep::Unknown(u)) => Ok(DecodedFrame::Unknown(u)),
        Ok(BodyStep::Inflated(v)) => Ok(DecodedFrame::Decoded(frame_id, v, 0)),
        Ok(BodyStep::Plain) => Ok(DecodedFrame::Normal(frame_id, body)),
        Err(e) => Err(e),
    }
}

/// What becomes of an ID3v2.4 frame body after its header fields are handled.
enum BodyStep {
    /// The body cannot be decoded.
    Unknown(UnknownFrame),
    /// The body was decompressed.
    Inflated(Vec<u8>),
    /// The body is read as it is, from the position of the stream.
    Plain,
}

/// Handles the fields at the start of an ID3v2.4 frame body held by `stream`: skips the
/// grouping byte, leaves encrypted frames unknown, skips the data length indicator and
/// decompresses.
fn decode_v4_steps(frame_id: &FrameId, flags: u16, stream: &mut BufStream) -> (r: ParseResult<BodyStep>)
    requires
        old(stream).cursor() == 0,
    ensures
        final(stream).data() == old(stream).data(),
        ({
            let buffer = old(stream).data();
            let start = v4_data_start(flags);
            match r {
                Err(e) => {
                    ||| flags & 0x40 != 0 && buffer.len() < 1 && e == skip_error(1, buffer.len())
                    ||| !(flags & 0x40 != 0 && buffer.len() < 1) && flags & 0x4 == 0 && (flags & 0x1
                        != 0 || flags & 0x8 != 0) && buffer.len() < start && e == skip_error(
                        start,
                        buffer.len(),
                    )
                },
                Ok(step) => {
                    &&& !(flags & 0x40 != 0 && buffer.len() < 1)
                    &&& flags & 0x4 == 0 ==> !((flags & 0x1 != 0 || flags & 0x8 != 0) && buffer.len()
                        < start)
                    &&& match step {
                        BodyStep::Unknown(u) => {
                            &&& u.spec_id() == frame_id.spec_bytes() && u.spec_flags() == flags
                            &&& u.spec_data() == buffer
                            &&& (flags & 0x4 != 0 || (flags & 0x8 != 0 && zlib_inflate(
                                buffer.skip(start as int),
                            ) is None))
                        },
                        BodyStep::Inflated(v) => {
                            &&& flags & 0x4 == 0 && flags & 0x8 != 0
                            &&& zlib_inflate(buffer.skip(start as int)) == Some(v@)
                        },
                        BodyStep::Plain => {
                            &&& flags & 0x4 == 0 && flags & 0x8 == 0
                            &&& final(stream).cursor() == start
                        },
                    }
                },
            }
        }),
{
    // Frame grouping. Pretty much nobody uses this, so it is ignored.
    if flags & 0x40 != 0 {
        match stream.skip(1) {
            Ok(_) => {},
            Err(e) => return Err(ParseError::IoError(e)),
        }
    }
    // Encryption is vendor-specific, so it cannot be decoded.
    if flags & 0x4 != 0 {
        return Ok(BodyStep::Unknown(UnknownFrame::new(FrameData::Normal(*frame_id, *stream), flags)));
    }
    // Data length indicator. Some taggers do not set it when compression is enabled, so
    // compression implies it. It is always skipped.
    if flags & 0x1 != 0 || flags & 0x8 != 0 {
        match stream.skip(4) {
            Ok(_) => {},
            Err(e) => return Err(ParseError::IoError(e)),
        }
    }
    // Frame-specific compression.
    if flags & 0x8 != 0 {
        let whole = *stream;
        return match inflate_frame(stream) {
            Ok(v) => Ok(BodyStep::Inflated(v)),
            Err(_) => Ok(BodyStep::Unknown(UnknownFrame::new(FrameData::Normal(*frame_id, whole), flags))),
        };
    }
    Ok(BodyStep::Plain)
}

} // verus!

verus! {

/// The size field of the ID3v2.2 frame header at the start of `d`.
pub open spec fn v2_size(d: Seq<u8>) -> nat {
    crate::io::be_value(d.subrange(3, 6))
}

/// The error of reading the ID3v2.2 frame at the start of `d`, or `None` when it can be read.
pub open spec fn v2_error(d: Seq<u8>) -> Option<ParseError> {
    if d.len() < 3 {
        Some(underread(d, 0, 3))
    } else if !valid_frame_id(d.take(3)) {
        Some(ParseError::MalformedData)
    } else if d.len() < 6 {
        Some(underread(d, 3, 3))
    } else if d.len() - 6 < v2_size(d) {
        Some(underread(d, 6, v2_size(d)))
    } else {
        None
    }
}

/// Whether `r` is what reading the ID3v2.2 frame header at the start of `d` gives, with
/// `rest` left after it.
pub open spec fn decoded_v2<'a>(d: Seq<u8>, r: ParseResult<DecodedFrame<'a>>, rest: Seq<u8>) -> bool {
    match r {
        Err(e) => v2_error(d) == Some(e),
        Ok(dec) => {
            &&& v2_error(d) is None
            &&& rest == d.skip(6 + v2_size(d) as int)
            &&& dec matches DecodedFrame::Legacy(id, s) && id@ == d.take(3) && s.data()
                == d.subrange(6, 6 + v2_size(d) as int) && s.cursor() == 0
        },
    }
}

/// Reads the ID3v2.2 frame header at the start of `stream`: a 3-byte ID and a 3-byte
/// big-endian size. ID3v2.2 frames need no decoding.
pub fn decode_frame_v2<'a>(stream: &mut BufStream<'a>) -> (r: ParseResult<DecodedFrame<'a>>)
    ensures
        final(stream).data() == old(stream).data(),
        decoded_v2(old(stream).rest(), r, final(stream).rest()),
{
    let ghost d = stream.rest();
    let frame_id = match stream.read_array::<3>() {
        Ok(id) => id,
        Err(e) => return Err(ParseError::IoError(e)),
    };
    proof {
        assert(frame_id@ =~= d.take(3));
    }
    if !validate(frame_id.as_slice()) {
        return Err(ParseError::MalformedData);
    }
    let size_bytes = match stream.read_array::<3>() {
        Ok(b) => b,
        Err(e) => return Err(ParseError::IoError(e)),
    };
    proof {
        assert(d.skip(3).take(3) =~= d.subrange(3, 6));
        assert(d.skip(3).skip(3) =~= d.skip(6));
        crate::io::lemma_be_value_bound(size_bytes@);
        crate::io::lemma_pow256_values();
    }
    let size = crate::io::be_uint(size_bytes.as_slice()) as usize;
    let sub = match stream.slice_stream(size) {
        Ok(s) => s,
        Err(e) => return Err(ParseError::IoError(e)),
    };
    proof {
        assert(d.skip(6).take(size as int) =~= d.subrange(6, 6 + size));
        assert(d.skip(6).skip(size as int) =~= d.skip(6 + size));
    }
    Ok(DecodedFrame::Legacy(frame_id, sub))
}

/// A frame found while parsing a tag.
pub enum ParsedFrame {
    /// A frame that was parsed.
    Frame(AnyFrame),
    /// A frame that could not be parsed.
    Unknown(UnknownFrame),
    /// A frame that is skipped.
    Dropped,
}

impl ParsedFrame {
    /// Converts the result of a frame parser: unknown frame data becomes an
    /// [`UnknownFrame`](UnknownFrame) with no flags that holds the whole buffer of the data.
    pub fn from(other: FrameResult) -> (r: Self)
        ensures
            match other {
                FrameResult::Frame(f) => r == ParsedFrame::Frame(f),
                FrameResult::Unknown(data) => r matches ParsedFrame::Unknown(u) && u.spec_id()
                    == data.spec_id() && u.spec_flags() == 0 && u.spec_data()
                    == data.spec_stream().data(),
                FrameResult::Dropped => r == ParsedFrame::Dropped,
            },
    {
        match other {
            FrameResult::Frame(frame) => ParsedFrame::Frame(frame),
            FrameResult::Unknown(data) => ParsedFrame::Unknown(UnknownFrame::new(data, 0)),
            FrameResult::Dropped => ParsedFrame::Dropped,
        }
    }
}

/// Whether `r` is what a frame parser result `res` becomes: unknown frame data becomes an
/// [`UnknownFrame`](UnknownFrame) with no flags that holds the whole buffer of the data.
pub open spec fn converted<'a>(res: ParseResult<FrameResult<'a>>, r: ParseResult<ParsedFrame>) -> bool {
    match res {
        Ok(FrameResult::Frame(f)) => r == Ok::<ParsedFrame, ParseError>(ParsedFrame::Frame(f)),
        Ok(FrameResult::Unknown(data)) => r matches Ok(ParsedFrame::Unknown(u)) && u.spec_id()
            == data.spec_id() && u.spec_flags() == 0 && u.spec_data() == data.spec_stream().data(),
        Ok(FrameResult::Dropped) => r == Ok::<ParsedFrame, ParseError>(ParsedFrame::Dropped),
        Err(e) => r == Err::<ParsedFrame, ParseError>(e),
    }
}

/// Whether `r` is what handing the decoded frame `dec` to `parser` in a tag with the header
/// `header` gives: skipped and unknown frames are not handed over, and a body decoded into a
/// buffer of its own is handed over as a stream of that buffer at its position.
pub open spec fn handed<'a, P: FrameParser>(header: TagHeader, parser: P, dec: DecodedFrame<'a>, r: ParseResult<ParsedFrame>) -> bool {
    match dec {
        DecodedFrame::Dropped => r == Ok::<ParsedFrame, ParseError>(ParsedFrame::Dropped),
        DecodedFrame::Unknown(u) => r == Ok::<ParsedFrame, ParseError>(ParsedFrame::Unknown(u)),
        DecodedFrame::Legacy(id, s) => exists|res: ParseResult<FrameResult<'a>>|
            #[trigger] parser.parses(header, FrameData::Legacy(id, s), res) && converted(res, r),
        DecodedFrame::Normal(id, s) => exists|res: ParseResult<FrameResult<'a>>|
            #[trigger] parser.parses(header, FrameData::Normal(id, s), res) && converted(res, r),
        DecodedFrame::Decoded(id, v, p) => exists|t: BufStream, res: ParseResult<FrameResult>|
            t.data() == v@ && t.cursor() == p && #[trigger] parser.parses(header, FrameData::Normal(id, t), res)
                && converted(res, r),
    }
}

/// Whether `r` is what reading a frame from `d` with `parser` in a tag with the header
/// `header` gives, with `rest` left after it where a frame was read.
pub open spec fn frame_read<P: FrameParser>(header: TagHeader, parser: P, d: Seq<u8>, r: ParseResult<ParsedFrame>, rest: Seq<u8>) -> bool {
    exists|dr: ParseResult<DecodedFrame>|
        {
            &&& #[trigger] decoded_in(header, d, dr, rest)
            &&& match dr {
                Err(e) => r == Err::<ParsedFrame, ParseError>(e),
                Ok(dec) => handed(header, parser, dec, r),
            }
        }
}

/// Whether `r` is what reading the frame header at the start of `d` and decoding the body
/// gives in a tag with the header `header`, with `rest` left after it.
pub open spec fn decoded_in<'a>(header: TagHeader, d: Seq<u8>, r: ParseResult<DecodedFrame<'a>>, rest: Seq<u8>) -> bool {
    match header.version() {
        Version::V22 => decoded_v2(d, r, rest),
        Version::V23 => decoded_v3(d, r, rest),
        Version::V24 => decoded_v4(d, header.flags().unsync, r, rest),
    }
}

/// Hands a decoded frame to `parser`. Skipped and unknown frames are not handed over.
fn hand_over<P: FrameParser>(tag_header: &TagHeader, decoded: DecodedFrame, parser: &P) -> (r: ParseResult<ParsedFrame>)
    requires
        decoded matches DecodedFrame::Decoded(_, v, p) ==> p <= v@.len(),
    ensures
        handed(*tag_header, *parser, decoded, r),
{
    let result = match decoded {
        DecodedFrame::Dropped => return Ok(ParsedFrame::Dropped),
        DecodedFrame::Unknown(u) => return Ok(ParsedFrame::Unknown(u)),
        DecodedFrame::Legacy(frame_id, stream) => parser.parse(tag_header, FrameData::Legacy(frame_id, stream)),
        DecodedFrame::Normal(frame_id, stream) => parser.parse(tag_header, FrameData::Normal(frame_id, stream)),
        DecodedFrame::Decoded(frame_id, buffer, pos) => {
            let mut stream = BufStream::new(buffer.as_slice());
            match stream.skip(pos) {
                Ok(_) => {},
                Err(e) => return Err(ParseError::IoError(e)),
            }
            let res = parser.parse(tag_header, FrameData::Normal(frame_id, stream));
            let r = match res {
                Ok(res) => Ok(ParsedFrame::from(res)),
                Err(e) => Err(e),
            };
            proof {
                assert(converted(res, r));
            }
            return r;
        },
    };
    let r = match result {
        Ok(res) => Ok(ParsedFrame::from(res)),
        Err(e) => Err(e),
    };
    proof {
        assert(converted(result, r));
    }
    r
}

/// Parses the frame at the start of `stream` with `parser`. The frame structure differs
/// across versions, so each version is handled separately.
///
/// # Errors
/// If the frame header is malformed or cut short, or the parser fails, an error is returned.
pub fn parse<P: FrameParser>(tag_header: &TagHeader, stream: &mut BufStream, parser: &P) -> (r: ParseResult<ParsedFrame>)
    ensures
        final(stream).data() == old(stream).data(),
        frame_read(*tag_header, *parser, old(stream).rest(), r, final(stream).rest()),
        r is Ok ==> final(stream).rest().len() < old(stream).rest().len(),
        ({
            let d = old(stream).rest();
            match tag_header.version() {
                Version::V22 => v2_error(d) matches Some(e) ==> r == Err::<ParsedFrame, ParseError>(e),
                Version::V23 => {
                    &&& v3_error(d) matches Some(e) ==> r == Err::<ParsedFrame, ParseError>(e)
                    &&& v3_error(d) is None && v3_size(d) == 0 ==> r == Ok::<ParsedFrame, ParseError>(
                        ParsedFrame::Dropped,
                    )
                },
                Version::V24 => {
                    &&& v4_error(d, tag_header.flags().unsync) matches Some(e) ==> r == Err::<
                        ParsedFrame,
                        ParseError,
                    >(e)
                    &&& v4_error(d, tag_header.flags().unsync) is None && v4_size(d) == 0 ==> r
                        == Ok::<ParsedFrame, ParseError>(ParsedFrame::Dropped)
                },
            }
        }),
{
    match tag_header.version() {
        Version::V22 => parse_frame_v2(tag_header, stream, parser),
        Version::V23 => parse_frame_v3(tag_header, stream, parser),
        Version::V24 => parse_frame_v4(tag_header, stream, parser),
    }
}

/// Parses the ID3v2.2 frame at the start of `stream` with `parser`.
fn parse_frame_v2<P: FrameParser>(tag_header: &TagHeader, stream: &mut BufStream, parser: &P) -> (r: ParseResult<ParsedFrame>)
    requires
        tag_header.version() == Version::V22,
    ensures
        final(stream).data() == old(stream).data(),
        frame_read(*tag_header, *parser, old(stream).rest(), r, final(stream).rest()),
        r is Ok ==> final(stream).rest().len() < old(stream).rest().len(),
        v2_error(old(stream).rest()) matches Some(e) ==> r == Err::<ParsedFrame, ParseError>(e),
{
    let ghost d = stream.rest();
    let decoded = decode_frame_v2(stream);
    let ghost dr = decoded;
    let r = match decoded {
        Ok(decoded) => hand_over(tag_header, decoded, parser),
        Err(e) => Err(e),
    };
    proof {
        assert(decoded_v2(d, dr, stream.rest()));
        assert(decoded_in(*tag_header, d, dr, stream.rest()));
    }
    r
}

/// Parses the ID3v2.3 frame at the start of `stream` with `parser`.
fn parse_frame_v3<P: FrameParser>(tag_header: &TagHeader, stream: &mut BufStream, parser: &P) -> (r: ParseResult<ParsedFrame>)
    requires
        tag_header.version() == Version::V23,
    ensures
        final(stream).data() == old(stream).data(),
        frame_read(*tag_header, *parser, old(stream).rest(), r, final(stream).rest()),
        r is Ok ==> final(stream).rest().len() < old(stream).rest().len(),
        v3_error(old(stream).rest()) matches Some(e) ==> r == Err::<ParsedFrame, ParseError>(e),
        v3_error(old(stream).rest()) is None && v3_size(old(stream).rest()) == 0 ==> r == Ok::<
            ParsedFrame,
            ParseError,
        >(ParsedFrame::Dropped),
{
    let ghost d = stream.rest();
    let decoded = decode_frame_v3(stream);
    let ghost dr = decoded;
    let r = match decoded {
        Ok(decoded) => hand_over(tag_header, decoded, parser),
        Err(e) => Err(e),
    };
    proof {
        assert(decoded_v3(d, dr, stream.rest()));
        assert(decoded_in(*tag_header, d, dr, stream.rest()));
    }
    r
}

/// Parses the ID3v2.4 frame at the start of `stream` with `parser`.
fn parse_frame_v4<P: FrameParser>(tag_header: &TagHeader, stream: &mut BufStream, parser: &P) -> (r: ParseResult<ParsedFrame>)
    requires
        tag_header.version() == Version::V24,
    ensures
        final(stream).data() == old(stream).data(),
        frame_read(*tag_header, *parser, old(stream).rest(), r, final(stream).rest()),
        r is Ok ==> final(stream).rest().len() < old(stream).rest().len(),
        v4_error(old(stream).rest(), tag_header.flags().unsync) matches Some(e) ==> r == Err::<
            ParsedFrame,
            ParseError,
        >(e),
        v4_error(old(stream).rest(), tag_header.flags().unsync) is None && v4_size(
            old(stream).rest(),
        ) == 0 ==> r == Ok::<ParsedFrame, ParseError>(ParsedFrame::Dropped),
{
    let ghost d = stream.rest();
    let decoded = decode_frame_v4(stream, tag_header.flags().unsync);
    let ghost dr = decoded;
    let r = match decoded {
        Ok(decoded) => hand_over(tag_header, decoded, parser),
        Err(e) => Err(e),
    };
    proof {
        assert(decoded_v4(d, tag_header.flags().unsync, dr, stream.rest()));
        assert(decoded_in(*tag_header, d, dr, stream.rest()));
    }
    r
}

// ---- Rendering ----

/// The ID3v2.3 header of a frame: the ID, the size as a big-endian 32-bit number, and the
/// flags.
pub open spec fn spec_v3_header(id: Seq<u8>, flags: u16, size: nat) -> Seq<u8> {
    id + crate::io::be_bytes(size, 4) + seq![(flags >> 8) as u8, (flags & 0x00FF) as u8]
}

/// The ID3v2.4 header of a frame: the ID, the size as a syncsafe number, and the flags.
pub open spec fn spec_v4_header(id: Seq<u8>, flags: u16, size: u32) -> Seq<u8> {
    id + seq![
        syncdata::group7(size, 3),
        syncdata::group7(size, 2),
        syncdata::group7(size, 1),
        syncdata::group7(size, 0),
    ] + seq![(flags >> 8) as u8, (flags & 0x00FF) as u8]
}

/// The largest frame body an ID3v2.4 header can hold here: syncsafe sizes limit it to 256MB.
pub open spec fn v4_size_limit() -> nat {
    256_000_000
}

/// Whether `rest` is what can follow a frame in a tag: another frame, padding, or the end of
/// the tag.
pub open spec fn follows_frame(rest: Seq<u8>) -> bool {
    rest.len() < 4 || rest[0] == 0 || valid_frame_id(rest.take(4))
}

/// A frame written with an ID3v2.4 header and no flags, in a tag that is not unsynchronized
/// as a whole, is read back as frame data of its ID holding its body, leaving what follows
/// it.
pub proof fn lemma_v4_frame_decodes<'a>(id: Seq<u8>, body: Seq<u8>, rest: Seq<u8>, dr: ParseResult<DecodedFrame<'a>>, after: Seq<u8>)
    requires
        id.len() == 4,
        valid_frame_id(id),
        0 < body.len() <= v4_size_limit(),
        follows_frame(rest),
        decoded_v4(spec_v4_header(id, 0, body.len() as u32) + body + rest, false, dr, after),
    ensures
        dr matches Ok(DecodedFrame::Normal(fid, st)) && fid.spec_bytes() == id && st.rest() == body,
        after == rest,
{
    let size = body.len() as u32;
    let d = spec_v4_header(id, 0, size) + body + rest;
    assert(size < 0x1000_0000);
    syncdata::lemma_u28_roundtrip(size);
    assert((0u16 >> 8) as u8 == 0 && (0u16 & 0x00FF) as u8 == 0 && 0u16 & 0x40 == 0
        && 0u16 & 0x4 == 0 && 0u16 & 0x8 == 0 && 0u16 & 0x2 == 0 && 0u16 & 0x1 == 0
        && 0u16 & 0x20 == 0) by (bit_vector);
    assert(d.take(4) =~= id);
    assert(d.subrange(4, 8) =~= seq![
        syncdata::group7(size, 3),
        syncdata::group7(size, 2),
        syncdata::group7(size, 1),
        syncdata::group7(size, 0),
    ]);
    assert(d.subrange(8, 10) =~= seq![0u8, 0u8]);
    assert(header_flags(d) == 0) by {
        assert(crate::io::be_value(seq![0u8, 0u8]) == 0) by {
            reveal_with_fuel(crate::io::be_value, 3);
        }
    }
    assert(d.subrange(10, 10 + size as int) =~= body);
    assert(d.skip(10 + size as int) =~= rest);
    let rest8 = d.skip(8);
    assert(rest8.skip(size + 2) =~= rest);
    if rest.len() >= 4 {
        assert(rest8.subrange(size + 2, size + 6) =~= rest.take(4));
    }
    assert(v4_size(d) == size);
    assert(v4_data_start(0) == 0);
    assert(v4_buffer(body, 0, false) == body);
}

/// The two flag bytes of a frame header hold the flags as they were: reading them back from a
/// written ID3v2.3 or ID3v2.4 header gives the same flags.
pub proof fn lemma_header_flags_read_back(id: Seq<u8>, flags: u16, size: u32, rest: Seq<u8>)
    requires
        id.len() == 4,
    ensures
        header_flags(spec_v3_header(id, flags, size as nat) + rest) == flags,
        header_flags(spec_v4_header(id, flags, size) + rest) == flags,
{
    let hi = (flags >> 8) as u8;
    let lo = (flags & 0x00FF) as u8;
    assert(hi as u16 * 256 + lo as u16 == flags) by (bit_vector)
        requires
            hi == (flags >> 8) as u8,
            lo == (flags & 0x00FF) as u8,
    ;
    crate::io::lemma_be_bytes_value(size as nat, 4);
    let d3 = spec_v3_header(id, flags, size as nat) + rest;
    let d4 = spec_v4_header(id, flags, size) + rest;
    assert(d3.subrange(8, 10) =~= seq![hi, lo]);
    assert(d4.subrange(8, 10) =~= seq![hi, lo]);
    assert(crate::io::be_value(seq![hi, lo]) == hi as nat * 256 + lo as nat) by {
        assert(seq![hi, lo].drop_last() =~= seq![hi]);
        assert(seq![hi].drop_last() =~= Seq::<u8>::empty());
        reveal_with_fuel(crate::io::be_value, 3);
    }
}

/// A frame written with an ID3v2.3 header and no flags is read back as frame data of its ID
/// holding its body, leaving what follows it.
pub proof fn lemma_v3_frame_decodes<'a>(id: Seq<u8>, body: Seq<u8>, rest: Seq<u8>, dr: ParseResult<DecodedFrame<'a>>, after: Seq<u8>)
    requires
        id.len() == 4,
        valid_frame_id(id),
        0 < body.len() <= u32::MAX,
        decoded_v3(spec_v3_header(id, 0, body.len()) + body + rest, dr, after),
    ensures
        dr matches Ok(DecodedFrame::Normal(fid, st)) && fid.spec_bytes() == id && st.rest() == body,
        after == rest,
{
    let size = body.len();
    let d = spec_v3_header(id, 0, size) + body + rest;
    crate::io::lemma_be_bytes_value(size, 4);
    crate::io::lemma_pow256_values();
    assert((0u16 >> 8) as u8 == 0 && (0u16 & 0x00FF) as u8 == 0 && 0u16 & 0x40 == 0
        && 0u16 & 0x80 == 0 && 0u16 & 0x20 == 0) by (bit_vector);
    assert(d.take(4) =~= id);
    assert(d.subrange(4, 8) =~= crate::io::be_bytes(size, 4));
    assert(d.subrange(8, 10) =~= seq![0u8, 0u8]);
    assert(header_flags(d) == 0) by {
        assert(crate::io::be_value(seq![0u8, 0u8]) == 0) by {
            reveal_with_fuel(crate::io::be_value, 3);
        }
    }
    assert(v3_size(d) == size);
    assert(d.subrange(10, 10 + size as int) =~= body);
    assert(d.skip(10 + size as int) =~= rest);
    assert(v3_group_skip(0, size) == 0);
}

/// A frame body written with a header of an ID3v2.3 or ID3v2.4 tag and read back by
/// [`parse`](parse) is handed to the parser as frame data of its ID holding the body, and
/// what the parser gives for it is what is read.
proof fn lemma_frame_reads_body<'a, P: FrameParser>(
    header: TagHeader,
    parser: P,
    id: Seq<u8>,
    body: Seq<u8>,
    rest: Seq<u8>,
    r: ParseResult<ParsedFrame>,
    after: Seq<u8>,
) -> (out: (FrameId, BufStream<'a>, ParseResult<FrameResult<'a>>))
    requires
        header.version() == Version::V23 || header.version() == Version::V24,
        header.version() == Version::V24 ==> !header.flags().unsync,
        id.len() == 4,
        valid_frame_id(id),
        body.len() > 0,
        spec_frame_header(header.version(), id, 0, body.len()) is Some,
        follows_frame(rest),
        frame_read(header, parser, spec_frame_header(header.version(), id, 0, body.len())->Some_0 + body + rest, r, after),
    ensures
        after == rest,
        out.0.spec_bytes() == id,
        out.1.rest() == body,
        parser.parses(header, FrameData::Normal(out.0, out.1), out.2),
        converted(out.2, r),
{
    let v = header.version();
    let h = spec_frame_header(v, id, 0, body.len())->Some_0;
    let d = h + body + rest;
    let dr = choose|dr: ParseResult<DecodedFrame>|
        {
            &&& #[trigger] decoded_in(header, d, dr, after)
            &&& match dr {
                Err(e) => r == Err::<ParsedFrame, ParseError>(e),
                Ok(dec) => handed(header, parser, dec, r),
            }
        };
    if v == Version::V24 {
        assert(decoded_v4(d, false, dr, after));
        lemma_v4_frame_decodes(id, body, rest, dr, after);
    } else {
        assert(decoded_v3(d, dr, after));
        lemma_v3_frame_decodes(id, body, rest, dr, after);
    }
    let fid = dr->Ok_0->Normal_0;
    let st = dr->Ok_0->Normal_1;
    let res = choose|res: ParseResult<FrameResult>|
        #[trigger] parser.parses(header, FrameData::Normal(fid, st), res) && converted(res, r);
    (fid, st, res)
}

/// A text frame written to an ID3v2.3 or ID3v2.4 tag with [`render`](render) is read back by
/// [`parse`](parse) with the strict default parser as a text frame of its ID, with the
/// encoding it was written in and its strings, where its encoding byte names that encoding,
/// each of its strings can be written and read back, and what follows it can follow a frame.
pub proof fn lemma_text_frame_reads_back(
    header: TagHeader,
    f: TextFrame,
    rest: Seq<u8>,
    r: ParseResult<ParsedFrame>,
    after: Seq<u8>,
)
    requires
        encoding::flag_matches(f.spec_encoding(), header.version()),
        header.version() == Version::V23 || header.version() == Version::V24,
        header.version() == Version::V24 ==> !header.flags().unsync,
        valid_frame_id(f.spec_frame_id().spec_bytes()),
        text::is_text_id(id_code(f.spec_frame_id().spec_bytes())),
        text::writable_strings(
            encoding::spec_check(f.spec_encoding(), header.version()),
            strings_view(f.spec_text()),
        ),
        spec_frame_header(
            header.version(),
            f.spec_frame_id().spec_bytes(),
            0,
            f.spec_render(header.version()).len(),
        ) is Some,
        follows_frame(rest),
        frame_read(
            header,
            DefaultFrameParser { strict: true },
            spec_frame_header(
                header.version(),
                f.spec_frame_id().spec_bytes(),
                0,
                f.spec_render(header.version()).len(),
            )->Some_0 + f.spec_render(header.version()) + rest,
            r,
            after,
        ),
    ensures
        after == rest,
        r matches Ok(ParsedFrame::Frame(AnyFrame::Text(g))) && g.spec_frame_id().spec_bytes()
            == f.spec_frame_id().spec_bytes() && g.spec_encoding() == encoding::spec_check(
            f.spec_encoding(),
            header.version(),
        ) && strings_view(g.spec_text()) == strings_view(f.spec_text()),
{
    let id = f.spec_frame_id().spec_bytes();
    let body = f.spec_render(header.version());
    text::lemma_text_frame_roundtrip(f, header.version());
    let (fid, st, res) = lemma_frame_reads_body(header, DefaultFrameParser { strict: true }, id, body, rest, r, after);
    assert(!(id_code(id) == 0x5449_504C || id_code(id) == 0x544D_434C));
    assert(!(id_code(id) == 0x4950_4C53 || id_code(id) == 0x5256_4144 || id_code(id) == 0x4551_5541));
    match res {
        Ok(FrameResult::Frame(x)) => {
            assert(body_parses_as(id, body, st.data().len(), Ok(Some(x))));
        },
        Ok(FrameResult::Unknown(_)) => {
            assert(body_parses_as(id, body, st.data().len(), Ok(None)));
        },
        Ok(FrameResult::Dropped) => {},
        Err(e) => {
            assert(body_parses_as(id, body, st.data().len(), Err(e)));
        },
    }
}

/// A user text frame written to an ID3v2.3 or ID3v2.4 tag with [`render`](render) is read
/// back by [`parse`](parse) with the strict default parser as a user text frame with the
/// encoding it was written in, its description and its strings, where its encoding byte names
/// that encoding, the description has no NUL character and fits the encoding, each string can
/// be written and read back, and what follows it can follow a frame.
pub proof fn lemma_user_text_reads_back(
    header: TagHeader,
    f: UserTextFrame,
    rest: Seq<u8>,
    r: ParseResult<ParsedFrame>,
    after: Seq<u8>,
)
    requires
        encoding::flag_matches(f.encoding, header.version()),
        header.version() == Version::V23 || header.version() == Version::V24,
        header.version() == Version::V24 ==> !header.flags().unsync,
        crate::string::no_nul_char(f.desc@),
        crate::string::fits(encoding::spec_check(f.encoding, header.version()), f.desc@),
        text::writable_strings(encoding::spec_check(f.encoding, header.version()), strings_view(f.text@)),
        spec_frame_header(header.version(), text::txxx(), 0, f.spec_render(header.version()).len()) is Some,
        follows_frame(rest),
        frame_read(
            header,
            DefaultFrameParser { strict: true },
            spec_frame_header(header.version(), text::txxx(), 0, f.spec_render(header.version()).len())->Some_0
                + f.spec_render(header.version()) + rest,
            r,
            after,
        ),
    ensures
        after == rest,
        r matches Ok(ParsedFrame::Frame(AnyFrame::UserText(g))) && g.encoding == encoding::spec_check(
            f.encoding,
            header.version(),
        ) && g.desc@ == f.desc@ && strings_view(g.text@) == strings_view(f.text@),
{
    let id = text::txxx();
    let body = f.spec_render(header.version());
    text::lemma_user_text_roundtrip(f, header.version());
    assert(body.len() > 0);
    let (fid, st, res) = lemma_frame_reads_body(header, DefaultFrameParser { strict: true }, id, body, rest, r, after);
    assert(id_code(id) == 0x5458_5858);
    match res {
        Ok(FrameResult::Frame(x)) => {
            assert(body_parses_as(id, body, st.data().len(), Ok(Some(x))));
        },
        Ok(FrameResult::Unknown(_)) => {
            assert(body_parses_as(id, body, st.data().len(), Ok(None)));
        },
        Ok(FrameResult::Dropped) => {},
        Err(e) => {
            assert(body_parses_as(id, body, st.data().len(), Err(e)));
        },
    }
}

/// A comment written to an ID3v2.3 or ID3v2.4 tag with [`render`](render) is read back by
/// [`parse`](parse) with the strict default parser as a comment with the encoding it was
/// written in, its description and its text, where the description has no NUL character and
/// both fit the encoding, and what follows it can follow a frame. Its language is read back as
/// the code it holds where that is a language code, and as `xxx` otherwise.
#[verifier::rlimit(40)]
pub proof fn lemma_comments_reads_back(
    header: TagHeader,
    f: CommentsFrame,
    rest: Seq<u8>,
    r: ParseResult<ParsedFrame>,
    after: Seq<u8>,
)
    requires
        header.version() == Version::V23 || header.version() == Version::V24,
        header.version() == Version::V24 ==> !header.flags().unsync,
        crate::string::no_nul_char(f.desc@),
        crate::string::fits(encoding::spec_check(f.encoding, header.version()), f.desc@),
        crate::string::fits(encoding::spec_check(f.encoding, header.version()), f.text@),
        spec_frame_header(header.version(), text::comm(), 0, f.spec_render(header.version()).len()) is Some,
        follows_frame(rest),
        frame_read(
            header,
            DefaultFrameParser { strict: true },
            spec_frame_header(header.version(), text::comm(), 0, f.spec_render(header.version()).len())->Some_0
                + f.spec_render(header.version()) + rest,
            r,
            after,
        ),
    ensures
        after == rest,
        r matches Ok(ParsedFrame::Frame(AnyFrame::Comments(g))) && g.encoding == encoding::spec_check(
            f.encoding,
            header.version(),
        ) && g.lang.spec_code() == types::spec_language_or_default(f.lang.spec_code()) && g.desc@
            == f.desc@ && g.text@ == f.text@,
{
    let id = text::comm();
    let body = f.spec_render(header.version());
    text::lemma_comments_roundtrip(f, header.version());
    assert(body.len() > 0);
    let (fid, st, res) = lemma_frame_reads_body(header, DefaultFrameParser { strict: true }, id, body, rest, r, after);
    assert(id_code(id) == 0x434F_4D4D);
    match res {
        Ok(FrameResult::Frame(x)) => {
            assert(body_parses_as(id, body, st.data().len(), Ok(Some(x))));
        },
        Ok(FrameResult::Unknown(_)) => {
            assert(body_parses_as(id, body, st.data().len(), Ok(None)));
        },
        Ok(FrameResult::Dropped) => {},
        Err(e) => {
            assert(body_parses_as(id, body, st.data().len(), Err(e)));
        },
    }
}

/// A user URL frame written to an ID3v2.3 or ID3v2.4 tag with [`render`](render) is read back
/// by [`parse`](parse) with the strict default parser as a user URL frame with the encoding it
/// was written in, its description and its URL, where its encoding byte names that encoding,
/// the description has no NUL character and fits the encoding, the URL fits in Latin-1, and
/// what follows it can follow a frame.
#[verifier::rlimit(40)]
pub proof fn lemma_user_url_reads_back(
    header: TagHeader,
    f: UserUrlFrame,
    rest: Seq<u8>,
    r: ParseResult<ParsedFrame>,
    after: Seq<u8>,
)
    requires
        encoding::flag_matches(f.encoding, header.version()),
        header.version() == Version::V23 || header.version() == Version::V24,
        header.version() == Version::V24 ==> !header.flags().unsync,
        crate::string::no_nul_char(f.desc@),
        crate::string::fits(encoding::spec_check(f.encoding, header.version()), f.desc@),
        crate::string::fits(Encoding::Latin1, f.url@),
        spec_frame_header(header.version(), url::wxxx(), 0, f.spec_render(header.version()).len()) is Some,
        follows_frame(rest),
        frame_read(
            header,
            DefaultFrameParser { strict: true },
            spec_frame_header(header.version(), url::wxxx(), 0, f.spec_render(header.version()).len())->Some_0
                + f.spec_render(header.version()) + rest,
            r,
            after,
        ),
    ensures
        after == rest,
        r matches Ok(ParsedFrame::Frame(AnyFrame::UserUrl(g))) && g.encoding == encoding::spec_check(
            f.encoding,
            header.version(),
        ) && g.desc@ == f.desc@ && g.url@ == f.url@,
{
    let id = url::wxxx();
    let body = f.spec_render(header.version());
    url::lemma_user_url_roundtrip(f, header.version());
    assert(body.len() > 0);
    let (fid, st, res) = lemma_frame_reads_body(header, DefaultFrameParser { strict: true }, id, body, rest, r, after);
    assert(id_code(id) == 0x5758_5858);
    assert(!text::is_text_id(id_code(id)) && !url::is_url_id(id_code(id)));
    match res {
        Ok(FrameResult::Frame(x)) => {
            assert(body_parses_as(id, body, st.data().len(), Ok(Some(x))));
        },
        Ok(FrameResult::Unknown(_)) => {
            assert(body_parses_as(id, body, st.data().len(), Ok(None)));
        },
        Ok(FrameResult::Dropped) => {},
        Err(e) => {
            assert(body_parses_as(id, body, st.data().len(), Err(e)));
        },
    }
}

/// Whether `f` can be written to a tag of `version` and read back as it was: a text, user
/// text, comments or user URL frame whose text can be written in the encoding it is written
/// in and read back, whose encoding byte, except for comments, names that encoding, and whose
/// language code, where it has one, is a language code.
pub open spec fn readable(f: AnyFrame, version: Version) -> bool {
    match f {
        AnyFrame::Text(t) => {
            &&& encoding::flag_matches(t.spec_encoding(), version)
            &&& valid_frame_id(t.spec_frame_id().spec_bytes())
            &&& text::is_text_id(id_code(t.spec_frame_id().spec_bytes()))
            &&& text::writable_strings(
                encoding::spec_check(t.spec_encoding(), version),
                strings_view(t.spec_text()),
            )
        },
        AnyFrame::UserText(t) => {
            &&& encoding::flag_matches(t.encoding, version)
            &&& crate::string::no_nul_char(t.desc@)
            &&& crate::string::fits(encoding::spec_check(t.encoding, version), t.desc@)
            &&& text::writable_strings(encoding::spec_check(t.encoding, version), strings_view(t.text@))
        },
        AnyFrame::Comments(c) => {
            &&& crate::string::no_nul_char(c.desc@)
            &&& crate::string::fits(encoding::spec_check(c.encoding, version), c.desc@)
            &&& crate::string::fits(encoding::spec_check(c.encoding, version), c.text@)
            &&& types::spec_language_or_default(c.lang.spec_code()) == c.lang.spec_code()
        },
        AnyFrame::UserUrl(u) => {
            &&& encoding::flag_matches(u.encoding, version)
            &&& crate::string::no_nul_char(u.desc@)
            &&& crate::string::fits(encoding::spec_check(u.encoding, version), u.desc@)
            &&& crate::string::fits(Encoding::Latin1, u.url@)
        },
        _ => false,
    }
}

/// Whether `g` is what reading back `f`, written to a tag of `version`, gives: a frame of the
/// same kind and ID with the same text, in the encoding that `f` is written in.
pub open spec fn reads_as(f: AnyFrame, g: AnyFrame, version: Version) -> bool {
    match (f, g) {
        (AnyFrame::Text(a), AnyFrame::Text(b)) => {
            &&& b.spec_frame_id().spec_bytes() == a.spec_frame_id().spec_bytes()
            &&& b.spec_encoding() == encoding::spec_check(a.spec_encoding(), version)
            &&& strings_view(b.spec_text()) == strings_view(a.spec_text())
        },
        (AnyFrame::UserText(a), AnyFrame::UserText(b)) => {
            &&& b.encoding == encoding::spec_check(a.encoding, version)
            &&& b.desc@ == a.desc@
            &&& strings_view(b.text@) == strings_view(a.text@)
        },
        (AnyFrame::Comments(a), AnyFrame::Comments(b)) => {
            &&& b.encoding == encoding::spec_check(a.encoding, version)
            &&& b.lang.spec_code() == a.lang.spec_code()
            &&& b.desc@ == a.desc@
            &&& b.text@ == a.text@
        },
        (AnyFrame::UserUrl(a), AnyFrame::UserUrl(b)) => {
            &&& b.encoding == encoding::spec_check(a.encoding, version)
            &&& b.desc@ == a.desc@
            &&& b.url@ == a.url@
        },
        _ => false,
    }
}

/// The bytes of `f` written with a header to a tag of `version`.
pub open spec fn frame_bytes(f: AnyFrame, version: Version) -> Seq<u8> {
    spec_frame_header(version, f.spec_id(), 0, f.spec_render(version).len())->Some_0 + f.spec_render(
        version,
    )
}

/// A frame that can be read back, written to an ID3v2.3 or ID3v2.4 tag with
/// [`render`](render), is read back by [`parse`](parse) with the strict default parser as the
/// frame it was written from, with the same key, where what follows it can follow a frame.
pub proof fn lemma_frame_reads_back(
    header: TagHeader,
    f: AnyFrame,
    rest: Seq<u8>,
    r: ParseResult<ParsedFrame>,
    after: Seq<u8>,
)
    requires
        header.version() == Version::V23 || header.version() == Version::V24,
        header.version() == Version::V24 ==> !header.flags().unsync,
        readable(f, header.version()),
        spec_frame_header(header.version(), f.spec_id(), 0, f.spec_render(header.version()).len()) is Some,
        follows_frame(rest),
        frame_read(header, DefaultFrameParser { strict: true }, frame_bytes(f, header.version()) + rest, r, after),
    ensures
        after == rest,
        r matches Ok(ParsedFrame::Frame(g)) && reads_as(f, g, header.version()) && g.spec_key() == f.spec_key(),
{
    match f {
        AnyFrame::Text(t) => lemma_text_frame_reads_back(header, t, rest, r, after),
        AnyFrame::UserText(t) => lemma_user_text_reads_back(header, t, rest, r, after),
        AnyFrame::Comments(c) => lemma_comments_reads_back(header, c, rest, r, after),
        AnyFrame::UserUrl(u) => lemma_user_url_reads_back(header, u, rest, r, after),
        _ => {},
    }
}

/// Renders an ID3v2.3 frame header.
///
/// # Errors
/// If the size does not fit in 32 bits, `TooLarge` is returned.
fn render_v3_header(frame_id: FrameId, flags: u16, size: usize) -> (r: SaveResult<[u8; 10]>)
    ensures
        match r {
            Ok(h) => size <= u32::MAX && h@ == spec_v3_header(frame_id.spec_bytes(), flags, size as nat),
            Err(e) => size > u32::MAX && e == SaveError::TooLarge,
        },
{
    // ID3v2.3 frame sizes are plain big-endian 32-bit integers.
    if size as u64 > 0xFFFF_FFFF {
        return Err(SaveError::TooLarge);
    }
    let id = frame_id.inner();
    let size_bytes = crate::io::be_bytes_of(size as u64, 4);
    proof {
        crate::io::lemma_be_bytes_value(size as nat, 4);
    }
    let data: [u8; 10] = [
        id[0],
        id[1],
        id[2],
        id[3],
        size_bytes[0],
        size_bytes[1],
        size_bytes[2],
        size_bytes[3],
        (flags >> 8) as u8,
        (flags & 0x00FF) as u8,
    ];
    assert(data@ =~= spec_v3_header(frame_id.spec_bytes(), flags, size as nat));
    Ok(data)
}

/// Renders an ID3v2.4 frame header.
///
/// # Errors
/// If the size exceeds the 256MB that syncsafe sizes allow, `TooLarge` is returned.
fn render_v4_header(frame_id: FrameId, flags: u16, size: usize) -> (r: SaveResult<[u8; 10]>)
    ensures
        match r {
            Ok(h) => size <= v4_size_limit() && h@ == spec_v4_header(
                frame_id.spec_bytes(),
                flags,
                size as u32,
            ),
            Err(e) => size > v4_size_limit() && e == SaveError::TooLarge,
        },
{
    if size > 256_000_000 {
        return Err(SaveError::TooLarge);
    }
    let id = frame_id.inner();
    let size_bytes = syncdata::from_u28(size as u32);
    let data: [u8; 10] = [
        id[0],
        id[1],
        id[2],
        id[3],
        size_bytes[0],
        size_bytes[1],
        size_bytes[2],
        size_bytes[3],
        (flags >> 8) as u8,
        (flags & 0x00FF) as u8,
    ];
    assert(data@ =~= spec_v4_header(frame_id.spec_bytes(), flags, size as u32));
    Ok(data)
}

/// The header of a frame in a tag of `version`, or `None` when the body is too large.
pub open spec fn spec_frame_header(version: Version, id: Seq<u8>, flags: u16, size: nat) -> Option<Seq<u8>> {
    if version == Version::V24 {
        if size <= v4_size_limit() {
            Some(spec_v4_header(id, flags, size as u32))
        } else {
            None
        }
    } else {
        if size <= u32::MAX {
            Some(spec_v3_header(id, flags, size))
        } else {
            None
        }
    }
}

/// Renders a header for the frame with ID `frame_id` in a tag of `version`.
fn render_header(version: Version, frame_id: FrameId, flags: u16, size: usize) -> (r: SaveResult<[u8; 10]>)
    requires
        version != Version::V22,
    ensures
        match r {
            Ok(h) => spec_frame_header(version, frame_id.spec_bytes(), flags, size as nat) == Some(h@),
            Err(e) => spec_frame_header(version, frame_id.spec_bytes(), flags, size as nat) is None
                && e == SaveError::TooLarge,
        },
{
    match version {
        Version::V24 => render_v4_header(frame_id, flags, size),
        _ => render_v3_header(frame_id, flags, size),
    }
}

/// Renders a frame with its header in a tag of ID3v2.3 or ID3v2.4. The header flags are
/// always zero.
///
/// # Errors
/// If the body is too large for a header of the tag's version, `TooLarge` is returned.
pub fn render(tag_header: &TagHeader, frame: &AnyFrame) -> (r: SaveResult<Vec<u8>>)
    requires
        tag_header.version() != Version::V22,
    ensures
        !frame.is_custom() ==> ({
            let body = frame.spec_render(tag_header.version());
            match spec_frame_header(tag_header.version(), frame.spec_id(), 0, body.len()) {
                Some(h) => r == Ok::<Vec<u8>, SaveError>(r->Ok_0) && r->Ok_0@ == h + body,
                None => r == Err::<Vec<u8>, SaveError>(SaveError::TooLarge),
            }
        }),
{
    // The frame is rendered first, as its size goes into the header.
    let mut frame_data = frame.render(tag_header);
    let header = match render_header(tag_header.version(), frame.id(), 0, frame_data.len()) {
        Ok(h) => h,
        Err(e) => return Err(e),
    };
    let mut data = vstd::slice::slice_to_vec(header.as_slice());
    data.append(&mut frame_data);
    Ok(data)
}

/// Returns whether the unknown frame `frame` fits a frame header of `version`, which
/// [`render_unknown`](render_unknown) requires of a frame with an ID of four bytes.
pub fn unknown_fits_header(version: Version, frame: &UnknownFrame) -> (r: bool)
    ensures
        r == (frame.spec_id().len() == 4 ==> spec_frame_header(
            version,
            frame.spec_id(),
            frame.spec_flags(),
            frame.spec_data().len(),
        ) is Some),
{
    if frame.id().len() < 4 {
        return true;
    }
    let n = frame.data().len();
    match version {
        Version::V24 => n <= 256_000_000,
        _ => n as u64 <= 0xFFFF_FFFF,
    }
}

/// Renders an unknown frame with its header in a tag of ID3v2.3 or ID3v2.4. The flags are
/// rendered as they were, except for the ID3v2.4 unsynchronization flag, as frames are not
/// resynchronized. Unknown frames with ID3v2.2 IDs cannot be rendered and give no bytes.
pub fn render_unknown(tag_header: &TagHeader, frame: &UnknownFrame) -> (r: Vec<u8>)
    requires
        tag_header.version() != Version::V22,
        frame.spec_id().len() == 4 ==> spec_frame_header(
            tag_header.version(),
            frame.spec_id(),
            frame.spec_flags(),
            frame.spec_data().len(),
        ) is Some,
    ensures
        frame.spec_id().len() == 3 || frame.spec_id().len() == 4,
        frame.spec_id().len() < 4 ==> r@.len() == 0,
        frame.spec_id().len() == 4 ==> r@ == spec_frame_header(
            tag_header.version(),
            frame.spec_id(),
            if tag_header.version() == Version::V24 {
                frame.spec_flags() & 0xFFFD
            } else {
                frame.spec_flags()
            },
            frame.spec_data().len(),
        )->Some_0 + frame.spec_data(),
{
    let id = frame.id();
    if id.len() < 4 {
        return Vec::new();
    }
    let id_array: [u8; 4] = [id[0], id[1], id[2], id[3]];
    proof {
        assert(id_array@ =~= id@);
    }
    let frame_id = FrameId::new(&id_array);
    let data = frame.data();
    let header = match tag_header.version() {
        Version::V24 => render_v4_header(frame_id, frame.flags() & 0xFFFD, data.len()),
        _ => render_v3_header(frame_id, frame.flags(), data.len()),
    };
    let header = match header {
        Ok(h) => h,
        Err(_) => {
            proof {
                assert(false);
            }
            [0u8; 10]
        },
    };
    let mut result = vstd::slice::slice_to_vec(header.as_slice());
    let mut body = vstd::slice::slice_to_vec(data);
    result.append(&mut body);
    result
}

} // verus!
