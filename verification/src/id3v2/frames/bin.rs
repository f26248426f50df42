//! Frames that hold binary data.
use crate::id3v2::frames::text::{key_with, known_id, make_key};
use crate::id3v2::frames::{ascii_chars, Frame, FrameId};
use crate::id3v2::tag::TagHeader;
use crate::id3v2::{ParseError, ParseResult};
use crate::io::BufStream;
use crate::string::{self, spec_decode, spec_nul, spec_render, terminated_data, terminated_len, Encoding};
use vstd::prelude::*;
use vstd::string::StringExecFns;

verus! {

/// The owner string at the start of `d`, read as terminated Latin-1.
pub open spec fn spec_owner(d: Seq<u8>) -> Seq<char> {
    spec_decode(Encoding::Latin1, terminated_data(Encoding::Latin1, d))
}

/// What follows the owner string at the start of `d`.
pub open spec fn after_owner(d: Seq<u8>) -> Seq<u8> {
    d.skip(terminated_len(Encoding::Latin1, d) as int)
}

/// A string rendered as terminated Latin-1.
pub open spec fn latin1_terminated(s: Seq<char>) -> Seq<u8> {
    spec_render(Encoding::Latin1, s) + spec_nul(Encoding::Latin1)
}

/// Reads an owner string and the rest of `stream` as binary data.
fn read_owner_and_data(stream: &mut BufStream) -> (r: (String, Vec<u8>))
    ensures
        r.0@ == spec_owner(old(stream).rest()),
        r.1@ == after_owner(old(stream).rest()),
{
    let owner = string::read_terminated(Encoding::Latin1, stream);
    let data = vstd::slice::slice_to_vec(stream.take_rest());
    (owner, data)
}

/// Renders an owner string followed by binary data.
fn render_owner_and_data(owner: &str, data: &[u8]) -> (r: Vec<u8>)
    ensures
        r@ == latin1_terminated(owner@) + data@,
{
    let mut result = string::render_terminated(Encoding::Latin1, owner);
    let mut rest = vstd::slice::slice_to_vec(data);
    result.append(&mut rest);
    result
}

/// A unique identifier of the audio file in the database of an owner, the `UFID` frame.
#[derive(Debug, Clone)]
pub struct FileIdFrame {
    /// A URL or email that names the database.
    pub owner: String,
    /// The identifier of the file in that database.
    pub identifier: Vec<u8>,
}

/// The bytes of `UFID`.
pub open spec fn ufid() -> Seq<u8> {
    seq![0x55u8, 0x46u8, 0x49u8, 0x44u8]
}

impl FileIdFrame {
    /// Parses the body of a `UFID` frame from the rest of `stream`, which never fails.
    pub fn parse(stream: &mut BufStream) -> (r: ParseResult<Self>)
        ensures
            r matches Ok(f) && f.owner@ == spec_owner(old(stream).rest()) && f.identifier@
                == after_owner(old(stream).rest()),
    {
        let (owner, identifier) = read_owner_and_data(stream);
        Ok(Self { owner, identifier })
    }

    /// The owner of this frame.
    pub fn display(&self) -> (r: String)
        ensures
            r@ == self.owner@,
    {
        self.owner.clone()
    }
}

impl Default for FileIdFrame {
    fn default() -> (r: Self)
        ensures
            r.owner@.len() == 0,
            r.identifier@.len() == 0,
    {
        Self { owner: String::new(), identifier: Vec::new() }
    }
}

impl Frame for FileIdFrame {
    fn id(&self) -> (r: FrameId)
        ensures
            r.spec_bytes() == ufid(),
    {
        known_id(0x55, 0x46, 0x49, 0x44)
    }

    fn key(&self) -> (r: String)
        ensures
            r@ == key_with(ufid(), self.owner@),
    {
        make_key(self.id(), self.owner.as_str())
    }

    fn is_empty(&self) -> (r: bool)
        ensures
            r == (self.owner@.len() == 0 || self.identifier@.len() == 0),
    {
        self.owner.as_str().is_empty() || self.identifier.len() == 0
    }

    fn render(&self, tag_header: &TagHeader) -> (r: Vec<u8>)
        ensures
            r@ == latin1_terminated(self.owner@) + self.identifier@,
    {
        // Technically there can be only 64 bytes of identifier data, but nobody enforces this.
        render_owner_and_data(self.owner.as_str(), self.identifier.as_slice())
    }
}

/// The table of contents of a music CD, the `MCDI` frame.
#[derive(Debug, Clone)]
pub struct MusicCdIdFrame {
    /// The binary dump of the table of contents.
    pub data: Vec<u8>,
}

/// The bytes of `MCDI`.
pub open spec fn mcdi() -> Seq<u8> {
    seq![0x4Du8, 0x43u8, 0x44u8, 0x49u8]
}

impl MusicCdIdFrame {
    /// Parses the body of a `MCDI` frame from the rest of `stream`, which never fails.
    pub fn parse(stream: &mut BufStream) -> (r: ParseResult<Self>)
        ensures
            r matches Ok(f) && f.data@ == old(stream).rest(),
    {
        // Validating this data is a waste of time, just leave it as a binary dump.
        let data = vstd::slice::slice_to_vec(stream.take_rest());
        Ok(Self { data })
    }

    /// A placeholder for the binary data of this frame.
    pub fn display(&self) -> (r: String)
        ensures
            r@ == "[binary data]"@,
    {
        String::from_str("[binary data]")
    }
}

impl Frame for MusicCdIdFrame {
    fn id(&self) -> (r: FrameId)
        ensures
            r.spec_bytes() == mcdi(),
    {
        known_id(0x4D, 0x43, 0x44, 0x49)
    }

    fn key(&self) -> (r: String)
        ensures
            r@ == ascii_chars(mcdi()),
    {
        String::from_str(self.id().as_str())
    }

    fn is_empty(&self) -> (r: bool)
        ensures
            r == (self.data@.len() == 0),
    {
        self.data.len() == 0
    }

    fn render(&self, tag_header: &TagHeader) -> (r: Vec<u8>)
        ensures
            r@ == self.data@,
    {
        vstd::slice::slice_to_vec(self.data.as_slice())
    }
}

/// Data private to an owner, the `PRIV` frame.
#[derive(Debug, Clone)]
pub struct PrivateFrame {
    /// A URL or email that names the owner of the data.
    pub owner: String,
    /// The private data.
    pub data: Vec<u8>,
}

/// The bytes of `PRIV`.
pub open spec fn priv_id() -> Seq<u8> {
    seq![0x50u8, 0x52u8, 0x49u8, 0x56u8]
}

impl PrivateFrame {
    /// Parses the body of a `PRIV` frame from the rest of `stream`, which never fails.
    pub fn parse(stream: &mut BufStream) -> (r: ParseResult<Self>)
        ensures
            r matches Ok(f) && f.owner@ == spec_owner(old(stream).rest()) && f.data@
                == after_owner(old(stream).rest()),
    {
        let (owner, data) = read_owner_and_data(stream);
        Ok(Self { owner, data })
    }

    /// The owner of this frame.
    pub fn display(&self) -> (r: String)
        ensures
            r@ == self.owner@,
    {
        self.owner.clone()
    }
}

impl Default for PrivateFrame {
    fn default() -> (r: Self)
        ensures
            r.owner@.len() == 0,
            r.data@.len() == 0,
    {
        Self { owner: String::new(), data: Vec::new() }
    }
}

impl Frame for PrivateFrame {
    fn id(&self) -> (r: FrameId)
        ensures
            r.spec_bytes() == priv_id(),
    {
        known_id(0x50, 0x52, 0x49, 0x56)
    }

    fn key(&self) -> (r: String)
        ensures
            r@ == key_with(priv_id(), self.owner@),
    {
        make_key(self.id(), self.owner.as_str())
    }

    fn is_empty(&self) -> (r: bool)
        ensures
            r == (self.data@.len() == 0),
    {
        self.data.len() == 0
    }

    fn render(&self, tag_header: &TagHeader) -> (r: Vec<u8>)
        ensures
            r@ == latin1_terminated(self.owner@) + self.data@,
    {
        render_owner_and_data(self.owner.as_str(), self.data.as_slice())
    }
}

/// The iTunes podcast flag, the `PCST` frame.
///
/// The frame is four zero bytes that flag the file as a podcast, so its existence is the
/// only information it holds.
#[derive(Debug, Clone, Copy, Default)]
pub struct PodcastFrame;

/// The bytes of `PCST`.
pub open spec fn pcst() -> Seq<u8> {
    seq![0x50u8, 0x43u8, 0x53u8, 0x54u8]
}

/// The body of a `PCST` frame.
pub open spec fn podcast_body() -> Seq<u8> {
    seq![0u8, 0u8, 0u8, 0u8]
}

impl PodcastFrame {
    /// Parses the body of a `PCST` frame from the rest of `stream`.
    ///
    /// # Errors
    /// If the body is not four zero bytes, `MalformedData` is returned.
    pub fn parse(stream: &mut BufStream) -> (r: ParseResult<Self>)
        ensures
            r is Ok <==> old(stream).rest() == podcast_body(),
            r is Err ==> r == Err::<Self, ParseError>(ParseError::MalformedData),
    {
        let data = stream.take_rest();
        let zeros: [u8; 4] = [0, 0, 0, 0];
        proof {
            assert(zeros@ =~= podcast_body());
        }
        if !crate::io::bytes_eq(data, zeros.as_slice()) {
            return Err(ParseError::MalformedData);
        }
        Ok(PodcastFrame)
    }

    /// A note that the file is a podcast.
    pub fn display(&self) -> (r: String)
        ensures
            r@ == "is podcast"@,
    {
        String::from_str("is podcast")
    }
}

impl Frame for PodcastFrame {
    fn id(&self) -> (r: FrameId)
        ensures
            r.spec_bytes() == pcst(),
    {
        known_id(0x50, 0x43, 0x53, 0x54)
    }

    fn key(&self) -> (r: String)
        ensures
            r@ == ascii_chars(pcst()),
    {
        String::from_str(self.id().as_str())
    }

    fn is_empty(&self) -> (r: bool)
        ensures
            !r,
    {
        // The frame is a constant 4 bytes, so it is never empty.
        false
    }

    fn render(&self, tag_header: &TagHeader) -> (r: Vec<u8>)
        ensures
            r@ == podcast_body(),
    {
        let r = vec![0u8, 0u8, 0u8, 0u8];
        assert(r@ =~= podcast_body());
        r
    }
}

} // verus!
