//! Media statistics frames.
use crate::id3v2::frames::bin::{after_owner, latin1_terminated, spec_owner};
use crate::id3v2::frames::text::{key_with, known_id, make_key};
use crate::id3v2::frames::{ascii_chars, Frame, FrameId};
use crate::id3v2::tag::TagHeader;
use crate::id3v2::{ParseError, ParseResult};
use crate::io::{be_bytes, be_value, lemma_be_bytes_value, BufStream, StreamError};
use crate::string::{self, decimal, spec_decimal, Encoding};
use vstd::prelude::*;
use vstd::string::StringExecFns;

verus! {

// ---- Play counts ----

/// The play count read from `d`: the first eight bytes as a big-endian number, or, when
/// fewer are left, the bytes that are left as a big-endian number.
pub open spec fn spec_play_count(d: Seq<u8>) -> nat {
    if d.len() >= 8 {
        be_value(d.take(8))
    } else {
        be_value(d)
    }
}

/// Reads a play count from the rest of `stream`.
///
/// The ID3v2 spec is vague about how big a play counter can be, so it is capped to a `u64`.
pub fn read_play_count(stream: &mut BufStream) -> (r: u64)
    ensures
        r as nat == spec_play_count(old(stream).rest()),
{
    match stream.read_be_u64() {
        Ok(plays) => plays,
        Err(_) => {
            // Fewer than eight bytes are left: they are the low-order bytes of the count.
            let rest = stream.take_rest();
            crate::io::be_uint(rest)
        },
    }
}

/// Zero bytes in front of a big-endian number do not change it.
proof fn lemma_leading_zeros(z: Seq<u8>, s: Seq<u8>)
    requires
        forall|i: int| 0 <= i < z.len() ==> z[i] == 0,
    ensures
        be_value(z + s) == be_value(s),
    decreases s.len() + z.len(),
{
    if s.len() == 0 {
        assert(z + s =~= z);
        if z.len() > 0 {
            lemma_leading_zeros(z.drop_last(), s);
            assert(z.drop_last() + s =~= z.drop_last());
        }
    } else {
        lemma_leading_zeros(z, s.drop_last());
        assert((z + s).drop_last() =~= z + s.drop_last());
        assert((z + s).last() == s.last());
    }
}

/// The number of leading bytes that a rendered play count leaves out of the eight bytes of
/// `c`: up to the first non-zero byte, and never more than four.
pub open spec fn count_skip(c: Seq<u8>) -> int {
    if c[0] > 0 {
        0
    } else if c[1] > 0 {
        1
    } else if c[2] > 0 {
        2
    } else if c[3] > 0 {
        3
    } else {
        4
    }
}

/// The bytes of a rendered play count: the big-endian bytes of `plays` without leading zero
/// bytes, and at least four bytes, the hard limit of the spec.
pub open spec fn spec_render_play_count(plays: u64) -> Seq<u8> {
    let c = be_bytes(plays as nat, 8);
    c.skip(count_skip(c))
}

/// Renders a play count.
pub fn render_play_count(play_count: u64) -> (r: Vec<u8>)
    ensures
        r@ == spec_render_play_count(play_count),
{
    let bytes = crate::io::be_bytes_of(play_count, 8);
    proof {
        lemma_be_bytes_value(play_count as nat, 8);
    }
    let mut i: usize = 0;
    while i < 4
        invariant
            bytes@ == be_bytes(play_count as nat, 8),
            bytes@.len() == 8,
            i <= 4,
            forall|j: int| 0 <= j < i ==> bytes@[j] == 0,
        decreases 4 - i,
    {
        // The count uses more than four bytes, so keep everything from the first
        // populated byte on.
        if bytes[i] > 0 {
            return vstd::slice::slice_to_vec(&bytes.as_slice()[i..8]);
        }
        i = i + 1;
    }
    vstd::slice::slice_to_vec(&bytes.as_slice()[4..8])
}

/// A rendered play count is read back as the count it was rendered from.
pub proof fn lemma_play_count_roundtrip(plays: u64)
    ensures
        spec_play_count(spec_render_play_count(plays)) == plays,
{
    let c = be_bytes(plays as nat, 8);
    lemma_be_bytes_value(plays as nat, 8);
    crate::io::lemma_pow256_values();
    let k = count_skip(c);
    assert(c.take(k) + c.skip(k) =~= c);
    lemma_leading_zeros(c.take(k), c.skip(k));
    if c.skip(k).len() == 8 {
        assert(c.skip(k).take(8) =~= c.skip(k));
    }
}

// ---- PopularimeterFrame ----

/// A rating of the audio and a play counter kept by one user, the `POPM` frame.
#[derive(Debug, Clone)]
pub struct PopularimeterFrame {
    /// The email of the user.
    pub email: String,
    /// The rating, from 1 (worst) to 255 (best); 0 means unknown.
    pub rating: u8,
    /// How many times the user played the audio.
    pub plays: u64,
}

impl Default for PopularimeterFrame {
    fn default() -> (r: Self)
        ensures
            r.email@.len() == 0,
            r.rating == 0,
            r.plays == 0,
    {
        Self { email: String::new(), rating: 0, plays: 0 }
    }
}

/// The bytes of `POPM`.
pub open spec fn popm() -> Seq<u8> {
    seq![0x50u8, 0x4Fu8, 0x50u8, 0x4Du8]
}

/// The rating of `rating` on a scale of zero to five stars.
pub open spec fn spec_rating_simple(rating: u8) -> u8 {
    if rating == 0 {
        0
    } else if rating <= 63 {
        1
    } else if rating <= 127 {
        2
    } else if rating <= 195 {
        3
    } else if rating <= 254 {
        4
    } else {
        5
    }
}

impl PopularimeterFrame {
    /// Whether `self` is what parsing `d` as the body of a `POPM` frame gives.
    pub open spec fn is_parse_of(self, d: Seq<u8>) -> bool {
        let rest = after_owner(d);
        &&& rest.len() >= 1
        &&& self.email@ == spec_owner(d)
        &&& self.rating == rest[0]
        &&& self.plays as nat == spec_play_count(rest.drop_first())
    }

    /// Parses the body of a `POPM` frame from the rest of `stream`.
    ///
    /// # Errors
    /// If the rating byte is missing after the email, an error is returned.
    pub fn parse(stream: &mut BufStream) -> (r: ParseResult<Self>)
        ensures
            match r {
                Ok(f) => f.is_parse_of(old(stream).rest()),
                Err(e) => after_owner(old(stream).rest()).len() == 0 && e == ParseError::IoError(
                    StreamError::EndOfStream,
                ),
            },
    {
        let email = string::read_terminated(Encoding::Latin1, stream);
        let rating = match stream.read_u8() {
            Ok(b) => b,
            Err(e) => return Err(ParseError::IoError(e)),
        };
        let plays = read_play_count(stream);
        Ok(Self { email, rating, plays })
    }

    /// Returns the rating of this frame on a scale of zero to five stars.
    pub fn rating_simple(&self) -> (r: u8)
        ensures
            r == spec_rating_simple(self.rating),
    {
        if self.rating == 0 {
            0
        } else if self.rating <= 63 {
            1
        } else if self.rating <= 127 {
            2
        } else if self.rating <= 195 {
            3
        } else if self.rating <= 254 {
            4
        } else {
            5
        }
    }

    /// The body of this frame: the email, the rating and the play count, which is left out
    /// when it is zero to save space.
    pub open spec fn spec_render(&self) -> Seq<u8> {
        latin1_terminated(self.email@) + seq![self.rating] + if self.plays > 0 {
            spec_render_play_count(self.plays)
        } else {
            Seq::empty()
        }
    }

    /// The email, rating and play count of this frame, as `email [rating/255, plays=n]`.
    pub fn display(&self) -> (r: String)
        ensures
            r@ == self.email@ + " ["@ + spec_decimal(self.rating as nat) + "/255, plays="@
                + spec_decimal(self.plays as nat) + "]"@,
    {
        let mut s = self.email.clone();
        s.append(" [");
        let rating = decimal(self.rating as u64);
        s.append(rating.as_str());
        s.append("/255, plays=");
        let plays = decimal(self.plays);
        s.append(plays.as_str());
        s.append("]");
        s
    }
}

impl Frame for PopularimeterFrame {
    fn id(&self) -> (r: FrameId)
        ensures
            r.spec_bytes() == popm(),
    {
        known_id(0x50, 0x4F, 0x50, 0x4D)
    }

    fn key(&self) -> (r: String)
        ensures
            r@ == key_with(popm(), self.email@),
    {
        make_key(self.id(), self.email.as_str())
    }

    fn is_empty(&self) -> (r: bool)
        ensures
            !r,
    {
        // Can never be empty
        false
    }

    fn render(&self, tag_header: &TagHeader) -> (r: Vec<u8>)
        ensures
            r@ == self.spec_render(),
    {
        let mut result = string::render_terminated(Encoding::Latin1, self.email.as_str());
        result.push(self.rating);
        // Save some space by omitting the play count if zero
        if self.plays > 0 {
            let mut count = render_play_count(self.plays);
            result.append(&mut count);
        }
        proof {
            if self.plays == 0 {
                assert(result@ =~= self.spec_render());
            }
        }
        result
    }
}

// ---- PlayCounterFrame ----

/// How many times the audio was played, the `PCNT` frame.
#[derive(Debug, Clone, Copy)]
pub struct PlayCounterFrame {
    /// The play count.
    pub plays: u64,
}

impl Default for PlayCounterFrame {
    fn default() -> (r: Self)
        ensures
            r.plays == 0,
    {
        Self { plays: 0 }
    }
}

/// The bytes of `PCNT`.
pub open spec fn pcnt() -> Seq<u8> {
    seq![0x50u8, 0x43u8, 0x4Eu8, 0x54u8]
}

impl PlayCounterFrame {
    /// Parses the body of a `PCNT` frame from the rest of `stream`, which never fails.
    pub fn parse(stream: &mut BufStream) -> (r: ParseResult<Self>)
        ensures
            r matches Ok(f) && f.plays as nat == spec_play_count(old(stream).rest()),
    {
        let plays = read_play_count(stream);
        Ok(Self { plays })
    }

    /// The play count of this frame.
    pub fn display(&self) -> (r: String)
        ensures
            r@ == spec_decimal(self.plays as nat),
    {
        decimal(self.plays)
    }
}

impl Frame for PlayCounterFrame {
    fn id(&self) -> (r: FrameId)
        ensures
            r.spec_bytes() == pcnt(),
    {
        known_id(0x50, 0x43, 0x4E, 0x54)
    }

    fn key(&self) -> (r: String)
        ensures
            r@ == ascii_chars(pcnt()),
    {
        String::from_str(self.id().as_str())
    }

    fn is_empty(&self) -> (r: bool)
        ensures
            !r,
    {
        // This frame is never empty, even with zero plays.
        false
    }

    fn render(&self, tag_header: &TagHeader) -> (r: Vec<u8>)
        ensures
            r@ == spec_render_play_count(self.plays),
    {
        render_play_count(self.plays)
    }
}

} // verus!
