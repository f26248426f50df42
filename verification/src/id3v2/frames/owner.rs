//! Frames about the ownership and terms of use of the audio.
use crate::id3v2::frames::bin::{after_owner, latin1_terminated, spec_owner};
use crate::id3v2::frames::encoding;
use crate::id3v2::frames::lyrics::push_language;
use crate::id3v2::frames::text::{key_with, known_id, lang_header_error, make_key, read_language};
use crate::id3v2::frames::types::spec_language_or_default;
use crate::id3v2::frames::{ascii_chars, Frame, FrameId, Language};
use crate::id3v2::tag::{TagHeader, Version};
use crate::id3v2::{ParseError, ParseResult};
use crate::io::{BufStream, StreamError};
use crate::string::{self, spec_decode, spec_render, Encoding};
use vstd::prelude::*;
use vstd::string::StringExecFns;
use vstd::utf8::encode_utf8;

verus! {

// ---- OwnershipFrame ----

/// The purchase of the audio, the `OWNE` frame.
#[derive(Debug, Clone)]
pub struct OwnershipFrame {
    /// The encoding that the frame will use to write `seller`.
    pub encoding: Encoding,
    /// The price paid, a currency code followed by the amount.
    pub price: String,
    /// The date of purchase, as `YYYYMMDD`.
    pub purchase_date: String,
    /// The name of the seller.
    pub seller: String,
}

impl Default for OwnershipFrame {
    fn default() -> (r: Self)
        ensures
            r.encoding == Encoding::Utf8,
            r.price@.len() == 0,
            r.purchase_date@.len() == 0,
            r.seller@.len() == 0,
    {
        Self {
            encoding: Encoding::default(),
            price: String::new(),
            purchase_date: String::new(),
            seller: String::new(),
        }
    }
}

/// The bytes of `OWNE`.
pub open spec fn owne() -> Seq<u8> {
    seq![0x4Fu8, 0x57u8, 0x4Eu8, 0x45u8]
}

/// The date written in place of a purchase date that is not eight bytes long: `19700101`,
/// the Unix epoch.
pub open spec fn epoch_date() -> Seq<u8> {
    seq![0x31u8, 0x39u8, 0x37u8, 0x30u8, 0x30u8, 0x31u8, 0x30u8, 0x31u8]
}

/// The error of parsing `d` as the body of an `OWNE` frame, or `None` when it parses.
pub open spec fn owne_error(d: Seq<u8>) -> Option<ParseError> {
    match encoding::spec_parse(d) {
        Err(e) => Some(e),
        Ok(_) => {
            let rest = after_owner(d.drop_first());
            if rest.len() < 8 {
                Some(
                    ParseError::IoError(
                        StreamError::BufferUnderread { len: 8, remaining: rest.len() as usize },
                    ),
                )
            } else {
                None
            }
        },
    }
}

impl OwnershipFrame {
    /// Whether `self` is what parsing `d` as the body of an `OWNE` frame gives.
    pub open spec fn is_parse_of(self, d: Seq<u8>) -> bool {
        let rest = after_owner(d.drop_first());
        &&& owne_error(d) is None
        &&& self.encoding == encoding::spec_parse(d)->Ok_0
        &&& self.price@ == spec_owner(d.drop_first())
        &&& self.purchase_date@ == spec_decode(Encoding::Latin1, rest.take(8))
        &&& self.seller@ == spec_decode(self.encoding, rest.skip(8))
    }

    /// Parses the body of an `OWNE` frame from the rest of `stream`.
    ///
    /// # Errors
    /// If the encoding flag is missing or invalid, or the purchase date is cut short, an error
    /// is returned.
    pub fn parse(stream: &mut BufStream) -> (r: ParseResult<Self>)
        ensures
            match r {
                Ok(f) => f.is_parse_of(old(stream).rest()),
                Err(e) => owne_error(old(stream).rest()) == Some(e),
            },
    {
        let encoding = match encoding::parse(stream) {
            Ok(e) => e,
            Err(e) => return Err(e),
        };
        let price = string::read_terminated(Encoding::Latin1, stream);
        let purchase_date = match string::read_exact(Encoding::Latin1, stream, 8) {
            Ok(s) => s,
            Err(e) => return Err(ParseError::IoError(e)),
        };
        let seller = string::read(encoding, stream);
        Ok(Self { encoding, price, purchase_date, seller })
    }

    /// The body of this frame in a tag of `version`. A purchase date that is not eight bytes
    /// long is written as the Unix epoch, which causes less breakage than a malformed date.
    ///
    /// The encoding byte is that of the frame's own encoding, while the text is written in the
    /// encoding that a tag of `version` supports in its place: UTF-8 or UTF-16BE text in an
    /// ID3v2.3 tag is written as UTF-16 under the byte of UTF-8 or UTF-16BE.
    pub open spec fn spec_render(&self, version: Version) -> Seq<u8> {
        let enc = encoding::spec_check(self.encoding, version);
        seq![encoding::spec_render(self.encoding)] + latin1_terminated(self.price@) + (
        if encode_utf8(self.purchase_date@).len() == 8 {
            spec_render(Encoding::Latin1, self.purchase_date@)
        } else {
            epoch_date()
        }) + spec_render(enc, self.seller@)
    }

    /// The seller, price and date of this frame, as `seller [price, date]`, where an empty
    /// seller or price is left out.
    pub fn display(&self) -> (r: String)
        ensures
            r@ == if self.seller@.len() > 0 {
                self.seller@ + " ["@ + (if self.price@.len() > 0 {
                    self.price@ + ", "@
                } else {
                    Seq::empty()
                }) + self.purchase_date@ + "]"@
            } else {
                (if self.price@.len() > 0 {
                    self.price@ + ", "@
                } else {
                    Seq::empty()
                }) + self.purchase_date@
            },
    {
        let mut s = String::new();
        let has_seller = !self.seller.as_str().is_empty();
        if has_seller {
            s.append(self.seller.as_str());
            s.append(" [");
        }
        if !self.price.as_str().is_empty() {
            s.append(self.price.as_str());
            s.append(", ");
        }
        s.append(self.purchase_date.as_str());
        if has_seller {
            s.append("]");
        }
        s
    }
}

impl Frame for OwnershipFrame {
    fn id(&self) -> (r: FrameId)
        ensures
            r.spec_bytes() == owne(),
    {
        known_id(0x4F, 0x57, 0x4E, 0x45)
    }

    fn key(&self) -> (r: String)
        ensures
            r@ == ascii_chars(owne()),
    {
        String::from_str(self.id().as_str())
    }

    fn is_empty(&self) -> (r: bool)
        ensures
            !r,
    {
        // Can never be empty.
        false
    }

    fn render(&self, tag_header: &TagHeader) -> (r: Vec<u8>)
        ensures
            r@ == self.spec_render(tag_header.version()),
    {
        let mut result: Vec<u8> = Vec::new();
        let encoding = encoding::check(self.encoding, tag_header.version());
        result.push(encoding::render(self.encoding));
        let mut price = string::render_terminated(Encoding::Latin1, self.price.as_str());
        result.append(&mut price);
        // The purchase date must be an 8-character date. If it is not, the Unix epoch is
        // written instead.
        let date_len = self.purchase_date.as_str().as_bytes().len();
        if date_len == 8 {
            let mut date = string::render(Encoding::Latin1, self.purchase_date.as_str());
            result.append(&mut date);
        } else {
            let mut date = vec![0x31u8, 0x39, 0x37, 0x30, 0x30, 0x31, 0x30, 0x31];
            assert(date@ =~= epoch_date());
            result.append(&mut date);
        }
        let mut seller = string::render(encoding, self.seller.as_str());
        result.append(&mut seller);
        assert(result@ =~= self.spec_render(tag_header.version()));
        result
    }
}

// ---- TermsOfUseFrame ----

/// The terms of use of the audio, the `USER` frame.
#[derive(Debug, Clone)]
pub struct TermsOfUseFrame {
    /// The encoding that the frame will use to write `text`.
    pub encoding: Encoding,
    /// The language that `text` is written in.
    pub lang: Language,
    /// The terms of use.
    pub text: String,
}

impl Default for TermsOfUseFrame {
    fn default() -> (r: Self)
        ensures
            r.encoding == Encoding::Utf8,
            r.lang.spec_code() == seq![0x78u8, 0x78u8, 0x78u8],
            r.text@.len() == 0,
    {
        Self { encoding: Encoding::default(), lang: Language::default(), text: String::new() }
    }
}

/// The bytes of `USER`.
pub open spec fn user() -> Seq<u8> {
    seq![0x55u8, 0x53u8, 0x45u8, 0x52u8]
}

impl TermsOfUseFrame {
    /// Whether `self` is what parsing `d` as the body of a `USER` frame gives.
    pub open spec fn is_parse_of(self, d: Seq<u8>) -> bool {
        &&& lang_header_error(d) is None
        &&& self.encoding == encoding::spec_parse(d)->Ok_0
        &&& self.lang.spec_code() == spec_language_or_default(d.subrange(1, 4))
        &&& self.text@ == spec_decode(self.encoding, d.skip(4))
    }

    /// Parses the body of a `USER` frame from the rest of `stream`.
    ///
    /// # Errors
    /// If the encoding flag is missing or invalid, or the language code is cut short, an error
    /// is returned.
    pub fn parse(stream: &mut BufStream) -> (r: ParseResult<Self>)
        ensures
            match r {
                Ok(f) => f.is_parse_of(old(stream).rest()),
                Err(e) => lang_header_error(old(stream).rest()) == Some(e),
            },
    {
        let ghost d = stream.rest();
        let encoding = match encoding::parse(stream) {
            Ok(e) => e,
            Err(e) => return Err(e),
        };
        let lang = match read_language(stream) {
            Ok(l) => l,
            Err(e) => return Err(e),
        };
        let text = string::read(encoding, stream);
        proof {
            assert(d.drop_first().take(3) =~= d.subrange(1, 4));
            assert(d.drop_first().skip(3) =~= d.skip(4));
        }
        Ok(Self { encoding, lang, text })
    }

    /// The body of this frame in a tag of `version`.
    ///
    /// The encoding byte is that of the frame's own encoding, while the text is written in the
    /// encoding that a tag of `version` supports in its place: UTF-8 or UTF-16BE text in an
    /// ID3v2.3 tag is written as UTF-16 under the byte of UTF-8 or UTF-16BE.
    pub open spec fn spec_render(&self, version: Version) -> Seq<u8> {
        let enc = encoding::spec_check(self.encoding, version);
        seq![encoding::spec_render(self.encoding)] + self.lang.spec_code() + spec_render(
            enc,
            self.text@,
        )
    }

    /// The terms of use of this frame.
    pub fn display(&self) -> (r: String)
        ensures
            r@ == self.text@,
    {
        self.text.clone()
    }
}

impl Frame for TermsOfUseFrame {
    fn id(&self) -> (r: FrameId)
        ensures
            r.spec_bytes() == user(),
    {
        known_id(0x55, 0x53, 0x45, 0x52)
    }

    fn key(&self) -> (r: String)
        ensures
            r@ == key_with(user(), ascii_chars(self.lang.spec_code())),
    {
        make_key(self.id(), self.lang.as_str())
    }

    fn is_empty(&self) -> (r: bool)
        ensures
            r == (self.text@.len() == 0),
    {
        self.text.as_str().is_empty()
    }

    fn render(&self, tag_header: &TagHeader) -> (r: Vec<u8>)
        ensures
            r@ == self.spec_render(tag_header.version()),
    {
        let mut result: Vec<u8> = Vec::new();
        let encoding = encoding::check(self.encoding, tag_header.version());
        result.push(encoding::render(self.encoding));
        push_language(&mut result, &self.lang);
        let mut text = string::render(encoding, self.text.as_str());
        result.append(&mut text);
        result
    }
}

} // verus!
