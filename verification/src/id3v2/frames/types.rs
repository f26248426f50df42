//! Small value types shared by frames.
use crate::id3v2::{ParseError, ParseResult};
use crate::id3v2::frames::{ascii_chars, ascii_str};
use vstd::prelude::*;

verus! {

/// Whether a byte is an ASCII letter.
pub open spec fn is_alpha(b: u8) -> bool {
    (0x41 <= b <= 0x5A) || (0x61 <= b <= 0x7A)
}

/// The lowercase form of an ASCII byte.
pub open spec fn to_lower(b: u8) -> u8 {
    if 0x41 <= b <= 0x5A {
        (b + 32) as u8
    } else {
        b
    }
}

/// Whether three bytes form a language code.
pub open spec fn valid_language(code: Seq<u8>) -> bool {
    forall|i: int| 0 <= i < code.len() ==> is_alpha(#[trigger] code[i])
}

/// The code of the language that a frame reads from three bytes: the lowercased code when the
/// bytes are letters, the default `xxx` otherwise.
pub open spec fn spec_language_or_default(code: Seq<u8>) -> Seq<u8> {
    if valid_language(code) {
        spec_lowered(code)
    } else {
        seq![0x78u8, 0x78u8, 0x78u8]
    }
}

/// A representation of an ISO-639 language code.
///
/// Language codes must be a 3-byte sequence of alphabetic ASCII characters. Uppercase
/// characters are acceptable, but are always converted to lowercase characters.
#[derive(Clone, Copy, Debug, Eq, Hash)]
pub struct Language([u8; 3]);

/// The error returned when a [`Language`](Language) code is not valid.
#[derive(Debug, Clone, Copy)]
pub struct LanguageError(());

impl PartialEq for Language {
    fn eq(&self, other: &Self) -> (r: bool) {
        let r = self.0[0] == other.0[0] && self.0[1] == other.0[1] && self.0[2] == other.0[2];
        proof {
            if r {
                assert(self.0@ =~= other.0@);
            }
        }
        r
    }
}

impl vstd::std_specs::cmp::PartialEqSpecImpl for Language {
    open spec fn obeys_eq_spec() -> bool {
        true
    }

    open spec fn eq_spec(&self, other: &Self) -> bool {
        self.spec_code() == other.spec_code()
    }
}

/// The code a language takes after `try_new` lowercases it.
pub open spec fn spec_lowered(code: Seq<u8>) -> Seq<u8> {
    code.map_values(|b: u8| to_lower(b))
}

impl Language {
    #[verifier::type_invariant]
    spec fn inv(self) -> bool {
        forall|i: int| 0 <= i < 3 ==> #[trigger] self.0@[i] < 0x80
    }

    /// The three bytes of this code.
    pub closed spec fn spec_code(self) -> Seq<u8> {
        self.0@
    }

    /// A code is three bytes long.
    pub proof fn lemma_code_len(self)
        ensures
            self.spec_code().len() == 3,
    {
    }

    /// Fallibly creates an instance, lowercasing the code.
    ///
    /// # Errors
    /// If `code` is not three ASCII letters, an error will be returned.
    pub fn try_new(code: &[u8; 3]) -> (r: Result<Self, LanguageError>)
        ensures
            r is Ok <==> valid_language(code@),
            r matches Ok(l) ==> l.spec_code() == spec_lowered(code@),
    {
        let mut lang: [u8; 3] = [0u8; 3];
        let mut i: usize = 0;
        while i < 3
            invariant
                i <= 3,
                forall|j: int| 0 <= j < i ==> is_alpha(#[trigger] code@[j]),
                forall|j: int| 0 <= j < i ==> lang@[j] == to_lower(#[trigger] code@[j]),
            decreases 3 - i,
        {
            let b = code[i];
            // ISO-639-2 language codes are always alphabetic ASCII chars.
            if !((0x41 <= b && b <= 0x5A) || (0x61 <= b && b <= 0x7A)) {
                return Err(LanguageError(()));
            }
            // Certain taggers might write the language code as uppercase chars.
            lang[i] = if 0x41 <= b && b <= 0x5A { b + 32 } else { b };
            i = i + 1;
        }
        assert(lang@ =~= spec_lowered(code@));
        Ok(Language(lang))
    }

    /// Creates an instance.
    pub fn new(code: &[u8; 3]) -> (r: Self)
        requires
            valid_language(code@),
        ensures
            r.spec_code() == spec_lowered(code@),
    {
        match Self::try_new(code) {
            Ok(l) => l,
            Err(_) => {
                assert(false);
                Language([0x78u8, 0x78u8, 0x78u8])
            },
        }
    }

    /// Parses a language code.
    ///
    /// # Errors
    /// If `code` is not three ASCII letters, `MalformedData` is returned.
    pub fn parse(code: &[u8; 3]) -> (r: ParseResult<Self>)
        ensures
            r is Ok <==> valid_language(code@),
            r matches Ok(l) ==> l.spec_code() == spec_lowered(code@),
            r matches Err(e) ==> e == ParseError::MalformedData,
    {
        match Self::try_new(code) {
            Ok(l) => Ok(l),
            Err(_) => Err(ParseError::MalformedData),
        }
    }

    /// The language of `code`, or the default language when `code` is not a language code.
    pub(crate) fn or_default(code: &[u8; 3]) -> (r: Self)
        ensures
            r.spec_code() == spec_language_or_default(code@),
    {
        match Self::try_new(code) {
            Ok(l) => l,
            Err(_) => Language::default(),
        }
    }

    /// Returns a copy of the internal array of this instance.
    pub fn inner(&self) -> (r: [u8; 3])
        ensures
            r@ == self.spec_code(),
    {
        self.0
    }

    /// Returns the code of this language.
    pub fn code(&self) -> (r: &[u8; 3])
        ensures
            r@ == self.spec_code(),
    {
        &self.0
    }

    /// Interprets this language code as a string.
    pub fn as_str(&self) -> (r: &str)
        ensures
            r@ == ascii_chars(self.spec_code()),
    {
        proof {
            use_type_invariant(self);
        }
        ascii_str(self.0.as_slice())
    }
}

impl Default for Language {
    fn default() -> (l: Self)
        ensures
            l.spec_code() == seq![0x78u8, 0x78u8, 0x78u8],
    {
        // Spec says that language codes should be "xxx" by default
        let l = Language([0x78u8, 0x78u8, 0x78u8]);
        assert(l.spec_code() =~= seq![0x78u8, 0x78u8, 0x78u8]);
        l
    }
}

/// A representation of an ID3v2 timestamp format.
///
/// The timestamp format represents the units for any timestamps in an ID3v2 frame.
#[derive(Clone, Copy, Debug, Eq, PartialEq, Structural)]
pub enum TimestampFormat {
    /// No unit was specified.
    Other,
    /// Timestamps are in MPEG Frames.
    MpegFrames,
    /// Timestamps are in milliseconds.
    Millis,
}

impl TimestampFormat {
    pub open spec fn spec_parse(byte: u8) -> Self {
        if byte == 1 {
            TimestampFormat::MpegFrames
        } else if byte == 2 {
            TimestampFormat::Millis
        } else {
            TimestampFormat::Other
        }
    }

    pub open spec fn spec_byte(self) -> u8 {
        match self {
            TimestampFormat::Other => 0,
            TimestampFormat::MpegFrames => 1,
            TimestampFormat::Millis => 2,
        }
    }

    /// The format that a byte names; unknown bytes are `Other`.
    pub fn parse(byte: u8) -> (r: Self)
        ensures
            r == Self::spec_parse(byte),
    {
        if byte == 1 {
            TimestampFormat::MpegFrames
        } else if byte == 2 {
            TimestampFormat::Millis
        } else {
            TimestampFormat::Other
        }
    }

    /// The byte this format is written as.
    pub fn to_byte(self) -> (b: u8)
        ensures
            b == self.spec_byte(),
    {
        match self {
            TimestampFormat::Other => 0,
            TimestampFormat::MpegFrames => 1,
            TimestampFormat::Millis => 2,
        }
    }
}

impl Default for TimestampFormat {
    fn default() -> (f: Self)
        ensures
            f == TimestampFormat::Millis,
    {
        TimestampFormat::Millis
    }
}

} // verus!
