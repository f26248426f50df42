//! Text encodings used by tag formats.
use crate::io::{BufStream, StreamError, search_end};
use vstd::prelude::*;
use vstd::utf8::{decode_utf8, encode_utf8, valid_utf8};

verus! {

/// A text encoding.
#[derive(Clone, Copy, PartialEq, Eq, Debug, Structural)]
pub enum Encoding {
    Latin1,
    Utf16,
    Utf16Be,
    Utf8,
    Utf16Le,
}

impl Encoding {
    /// The size of the NUL terminator of this encoding, in bytes.
    pub open spec fn spec_nul_size(self) -> nat {
        match self {
            Encoding::Utf8 | Encoding::Latin1 => 1,
            _ => 2,
        }
    }

    /// Returns the size of the NUL terminator of this encoding, in bytes.
    pub fn nul_size(&self) -> (n: usize)
        ensures
            n == self.spec_nul_size(),
    {
        match self {
            Encoding::Utf8 | Encoding::Latin1 => 1,
            _ => 2,
        }
    }
}

impl Default for Encoding {
    fn default() -> (e: Self)
        ensures
            e == Encoding::Utf8,
    {
        Encoding::Utf8
    }
}

// ---- Specification of the encodings ----

/// The UTF-16 code units of a single character.
pub open spec fn char_utf16(c: char) -> Seq<u16> {
    let v = c as u32;
    if v < 0x10000 {
        seq![v as u16]
    } else {
        seq![
            (0xD800 + (v - 0x10000) / 1024) as u16,
            (0xDC00 + (v - 0x10000) % 1024) as u16,
        ]
    }
}

/// The UTF-16 code units of a character sequence.
pub open spec fn utf16_units(chars: Seq<char>) -> Seq<u16>
    decreases chars.len(),
{
    if chars.len() == 0 {
        seq![]
    } else {
        utf16_units(chars.drop_last()) + char_utf16(chars.last())
    }
}

pub open spec fn is_high_surrogate(u: u16) -> bool {
    0xD800 <= u < 0xDC00
}

pub open spec fn is_low_surrogate(u: u16) -> bool {
    0xDC00 <= u < 0xE000
}

/// Lossy UTF-16 decoding: a high surrogate followed by a low surrogate forms one
/// character, any other surrogate becomes U+FFFD, every other unit is its own character.
pub open spec fn utf16_decode_lossy(u: Seq<u16>) -> Seq<char>
    decreases u.len(),
{
    if u.len() == 0 {
        seq![]
    } else if is_high_surrogate(u[0]) && u.len() >= 2 && is_low_surrogate(u[1]) {
        seq![(0x10000 + (u[0] - 0xD800) * 1024 + (u[1] - 0xDC00)) as char]
            + utf16_decode_lossy(u.skip(2))
    } else if 0xD800 <= u[0] < 0xE000 {
        seq!['\u{FFFD}'] + utf16_decode_lossy(u.drop_first())
    } else {
        seq![u[0] as char] + utf16_decode_lossy(u.drop_first())
    }
}

/// What `String::from_utf8_lossy` makes of a byte sequence.
pub uninterp spec fn utf8_decode_lossy(data: Seq<u8>) -> Seq<char>;

/// Big-endian bytes of a sequence of code units.
pub open spec fn units_be(u: Seq<u16>) -> Seq<u8>
    decreases u.len(),
{
    if u.len() == 0 {
        seq![]
    } else {
        units_be(u.drop_last()) + seq![(u.last() / 256) as u8, (u.last() % 256) as u8]
    }
}

/// Little-endian bytes of a sequence of code units.
pub open spec fn units_le(u: Seq<u16>) -> Seq<u8>
    decreases u.len(),
{
    if u.len() == 0 {
        seq![]
    } else {
        units_le(u.drop_last()) + seq![(u.last() % 256) as u8, (u.last() / 256) as u8]
    }
}

/// Big-endian code units of a byte sequence; a trailing odd byte is dropped.
pub open spec fn be_units(data: Seq<u8>) -> Seq<u16> {
    Seq::new(data.len() / 2, |i: int| (data[2 * i] as int * 256 + data[2 * i + 1] as int) as u16)
}

/// Little-endian code units of a byte sequence; a trailing odd byte is dropped.
pub open spec fn le_units(data: Seq<u8>) -> Seq<u16> {
    Seq::new(data.len() / 2, |i: int| (data[2 * i + 1] as int * 256 + data[2 * i] as int) as u16)
}

/// The Latin-1 byte of a character: the character itself, or `?` when it is beyond 0xFF.
pub open spec fn latin1_byte(c: char) -> u8 {
    if c as u32 > 0xFF {
        63u8
    } else {
        c as u32 as u8
    }
}

/// The bytes of `chars` rendered in `encoding`.
pub open spec fn spec_render(encoding: Encoding, chars: Seq<char>) -> Seq<u8> {
    match encoding {
        Encoding::Latin1 => chars.map_values(|c: char| latin1_byte(c)),
        Encoding::Utf16 => seq![0xFFu8, 0xFEu8] + units_le(utf16_units(chars)),
        Encoding::Utf16Be => units_be(utf16_units(chars)),
        Encoding::Utf8 => encode_utf8(chars),
        Encoding::Utf16Le => units_le(utf16_units(chars)),
    }
}

/// The characters decoded from `data` in `encoding`.
///
/// UTF-16 data with a byte order mark is decoded in the order it names; data without one is
/// decoded as big-endian. Valid UTF-8 data is decoded as it is, and invalid UTF-8 data as
/// `String::from_utf8_lossy` decodes it.
pub open spec fn spec_decode(encoding: Encoding, data: Seq<u8>) -> Seq<char> {
    match encoding {
        Encoding::Latin1 => data.map_values(|b: u8| b as char),
        Encoding::Utf16 => if data.len() >= 2 && data[0] == 0xFF && data[1] == 0xFE {
            utf16_decode_lossy(le_units(data.skip(2)))
        } else if data.len() >= 2 && data[0] == 0xFE && data[1] == 0xFF {
            utf16_decode_lossy(be_units(data.skip(2)))
        } else {
            utf16_decode_lossy(be_units(data))
        },
        Encoding::Utf16Be => utf16_decode_lossy(be_units(data)),
        Encoding::Utf8 => if valid_utf8(data) {
            decode_utf8(data)
        } else {
            utf8_decode_lossy(data)
        },
        Encoding::Utf16Le => utf16_decode_lossy(le_units(data)),
    }
}

/// The NUL terminator of `encoding`.
pub open spec fn spec_nul(encoding: Encoding) -> Seq<u8> {
    Seq::new(encoding.spec_nul_size(), |i: int| 0u8)
}

/// How many bytes a terminated string of `encoding` takes up in `rest`, terminator included.
pub open spec fn terminated_len(encoding: Encoding, rest: Seq<u8>) -> nat {
    search_end(rest, spec_nul(encoding))
}

/// The bytes of a terminated string in `rest`, without the terminator.
pub open spec fn terminated_data(encoding: Encoding, rest: Seq<u8>) -> Seq<u8> {
    let n = terminated_len(encoding, rest);
    let found = rest.take(n as int);
    if n >= encoding.spec_nul_size() && n % encoding.spec_nul_size() == 0 && found.skip(
        n - encoding.spec_nul_size(),
    ) == spec_nul(encoding) {
        found.take(n - encoding.spec_nul_size())
    } else {
        found
    }
}

/// A terminated string read from a non-empty stream consumes at least one byte.
pub proof fn lemma_terminated_len_pos(encoding: Encoding, rest: Seq<u8>)
    requires
        rest.len() > 0,
    ensures
        0 < terminated_len(encoding, rest) <= rest.len(),
{
    crate::io::lemma_search_end_bound(rest, spec_nul(encoding));
}

// ---- Calls into std ----

/// Appends `c` to `s` with `String::push`.
#[verifier::external_body]
pub(crate) fn push_char(s: &mut String, c: char)
    ensures
        final(s)@ == old(s)@.push(c),
{
    s.push(c)
}

/// Decodes `data` with `String::from_utf8_lossy`. Valid UTF-8 is decoded as it is;
/// what becomes of invalid sequences is left to the name `utf8_decode_lossy`.
#[verifier::external_body]
pub(crate) fn utf8_lossy(data: &[u8]) -> (r: String)
    ensures
        r@ == utf8_decode_lossy(data@),
        valid_utf8(data@) ==> r@ == decode_utf8(data@),
{
    String::from_utf8_lossy(data).into_owned()
}

/// Decodes `units` with `String::from_utf16_lossy`, which replaces unpaired surrogates
/// with U+FFFD.
#[verifier::external_body]
fn utf16_lossy(units: &[u16]) -> (r: String)
    ensures
        r@ == utf16_decode_lossy(units@),
{
    String::from_utf16_lossy(units)
}

// ---- Rendering ----

/// The character of a decimal digit.
pub open spec fn digit_char(d: nat) -> char {
    (0x30 + d) as char
}

/// The decimal digits of `n`, without leading zeroes.
pub open spec fn spec_decimal(n: nat) -> Seq<char>
    decreases n,
{
    if n < 10 {
        seq![digit_char(n)]
    } else {
        spec_decimal(n / 10).push(digit_char(n % 10))
    }
}

/// Formats `n` in decimal.
pub fn decimal(n: u64) -> (r: String)
    ensures
        r@ == spec_decimal(n as nat),
    decreases n,
{
    let mut s = if n < 10 {
        String::new()
    } else {
        decimal(n / 10)
    };
    let d: u8 = (n % 10) as u8;
    push_char(&mut s, (0x30 + d) as char);
    s
}

/// Appends the characters of `chars` from `start` up to `end` to `s`.
pub fn push_str_chars(s: &mut String, chars: &[char], start: usize, end: usize)
    requires
        start <= end <= chars@.len(),
    ensures
        final(s)@ == old(s)@ + chars@.subrange(start as int, end as int),
{
    let mut i = start;
    while i < end
        invariant
            start <= i <= end <= chars@.len(),
            s@ == old(s)@ + chars@.subrange(start as int, i as int),
        decreases end - i,
    {
        push_char(s, chars[i]);
        proof {
            assert(chars@.subrange(start as int, i + 1) =~= chars@.subrange(start as int, i as int).push(
                chars@[i as int],
            ));
        }
        i = i + 1;
    }
}

/// The characters of `s`.
pub fn chars_of(s: &str) -> (v: Vec<char>)
    ensures
        v@ == s@,
{
    let mut v: Vec<char> = Vec::new();
    for c in it: s.chars()
        invariant
            v@ == it.seq().take(it.index() as int),
            it.seq() == s@,
    {
        v.push(c);
    }
    v
}

fn encode_latin1(string: &str) -> (r: Vec<u8>)
    ensures
        r@ == spec_render(Encoding::Latin1, string@),
{
    let chars = chars_of(string);
    let mut result: Vec<u8> = Vec::new();
    let mut i: usize = 0;
    while i < chars.len()
        invariant
            i <= chars@.len(),
            chars@ == string@,
            result@ == chars@.take(i as int).map_values(|c: char| latin1_byte(c)),
        decreases chars@.len() - i,
    {
        let ch = chars[i];
        let b: u8 = if ch as u32 > 0xFF { 63u8 } else { ch as u32 as u8 };
        result.push(b);
        proof {
            assert(chars@.take(i + 1).map_values(|c: char| latin1_byte(c)) =~= chars@.take(
                i as int,
            ).map_values(|c: char| latin1_byte(c)).push(latin1_byte(chars@[i as int])));
        }
        i = i + 1;
    }
    proof {
        assert(chars@.take(i as int) =~= chars@);
    }
    result
}

/// The UTF-16 code units of `string`.
fn utf16_of(string: &str) -> (r: Vec<u16>)
    ensures
        r@ == utf16_units(string@),
{
    let chars = chars_of(string);
    let mut units: Vec<u16> = Vec::new();
    let mut i: usize = 0;
    while i < chars.len()
        invariant
            i <= chars@.len(),
            chars@ == string@,
            units@ == utf16_units(chars@.take(i as int)),
        decreases chars@.len() - i,
    {
        let ch = chars[i];
        let v = ch as u32;
        proof {
            assert(chars@.take(i + 1).drop_last() =~= chars@.take(i as int));
            assert(chars@.take(i + 1).last() == ch);
        }
        if v < 0x10000 {
            units.push(v as u16);
            proof {
                assert(units@ =~= utf16_units(chars@.take(i as int)) + char_utf16(ch));
            }
        } else {
            proof {
                vstd::utf8::char_is_scalar(ch);
            }
            let w = v - 0x10000;
            units.push((0xD800 + w / 1024) as u16);
            units.push((0xDC00 + w % 1024) as u16);
            proof {
                assert(units@ =~= utf16_units(chars@.take(i as int)) + char_utf16(ch));
            }
        }
        i = i + 1;
    }
    proof {
        assert(chars@.take(i as int) =~= chars@);
    }
    units
}

/// Appends the bytes of `units` to `out`, in the given byte order.
fn push_units(out: &mut Vec<u8>, units: &[u16], little: bool)
    ensures
        final(out)@ == old(out)@ + if little {
            units_le(units@)
        } else {
            units_be(units@)
        },
{
    let ghost start = out@;
    let mut i: usize = 0;
    while i < units.len()
        invariant
            i <= units@.len(),
            out@ == start + if little {
                units_le(units@.take(i as int))
            } else {
                units_be(units@.take(i as int))
            },
        decreases units@.len() - i,
    {
        let unit = units[i];
        proof {
            assert(units@.take(i + 1).drop_last() =~= units@.take(i as int));
            assert(units@.take(i + 1).last() == unit);
        }
        if little {
            out.push((unit % 256) as u8);
            out.push((unit / 256) as u8);
        } else {
            out.push((unit / 256) as u8);
            out.push((unit % 256) as u8);
        }
        proof {
            if little {
                assert(out@ =~= start + units_le(units@.take(i + 1)));
            } else {
                assert(out@ =~= start + units_be(units@.take(i + 1)));
            }
        }
        i = i + 1;
    }
    proof {
        assert(units@.take(i as int) =~= units@);
    }
}

/// Appends the UTF-16 code units of `string` to `out`, in the given byte order.
fn push_utf16(out: &mut Vec<u8>, string: &str, little: bool)
    ensures
        final(out)@ == old(out)@ + if little {
            units_le(utf16_units(string@))
        } else {
            units_be(utf16_units(string@))
        },
{
    let units = utf16_of(string);
    push_units(out, units.as_slice(), little);
}

/// The byte rendering of code units distributes over concatenation.
pub proof fn lemma_units_append(a: Seq<u16>, b: Seq<u16>, little: bool)
    ensures
        little ==> units_le(a + b) == units_le(a) + units_le(b),
        !little ==> units_be(a + b) == units_be(a) + units_be(b),
    decreases b.len(),
{
    if b.len() == 0 {
        assert(a + b =~= a);
        assert(units_le(a) + units_le(b) =~= units_le(a));
        assert(units_be(a) + units_be(b) =~= units_be(a));
    } else {
        lemma_units_append(a, b.drop_last(), little);
        assert((a + b).drop_last() =~= a + b.drop_last());
        assert((a + b).last() == b.last());
        assert(units_le(a) + units_le(b.drop_last()) + seq![(b.last() % 256) as u8, (b.last() / 256) as u8]
            =~= units_le(a) + (units_le(b.drop_last()) + seq![(b.last() % 256) as u8, (b.last() / 256) as u8]));
        assert(units_be(a) + units_be(b.drop_last()) + seq![(b.last() / 256) as u8, (b.last() % 256) as u8]
            =~= units_be(a) + (units_be(b.drop_last()) + seq![(b.last() / 256) as u8, (b.last() % 256) as u8]));
    }
}

/// Renders `string` in `encoding`.
pub fn render(encoding: Encoding, string: &str) -> (r: Vec<u8>)
    ensures
        r@ == spec_render(encoding, string@),
{
    // Aside from UTF-8, all string formats have to be rendered in special ways.
    match encoding {
        Encoding::Latin1 => encode_latin1(string),
        Encoding::Utf16 => {
            let mut result: Vec<u8> = Vec::new();
            result.push(0xFF);
            result.push(0xFE);
            push_utf16(&mut result, string, true);
            result
        },
        Encoding::Utf16Be => {
            let mut result: Vec<u8> = Vec::new();
            push_utf16(&mut result, string, false);
            assert(result@ =~= spec_render(encoding, string@));
            result
        },
        Encoding::Utf8 => vstd::slice::slice_to_vec(string.as_bytes()),
        Encoding::Utf16Le => {
            let mut result: Vec<u8> = Vec::new();
            push_utf16(&mut result, string, true);
            assert(result@ =~= spec_render(encoding, string@));
            result
        },
    }
}

/// Renders `string` in `encoding`, followed by the NUL terminator of `encoding`.
pub fn render_terminated(encoding: Encoding, string: &str) -> (r: Vec<u8>)
    ensures
        r@ == spec_render(encoding, string@) + spec_nul(encoding),
{
    let mut result = render(encoding, string);
    // One byte for Latin1/UTF-8 and two bytes for UTF-16.
    result.push(0);
    if encoding.nul_size() == 2 {
        result.push(0);
    }
    assert(result@ =~= spec_render(encoding, string@) + spec_nul(encoding));
    result
}

// ---- Decoding ----

fn decode_latin1(data: &[u8]) -> (r: String)
    ensures
        r@ == spec_decode(Encoding::Latin1, data@),
{
    // Latin-1 bytes are the first 256 code points, so each byte is reinterpreted as a char.
    let mut s = String::new();
    let mut i: usize = 0;
    while i < data.len()
        invariant
            i <= data@.len(),
            s@ == data@.take(i as int).map_values(|b: u8| b as char),
        decreases data@.len() - i,
    {
        push_char(&mut s, data[i] as char);
        proof {
            assert(data@.take(i + 1).map_values(|b: u8| b as char) =~= data@.take(
                i as int,
            ).map_values(|b: u8| b as char).push(data@[i as int] as char));
        }
        i = i + 1;
    }
    proof {
        assert(data@.take(i as int) =~= data@);
    }
    s
}

fn decode_units(data: &[u8], little: bool) -> (r: String)
    ensures
        r@ == utf16_decode_lossy(if little { le_units(data@) } else { be_units(data@) }),
{
    let mut units: Vec<u16> = Vec::new();
    let len = data.len();
    let n = len / 2;
    let mut i: usize = 0;
    while i < n
        invariant
            len == data@.len(),
            i <= n == len / 2,
            units@ == (if little { le_units(data@) } else { be_units(data@) }).take(i as int),
        decreases n - i,
    {
        let hi: u16;
        let lo: u16;
        if little {
            hi = data[2 * i + 1] as u16;
            lo = data[2 * i] as u16;
        } else {
            hi = data[2 * i] as u16;
            lo = data[2 * i + 1] as u16;
        }
        units.push(hi * 256 + lo);
        proof {
            let all = if little { le_units(data@) } else { be_units(data@) };
            assert(units@ =~= all.take(i + 1));
        }
        i = i + 1;
    }
    proof {
        let all = if little { le_units(data@) } else { be_units(data@) };
        assert(all.take(n as int) =~= all);
    }
    utf16_lossy(units.as_slice())
}

/// Decodes `data` as text in `encoding`.
pub fn decode(encoding: Encoding, data: &[u8]) -> (r: String)
    ensures
        r@ == spec_decode(encoding, data@),
{
    match encoding {
        Encoding::Latin1 => decode_latin1(data),
        Encoding::Utf16 => {
            // UTF-16 requires us to figure out the endianness ourselves from the BOM.
            if data.len() >= 2 && data[0] == 0xFF && data[1] == 0xFE {
                decode_units(&data[2..data.len()], true)
            } else if data.len() >= 2 && data[0] == 0xFE && data[1] == 0xFF {
                decode_units(&data[2..data.len()], false)
            } else {
                // No BOM, assume UTF-16BE.
                decode_units(data, false)
            }
        },
        Encoding::Utf16Be => decode_units(data, false),
        Encoding::Utf8 => utf8_lossy(data),
        Encoding::Utf16Le => decode_units(data, true),
    }
}

/// Decodes the rest of `stream` as text, exhausting the stream.
pub fn read(encoding: Encoding, stream: &mut BufStream) -> (r: String)
    ensures
        r@ == spec_decode(encoding, old(stream).rest()),
        final(stream).rest().len() == 0,
        final(stream).data() == old(stream).data(),
{
    decode(encoding, stream.take_rest())
}

/// Decodes the next `size` bytes of `stream` as text.
///
/// # Errors
/// If the stream holds fewer than `size` bytes, an error is returned.
pub fn read_exact(encoding: Encoding, stream: &mut BufStream, size: usize) -> (r: Result<
    String,
    StreamError,
>)
    ensures
        final(stream).data() == old(stream).data(),
        match r {
            Ok(s) => {
                &&& size <= old(stream).rest().len()
                &&& s@ == spec_decode(encoding, old(stream).rest().take(size as int))
                &&& final(stream).rest() == old(stream).rest().skip(size as int)
            },
            Err(e) => {
                &&& old(stream).rest().len() < size
                &&& e == StreamError::BufferUnderread {
                    len: size,
                    remaining: old(stream).rest().len() as usize,
                }
                &&& *final(stream) == *old(stream)
            },
        },
{
    match stream.slice(size) {
        Ok(data) => Ok(decode(encoding, data)),
        Err(e) => Err(e),
    }
}

/// Reads a NUL-terminated string from `stream`.
///
/// The string ends at the first NUL terminator of `encoding` (one zero byte for Latin-1 and
/// UTF-8, two aligned zero bytes for UTF-16), which is consumed but not part of the string.
/// If there is no terminator, the rest of the stream is the string.
pub fn read_terminated(encoding: Encoding, stream: &mut BufStream) -> (r: String)
    ensures
        r@ == spec_decode(encoding, terminated_data(encoding, old(stream).rest())),
        final(stream).rest() == old(stream).rest().skip(
            terminated_len(encoding, old(stream).rest()) as int,
        ),
        terminated_len(encoding, old(stream).rest()) <= old(stream).rest().len(),
        final(stream).data() == old(stream).data(),
{
    let nul_size = encoding.nul_size();
    let found = if nul_size == 1 {
        let nul: [u8; 1] = [0];
        proof {
            assert(nul@ =~= spec_nul(encoding));
        }
        stream.search(nul.as_slice())
    } else {
        let nul: [u8; 2] = [0, 0];
        proof {
            assert(nul@ =~= spec_nul(encoding));
        }
        stream.search(nul.as_slice())
    };
    let n = found.len();
    let string_data = if n >= nul_size && n % nul_size == 0 && is_nul(&found[n - nul_size..n]) {
        &found[0..n - nul_size]
    } else {
        found
    };
    proof {
        let rest = old(stream).rest();
        assert(found@.skip(n - nul_size) =~= found@.subrange(n - nul_size, n as int)) by {
            if n >= nul_size {}
        };
        if n >= nul_size {
            assert(found@.subrange(0, n - nul_size) =~= found@.take(n - nul_size));
        }
        assert(string_data@ == terminated_data(encoding, rest));
    }
    decode(encoding, string_data)
}

/// Whether every byte of `data` is zero.
fn is_nul(data: &[u8]) -> (r: bool)
    ensures
        r == (data@ == Seq::new(data@.len(), |i: int| 0u8)),
{
    let mut i: usize = 0;
    while i < data.len()
        invariant
            i <= data@.len(),
            forall|j: int| 0 <= j < i ==> data@[j] == 0,
        decreases data@.len() - i,
    {
        if data[i] != 0 {
            return false;
        }
        i = i + 1;
    }
    assert(data@ =~= Seq::new(data@.len(), |i: int| 0u8));
    true
}

} // verus!

verus! {

// ---- Laws ----

/// The code units of a character sequence, split at its first character.
pub proof fn lemma_utf16_units_first(chars: Seq<char>)
    requires
        chars.len() > 0,
    ensures
        utf16_units(chars) == char_utf16(chars[0]) + utf16_units(chars.drop_first()),
    decreases chars.len(),
{
    if chars.len() == 1 {
        assert(chars.drop_last() =~= Seq::<char>::empty());
        assert(chars.drop_first() =~= Seq::<char>::empty());
        assert(utf16_units(chars) =~= char_utf16(chars[0]) + utf16_units(chars.drop_first()));
    } else {
        lemma_utf16_units_first(chars.drop_last());
        assert(chars.drop_last().drop_first() =~= chars.drop_first().drop_last());
        assert(chars.drop_first().last() == chars.last());
        assert(chars.drop_last()[0] == chars[0]);
        assert(utf16_units(chars) =~= char_utf16(chars[0]) + utf16_units(chars.drop_first()));
    }
}

/// Decoding the code units of one character in front of more units yields that character first.
pub proof fn lemma_utf16_decode_char(c: char, rest: Seq<u16>)
    ensures
        utf16_decode_lossy(char_utf16(c) + rest) == seq![c] + utf16_decode_lossy(rest),
{
    vstd::utf8::char_is_scalar(c);
    let v = c as u32;
    vstd::utf8::char_u32_cast(c, v);
    let u = char_utf16(c) + rest;
    if v < 0x10000 {
        assert(u.drop_first() =~= rest);
        assert(u[0] == v as u16);
        assert((v as u16) as char == c);
    } else {
        let w = v - 0x10000;
        assert(u.skip(2) =~= rest);
        assert(u[0] == (0xD800 + w / 1024) as u16);
        assert(u[1] == (0xDC00 + w % 1024) as u16);
        assert(0x10000 + (u[0] - 0xD800) * 1024 + (u[1] - 0xDC00) == v);
    }
}

/// Lossy UTF-16 decoding gives back the characters that were encoded.
pub proof fn lemma_utf16_roundtrip(chars: Seq<char>)
    ensures
        utf16_decode_lossy(utf16_units(chars)) == chars,
    decreases chars.len(),
{
    if chars.len() == 0 {
        assert(utf16_decode_lossy(utf16_units(chars)) =~= chars);
    } else {
        lemma_utf16_units_first(chars);
        lemma_utf16_decode_char(chars[0], utf16_units(chars.drop_first()));
        lemma_utf16_roundtrip(chars.drop_first());
        assert(seq![chars[0]] + chars.drop_first() =~= chars);
    }
}

/// The byte rendering of code units, by index.
pub proof fn lemma_units_index(u: Seq<u16>)
    ensures
        units_be(u).len() == 2 * u.len(),
        units_le(u).len() == 2 * u.len(),
        forall|i: int|
            0 <= i < u.len() ==> {
                &&& #[trigger] units_be(u)[2 * i] == (u[i] / 256) as u8
                &&& units_be(u)[2 * i + 1] == (u[i] % 256) as u8
                &&& units_le(u)[2 * i] == (u[i] % 256) as u8
                &&& units_le(u)[2 * i + 1] == (u[i] / 256) as u8
            },
    decreases u.len(),
{
    if u.len() > 0 {
        lemma_units_index(u.drop_last());
        assert forall|i: int| 0 <= i < u.len() implies {
            &&& #[trigger] units_be(u)[2 * i] == (u[i] / 256) as u8
            &&& units_be(u)[2 * i + 1] == (u[i] % 256) as u8
            &&& units_le(u)[2 * i] == (u[i] % 256) as u8
            &&& units_le(u)[2 * i + 1] == (u[i] / 256) as u8
        } by {
            if i < u.len() - 1 {
                assert(u.drop_last()[i] == u[i]);
                assert(units_be(u.drop_last())[2 * i] == (u[i] / 256) as u8);
                assert(units_le(u.drop_last())[2 * i] == (u[i] % 256) as u8);
            }
        }
    }
}

/// Reading rendered code units back gives the same code units.
pub proof fn lemma_units_roundtrip(u: Seq<u16>)
    ensures
        be_units(units_be(u)) == u,
        le_units(units_le(u)) == u,
{
    lemma_units_index(u);
    assert forall|i: int| 0 <= i < u.len() implies #[trigger] be_units(units_be(u))[i] == u[i] by {
        let a = units_be(u)[2 * i];
        let b = units_be(u)[2 * i + 1];
        assert((a as int * 256 + b as int) as u16 == u[i]);
    }
    assert forall|i: int| 0 <= i < u.len() implies #[trigger] le_units(units_le(u))[i] == u[i] by {
        assert(units_be(u)[2 * i] == (u[i] / 256) as u8);
        let a = units_le(u)[2 * i];
        let b = units_le(u)[2 * i + 1];
        assert((b as int * 256 + a as int) as u16 == u[i]);
    }
    assert(be_units(units_be(u)) =~= u);
    assert(le_units(units_le(u)) =~= u);
}

/// Text rendered in a UTF-16 encoding, or in Latin-1 when every character fits in Latin-1,
/// decodes back to the same text; text rendered in UTF-8 is valid UTF-8 whose decoding is the
/// same text.
pub proof fn lemma_render_decode(encoding: Encoding, chars: Seq<char>)
    requires
        encoding == Encoding::Latin1 ==> forall|i: int| 0 <= i < chars.len() ==> chars[i] as u32 <= 0xFF,
    ensures
        spec_decode(encoding, spec_render(encoding, chars)) == chars,
        encoding == Encoding::Utf8 ==> valid_utf8(spec_render(encoding, chars)),
{
    let units = utf16_units(chars);
    match encoding {
        Encoding::Latin1 => {
            let data = spec_render(encoding, chars);
            assert forall|i: int| 0 <= i < chars.len() implies #[trigger] spec_decode(encoding, data)[i] == chars[i] by {
                let c = chars[i];
                vstd::utf8::char_u32_cast(c, c as u32);
                assert(((c as u32) as u8) as char == c);
            }
            assert(spec_decode(encoding, data) =~= chars);
        },
        Encoding::Utf16 => {
            lemma_units_roundtrip(units);
            lemma_utf16_roundtrip(chars);
            let data = spec_render(encoding, chars);
            assert(data.skip(2) =~= units_le(units));
        },
        Encoding::Utf16Be => {
            lemma_units_roundtrip(units);
            lemma_utf16_roundtrip(chars);
        },
        Encoding::Utf8 => {
            vstd::utf8::encode_utf8_valid_utf8(chars);
            vstd::utf8::encode_utf8_decode_utf8(chars);
        },
        Encoding::Utf16Le => {
            lemma_units_roundtrip(units);
            lemma_utf16_roundtrip(chars);
        },
    }
}


// ---- Rendered text and terminators ----

/// Whether no character of `chars` is NUL.
pub open spec fn no_nul_char(chars: Seq<char>) -> bool {
    forall|i: int| 0 <= i < chars.len() ==> chars[i] != '\0'
}

/// Whether `chars` can be rendered in `encoding` as they are: every character fits in Latin-1
/// where that is the encoding.
pub open spec fn fits(encoding: Encoding, chars: Seq<char>) -> bool {
    encoding == Encoding::Latin1 ==> forall|i: int| 0 <= i < chars.len() ==> chars[i] as u32 <= 0xFF
}

/// Whether `data` splits into whole units of `encoding` none of which is its NUL terminator.
pub open spec fn nul_free(encoding: Encoding, data: Seq<u8>) -> bool
    decreases data.len(),
{
    let n = encoding.spec_nul_size();
    if data.len() == 0 {
        true
    } else if data.len() < n {
        false
    } else {
        data.take(n as int) != spec_nul(encoding) && nul_free(encoding, data.skip(n as int))
    }
}

/// Units free of the terminator, one after another, are free of it.
pub proof fn lemma_nul_free_concat(encoding: Encoding, a: Seq<u8>, b: Seq<u8>)
    requires
        nul_free(encoding, a),
        nul_free(encoding, b),
    ensures
        nul_free(encoding, a + b),
    decreases a.len(),
{
    let n = encoding.spec_nul_size() as int;
    if a.len() == 0 {
        assert(a + b =~= b);
    } else {
        lemma_nul_free_concat(encoding, a.skip(n), b);
        assert((a + b).take(n) =~= a.take(n));
        assert((a + b).skip(n) =~= a.skip(n) + b);
    }
}

/// Data free of the terminator has a whole number of units.
pub proof fn lemma_nul_free_len(encoding: Encoding, data: Seq<u8>)
    requires
        nul_free(encoding, data),
    ensures
        data.len() % encoding.spec_nul_size() == 0,
    decreases data.len(),
{
    if data.len() > 0 {
        lemma_nul_free_len(encoding, data.skip(encoding.spec_nul_size() as int));
    }
}

/// The terminator after data free of it is the first one found.
pub proof fn lemma_search_past(encoding: Encoding, data: Seq<u8>, rest: Seq<u8>)
    requires
        nul_free(encoding, data),
    ensures
        search_end(data + spec_nul(encoding) + rest, spec_nul(encoding)) == data.len()
            + encoding.spec_nul_size(),
    decreases data.len(),
{
    let n = encoding.spec_nul_size() as int;
    let whole = data + spec_nul(encoding) + rest;
    if data.len() == 0 {
        assert(whole.take(n) =~= spec_nul(encoding));
    } else {
        lemma_search_past(encoding, data.skip(n), rest);
        assert(whole.take(n) =~= data.take(n));
        assert(whole.skip(n) =~= data.skip(n) + spec_nul(encoding) + rest);
    }
}

/// A string read up to its terminator, where the data before the terminator is free of it,
/// is that data, and takes it and the terminator up.
pub proof fn lemma_terminated_past(encoding: Encoding, data: Seq<u8>, rest: Seq<u8>)
    requires
        nul_free(encoding, data),
    ensures
        terminated_len(encoding, data + spec_nul(encoding) + rest) == data.len()
            + encoding.spec_nul_size(),
        terminated_data(encoding, data + spec_nul(encoding) + rest) == data,
        (data + spec_nul(encoding) + rest).skip(data.len() + encoding.spec_nul_size() as int) == rest,
{
    let n = encoding.spec_nul_size() as int;
    let whole = data + spec_nul(encoding) + rest;
    lemma_search_past(encoding, data, rest);
    lemma_nul_free_len(encoding, data);
    let found = whole.take(data.len() + n);
    assert(found =~= data + spec_nul(encoding));
    assert(found.skip(data.len() as int) =~= spec_nul(encoding));
    assert((data.len() + n) % n == 0) by {
        assert(n == 1 || n == 2);
    }
    assert(found.take(data.len() as int) =~= data);
    assert(whole.skip(data.len() + n) =~= rest);
}

/// A Latin-1 rendering of text without NUL characters has no zero byte.
proof fn lemma_latin1_nul_free(chars: Seq<char>)
    requires
        no_nul_char(chars),
    ensures
        nul_free(Encoding::Latin1, spec_render(Encoding::Latin1, chars)),
    decreases chars.len(),
{
    let data = spec_render(Encoding::Latin1, chars);
    if chars.len() > 0 {
        lemma_latin1_nul_free(chars.drop_first());
        assert(data.skip(1) =~= spec_render(Encoding::Latin1, chars.drop_first()));
        let c = chars[0];
        assert(c != '\0');
        vstd::utf8::char_u32_cast(c, c as u32);
        assert(latin1_byte(c) != 0) by {
            if c as u32 <= 0xFF {
                assert((c as u32) != 0);
            }
        }
        assert(data.take(1) != spec_nul(Encoding::Latin1)) by {
            assert(data.take(1)[0] == latin1_byte(c));
        }
    }
}

/// The UTF-8 encoding of a character other than NUL has no zero byte.
proof fn lemma_scalar_nul_free(c: char)
    requires
        c != '\0',
    ensures
        nul_free(Encoding::Utf8, vstd::utf8::encode_scalar(c as u32)),
{
    let v = c as u32;
    vstd::utf8::char_u32_cast(c, v);
    assert(v != 0);
    let e = vstd::utf8::encode_scalar(v);
    assert forall|i: int| 0 <= i < e.len() implies e[i] != 0 by {
        assert(v > 0 && v <= 0x7F ==> (v & 0x7F) as u8 != 0) by (bit_vector);
        assert(forall|x: u32| (0xC0u8 | ((x >> 6) & 0x1F) as u8) != 0) by (bit_vector);
        assert(forall|x: u32| (0xE0u8 | ((x >> 12) & 0x0F) as u8) != 0) by (bit_vector);
        assert(forall|x: u32| (0xF0u8 | ((x >> 18) & 0x7) as u8) != 0) by (bit_vector);
        assert(forall|x: u32| (0x80u8 | (x & 0x3F) as u8) != 0) by (bit_vector);
        assert(forall|x: u32| (0x80u8 | ((x >> 6) & 0x3F) as u8) != 0) by (bit_vector);
        assert(forall|x: u32| (0x80u8 | ((x >> 12) & 0x3F) as u8) != 0) by (bit_vector);
    }
    lemma_nonzero_bytes_free(e);
}

/// Bytes none of which is zero are free of the one-byte terminator.
proof fn lemma_nonzero_bytes_free(data: Seq<u8>)
    requires
        forall|i: int| 0 <= i < data.len() ==> data[i] != 0,
    ensures
        nul_free(Encoding::Utf8, data),
        nul_free(Encoding::Latin1, data),
    decreases data.len(),
{
    if data.len() > 0 {
        lemma_nonzero_bytes_free(data.skip(1));
        assert(data.take(1) != spec_nul(Encoding::Utf8)) by {
            assert(data.take(1)[0] == data[0]);
        }
    }
}

/// A UTF-8 rendering of text without NUL characters has no zero byte.
proof fn lemma_utf8_nul_free(chars: Seq<char>)
    requires
        no_nul_char(chars),
    ensures
        nul_free(Encoding::Utf8, spec_render(Encoding::Utf8, chars)),
    decreases chars.len(),
{
    if chars.len() > 0 {
        lemma_utf8_nul_free(chars.drop_first());
        lemma_scalar_nul_free(chars[0]);
        lemma_nul_free_concat(
            Encoding::Utf8,
            vstd::utf8::encode_scalar(chars[0] as u32),
            encode_utf8(chars.drop_first()),
        );
    }
}

/// The UTF-16 code units of text without NUL characters are none of them zero.
proof fn lemma_units_nonzero(chars: Seq<char>)
    requires
        no_nul_char(chars),
    ensures
        forall|i: int| 0 <= i < utf16_units(chars).len() ==> utf16_units(chars)[i] != 0,
    decreases chars.len(),
{
    if chars.len() > 0 {
        lemma_units_nonzero(chars.drop_last());
        let c = chars.last();
        vstd::utf8::char_u32_cast(c, c as u32);
        assert(c != '\0');
        let u = utf16_units(chars);
        let front = utf16_units(chars.drop_last());
        assert forall|i: int| 0 <= i < u.len() implies u[i] != 0 by {
            if i >= front.len() {
                assert(u[i] == char_utf16(c)[i - front.len()]);
            }
        }
    }
}

/// Two bytes that are not both zero are free of the two-byte terminator.
proof fn lemma_pair_free(encoding: Encoding, a: u8, b: u8)
    requires
        encoding.spec_nul_size() == 2,
        a != 0 || b != 0,
    ensures
        nul_free(encoding, seq![a, b]),
{
    let d = seq![a, b];
    assert(d.take(2) =~= d);
    assert(d.skip(2) =~= Seq::<u8>::empty());
    assert(nul_free(encoding, d.skip(2)));
    assert(d.take(2) != spec_nul(encoding)) by {
        if d.take(2) == spec_nul(encoding) {
            assert(d[0] == spec_nul(encoding)[0]);
            assert(d[1] == spec_nul(encoding)[1]);
        }
    }
}

/// The bytes of code units none of which is zero are free of the two-byte terminator.
proof fn lemma_unit_bytes_free(encoding: Encoding, u: Seq<u16>)
    requires
        encoding.spec_nul_size() == 2,
        forall|i: int| 0 <= i < u.len() ==> u[i] != 0,
    ensures
        nul_free(encoding, units_be(u)),
        nul_free(encoding, units_le(u)),
    decreases u.len(),
{
    if u.len() > 0 {
        let front = u.drop_last();
        assert forall|i: int| 0 <= i < front.len() implies front[i] != 0 by {
            assert(front[i] == u[i]);
        }
        lemma_unit_bytes_free(encoding, front);
        let x = u.last();
        assert(u[u.len() - 1] == x);
        assert(x / 256 != 0 || x % 256 != 0);
        lemma_pair_free(encoding, (x / 256) as u8, (x % 256) as u8);
        lemma_pair_free(encoding, (x % 256) as u8, (x / 256) as u8);
        lemma_nul_free_concat(encoding, units_be(front), seq![(x / 256) as u8, (x % 256) as u8]);
        lemma_nul_free_concat(encoding, units_le(front), seq![(x % 256) as u8, (x / 256) as u8]);
    }
}

/// Text without NUL characters, rendered in any encoding, is free of the terminator.
pub proof fn lemma_render_nul_free(encoding: Encoding, chars: Seq<char>)
    requires
        no_nul_char(chars),
    ensures
        nul_free(encoding, spec_render(encoding, chars)),
{
    match encoding {
        Encoding::Latin1 => lemma_latin1_nul_free(chars),
        Encoding::Utf8 => lemma_utf8_nul_free(chars),
        _ => {
            lemma_units_nonzero(chars);
            lemma_unit_bytes_free(encoding, utf16_units(chars));
            if encoding == Encoding::Utf16 {
                lemma_pair_free(encoding, 0xFF, 0xFE);
                lemma_nul_free_concat(encoding, seq![0xFFu8, 0xFEu8], units_le(utf16_units(chars)));
            }
        },
    }
}

/// Text without NUL characters that fits its encoding, rendered and terminated, is read back
/// as that text: the terminated string ends at its own terminator, and what follows it is
/// left as it was.
pub proof fn lemma_terminated_roundtrip(encoding: Encoding, chars: Seq<char>, rest: Seq<u8>)
    requires
        no_nul_char(chars),
        fits(encoding, chars),
    ensures
        terminated_len(encoding, spec_render(encoding, chars) + spec_nul(encoding) + rest)
            == spec_render(encoding, chars).len() + encoding.spec_nul_size(),
        spec_decode(
            encoding,
            terminated_data(encoding, spec_render(encoding, chars) + spec_nul(encoding) + rest),
        ) == chars,
        (spec_render(encoding, chars) + spec_nul(encoding) + rest).skip(
            terminated_len(encoding, spec_render(encoding, chars) + spec_nul(encoding) + rest) as int,
        ) == rest,
{
    lemma_render_nul_free(encoding, chars);
    lemma_terminated_past(encoding, spec_render(encoding, chars), rest);
    lemma_render_decode(encoding, chars);
}

/// The last unit of data free of the terminator is not the terminator.
proof fn lemma_nul_free_last(encoding: Encoding, data: Seq<u8>)
    requires
        nul_free(encoding, data),
        data.len() > 0,
    ensures
        data.len() >= encoding.spec_nul_size(),
        data.skip(data.len() - encoding.spec_nul_size()) != spec_nul(encoding),
    decreases data.len(),
{
    let n = encoding.spec_nul_size() as int;
    let tail = data.skip(n);
    if tail.len() == 0 {
        assert(data.skip(data.len() - n) =~= data.take(n));
    } else {
        lemma_nul_free_last(encoding, tail);
        assert(data.skip(data.len() - n) =~= tail.skip(tail.len() - n));
    }
}

/// Data free of the terminator and not followed by one is read as a string whole.
pub proof fn lemma_terminated_whole(encoding: Encoding, data: Seq<u8>)
    requires
        nul_free(encoding, data),
    ensures
        terminated_len(encoding, data) == data.len(),
        terminated_data(encoding, data) == data,
    decreases data.len(),
{
    let n = encoding.spec_nul_size() as int;
    if data.len() > 0 {
        lemma_terminated_whole(encoding, data.skip(n));
        assert(search_end(data, spec_nul(encoding)) == n + search_end(data.skip(n), spec_nul(encoding)));
        lemma_nul_free_last(encoding, data);
        assert(data.take(data.len() as int) =~= data);
    }
}

/// Text that is not empty renders to at least one byte.
pub proof fn lemma_render_nonempty(encoding: Encoding, chars: Seq<char>)
    requires
        chars.len() > 0,
    ensures
        spec_render(encoding, chars).len() > 0,
{
    match encoding {
        Encoding::Latin1 => {},
        Encoding::Utf8 => {},
        _ => {
            let u = utf16_units(chars);
            assert(u.len() > 0) by {
                assert(u == utf16_units(chars.drop_last()) + char_utf16(chars.last()));
            }
            lemma_units_bytes_len(u);
        },
    }
}

/// Each code unit takes up two bytes.
proof fn lemma_units_bytes_len(u: Seq<u16>)
    ensures
        units_be(u).len() == 2 * u.len(),
        units_le(u).len() == 2 * u.len(),
    decreases u.len(),
{
    if u.len() > 0 {
        lemma_units_bytes_len(u.drop_last());
    }
}

} // verus!
