//! ID3v2.3-specific audio frames.
//!
//! The spec says nothing about what units the volume fields are supposed to represent, or
//! even if they are floats or not, so plain 64-bit values are read. The sign of an adjustment
//! is separate from its data, so an enum is used instead of a signed integer so that no
//! information is lost.
use crate::id3v2::frames::text::known_id;
use crate::id3v2::frames::{ascii_chars, Frame, FrameId};
use crate::id3v2::tag::TagHeader;
use crate::id3v2::{ParseError, ParseResult};
use crate::io::{be_bytes, be_value, pow256, BufStream, StreamError};
use crate::string::{decimal, spec_decimal};
use std::collections::BTreeMap;
use vstd::prelude::*;
use vstd::string::StringExecFns;

verus! {

// ---- Fields ----

/// Reads a `len`-byte big-endian number.
fn read_n_u64(len: usize, stream: &mut BufStream) -> (r: Result<u64, StreamError>)
    requires
        len <= 8,
    ensures
        final(stream).data() == old(stream).data(),
        match r {
            Ok(v) => {
                &&& len <= old(stream).rest().len()
                &&& v as nat == be_value(old(stream).rest().take(len as int))
                &&& final(stream).rest() == old(stream).rest().skip(len as int)
            },
            Err(e) => {
                &&& old(stream).rest().len() < len
                &&& e == StreamError::BufferUnderread {
                    len: len,
                    remaining: old(stream).rest().len() as usize,
                }
                &&& *final(stream) == *old(stream)
            },
        },
{
    match stream.slice(len) {
        Ok(bytes) => Ok(crate::io::be_uint(bytes)),
        Err(e) => Err(e),
    }
}

/// The values read one after another from `d`, `len` bytes each, `count` of them: each is
/// present while enough bytes are left, and missing from then on.
pub open spec fn spec_read_fields(d: Seq<u8>, len: nat, count: nat) -> Seq<Option<u64>>
    decreases count,
{
    if count == 0 {
        Seq::empty()
    } else if len <= d.len() {
        seq![Some(be_value(d.take(len as int)) as u64)] + spec_read_fields(
            d.skip(len as int),
            len,
            (count - 1) as nat,
        )
    } else {
        Seq::new(count, |i: int| None::<u64>)
    }
}

/// What follows `d` after a field of `len` bytes is read from it, if one is.
pub open spec fn after_field(d: Seq<u8>, len: nat) -> Seq<u8> {
    if len <= d.len() {
        d.skip(len as int)
    } else {
        d
    }
}

/// The first field read from `d`.
pub open spec fn first_field(d: Seq<u8>, len: nat) -> Option<u64> {
    if len <= d.len() {
        Some(be_value(d.take(len as int)) as u64)
    } else {
        None
    }
}

/// Reading `count + 1` fields is reading one, then `count` from what follows.
pub proof fn lemma_read_fields_step(d: Seq<u8>, len: nat, count: nat)
    ensures
        spec_read_fields(d, len, count + 1) == seq![first_field(d, len)] + spec_read_fields(
            after_field(d, len),
            len,
            count,
        ),
{
    if len > d.len() {
        assert(spec_read_fields(d, len, count + 1) =~= seq![None::<u64>] + spec_read_fields(
            d,
            len,
            count,
        ));
    }
}

/// Reads one optional field.
fn read_field(len: usize, stream: &mut BufStream) -> (r: Option<u64>)
    requires
        len <= 8,
    ensures
        final(stream).data() == old(stream).data(),
        r == first_field(old(stream).rest(), len as nat),
        final(stream).rest() == after_field(old(stream).rest(), len as nat),
{
    match read_n_u64(len, stream) {
        Ok(v) => Some(v),
        Err(_) => None,
    }
}

// ---- Volume ----

/// The volume of an adjustment, in arbitrary units.
///
/// This value is written as a plain unsigned integer, with the increment and decrement state
/// being written to the corresponding flag. No information is lost.
#[derive(Debug, Clone, Copy, Eq, PartialEq, Structural)]
pub enum Volume {
    /// A volume increment.
    Increment(u64),
    /// A volume decrement.
    Decrement(u64),
}

impl Default for Volume {
    fn default() -> (r: Self)
        ensures
            r == Volume::Decrement(0),
    {
        Volume::Decrement(0)
    }
}

impl Volume {
    /// The magnitude of this volume.
    pub open spec fn spec_inner(self) -> u64 {
        match self {
            Volume::Increment(v) => v,
            Volume::Decrement(v) => v,
        }
    }

    /// Whether this volume is an increment.
    pub open spec fn spec_flag(self) -> bool {
        self is Increment
    }

    /// Reads a `len`-byte volume whose direction is given by `increment`.
    fn parse(len: usize, increment: bool, stream: &mut BufStream) -> (r: ParseResult<Self>)
        requires
            len <= 8,
        ensures
            final(stream).data() == old(stream).data(),
            match r {
                Ok(v) => {
                    &&& len <= old(stream).rest().len()
                    &&& v == spec_volume(first_field(old(stream).rest(), len as nat), increment)
                    &&& final(stream).rest() == old(stream).rest().skip(len as int)
                },
                Err(e) => {
                    &&& old(stream).rest().len() < len
                    &&& e == ParseError::IoError(
                        StreamError::BufferUnderread {
                            len: len,
                            remaining: old(stream).rest().len() as usize,
                        },
                    )
                },
            },
    {
        let volume = match read_n_u64(len, stream) {
            Ok(v) => v,
            Err(e) => return Err(ParseError::IoError(e)),
        };
        if increment {
            Ok(Volume::Increment(volume))
        } else {
            Ok(Volume::Decrement(volume))
        }
    }

    fn as_flag(&self) -> (r: bool)
        ensures
            r == self.spec_flag(),
    {
        match self {
            Volume::Increment(_) => true,
            Volume::Decrement(_) => false,
        }
    }

    fn inner(&self) -> (r: u64)
        ensures
            r == self.spec_inner(),
    {
        match self {
            Volume::Increment(v) => *v,
            Volume::Decrement(v) => *v,
        }
    }

    /// This volume in decimal, with a minus sign when it is a decrement.
    pub fn display(&self) -> (r: String)
        ensures
            r@ == spec_volume_display(*self),
    {
        match self {
            Volume::Increment(v) => decimal(*v),
            Volume::Decrement(v) => {
                let mut s = String::from_str("-");
                let digits = decimal(*v);
                s.append(digits.as_str());
                s
            },
        }
    }
}

/// How a volume is displayed.
pub open spec fn spec_volume_display(v: Volume) -> Seq<char> {
    match v {
        Volume::Increment(n) => spec_decimal(n as nat),
        Volume::Decrement(n) => "-"@ + spec_decimal(n as nat),
    }
}

/// The volume of an optional field: in the direction `increment` when it was read, and a
/// zero decrement, the default, when it is missing.
pub open spec fn spec_volume(f: Option<u64>, increment: bool) -> Volume {
    match f {
        Some(v) => if increment {
            Volume::Increment(v)
        } else {
            Volume::Decrement(v)
        },
        None => Volume::Decrement(0),
    }
}

/// The value of an optional field, zero when it is missing.
pub open spec fn spec_peak(f: Option<u64>) -> u64 {
    match f {
        Some(v) => v,
        None => 0,
    }
}

fn volume_of(f: Option<u64>, increment: bool) -> (r: Volume)
    ensures
        r == spec_volume(f, increment),
{
    match f {
        Some(v) => if increment {
            Volume::Increment(v)
        } else {
            Volume::Decrement(v)
        },
        None => Volume::Decrement(0),
    }
}

fn peak_of(f: Option<u64>) -> (r: u64)
    ensures
        r == spec_peak(f),
{
    match f {
        Some(v) => v,
        None => 0,
    }
}

// ---- RelativeVolumeFrame ----

/// The volume and peak of one channel.
#[derive(Debug, Default, Clone, Copy)]
pub struct VolumeAdjustment {
    /// The volume adjustment.
    pub volume: Volume,
    /// The peak volume.
    pub peak: u64,
}

/// The relative volume adjustment of the channels of the audio, the ID3v2.3 `RVAD` frame.
#[derive(Debug, Clone, Copy)]
pub struct RelativeVolumeFrame {
    /// The right channel.
    pub right: VolumeAdjustment,
    /// The left channel.
    pub left: VolumeAdjustment,
    /// The right back channel.
    pub right_back: VolumeAdjustment,
    /// The left back channel.
    pub left_back: VolumeAdjustment,
    /// The center channel.
    pub center: VolumeAdjustment,
    /// The bass channel.
    pub bass: VolumeAdjustment,
}

impl Default for RelativeVolumeFrame {
    fn default() -> (r: Self)
        ensures
            r.right == (VolumeAdjustment { volume: Volume::Decrement(0), peak: 0 }),
            r.left == (VolumeAdjustment { volume: Volume::Decrement(0), peak: 0 }),
            r.right_back == (VolumeAdjustment { volume: Volume::Decrement(0), peak: 0 }),
            r.left_back == (VolumeAdjustment { volume: Volume::Decrement(0), peak: 0 }),
            r.center == (VolumeAdjustment { volume: Volume::Decrement(0), peak: 0 }),
            r.bass == (VolumeAdjustment { volume: Volume::Decrement(0), peak: 0 }),
    {
        let zero = VolumeAdjustment { volume: Volume::Decrement(0), peak: 0 };
        Self { right: zero, left: zero, right_back: zero, left_back: zero, center: zero, bass: zero }
    }
}

/// The bytes that each field takes for `bits` bits, at most eight.
pub open spec fn rvad_len(bits: u8) -> nat {
    let n = (bits as nat + 7) / 8;
    if n < 8 {
        n
    } else {
        8
    }
}

/// The error of parsing `d` as the body of an `RVAD` frame, or `None` when it parses: the
/// flags and bit count must be there, the bit count must not be zero, and the right and left
/// volumes are mandatory.
pub open spec fn rvad_error(d: Seq<u8>) -> Option<ParseError> {
    if d.len() < 2 {
        Some(ParseError::IoError(StreamError::EndOfStream))
    } else if d[1] == 0 {
        Some(ParseError::MalformedData)
    } else {
        let len = rvad_len(d[1]);
        let body = d.skip(2);
        if body.len() < len {
            Some(
                ParseError::IoError(
                    StreamError::BufferUnderread { len: len as usize, remaining: body.len() as usize },
                ),
            )
        } else if body.len() < 2 * len {
            Some(
                ParseError::IoError(
                    StreamError::BufferUnderread {
                        len: len as usize,
                        remaining: (body.len() - len) as usize,
                    },
                ),
            )
        } else {
            None
        }
    }
}

/// The number of bytes a field value needs when fields are at least 16 bits.
pub open spec fn rvad_size(v: u64) -> nat {
    if v <= 0xFFFF {
        2
    } else if v <= 0xFFFF_FFFF {
        4
    } else {
        8
    }
}

/// The bytes each of `fields` is written in: what the largest of them needs, and at least two,
/// so that every value is written whole.
pub open spec fn rvad_width(fields: Seq<u64>) -> nat
    decreases fields.len(),
{
    if fields.len() == 0 {
        2
    } else {
        let w = rvad_width(fields.drop_last());
        let s = rvad_size(fields.last());
        if s > w {
            s
        } else {
            w
        }
    }
}

/// The last `len` big-endian bytes of each value, one after another.
pub open spec fn spec_render_fields(fields: Seq<u64>, len: nat) -> Seq<u8>
    decreases fields.len(),
{
    if fields.len() == 0 {
        Seq::empty()
    } else {
        spec_render_fields(fields.drop_last(), len) + be_bytes(fields.last() as nat, len)
    }
}

/// The value of a direction flag.
pub open spec fn flag_bit(v: Volume, weight: nat) -> nat {
    if v.spec_flag() {
        weight
    } else {
        0
    }
}

/// The bytes of `RVAD`.
pub open spec fn rvad() -> Seq<u8> {
    seq![0x52u8, 0x56u8, 0x41u8, 0x44u8]
}

impl RelativeVolumeFrame {
    /// Whether `self` is what parsing `d` as the body of an `RVAD` frame gives. Fields past
    /// the right and left volumes are optional: the ones that are cut short are zero.
    pub open spec fn is_parse_of(self, d: Seq<u8>) -> bool {
        let flags = d[0];
        let f = spec_read_fields(d.skip(2), rvad_len(d[1]), 12);
        &&& rvad_error(d) is None
        &&& self.right.volume == spec_volume(f[0], flags & 0x1 != 0)
        &&& self.left.volume == spec_volume(f[1], flags & 0x2 != 0)
        &&& self.right.peak == spec_peak(f[2])
        &&& self.left.peak == spec_peak(f[3])
        &&& self.right_back.volume == spec_volume(f[4], flags & 0x4 != 0)
        &&& self.left_back.volume == spec_volume(f[5], flags & 0x8 != 0)
        &&& self.right_back.peak == spec_peak(f[6])
        &&& self.left_back.peak == spec_peak(f[7])
        &&& self.center.volume == spec_volume(f[8], flags & 0x10 != 0)
        &&& self.center.peak == spec_peak(f[9])
        &&& self.bass.volume == spec_volume(f[10], flags & 0x20 != 0)
        &&& self.bass.peak == spec_peak(f[11])
    }

    /// Parses the body of an `RVAD` frame from the rest of `stream`.
    ///
    /// # Errors
    /// If the flags, the bit count or the right and left volumes are cut short, or the bit
    /// count is zero, an error is returned.
    pub fn parse(stream: &mut BufStream) -> (r: ParseResult<Self>)
        ensures
            match r {
                Ok(f) => f.is_parse_of(old(stream).rest()),
                Err(e) => rvad_error(old(stream).rest()) == Some(e),
            },
    {
        let ghost d = stream.rest();
        let flags = match stream.read_u8() {
            Ok(b) => b,
            Err(e) => return Err(ParseError::IoError(e)),
        };
        let bits = match stream.read_u8() {
            Ok(b) => b,
            Err(e) => return Err(ParseError::IoError(e)),
        };
        proof {
            assert(d.drop_first().drop_first() =~= d.skip(2));
        }
        if bits == 0 {
            // Fields must have at least 1 bit.
            return Err(ParseError::MalformedData);
        }
        let ghost body = stream.rest();
        let n = (bits as usize + 7) / 8;
        let len = if n < 8 {
            n
        } else {
            8
        };
        // Left/Right volume fields. These are mandatory.
        let right_volume = match Volume::parse(len, flags & 0x1 != 0, stream) {
            Ok(v) => v,
            Err(e) => return Err(e),
        };
        let left_volume = match Volume::parse(len, flags & 0x2 != 0, stream) {
            Ok(v) => v,
            Err(e) => {
                proof {
                    assert(body.skip(len as int).len() == body.len() - len);
                }
                return Err(e);
            },
        };
        proof {
            lemma_read_fields_step(body, len as nat, 11);
            lemma_read_fields_step(body.skip(len as int), len as nat, 10);
            assert(body.skip(len as int).skip(len as int) =~= stream.rest());
        }
        // The rest of the fields are optional, so if they are not present they are zero.
        let ghost tail = stream.rest();
        let mut fields: Vec<Option<u64>> = Vec::new();
        let mut i: usize = 0;
        while i < 10
            invariant
                1 <= len <= 8,
                i <= 10,
                fields@.len() == i,
                fields@ + spec_read_fields(stream.rest(), len as nat, (10 - i) as nat)
                    == spec_read_fields(tail, len as nat, 10),
            decreases 10 - i,
        {
            proof {
                lemma_read_fields_step(stream.rest(), len as nat, (9 - i) as nat);
            }
            let ghost old_fields = fields@;
            let f = read_field(len, stream);
            fields.push(f);
            proof {
                assert(old_fields.push(f) + spec_read_fields(stream.rest(), len as nat, (9 - i) as nat)
                    =~= old_fields + (seq![f] + spec_read_fields(
                    stream.rest(),
                    len as nat,
                    (9 - i) as nat,
                )));
            }
            i = i + 1;
        }
        let ghost all = spec_read_fields(body, len as nat, 12);
        proof {
            assert(fields@ + spec_read_fields(stream.rest(), len as nat, 0) =~= fields@);
            assert(all =~= seq![Some(right_volume.spec_inner()), Some(left_volume.spec_inner())]
                + fields@);
        }
        let frame = Self {
            right: VolumeAdjustment { volume: right_volume, peak: peak_of(fields[0]) },
            left: VolumeAdjustment { volume: left_volume, peak: peak_of(fields[1]) },
            right_back: VolumeAdjustment {
                volume: volume_of(fields[2], flags & 0x4 != 0),
                peak: peak_of(fields[4]),
            },
            left_back: VolumeAdjustment {
                volume: volume_of(fields[3], flags & 0x8 != 0),
                peak: peak_of(fields[5]),
            },
            center: VolumeAdjustment {
                volume: volume_of(fields[6], flags & 0x10 != 0),
                peak: peak_of(fields[7]),
            },
            bass: VolumeAdjustment {
                volume: volume_of(fields[8], flags & 0x20 != 0),
                peak: peak_of(fields[9]),
            },
        };
        Ok(frame)
    }

    /// The twelve fields of this frame in the order they are written.
    pub open spec fn spec_fields(&self) -> Seq<u64> {
        seq![
            self.right.volume.spec_inner(),
            self.left.volume.spec_inner(),
            self.right.peak,
            self.left.peak,
            self.right_back.volume.spec_inner(),
            self.left_back.volume.spec_inner(),
            self.right_back.peak,
            self.left_back.peak,
            self.center.volume.spec_inner(),
            self.center.peak,
            self.bass.volume.spec_inner(),
            self.bass.peak,
        ]
    }

    /// The direction flags of this frame.
    pub open spec fn spec_flags(&self) -> nat {
        flag_bit(self.right.volume, 0x1) + flag_bit(self.left.volume, 0x2) + flag_bit(
            self.right_back.volume,
            0x4,
        ) + flag_bit(self.left_back.volume, 0x8) + flag_bit(self.center.volume, 0x10) + flag_bit(
            self.bass.volume,
            0x20,
        )
    }

    /// The body of this frame: the direction flags, the field size in bits, and all twelve
    /// fields. All fields share one size, the smallest of 16, 32 and 64 bits that holds the
    /// largest of them, so no value is cut.
    pub open spec fn spec_render(&self) -> Seq<u8> {
        let len = rvad_width(self.spec_fields());
        seq![self.spec_flags() as u8, (len * 8) as u8] + spec_render_fields(self.spec_fields(), len)
    }

    /// The right and left volumes of this frame, as `nR, nL`.
    pub fn display(&self) -> (r: String)
        ensures
            r@ == spec_volume_display(self.right.volume) + "R, "@ + spec_volume_display(
                self.left.volume,
            ) + "L"@,
    {
        let mut s = self.right.volume.display();
        s.append("R, ");
        let left = self.left.volume.display();
        s.append(left.as_str());
        s.append("L");
        s
    }
}

// ---- Reading back what is written ----

/// Every field fits in the size that [`rvad_width`](rvad_width) gives, which is 2, 4 or 8.
proof fn lemma_rvad_width(fields: Seq<u64>)
    ensures
        rvad_width(fields) == 2 || rvad_width(fields) == 4 || rvad_width(fields) == 8,
        forall|i: int| 0 <= i < fields.len() ==> (#[trigger] fields[i]) < pow256(rvad_width(fields)),
    decreases fields.len(),
{
    crate::io::lemma_pow256_values();
    if fields.len() > 0 {
        let init = fields.drop_last();
        lemma_rvad_width(init);
        crate::io::lemma_pow256_monotone(rvad_width(init), rvad_width(fields));
        crate::io::lemma_pow256_monotone(rvad_size(fields.last()), rvad_width(fields));
        assert forall|i: int| 0 <= i < fields.len() implies (#[trigger] fields[i]) < pow256(
            rvad_width(fields),
        ) by {
            if i < fields.len() - 1 {
                assert(fields[i] == init[i]);
            }
        }
    }
}

/// The fields written one after another take `len` bytes each, in their order.
proof fn lemma_render_fields_layout(fields: Seq<u64>, len: nat)
    ensures
        spec_render_fields(fields, len).len() == fields.len() * len,
        forall|i: int|
            0 <= i < fields.len() ==> #[trigger] spec_render_fields(fields, len).subrange(
                i * len,
                i * len + len,
            ) == be_bytes(fields[i] as nat, len),
    decreases fields.len(),
{
    if fields.len() > 0 {
        let init = fields.drop_last();
        let n = fields.len();
        lemma_render_fields_layout(init, len);
        crate::io::lemma_be_bytes_value(fields.last() as nat, len);
        let p = spec_render_fields(init, len);
        let d = spec_render_fields(fields, len);
        assert(n * len == (n - 1) * len + len) by (nonlinear_arith);
        assert forall|i: int| 0 <= i < n implies #[trigger] d.subrange(i * len, i * len + len)
            == be_bytes(fields[i] as nat, len) by {
            if i < n - 1 {
                assert(i * len + len <= (n - 1) * len) by (nonlinear_arith)
                    requires
                        i < n - 1,
                        0 <= i,
                ;
                assert(0 <= i * len) by (nonlinear_arith)
                    requires
                        0 <= i,
                ;
                assert(d.subrange(i * len, i * len + len) =~= p.subrange(i * len, i * len + len));
                assert(fields[i] == init[i]);
            } else {
                assert(i * len == (n - 1) * len);
                assert(d.subrange(i * len, i * len + len) =~= be_bytes(fields.last() as nat, len));
            }
        }
    }
}

/// The `i`-th of `count` fields of `len` bytes read from `d` is the value of its bytes, when
/// they are all there.
proof fn lemma_read_fields_at(d: Seq<u8>, len: nat, count: nat, i: int)
    requires
        0 <= i < count,
        0 < len,
        i * len + len <= d.len(),
    ensures
        spec_read_fields(d, len, count).len() == count,
        spec_read_fields(d, len, count)[i] == Some(
            be_value(d.subrange(i * len, i * len + len)) as u64,
        ),
    decreases count,
{
    assert(0 <= i * len) by (nonlinear_arith)
        requires
            0 <= i,
    ;
    lemma_read_fields_len(d.skip(len as int), len, (count - 1) as nat);
    if i == 0 {
        assert(d.take(len as int) =~= d.subrange(0, len as int));
    } else {
        assert((i - 1) * len + len == i * len) by (nonlinear_arith);
        lemma_read_fields_at(d.skip(len as int), len, (count - 1) as nat, i - 1);
        assert(d.skip(len as int).subrange((i - 1) * len, (i - 1) * len + len) =~= d.subrange(
            i * len,
            i * len + len,
        ));
    }
}

/// Reading `count` fields gives `count` of them, present or missing.
proof fn lemma_read_fields_len(d: Seq<u8>, len: nat, count: nat)
    ensures
        spec_read_fields(d, len, count).len() == count,
    decreases count,
{
    if count > 0 && len <= d.len() {
        lemma_read_fields_len(d.skip(len as int), len, (count - 1) as nat);
    }
}

/// The direction flags are read back from their sum.
proof fn lemma_flag_bits(x: u8, a: bool, b: bool, c: bool, d: bool, e: bool, g: bool)
    by (bit_vector)
    requires
        x == (if a { 1u8 } else { 0u8 }) + (if b { 2u8 } else { 0u8 }) + (if c { 4u8 } else { 0u8 })
            + (if d { 8u8 } else { 0u8 }) + (if e { 16u8 } else { 0u8 }) + (if g { 32u8 } else { 0u8 }),
    ensures
        (x & 0x1 != 0) == a,
        (x & 0x2 != 0) == b,
        (x & 0x4 != 0) == c,
        (x & 0x8 != 0) == d,
        (x & 0x10 != 0) == e,
        (x & 0x20 != 0) == g,
{
}

/// No information is lost: parsing the body that a relative volume frame renders gives every
/// volume, direction and peak of the frame back.
pub proof fn lemma_rvad_round_trip(f: RelativeVolumeFrame)
    ensures
        f.is_parse_of(f.spec_render()),
{
    let fields = f.spec_fields();
    let len = rvad_width(fields);
    let d = f.spec_render();
    let body = spec_render_fields(fields, len);
    lemma_rvad_width(fields);
    lemma_render_fields_layout(fields, len);
    assert(d.skip(2) =~= body);
    assert(rvad_len(d[1]) == len);
    assert(body.len() == 12 * len);
    assert(rvad_error(d) is None);
    let read = spec_read_fields(body, len, 12);
    assert forall|i: int| 0 <= i < 12 implies #[trigger] read[i] == Some(fields[i]) by {
        assert(i * len + len <= 12 * len) by (nonlinear_arith)
            requires
                i < 12,
        ;
        lemma_read_fields_at(body, len, 12, i);
        crate::io::lemma_be_bytes_value(fields[i] as nat, len);
        assert(body.subrange(i * len, i * len + len) == be_bytes(fields[i] as nat, len));
        assert(fields[i] < pow256(len));
        vstd::arithmetic::div_mod::lemma_small_mod(fields[i] as nat, pow256(len));
    }
    assert(read[0] == Some(fields[0]));
    assert(read[1] == Some(fields[1]));
    assert(read[2] == Some(fields[2]));
    assert(read[3] == Some(fields[3]));
    assert(read[4] == Some(fields[4]));
    assert(read[5] == Some(fields[5]));
    assert(read[6] == Some(fields[6]));
    assert(read[7] == Some(fields[7]));
    assert(read[8] == Some(fields[8]));
    assert(read[9] == Some(fields[9]));
    assert(read[10] == Some(fields[10]));
    assert(read[11] == Some(fields[11]));
    lemma_flag_bits(
        d[0],
        f.right.volume.spec_flag(),
        f.left.volume.spec_flag(),
        f.right_back.volume.spec_flag(),
        f.left_back.volume.spec_flag(),
        f.center.volume.spec_flag(),
        f.bass.volume.spec_flag(),
    );
}

fn flag_value(v: &Volume, weight: u8) -> (r: u8)
    ensures
        r == flag_bit(*v, weight as nat),
{
    if v.as_flag() {
        weight
    } else {
        0
    }
}

impl Frame for RelativeVolumeFrame {
    fn id(&self) -> (r: FrameId)
        ensures
            r.spec_bytes() == rvad(),
    {
        known_id(0x52, 0x56, 0x41, 0x44)
    }

    fn key(&self) -> (r: String)
        ensures
            r@ == ascii_chars(rvad()),
    {
        String::from_str(self.id().as_str())
    }

    fn is_empty(&self) -> (r: bool)
        ensures
            !r,
    {
        // Frame is never empty
        false
    }

    fn render(&self, tag_header: &TagHeader) -> (r: Vec<u8>)
        ensures
            r@ == self.spec_render(),
    {
        // Set the increment/decrement flags.
        let flags: u8 = flag_value(&self.right.volume, 0x1) + flag_value(&self.left.volume, 0x2)
            + flag_value(&self.right_back.volume, 0x4) + flag_value(&self.left_back.volume, 0x8)
            + flag_value(&self.center.volume, 0x10) + flag_value(&self.bass.volume, 0x20);
        // Get the fields in order. They are all rendered for simplicity.
        let fields: [u64; 12] = [
            self.right.volume.inner(),
            self.left.volume.inner(),
            self.right.peak,
            self.left.peak,
            self.right_back.volume.inner(),
            self.left_back.volume.inner(),
            self.right_back.peak,
            self.left_back.peak,
            self.center.volume.inner(),
            self.center.peak,
            self.bass.volume.inner(),
            self.bass.peak,
        ];
        proof {
            assert(fields@ =~= self.spec_fields());
        }
        // All fields share one length: the smallest that holds the largest field, and at
        // least 16 bits.
        let mut len: usize = 2;
        let mut i: usize = 0;
        while i < 12
            invariant
                i <= 12,
                fields@ == self.spec_fields(),
                len == rvad_width(fields@.take(i as int)),
                len == 2 || len == 4 || len == 8,
            decreases 12 - i,
        {
            let field = fields[i];
            let size: usize = if field <= 0xFFFF {
                2
            } else if field <= 0xFFFF_FFFF {
                4
            } else {
                8
            };
            if size > len {
                len = size;
            }
            proof {
                assert(fields@.take(i + 1).drop_last() =~= fields@.take(i as int));
            }
            i = i + 1;
        }
        proof {
            assert(fields@.take(12) =~= fields@);
        }
        // Now that the length has been decided, the fields are rendered.
        let mut result: Vec<u8> = Vec::new();
        result.push(flags);
        result.push((len * 8) as u8);
        let mut j: usize = 0;
        while j < 12
            invariant
                j <= 12,
                len == rvad_width(self.spec_fields()),
                len == 2 || len == 4 || len == 8,
                fields@ == self.spec_fields(),
                result@ == seq![flags, (len * 8) as u8] + spec_render_fields(
                    fields@.take(j as int),
                    len as nat,
                ),
            decreases 12 - j,
        {
            let mut bytes = crate::io::be_bytes_of(fields[j], len);
            result.append(&mut bytes);
            proof {
                assert(fields@.take(j + 1).drop_last() =~= fields@.take(j as int));
            }
            j = j + 1;
        }
        proof {
            assert(fields@.take(12) =~= fields@);
        }
        result
    }
}

// ---- Equalization ----

/// The bytes of `EQUA`.
pub open spec fn equa() -> Seq<u8> {
    seq![0x45u8, 0x51u8, 0x55u8, 0x41u8]
}

/// Whether frequencies, which are `u16` keys, are ordered as a `BTreeMap` requires.
pub open spec fn frequencies_ordered() -> bool {
    vstd::laws_cmp::obeys_cmp::<u16>()
}

/// Frequencies are ordered as a `BTreeMap` requires.
proof fn lemma_frequencies_ordered()
    ensures
        frequencies_ordered(),
{
    broadcast use vstd::laws_cmp::group_laws_cmp;

}

/// The adjustment points read from `d`, with volumes of `len` bytes, added to `m`. Each point is
/// a 16-bit frequency whose top bit is the direction of its volume, then the volume. A
/// frequency read again keeps its first volume, though the second one is read.
pub open spec fn spec_equa_points(d: Seq<u8>, len: nat, m: Map<u16, Volume>) -> ParseResult<Map<u16, Volume>>
    decreases d.len(),
{
    if d.len() == 0 {
        Ok(m)
    } else if d.len() < 2 {
        Err(ParseError::IoError(StreamError::BufferUnderread { len: 2, remaining: d.len() as usize }))
    } else {
        let raw = be_value(d.take(2)) as u16;
        let f = raw & 0x7FFF;
        let rest = d.skip(2);
        if rest.len() < len {
            Err(
                ParseError::IoError(
                    StreamError::BufferUnderread { len: len as usize, remaining: rest.len() as usize },
                ),
            )
        } else {
            let v = spec_volume(first_field(rest, len), raw & 0x8000 != 0);
            spec_equa_points(
                rest.skip(len as int),
                len,
                if m.contains_key(f) {
                    m
                } else {
                    m.insert(f, v)
                },
            )
        }
    }
}

/// What parsing `d` as the body of an `EQUA` frame gives: the number of bits of each volume,
/// which must not be zero, then the adjustment points.
pub open spec fn spec_parse_equa(d: Seq<u8>) -> ParseResult<Map<u16, Volume>> {
    if d.len() == 0 {
        Err(ParseError::IoError(StreamError::EndOfStream))
    } else if d[0] == 0 {
        Err(ParseError::MalformedData)
    } else {
        spec_equa_points(d.drop_first(), rvad_len(d[0]), Map::empty())
    }
}

/// The number of bytes an `EQUA` volume of magnitude `v` is written in.
pub open spec fn equa_size(v: u64) -> nat {
    if v <= 0xFF {
        1
    } else if v <= 0xFFFF {
        2
    } else if v <= 0xFFFF_FFFF {
        4
    } else {
        8
    }
}

/// The bytes the volumes of `m` at frequencies below `n` need: what the largest of them needs,
/// or zero when there is none.
pub open spec fn equa_width(m: Map<u16, Volume>, n: nat) -> nat
    decreases n,
{
    if n == 0 {
        0
    } else {
        let w = equa_width(m, (n - 1) as nat);
        let f = (n - 1) as u16;
        if m.contains_key(f) && equa_size(m[f].spec_inner()) > w {
            equa_size(m[f].spec_inner())
        } else {
            w
        }
    }
}

/// The number of bytes every volume of `m` is written in: the smallest of 8, 16, 32 and 64 bits
/// that holds the largest of them, so no volume is cut.
pub open spec fn equa_len(m: Map<u16, Volume>) -> nat {
    equa_width(m, 0x10000)
}

/// An adjustment point: the frequency, at most 32767, with the direction of the volume in its
/// top bit, then the last `len` bytes of the volume.
pub open spec fn equa_point(f: u16, v: Volume, len: nat) -> Seq<u8> {
    let word = (if f < 32767 { f } else { 32767u16 }) as nat + (if v.spec_flag() { 0x8000nat } else { 0nat });
    be_bytes(word, 2) + be_bytes(v.spec_inner() as nat, len)
}

/// The adjustment points of `m` below frequency `n`, in the order of their frequencies.
pub open spec fn equa_points(m: Map<u16, Volume>, n: nat, len: nat) -> Seq<u8>
    decreases n,
{
    if n == 0 {
        Seq::empty()
    } else {
        let f = (n - 1) as u16;
        equa_points(m, (n - 1) as nat, len) + if m.contains_key(f) {
            equa_point(f, m[f], len)
        } else {
            Seq::empty()
        }
    }
}

/// An equalization frame: volume adjustments at frequencies from 0 to 32767 Hz.
#[derive(Debug, Clone)]
pub struct EqualizationFrame {
    /// The adjustments, by frequency.
    pub adjustments: BTreeMap<u16, Volume>,
}

impl Default for EqualizationFrame {
    fn default() -> (r: Self)
        ensures
            r.adjustments@ == Map::<u16, Volume>::empty(),
    {
        EqualizationFrame { adjustments: BTreeMap::new() }
    }
}

impl EqualizationFrame {
    /// The body of this frame.
    pub open spec fn spec_render(&self) -> Seq<u8> {
        let len = equa_len(self.adjustments@);
        seq![(len * 8) as u8] + equa_points(self.adjustments@, 0x10000, len)
    }

    /// Parses the body of an `EQUA` frame from the rest of `stream`.
    ///
    /// # Errors
    /// If the bit count is missing or zero, or an adjustment point is cut short, an error is
    /// returned.
    pub fn parse(stream: &mut BufStream) -> (r: ParseResult<Self>)
        ensures
            match r {
                Ok(f) => spec_parse_equa(old(stream).rest()) == Ok::<Map<u16, Volume>, ParseError>(f.adjustments@),
                Err(e) => spec_parse_equa(old(stream).rest()) == Err::<Map<u16, Volume>, ParseError>(e),
            },
    {
        let ghost d = stream.rest();
        let bits = match stream.read_u8() {
            Ok(b) => b,
            Err(e) => return Err(ParseError::IoError(e)),
        };
        // Bits cannot be zero.
        if bits == 0 {
            return Err(ParseError::MalformedData);
        }
        let n = (bits as usize + 7) / 8;
        let len = if n < 8 {
            n
        } else {
            8
        };
        proof {
            lemma_frequencies_ordered();
        }
        let mut adjustments: BTreeMap<u16, Volume> = BTreeMap::new();
        while !stream.is_empty()
            invariant
                len <= 8,
                len as nat == rvad_len(bits),
                d == old(stream).rest(),
                d.len() >= 1,
                bits == d[0],
                bits != 0,
                frequencies_ordered(),
                spec_equa_points(stream.rest(), len as nat, adjustments@) == spec_equa_points(
                    d.drop_first(),
                    len as nat,
                    Map::empty(),
                ),
            decreases stream.rest().len(),
        {
            broadcast use vstd::std_specs::btree::group_btree_axioms;

            let ghost rest = stream.rest();
            let raw = match stream.read_be_u16() {
                Ok(v) => v,
                Err(e) => return Err(ParseError::IoError(e)),
            };
            proof {
                crate::io::lemma_be_value_bound(rest.take(2));
                crate::io::lemma_pow256_values();
                assert(be_value(rest.take(2)) as u16 == raw);
            }
            // The top bit of the frequency is the increment/decrement flag of the volume.
            let increment = raw & 0x8000 != 0;
            let frequency = raw & 0x7FFF;
            let volume = match Volume::parse(len, increment, stream) {
                Ok(v) => v,
                Err(e) => return Err(e),
            };
            let known = match adjustments.get(&frequency) {
                Some(_) => true,
                None => false,
            };
            if !known {
                adjustments.insert(frequency, volume);
            }
        }
        Ok(EqualizationFrame { adjustments })
    }
}

/// The frequencies of `m` below `n`, in decimal, in order.
pub open spec fn frequency_names(m: Map<u16, Volume>, n: nat) -> Seq<Seq<char>>
    decreases n,
{
    if n == 0 {
        Seq::empty()
    } else {
        let f = (n - 1) as u16;
        frequency_names(m, (n - 1) as nat) + if m.contains_key(f) {
            seq![spec_decimal(f as nat)]
        } else {
            Seq::empty()
        }
    }
}

/// The number of bytes every volume of `m` is written in.
fn equa_len_of(m: &BTreeMap<u16, Volume>) -> (r: usize)
    requires
        frequencies_ordered(),
    ensures
        r as nat == equa_len(m@),
        r <= 8,
{
    broadcast use vstd::std_specs::btree::group_btree_axioms;

    let mut len: usize = 0;
    let mut k: u32 = 0;
    while k < 0x10000
        invariant
            k <= 0x10000,
            frequencies_ordered(),
            len as nat == equa_width(m@, k as nat),
            len <= 8,
        decreases 0x10000 - k,
    {
        let f = k as u16;
        match m.get(&f) {
            Some(v) => {
                let inner = v.inner();
                let size: usize = if inner <= 0xFF {
                    1
                } else if inner <= 0xFFFF {
                    2
                } else if inner <= 0xFFFF_FFFF {
                    4
                } else {
                    8
                };
                if size > len {
                    len = size;
                }
            },
            None => {},
        }
        k = k + 1;
    }
    len
}

impl EqualizationFrame {
    /// The frequencies of this frame in decimal, in order, joined with `, `.
    pub fn display(&self) -> (r: String)
        ensures
            r@ == crate::id3v2::frames::text::spec_join(frequency_names(self.adjustments@, 0x10000)),
    {
        broadcast use vstd::std_specs::btree::group_btree_axioms;

        proof {
            lemma_frequencies_ordered();
        }
        let mut names: Vec<String> = Vec::new();
        let mut k: u32 = 0;
        while k < 0x10000
            invariant
                k <= 0x10000,
                frequencies_ordered(),
                crate::id3v2::frames::strings_view(names@) == frequency_names(self.adjustments@, k as nat),
            decreases 0x10000 - k,
        {
            let f = k as u16;
            let ghost before = names@;
            match self.adjustments.get(&f) {
                Some(_) => names.push(decimal(f as u64)),
                None => {},
            }
            proof {
                assert(crate::id3v2::frames::strings_view(names@) =~= frequency_names(self.adjustments@, (k + 1) as nat));
            }
            k = k + 1;
        }
        crate::id3v2::frames::text::join_strings(names.as_slice())
    }
}

impl Frame for EqualizationFrame {
    fn id(&self) -> (r: FrameId)
        ensures
            r.spec_bytes() == equa(),
    {
        known_id(0x45, 0x51, 0x55, 0x41)
    }

    fn key(&self) -> (r: String)
        ensures
            r@ == ascii_chars(equa()),
    {
        String::from_str(self.id().as_str())
    }

    fn is_empty(&self) -> (r: bool)
        ensures
            r == self.adjustments@.is_empty(),
    {
        self.adjustments.is_empty()
    }

    fn render(&self, tag_header: &TagHeader) -> (r: Vec<u8>)
        ensures
            r@ == self.spec_render(),
    {
        broadcast use vstd::std_specs::btree::group_btree_axioms;

        proof {
            lemma_frequencies_ordered();
        }
        // All volumes share one length, the smallest that holds the largest of them.
        let len: usize = equa_len_of(&self.adjustments);
        let mut result: Vec<u8> = Vec::new();
        result.push((len * 8) as u8);
        let mut k: u32 = 0;
        while k < 0x10000
            invariant
                k <= 0x10000,
                len <= 8,
                len as nat == equa_len(self.adjustments@),
                frequencies_ordered(),
                result@ == seq![(len * 8) as u8] + equa_points(self.adjustments@, k as nat, len as nat),
            decreases 0x10000 - k,
        {
            let f = k as u16;
            let ghost before = result@;
            match self.adjustments.get(&f) {
                Some(v) => {
                    // Frequencies are clamped to 15 bits; the top bit is the direction.
                    let clamped: u16 = if f < 32767 {
                        f
                    } else {
                        32767
                    };
                    let word: u16 = clamped + if v.as_flag() {
                        0x8000u16
                    } else {
                        0u16
                    };
                    let mut head = crate::io::be_bytes_of(word as u64, 2);
                    let mut bytes = crate::io::be_bytes_of(v.inner(), len);
                    result.append(&mut head);
                    result.append(&mut bytes);
                },
                None => {},
            }
            proof {
                assert(result@ =~= seq![(len * 8) as u8] + equa_points(self.adjustments@, (k + 1) as nat, len as nat));
            }
            k = k + 1;
        }
        result
    }
}

// ---- Reading back what is written, for equalization ----

/// The adjustments of `m` at frequencies below `n`.
pub open spec fn frequencies_below(m: Map<u16, Volume>, n: nat) -> Map<u16, Volume> {
    Map::new(|k: u16| m.contains_key(k) && (k as nat) < n, |k: u16| m[k])
}

/// The width of the volumes below `n` is 0, 1, 2, 4 or 8 bytes, and at least what each of them
/// needs.
proof fn lemma_equa_width(m: Map<u16, Volume>, n: nat)
    ensures
        equa_width(m, n) == 0 || equa_width(m, n) == 1 || equa_width(m, n) == 2 || equa_width(m, n)
            == 4 || equa_width(m, n) == 8,
        forall|k: u16|
            (k as nat) < n && #[trigger] m.contains_key(k) ==> equa_size(m[k].spec_inner())
                <= equa_width(m, n),
    decreases n,
{
    if n > 0 {
        lemma_equa_width(m, (n - 1) as nat);
    }
}

/// A volume fits in the bytes it is written in.
proof fn lemma_equa_size(v: u64)
    ensures
        v < pow256(equa_size(v)),
        1 <= equa_size(v) <= 8,
{
    crate::io::lemma_pow256_values();
}

/// Adjustment points with no frequency from `0x8000` on are those below `0x8000`.
proof fn lemma_equa_points_top(m: Map<u16, Volume>, n: nat, len: nat)
    requires
        0x8000 <= n <= 0x10000,
        forall|k: u16| #[trigger] m.contains_key(k) ==> k <= 0x7FFF,
    ensures
        equa_points(m, n, len) == equa_points(m, 0x8000, len),
    decreases n,
{
    if n > 0x8000 {
        lemma_equa_points_top(m, (n - 1) as nat, len);
        assert(!m.contains_key((n - 1) as u16));
        assert(equa_points(m, n, len) =~= equa_points(m, (n - 1) as nat, len));
    }
}

/// The frequency word of a point gives back its frequency and direction.
proof fn lemma_frequency_word(f: u16, flag: bool, raw: u16)
    by (bit_vector)
    requires
        f <= 0x7FFF,
        raw == f + (if flag { 0x8000u16 } else { 0u16 }),
    ensures
        raw & 0x7FFF == f,
        (raw & 0x8000 != 0) == flag,
{
}

/// Reading the points of `m` below `n`, then `rest`, reads the adjustments of `m` below `n`
/// and goes on with `rest`.
proof fn lemma_equa_points_read(m: Map<u16, Volume>, n: nat, len: nat, rest: Seq<u8>)
    requires
        n <= 0x8000,
        1 <= len <= 8,
        forall|k: u16| #[trigger] m.contains_key(k) ==> m[k].spec_inner() < pow256(len),
    ensures
        spec_equa_points(equa_points(m, n, len) + rest, len, Map::empty()) == spec_equa_points(
            rest,
            len,
            frequencies_below(m, n),
        ),
    decreases n,
{
    if n == 0 {
        assert(equa_points(m, 0, len) + rest =~= rest);
        assert(frequencies_below(m, 0) =~= Map::<u16, Volume>::empty());
    } else {
        let f = (n - 1) as u16;
        let x = if m.contains_key(f) {
            equa_point(f, m[f], len)
        } else {
            Seq::empty()
        };
        assert(equa_points(m, n, len) + rest =~= equa_points(m, (n - 1) as nat, len) + (x + rest));
        lemma_equa_points_read(m, (n - 1) as nat, len, x + rest);
        let below = frequencies_below(m, (n - 1) as nat);
        if m.contains_key(f) {
            let v = m[f];
            let flag = v.spec_flag();
            let word = (f as nat) + (if flag { 0x8000nat } else { 0nat });
            let d = x + rest;
            crate::io::lemma_be_bytes_value(word, 2);
            crate::io::lemma_be_bytes_value(v.spec_inner() as nat, len);
            crate::io::lemma_pow256_values();
            assert(x =~= be_bytes(word, 2) + be_bytes(v.spec_inner() as nat, len));
            assert(d.take(2) =~= be_bytes(word, 2));
            vstd::arithmetic::div_mod::lemma_small_mod(word, 0x1_0000);
            let raw = be_value(d.take(2)) as u16;
            assert(raw == f + (if flag { 0x8000u16 } else { 0u16 }));
            lemma_frequency_word(f, flag, raw);
            let rest2 = d.skip(2);
            assert(rest2 =~= be_bytes(v.spec_inner() as nat, len) + rest);
            assert(rest2.take(len as int) =~= be_bytes(v.spec_inner() as nat, len));
            vstd::arithmetic::div_mod::lemma_small_mod(v.spec_inner() as nat, pow256(len));
            assert(first_field(rest2, len) == Some(v.spec_inner()));
            assert(spec_volume(first_field(rest2, len), flag) == v);
            assert(rest2.skip(len as int) =~= rest);
            assert(!below.contains_key(f));
            assert(below.insert(f, v) =~= frequencies_below(m, n));
        } else {
            assert(x + rest =~= rest);
            assert(below =~= frequencies_below(m, n));
        }
    }
}

/// No information is lost: parsing the body that an equalization frame renders gives its
/// adjustments back, when it has at least one and every frequency fits in 15 bits.
pub proof fn lemma_equa_round_trip(f: EqualizationFrame, k: u16)
    requires
        f.adjustments@.contains_key(k),
        forall|g: u16| #[trigger] f.adjustments@.contains_key(g) ==> g <= 0x7FFF,
    ensures
        spec_parse_equa(f.spec_render()) == Ok::<Map<u16, Volume>, ParseError>(f.adjustments@),
{
    let m = f.adjustments@;
    let len = equa_len(m);
    lemma_equa_width(m, 0x10000);
    lemma_equa_size(m[k].spec_inner());
    assert(len >= 1);
    assert forall|g: u16| #[trigger] m.contains_key(g) implies m[g].spec_inner() < pow256(len) by {
        lemma_equa_size(m[g].spec_inner());
        crate::io::lemma_pow256_monotone(equa_size(m[g].spec_inner()), len);
    }
    let d = f.spec_render();
    assert(d[0] == (len * 8) as u8);
    assert(rvad_len(d[0]) == len);
    lemma_equa_points_top(m, 0x10000, len);
    let points = equa_points(m, 0x8000, len);
    assert(d.drop_first() =~= points + Seq::<u8>::empty());
    lemma_equa_points_read(m, 0x8000, len, Seq::empty());
    assert(frequencies_below(m, 0x8000) =~= m);
}

} // verus!
