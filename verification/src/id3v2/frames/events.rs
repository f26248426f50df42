//! Frames for timed media events.
use crate::id3v2::frames::text::known_id;
use crate::id3v2::frames::{ascii_chars, Frame, FrameId, TimestampFormat};
use crate::id3v2::tag::TagHeader;
use crate::id3v2::{ParseError, ParseResult};
use crate::io::{be_bytes, be_value, BufStream, StreamError};
use crate::string::{decimal, spec_decimal};
use vstd::prelude::*;
use vstd::string::StringExecFns;

verus! {

// ---- EventTimingCodesFrame ----

/// The kind of an event in an event timing codes frame.
#[derive(Clone, Copy, Debug, Eq, PartialEq, Ord, PartialOrd, Structural)]
pub enum EventType {
    Padding,
    EndOfInitialSilence,
    IntroStart,
    MainPartStart,
    OutroStart,
    OutroEnd,
    VerseStart,
    RefrainStart,
    InterludeStart,
    ThemeStart,
    VariationStart,
    KeyChange,
    TimeChange,
    MomentaryUnwantedNoise,
    SustainedNoise,
    SustainedNoiseEnd,
    IntroEnd,
    MainPartEnd,
    VerseEnd,
    RefrainEnd,
    ThemeEnd,
    Profanity,
    ProfanityEnd,
    Sync0,
    Sync1,
    Sync2,
    Sync3,
    Sync4,
    Sync5,
    Sync6,
    Sync7,
    Sync8,
    Sync9,
    SyncA,
    SyncB,
    SyncC,
    SyncD,
    SyncE,
    SyncF,
    AudioEnd,
    AudioFileEnd,
}

impl EventType {
    /// The value that a byte names; unknown bytes are `Padding`.
    pub open spec fn spec_parse(byte: u8) -> Self {
        if byte == 0x00 {
            EventType::Padding
        } else if byte == 0x01 {
            EventType::EndOfInitialSilence
        } else if byte == 0x02 {
            EventType::IntroStart
        } else if byte == 0x03 {
            EventType::MainPartStart
        } else if byte == 0x04 {
            EventType::OutroStart
        } else if byte == 0x05 {
            EventType::OutroEnd
        } else if byte == 0x06 {
            EventType::VerseStart
        } else if byte == 0x07 {
            EventType::RefrainStart
        } else if byte == 0x08 {
            EventType::InterludeStart
        } else if byte == 0x09 {
            EventType::ThemeStart
        } else if byte == 0x0A {
            EventType::VariationStart
        } else if byte == 0x0B {
            EventType::KeyChange
        } else if byte == 0x0C {
            EventType::TimeChange
        } else if byte == 0x0D {
            EventType::MomentaryUnwantedNoise
        } else if byte == 0x0E {
            EventType::SustainedNoise
        } else if byte == 0x0F {
            EventType::SustainedNoiseEnd
        } else if byte == 0x10 {
            EventType::IntroEnd
        } else if byte == 0x11 {
            EventType::MainPartEnd
        } else if byte == 0x12 {
            EventType::VerseEnd
        } else if byte == 0x13 {
            EventType::RefrainEnd
        } else if byte == 0x14 {
            EventType::ThemeEnd
        } else if byte == 0x15 {
            EventType::Profanity
        } else if byte == 0x16 {
            EventType::ProfanityEnd
        } else if byte == 0xE0 {
            EventType::Sync0
        } else if byte == 0xE1 {
            EventType::Sync1
        } else if byte == 0xE2 {
            EventType::Sync2
        } else if byte == 0xE3 {
            EventType::Sync3
        } else if byte == 0xE4 {
            EventType::Sync4
        } else if byte == 0xE5 {
            EventType::Sync5
        } else if byte == 0xE6 {
            EventType::Sync6
        } else if byte == 0xE7 {
            EventType::Sync7
        } else if byte == 0xE8 {
            EventType::Sync8
        } else if byte == 0xE9 {
            EventType::Sync9
        } else if byte == 0xEA {
            EventType::SyncA
        } else if byte == 0xEB {
            EventType::SyncB
        } else if byte == 0xEC {
            EventType::SyncC
        } else if byte == 0xED {
            EventType::SyncD
        } else if byte == 0xEE {
            EventType::SyncE
        } else if byte == 0xEF {
            EventType::SyncF
        } else if byte == 0xFD {
            EventType::AudioEnd
        } else if byte == 0xFE {
            EventType::AudioFileEnd
        } else {
            EventType::Padding
        }
    }

    /// The byte this value is written as.
    pub open spec fn spec_byte(self) -> u8 {
        match self {
            EventType::Padding => 0x00,
            EventType::EndOfInitialSilence => 0x01,
            EventType::IntroStart => 0x02,
            EventType::MainPartStart => 0x03,
            EventType::OutroStart => 0x04,
            EventType::OutroEnd => 0x05,
            EventType::VerseStart => 0x06,
            EventType::RefrainStart => 0x07,
            EventType::InterludeStart => 0x08,
            EventType::ThemeStart => 0x09,
            EventType::VariationStart => 0x0A,
            EventType::KeyChange => 0x0B,
            EventType::TimeChange => 0x0C,
            EventType::MomentaryUnwantedNoise => 0x0D,
            EventType::SustainedNoise => 0x0E,
            EventType::SustainedNoiseEnd => 0x0F,
            EventType::IntroEnd => 0x10,
            EventType::MainPartEnd => 0x11,
            EventType::VerseEnd => 0x12,
            EventType::RefrainEnd => 0x13,
            EventType::ThemeEnd => 0x14,
            EventType::Profanity => 0x15,
            EventType::ProfanityEnd => 0x16,
            EventType::Sync0 => 0xE0,
            EventType::Sync1 => 0xE1,
            EventType::Sync2 => 0xE2,
            EventType::Sync3 => 0xE3,
            EventType::Sync4 => 0xE4,
            EventType::Sync5 => 0xE5,
            EventType::Sync6 => 0xE6,
            EventType::Sync7 => 0xE7,
            EventType::Sync8 => 0xE8,
            EventType::Sync9 => 0xE9,
            EventType::SyncA => 0xEA,
            EventType::SyncB => 0xEB,
            EventType::SyncC => 0xEC,
            EventType::SyncD => 0xED,
            EventType::SyncE => 0xEE,
            EventType::SyncF => 0xEF,
            EventType::AudioEnd => 0xFD,
            EventType::AudioFileEnd => 0xFE,
        }
    }

    /// Returns the value that `byte` names; unknown bytes are `Padding`.
    pub fn parse(byte: u8) -> (r: Self)
        ensures
            r == Self::spec_parse(byte),
    {
        match byte {
            0x00 => EventType::Padding,
            0x01 => EventType::EndOfInitialSilence,
            0x02 => EventType::IntroStart,
            0x03 => EventType::MainPartStart,
            0x04 => EventType::OutroStart,
            0x05 => EventType::OutroEnd,
            0x06 => EventType::VerseStart,
            0x07 => EventType::RefrainStart,
            0x08 => EventType::InterludeStart,
            0x09 => EventType::ThemeStart,
            0x0A => EventType::VariationStart,
            0x0B => EventType::KeyChange,
            0x0C => EventType::TimeChange,
            0x0D => EventType::MomentaryUnwantedNoise,
            0x0E => EventType::SustainedNoise,
            0x0F => EventType::SustainedNoiseEnd,
            0x10 => EventType::IntroEnd,
            0x11 => EventType::MainPartEnd,
            0x12 => EventType::VerseEnd,
            0x13 => EventType::RefrainEnd,
            0x14 => EventType::ThemeEnd,
            0x15 => EventType::Profanity,
            0x16 => EventType::ProfanityEnd,
            0xE0 => EventType::Sync0,
            0xE1 => EventType::Sync1,
            0xE2 => EventType::Sync2,
            0xE3 => EventType::Sync3,
            0xE4 => EventType::Sync4,
            0xE5 => EventType::Sync5,
            0xE6 => EventType::Sync6,
            0xE7 => EventType::Sync7,
            0xE8 => EventType::Sync8,
            0xE9 => EventType::Sync9,
            0xEA => EventType::SyncA,
            0xEB => EventType::SyncB,
            0xEC => EventType::SyncC,
            0xED => EventType::SyncD,
            0xEE => EventType::SyncE,
            0xEF => EventType::SyncF,
            0xFD => EventType::AudioEnd,
            0xFE => EventType::AudioFileEnd,
            _ => EventType::Padding,
        }
    }

    /// Returns the byte this value is written as.
    pub fn to_byte(self) -> (b: u8)
        ensures
            b == self.spec_byte(),
    {
        match self {
            EventType::Padding => 0x00,
            EventType::EndOfInitialSilence => 0x01,
            EventType::IntroStart => 0x02,
            EventType::MainPartStart => 0x03,
            EventType::OutroStart => 0x04,
            EventType::OutroEnd => 0x05,
            EventType::VerseStart => 0x06,
            EventType::RefrainStart => 0x07,
            EventType::InterludeStart => 0x08,
            EventType::ThemeStart => 0x09,
            EventType::VariationStart => 0x0A,
            EventType::KeyChange => 0x0B,
            EventType::TimeChange => 0x0C,
            EventType::MomentaryUnwantedNoise => 0x0D,
            EventType::SustainedNoise => 0x0E,
            EventType::SustainedNoiseEnd => 0x0F,
            EventType::IntroEnd => 0x10,
            EventType::MainPartEnd => 0x11,
            EventType::VerseEnd => 0x12,
            EventType::RefrainEnd => 0x13,
            EventType::ThemeEnd => 0x14,
            EventType::Profanity => 0x15,
            EventType::ProfanityEnd => 0x16,
            EventType::Sync0 => 0xE0,
            EventType::Sync1 => 0xE1,
            EventType::Sync2 => 0xE2,
            EventType::Sync3 => 0xE3,
            EventType::Sync4 => 0xE4,
            EventType::Sync5 => 0xE5,
            EventType::Sync6 => 0xE6,
            EventType::Sync7 => 0xE7,
            EventType::Sync8 => 0xE8,
            EventType::Sync9 => 0xE9,
            EventType::SyncA => 0xEA,
            EventType::SyncB => 0xEB,
            EventType::SyncC => 0xEC,
            EventType::SyncD => 0xED,
            EventType::SyncE => 0xEE,
            EventType::SyncF => 0xEF,
            EventType::AudioEnd => 0xFD,
            EventType::AudioFileEnd => 0xFE,
        }
    }
}

impl EventType {
    /// The name of this event type.
    pub open spec fn spec_name(self) -> Seq<char> {
        match self {
            EventType::Padding => "Padding"@,
            EventType::EndOfInitialSilence => "EndOfInitialSilence"@,
            EventType::IntroStart => "IntroStart"@,
            EventType::MainPartStart => "MainPartStart"@,
            EventType::OutroStart => "OutroStart"@,
            EventType::OutroEnd => "OutroEnd"@,
            EventType::VerseStart => "VerseStart"@,
            EventType::RefrainStart => "RefrainStart"@,
            EventType::InterludeStart => "InterludeStart"@,
            EventType::ThemeStart => "ThemeStart"@,
            EventType::VariationStart => "VariationStart"@,
            EventType::KeyChange => "KeyChange"@,
            EventType::TimeChange => "TimeChange"@,
            EventType::MomentaryUnwantedNoise => "MomentaryUnwantedNoise"@,
            EventType::SustainedNoise => "SustainedNoise"@,
            EventType::SustainedNoiseEnd => "SustainedNoiseEnd"@,
            EventType::IntroEnd => "IntroEnd"@,
            EventType::MainPartEnd => "MainPartEnd"@,
            EventType::VerseEnd => "VerseEnd"@,
            EventType::RefrainEnd => "RefrainEnd"@,
            EventType::ThemeEnd => "ThemeEnd"@,
            EventType::Profanity => "Profanity"@,
            EventType::ProfanityEnd => "ProfanityEnd"@,
            EventType::Sync0 => "Sync0"@,
            EventType::Sync1 => "Sync1"@,
            EventType::Sync2 => "Sync2"@,
            EventType::Sync3 => "Sync3"@,
            EventType::Sync4 => "Sync4"@,
            EventType::Sync5 => "Sync5"@,
            EventType::Sync6 => "Sync6"@,
            EventType::Sync7 => "Sync7"@,
            EventType::Sync8 => "Sync8"@,
            EventType::Sync9 => "Sync9"@,
            EventType::SyncA => "SyncA"@,
            EventType::SyncB => "SyncB"@,
            EventType::SyncC => "SyncC"@,
            EventType::SyncD => "SyncD"@,
            EventType::SyncE => "SyncE"@,
            EventType::SyncF => "SyncF"@,
            EventType::AudioEnd => "AudioEnd"@,
            EventType::AudioFileEnd => "AudioFileEnd"@,
        }
    }

    /// Returns the name of this event type.
    pub fn name(self) -> (r: &'static str)
        ensures
            r@ == self.spec_name(),
    {
        match self {
            EventType::Padding => "Padding",
            EventType::EndOfInitialSilence => "EndOfInitialSilence",
            EventType::IntroStart => "IntroStart",
            EventType::MainPartStart => "MainPartStart",
            EventType::OutroStart => "OutroStart",
            EventType::OutroEnd => "OutroEnd",
            EventType::VerseStart => "VerseStart",
            EventType::RefrainStart => "RefrainStart",
            EventType::InterludeStart => "InterludeStart",
            EventType::ThemeStart => "ThemeStart",
            EventType::VariationStart => "VariationStart",
            EventType::KeyChange => "KeyChange",
            EventType::TimeChange => "TimeChange",
            EventType::MomentaryUnwantedNoise => "MomentaryUnwantedNoise",
            EventType::SustainedNoise => "SustainedNoise",
            EventType::SustainedNoiseEnd => "SustainedNoiseEnd",
            EventType::IntroEnd => "IntroEnd",
            EventType::MainPartEnd => "MainPartEnd",
            EventType::VerseEnd => "VerseEnd",
            EventType::RefrainEnd => "RefrainEnd",
            EventType::ThemeEnd => "ThemeEnd",
            EventType::Profanity => "Profanity",
            EventType::ProfanityEnd => "ProfanityEnd",
            EventType::Sync0 => "Sync0",
            EventType::Sync1 => "Sync1",
            EventType::Sync2 => "Sync2",
            EventType::Sync3 => "Sync3",
            EventType::Sync4 => "Sync4",
            EventType::Sync5 => "Sync5",
            EventType::Sync6 => "Sync6",
            EventType::Sync7 => "Sync7",
            EventType::Sync8 => "Sync8",
            EventType::Sync9 => "Sync9",
            EventType::SyncA => "SyncA",
            EventType::SyncB => "SyncB",
            EventType::SyncC => "SyncC",
            EventType::SyncD => "SyncD",
            EventType::SyncE => "SyncE",
            EventType::SyncF => "SyncF",
            EventType::AudioEnd => "AudioEnd",
            EventType::AudioFileEnd => "AudioFileEnd",
        }
    }
}

impl Default for EventType {
    fn default() -> (r: Self)
        ensures
            r == EventType::Padding,
    {
        EventType::Padding
    }
}

/// An event and the time at which it occurs.
///
/// Events are ordered by their time first, then by their type.
#[derive(Debug, Eq, PartialEq, Clone, Copy, Ord, PartialOrd, Structural)]
pub struct Event {
    /// The time of the event, in the unit of the frame's timestamp format.
    pub time: u32,
    /// What happens.
    pub event_type: EventType,
}

impl Default for Event {
    fn default() -> (r: Self)
        ensures
            r.time == 0,
            r.event_type == EventType::Padding,
    {
        Event { time: 0, event_type: EventType::Padding }
    }
}

impl Event {
    /// The name of the type of this event.
    pub fn display(&self) -> (r: String)
        ensures
            r@ == self.event_type.spec_name(),
    {
        String::from_str(self.event_type.name())
    }
}

/// The events read from `d`: each a type byte and a big-endian 32-bit time.
pub open spec fn spec_parse_events(d: Seq<u8>) -> ParseResult<Seq<Event>>
    decreases d.len(),
{
    if d.len() == 0 {
        Ok(Seq::empty())
    } else if d.len() < 5 {
        Err(
            ParseError::IoError(
                StreamError::BufferUnderread { len: 4, remaining: (d.len() - 1) as usize },
            ),
        )
    } else {
        let event = Event {
            time: be_value(d.subrange(1, 5)) as u32,
            event_type: EventType::spec_parse(d[0]),
        };
        match spec_parse_events(d.skip(5)) {
            Ok(tail) => Ok(seq![event] + tail),
            Err(e) => Err(e),
        }
    }
}

/// The bytes of events: each its type byte and its time as a big-endian 32-bit number.
pub open spec fn spec_render_events(events: Seq<Event>) -> Seq<u8>
    decreases events.len(),
{
    if events.len() == 0 {
        Seq::empty()
    } else {
        spec_render_events(events.drop_last()) + seq![events.last().event_type.spec_byte()]
            + be_bytes(events.last().time as nat, 4)
    }
}

/// The error of parsing `d` as the body of an `ETCO` frame, or `None` when it parses.
pub open spec fn etco_error(d: Seq<u8>) -> Option<ParseError> {
    if d.len() == 0 {
        Some(ParseError::IoError(StreamError::EndOfStream))
    } else {
        match spec_parse_events(d.drop_first()) {
            Ok(_) => None,
            Err(e) => Some(e),
        }
    }
}

/// Key events of the audio and their times, the `ETCO` frame.
#[derive(Debug, Clone)]
pub struct EventTimingCodesFrame {
    /// The unit of the times of the events.
    pub format: TimestampFormat,
    /// The events.
    pub events: Vec<Event>,
}

impl Default for EventTimingCodesFrame {
    fn default() -> (r: Self)
        ensures
            r.format == TimestampFormat::Millis,
            r.events@.len() == 0,
    {
        Self { format: TimestampFormat::default(), events: Vec::new() }
    }
}

/// The bytes of `ETCO`.
pub open spec fn etco() -> Seq<u8> {
    seq![0x45u8, 0x54u8, 0x43u8, 0x4Fu8]
}

impl EventTimingCodesFrame {
    /// Whether `self` is what parsing `d` as the body of an `ETCO` frame gives.
    pub open spec fn is_parse_of(self, d: Seq<u8>) -> bool {
        &&& d.len() > 0
        &&& self.format == TimestampFormat::spec_parse(d[0])
        &&& spec_parse_events(d.drop_first()) == Ok::<Seq<Event>, ParseError>(self.events@)
    }

    /// Parses the body of an `ETCO` frame from the rest of `stream`.
    ///
    /// # Errors
    /// If the format byte is missing or an event is cut short, an error is returned.
    pub fn parse(stream: &mut BufStream) -> (r: ParseResult<Self>)
        ensures
            match r {
                Ok(f) => f.is_parse_of(old(stream).rest()),
                Err(e) => etco_error(old(stream).rest()) == Some(e),
            },
    {
        let format = match stream.read_u8() {
            Ok(b) => TimestampFormat::parse(b),
            Err(e) => return Err(ParseError::IoError(e)),
        };
        let ghost d = stream.rest();
        let mut events: Vec<Event> = Vec::new();
        while !stream.is_empty()
            invariant
                d == old(stream).rest().drop_first(),
                old(stream).rest().len() > 0,
                spec_parse_events(d) == match spec_parse_events(stream.rest()) {
                    Ok(t) => Ok(events@ + t),
                    Err(e) => Err::<Seq<Event>, ParseError>(e),
                },
            decreases stream.rest().len(),
        {
            let ghost before = stream.rest();
            let event_type = match stream.read_u8() {
                Ok(b) => EventType::parse(b),
                Err(e) => return Err(ParseError::IoError(e)),
            };
            let time = match stream.read_be_u32() {
                Ok(t) => t,
                Err(e) => {
                    proof {
                        assert(spec_parse_events(before) == Err::<Seq<Event>, ParseError>(
                            ParseError::IoError(e),
                        ));
                    }
                    return Err(ParseError::IoError(e));
                },
            };
            let ghost old_events = events@;
            events.push(Event { time, event_type });
            proof {
                assert(before.drop_first().take(4) =~= before.subrange(1, 5));
                assert(before.drop_first().skip(4) =~= before.skip(5));
                match spec_parse_events(stream.rest()) {
                    Ok(t) => {
                        assert(old_events.push(Event { time, event_type }) + t =~= old_events + (
                        seq![Event { time, event_type }] + t));
                    },
                    Err(_) => {},
                }
            }
        }
        proof {
            assert(events@ + Seq::<Event>::empty() =~= events@);
        }
        Ok(Self { format, events })
    }

    /// The body of this frame.
    pub open spec fn spec_render(&self) -> Seq<u8> {
        seq![self.format.spec_byte()] + spec_render_events(self.events@)
    }

    /// The names of the types of the events of this frame, joined with `, `.
    pub fn display(&self) -> (r: String)
        ensures
            r@ == spec_join_events(self.events@),
    {
        let mut s = String::new();
        let mut i: usize = 0;
        while i < self.events.len()
            invariant
                i <= self.events@.len(),
                s@ == spec_join_events(self.events@.take(i as int)),
            decreases self.events@.len() - i,
        {
            if i > 0 {
                s.append(", ");
            }
            s.append(self.events[i].event_type.name());
            proof {
                reveal_strlit(", ");
                assert(self.events@.take(i + 1).drop_last() =~= self.events@.take(i as int));
            }
            i = i + 1;
        }
        proof {
            assert(self.events@.take(i as int) =~= self.events@);
        }
        s
    }
}

/// The names of the types of events, joined with `, `.
pub open spec fn spec_join_events(events: Seq<Event>) -> Seq<char>
    decreases events.len(),
{
    if events.len() == 0 {
        Seq::empty()
    } else if events.len() == 1 {
        events[0].event_type.spec_name()
    } else {
        spec_join_events(events.drop_last()) + seq![',', ' '] + events.last().event_type.spec_name()
    }
}

impl Frame for EventTimingCodesFrame {
    fn id(&self) -> (r: FrameId)
        ensures
            r.spec_bytes() == etco(),
    {
        known_id(0x45, 0x54, 0x43, 0x4F)
    }

    fn key(&self) -> (r: String)
        ensures
            r@ == ascii_chars(etco()),
    {
        String::from_str(self.id().as_str())
    }

    fn is_empty(&self) -> (r: bool)
        ensures
            r == (self.events@.len() == 0),
    {
        self.events.len() == 0
    }

    fn render(&self, tag_header: &TagHeader) -> (r: Vec<u8>)
        ensures
            r@ == self.spec_render(),
    {
        let mut result: Vec<u8> = Vec::new();
        result.push(self.format.to_byte());
        // Technically events should be sorted by their time, but nobody seems to care about this.
        let mut i: usize = 0;
        while i < self.events.len()
            invariant
                i <= self.events@.len(),
                result@ == seq![self.format.spec_byte()] + spec_render_events(
                    self.events@.take(i as int),
                ),
            decreases self.events@.len() - i,
        {
            let event = self.events[i];
            result.push(event.event_type.to_byte());
            let mut time = crate::io::be_bytes_of(event.time as u64, 4);
            result.append(&mut time);
            proof {
                assert(self.events@.take(i + 1).drop_last() =~= self.events@.take(i as int));
            }
            i = i + 1;
        }
        proof {
            assert(self.events@.take(i as int) =~= self.events@);
        }
        result
    }
}

// ---- SyncedTempoCodesFrame ----

/// The representation of a BPM interval in [`SyncedTempoCodesFrame`](SyncedTempoCodesFrame).
///
/// While this value is held as a `u16`, the field is actually capped at 510 BPM, the sum of
/// two bytes. Any value above that is written as 510. A BPM of 0 indicates a beat-free
/// interval, while a BPM of 1 indicates a single beat followed by a beat-free interval.
#[derive(Clone, Copy, Debug, Eq, PartialEq, Ord, PartialOrd, Structural)]
pub struct Bpm(pub u16);

/// A tempo and the time from which it holds.
#[derive(Debug, Clone, Copy, Eq, PartialEq, Structural)]
pub struct Tempo {
    /// The tempo.
    pub bpm: Bpm,
    /// The time of the tempo change.
    pub time: u32,
}

/// The bytes of a tempo: the BPM, capped at 510, as one byte or as `0xFF` and the remainder,
/// then the time as a big-endian 32-bit number.
pub open spec fn spec_render_tempo(t: Tempo) -> Seq<u8> {
    let bpm = if t.bpm.0 < 510 {
        t.bpm.0
    } else {
        510u16
    };
    (if bpm >= 255 {
        seq![0xFFu8, (bpm - 255) as u8]
    } else {
        seq![bpm as u8]
    }) + be_bytes(t.time as nat, 4)
}

/// The tempos read from `d`: each a BPM, where a first byte of `0xFF` is added to the next
/// byte, then a big-endian 32-bit time.
pub open spec fn spec_parse_tempos(d: Seq<u8>) -> ParseResult<Seq<Tempo>>
    decreases d.len(),
{
    if d.len() == 0 {
        Ok(Seq::empty())
    } else {
        let wide = d[0] == 0xFF;
        let head: nat = if wide {
            2
        } else {
            1
        };
        if d.len() < head {
            Err(ParseError::IoError(StreamError::EndOfStream))
        } else {
            let bpm = if wide {
                (255 + d[1]) as u16
            } else {
                d[0] as u16
            };
            let rest = d.skip(head as int);
            if rest.len() < 4 {
                Err(
                    ParseError::IoError(
                        StreamError::BufferUnderread { len: 4, remaining: rest.len() as usize },
                    ),
                )
            } else {
                let tempo = Tempo { bpm: Bpm(bpm), time: be_value(rest.take(4)) as u32 };
                match spec_parse_tempos(rest.skip(4)) {
                    Ok(tail) => Ok(seq![tempo] + tail),
                    Err(e) => Err(e),
                }
            }
        }
    }
}

/// The bytes of tempos, one after another.
pub open spec fn spec_render_tempos(tempos: Seq<Tempo>) -> Seq<u8>
    decreases tempos.len(),
{
    if tempos.len() == 0 {
        Seq::empty()
    } else {
        spec_render_tempos(tempos.drop_last()) + spec_render_tempo(tempos.last())
    }
}

impl Tempo {
    /// Reads one tempo.
    ///
    /// ID3v2 encodes the BPM as a one or two byte sequence whose bytes are added together,
    /// giving a maximum of 510 BPM.
    fn parse(stream: &mut BufStream) -> (r: ParseResult<Self>)
        requires
            old(stream).rest().len() > 0,
        ensures
            final(stream).data() == old(stream).data(),
            match r {
                Ok(t) => {
                    let head: int = if old(stream).rest()[0] == 0xFF {
                        2
                    } else {
                        1
                    };
                    &&& spec_parse_tempos(old(stream).rest()) == match spec_parse_tempos(
                        final(stream).rest(),
                    ) {
                        Ok(tail) => Ok(seq![t] + tail),
                        Err(e) => Err::<Seq<Tempo>, ParseError>(e),
                    }
                    &&& final(stream).rest() == old(stream).rest().skip(head + 4)
                    &&& final(stream).rest().len() < old(stream).rest().len()
                },
                Err(e) => spec_parse_tempos(old(stream).rest()) == Err::<Seq<Tempo>, ParseError>(e),
            },
    {
        let ghost d = stream.rest();
        let first = match stream.read_u8() {
            Ok(b) => b,
            Err(e) => return Err(ParseError::IoError(e)),
        };
        let mut bpm: u16 = first as u16;
        if first == 0xFF {
            let next = match stream.read_u8() {
                Ok(b) => b,
                Err(e) => return Err(ParseError::IoError(e)),
            };
            bpm = bpm + next as u16;
            proof {
                assert(d.drop_first().drop_first() =~= d.skip(2));
            }
        }
        // The timestamp is a u32, like it always is.
        let time = match stream.read_be_u32() {
            Ok(t) => t,
            Err(e) => return Err(ParseError::IoError(e)),
        };
        let t = Self { bpm: Bpm(bpm), time };
        proof {
            let head: int = if first == 0xFF {
                2
            } else {
                1
            };
            assert(d.skip(head).skip(4) =~= d.skip(head + 4));
        }
        Ok(t)
    }

    /// Renders this tempo.
    fn render(&self) -> (r: Vec<u8>)
        ensures
            r@ == spec_render_tempo(*self),
    {
        let bpm: u16 = if self.bpm.0 < 510 {
            self.bpm.0
        } else {
            510
        };
        let mut data: Vec<u8> = if bpm >= 255 {
            vec![0xFFu8, (bpm - 255) as u8]
        } else {
            vec![bpm as u8]
        };
        let mut time = crate::io::be_bytes_of(self.time as u64, 4);
        data.append(&mut time);
        data
    }
}

/// The tempo of the audio over time, the `SYTC` frame.
#[derive(Clone, Debug)]
pub struct SyncedTempoCodesFrame {
    /// The unit of the times of the tempos.
    pub format: TimestampFormat,
    /// The tempos.
    pub tempos: Vec<Tempo>,
}

/// The bytes of `SYTC`.
pub open spec fn sytc() -> Seq<u8> {
    seq![0x53u8, 0x59u8, 0x54u8, 0x43u8]
}

/// The error of parsing `d` as the body of a `SYTC` frame, or `None` when it parses.
pub open spec fn sytc_error(d: Seq<u8>) -> Option<ParseError> {
    if d.len() == 0 {
        Some(ParseError::IoError(StreamError::EndOfStream))
    } else {
        match spec_parse_tempos(d.drop_first()) {
            Ok(_) => None,
            Err(e) => Some(e),
        }
    }
}

impl SyncedTempoCodesFrame {
    /// Whether `self` is what parsing `d` as the body of a `SYTC` frame gives.
    pub open spec fn is_parse_of(self, d: Seq<u8>) -> bool {
        &&& d.len() > 0
        &&& self.format == TimestampFormat::spec_parse(d[0])
        &&& spec_parse_tempos(d.drop_first()) == Ok::<Seq<Tempo>, ParseError>(self.tempos@)
    }

    /// Parses the body of a `SYTC` frame from the rest of `stream`.
    ///
    /// # Errors
    /// If the format byte is missing or a tempo is cut short, an error is returned.
    pub fn parse(stream: &mut BufStream) -> (r: ParseResult<Self>)
        ensures
            match r {
                Ok(f) => f.is_parse_of(old(stream).rest()),
                Err(e) => sytc_error(old(stream).rest()) == Some(e),
            },
    {
        let format = match stream.read_u8() {
            Ok(b) => TimestampFormat::parse(b),
            Err(e) => return Err(ParseError::IoError(e)),
        };
        let ghost d = stream.rest();
        let mut tempos: Vec<Tempo> = Vec::new();
        while !stream.is_empty()
            invariant
                d == old(stream).rest().drop_first(),
                old(stream).rest().len() > 0,
                spec_parse_tempos(d) == match spec_parse_tempos(stream.rest()) {
                    Ok(t) => Ok(tempos@ + t),
                    Err(e) => Err::<Seq<Tempo>, ParseError>(e),
                },
            decreases stream.rest().len(),
        {
            let ghost old_tempos = tempos@;
            let tempo = match Tempo::parse(stream) {
                Ok(t) => t,
                Err(e) => return Err(e),
            };
            tempos.push(tempo);
            proof {
                match spec_parse_tempos(stream.rest()) {
                    Ok(t) => {
                        assert(old_tempos.push(tempo) + t =~= old_tempos + (seq![tempo] + t));
                    },
                    Err(_) => {},
                }
            }
        }
        proof {
            assert(tempos@ + Seq::<Tempo>::empty() =~= tempos@);
        }
        Ok(Self { format, tempos })
    }

    /// The body of this frame.
    pub open spec fn spec_render(&self) -> Seq<u8> {
        seq![self.format.spec_byte()] + spec_render_tempos(self.tempos@)
    }

    /// The BPMs of the tempos of this frame, joined with `, `.
    pub fn display(&self) -> (r: String)
        ensures
            r@ == spec_join_bpms(self.tempos@),
    {
        let mut s = String::new();
        let mut i: usize = 0;
        while i < self.tempos.len()
            invariant
                i <= self.tempos@.len(),
                s@ == spec_join_bpms(self.tempos@.take(i as int)),
            decreases self.tempos@.len() - i,
        {
            if i > 0 {
                s.append(", ");
            }
            let bpm = decimal(self.tempos[i].bpm.0 as u64);
            s.append(bpm.as_str());
            proof {
                reveal_strlit(", ");
                assert(self.tempos@.take(i + 1).drop_last() =~= self.tempos@.take(i as int));
            }
            i = i + 1;
        }
        proof {
            assert(self.tempos@.take(i as int) =~= self.tempos@);
        }
        s
    }
}

/// The BPMs of tempos in decimal, joined with `, `.
pub open spec fn spec_join_bpms(tempos: Seq<Tempo>) -> Seq<char>
    decreases tempos.len(),
{
    if tempos.len() == 0 {
        Seq::empty()
    } else if tempos.len() == 1 {
        spec_decimal(tempos[0].bpm.0 as nat)
    } else {
        spec_join_bpms(tempos.drop_last()) + seq![',', ' '] + spec_decimal(
            tempos.last().bpm.0 as nat,
        )
    }
}

impl Frame for SyncedTempoCodesFrame {
    fn id(&self) -> (r: FrameId)
        ensures
            r.spec_bytes() == sytc(),
    {
        known_id(0x53, 0x59, 0x54, 0x43)
    }

    fn key(&self) -> (r: String)
        ensures
            r@ == ascii_chars(sytc()),
    {
        String::from_str(self.id().as_str())
    }

    fn is_empty(&self) -> (r: bool)
        ensures
            r == (self.tempos@.len() == 0),
    {
        self.tempos.len() == 0
    }

    fn render(&self, tag_header: &TagHeader) -> (r: Vec<u8>)
        ensures
            r@ == self.spec_render(),
    {
        let mut data: Vec<u8> = Vec::new();
        data.push(self.format.to_byte());
        let mut i: usize = 0;
        while i < self.tempos.len()
            invariant
                i <= self.tempos@.len(),
                data@ == seq![self.format.spec_byte()] + spec_render_tempos(
                    self.tempos@.take(i as int),
                ),
            decreases self.tempos@.len() - i,
        {
            let mut tempo = self.tempos[i].render();
            data.append(&mut tempo);
            proof {
                assert(self.tempos@.take(i + 1).drop_last() =~= self.tempos@.take(i as int));
            }
            i = i + 1;
        }
        proof {
            assert(self.tempos@.take(i as int) =~= self.tempos@);
        }
        data
    }
}

} // verus!
