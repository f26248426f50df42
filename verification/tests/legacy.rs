use musikr::id3v2::frames::text::render_text;
use musikr::id3v2::frames::{
    AnyFrame, CommentsFrame, DefaultFrameParser, Frame, FrameId, Language, MusicCdIdFrame,
    ParsedFrame, PodcastFrame, RelativeVolumeFrame, TextFrame, UserTextFrame, Volume,
    VolumeAdjustment,
};
use musikr::id3v2::frames;
use musikr::id3v2::header::{ExtendedHeader, FrameHeader, TagHeader as LegacyTagHeader};
use musikr::id3v2::tag::{TagHeader, Version};
use musikr::io::BufStream;
use musikr::string::{self, Encoding};

fn parse_any(version: Version, data: &[u8]) -> AnyFrame {
    let parsed = frames::parse(
        &TagHeader::with_version(version),
        &mut BufStream::new(data),
        &DefaultFrameParser { strict: true },
    )
    .unwrap();

    match parsed {
        ParsedFrame::Frame(frame) => frame,
        _ => panic!("cannot parse frame"),
    }
}

const TIT2_BODY: &[u8] = b"\x01\
                           \xFF\xFE\x49\x00\x20\x00\x53\x00\x77\x00\x61\x00\x6c\x00\x6c\x00\
                           \x6f\x00\x77\x00\x65\x00\x64\x00\x20\x00\x48\x00\x61\x00\x72\x00\
                           \x64\x00\x2c\x00\x20\x00\x4c\x00\x69\x00\x6b\x00\x65\x00\x20\x00\
                           \x49\x00\x20\x00\x55\x00\x6e\x00\x64\x00\x65\x00\x72\x00\x73\x00\
                           \x74\x00\x6f\x00\x6f\x00\x64\x00";

#[test]
fn parse_text_frame() {
    let frame = TextFrame::parse(FrameId::new(b"TIT2"), &mut BufStream::new(TIT2_BODY)).unwrap();

    assert_eq!(frame.encoding, Encoding::Utf16);
    assert_eq!(frame.text[0], "I Swallowed Hard, Like I Understood");
}

#[test]
fn render_text_frame() {
    let mut frame = TextFrame::new(FrameId::new(b"TIT2"));
    frame.encoding = Encoding::Utf16;
    frame.text.push(String::from("I Swallowed Hard, Like I Understood"));

    assert!(!frame.is_empty());
    assert_eq!(frame.render(&TagHeader::with_version(Version::V23)), TIT2_BODY);
}

#[test]
fn render_multi_text() {
    let out = b"Post-Rock\0\
                Ambient\0\
                Electronica";

    let data = vec![
        "Post-Rock".to_string(),
        "Ambient".to_string(),
        "Electronica".to_string(),
    ];

    assert_eq!(render_text(Encoding::Latin1, &data), out);
}

#[test]
fn render_txxx() {
    let out = b"\x00\
                replaygain_track_gain\0\
                -7.429688 dB";

    let mut frame = UserTextFrame::default();
    frame.encoding = Encoding::Latin1;
    frame.desc.push_str("replaygain_track_gain");
    frame.text.push(String::from("-7.429688 dB"));

    assert!(!frame.is_empty());
    assert_eq!(frame.render(&TagHeader::with_version(Version::V24)), out);
}

#[test]
fn parse_raw() {
    let data = b"\x16\x16\x16\x16\x16\x16\x16\x16";
    let frame = MusicCdIdFrame::parse(&mut BufStream::new(data)).unwrap();

    assert_eq!(frame.data, b"\x16\x16\x16\x16\x16\x16\x16\x16");
}

const PCST_BODY: &[u8] = b"\0\0\0\0";

#[test]
fn podcast_parse_pcst() {
    PodcastFrame::parse(&mut BufStream::new(PCST_BODY)).unwrap();
}

#[test]
fn podcast_render_pcst() {
    assert_eq!(PodcastFrame.render(&TagHeader::with_version(Version::V24)), PCST_BODY);
}

const COMM_DATA: &[u8] = b"COMM\x00\x00\x00\x14\x00\x00\
                           \x03\
                           eng\
                           Description\x00\
                           Text";

#[test]
fn comments_parse_comm() {
    let frame = match parse_any(Version::V24, COMM_DATA) {
        AnyFrame::Comments(f) => f,
        _ => panic!("not a COMM frame"),
    };

    assert_eq!(frame.encoding, Encoding::Utf8);
    assert_eq!(frame.lang.code(), b"eng");
    assert_eq!(frame.desc, "Description");
    assert_eq!(frame.text, "Text");
}

#[test]
fn comments_render_comm() {
    let frame = CommentsFrame {
        encoding: Encoding::Utf8,
        lang: Language::new(b"eng"),
        desc: String::from("Description"),
        text: String::from("Text"),
    };

    assert_eq!(
        frames::render(&TagHeader::with_version(Version::V24), &AnyFrame::Comments(frame))
            .unwrap(),
        COMM_DATA
    );
}

const RVAD_DATA: &[u8] = b"RVAD\x00\x00\x00\x32\x00\x00\
                          \x2d\x20\
                          \xAB\xCD\xEF\x16\
                          \x01\x02\x04\x08\
                          \x16\x16\x16\x16\
                          \x00\x00\x00\x00\
                          \x00\xFF\x00\xFF\
                          \xFF\x00\xFF\x00\
                          \x61\xFE\xDC\xBA\
                          \x20\x40\x80\x00\
                          \x00\x00\x00\x00\
                          \x00\x00\x10\x10\
                          \x4F\x58\x43\x42\
                          \xFF\xFF\xFF\xFF";

const RVAD_DATA_V2: &[u8] = b"RVA\x00\x00\x0A\
                              \x02\x10\
                              \x12\x34\
                              \x00\x00\
                              \x16\x16\
                              \xAB\xCD";

#[test]
fn audio_v3_parse_rvad() {
    let frame = match parse_any(Version::V23, RVAD_DATA) {
        AnyFrame::RelativeVolume(f) => f,
        _ => panic!("not an RVAD frame"),
    };

    assert_eq!(frame.right.volume, Volume::Increment(0xABCDEF16));
    assert_eq!(frame.left.volume, Volume::Decrement(0x01020408));
    assert_eq!(frame.right.peak, 0x16161616);
    assert_eq!(frame.left.peak, 0);

    assert_eq!(frame.right_back.volume, Volume::Increment(0x00FF00FF));
    assert_eq!(frame.left_back.volume, Volume::Increment(0xFF00FF00));
    assert_eq!(frame.right_back.peak, 0x61FEDCBA);
    assert_eq!(frame.left_back.peak, 0x20408000);

    assert_eq!(frame.center.volume, Volume::Decrement(0));
    assert_eq!(frame.center.peak, 0x1010);

    assert_eq!(frame.bass.volume, Volume::Increment(0x4F584342));
    assert_eq!(frame.bass.peak, 0xFFFFFFFF);
}

#[test]
fn audio_v3_parse_rvad_v2() {
    let frame = match parse_any(Version::V22, RVAD_DATA_V2) {
        AnyFrame::RelativeVolume(f) => f,
        _ => panic!("not an RVAD frame"),
    };

    assert_eq!(frame.right.volume, Volume::Decrement(0x1234));
    assert_eq!(frame.left.volume, Volume::Increment(0x0000));
    assert_eq!(frame.right.peak, 0x1616);
    assert_eq!(frame.left.peak, 0xABCD);
}

#[test]
fn audio_v3_render_rvad() {
    let frame = RelativeVolumeFrame {
        right: VolumeAdjustment { volume: Volume::Increment(0xABCDEF16), peak: 0x16161616 },
        left: VolumeAdjustment { volume: Volume::Decrement(0x01020408), peak: 0 },
        right_back: VolumeAdjustment { volume: Volume::Increment(0x00FF00FF), peak: 0x61FEDCBA },
        left_back: VolumeAdjustment { volume: Volume::Increment(0xFF00FF00), peak: 0x20408000 },
        center: VolumeAdjustment { volume: Volume::Decrement(0), peak: 0x1010 },
        bass: VolumeAdjustment { volume: Volume::Increment(0x4F584342), peak: 0xFFFFFFFF },
    };

    assert_eq!(
        frames::render(&TagHeader::with_version(Version::V23), &AnyFrame::RelativeVolume(frame))
            .unwrap(),
        RVAD_DATA
    );
}

#[test]
fn id3v2_parse_v3() {
    let data = b"\x49\x44\x33\x03\x00\xA0\x00\x08\x49\x30";
    let header = LegacyTagHeader::parse(&data[..]).unwrap();
    let flags = header.flags();

    assert_eq!(header.size(), 140464);
    assert_eq!(header.major(), 3);
    assert_eq!(header.minor(), 0);

    assert_eq!(flags.unsync, true);
    assert_eq!(flags.extended, false);
    assert_eq!(flags.experimental, true);

    let data = b"\x00\x00\x00\x06\x16\x16\x16\x16\x16\x16";
    let header = ExtendedHeader::parse(3, &data[..]).unwrap();

    assert_eq!(header.size(), 6);
    assert_eq!(header.data(), &vec![0x16; 6]);

    let data = b"TXXX\x00\x0A\x71\x7B\xA0\x40";
    let header = FrameHeader::parse(3, &data[..]).unwrap();
    let flags = header.flags();

    assert_eq!(header.id(), "TXXX");
    assert_eq!(header.size(), 684411);

    assert_eq!(flags.tag_should_discard, true);
    assert_eq!(flags.file_should_discard, false);
    assert_eq!(flags.read_only, true);

    assert_eq!(flags.compressed, false);
    assert_eq!(flags.encrypted, true);
    assert_eq!(flags.has_group, false);
}

#[test]
fn id3v2_parse_v4() {
    let data = b"\x49\x44\x33\x04\x00\x50\x00\x08\x49\x30";
    let header = LegacyTagHeader::parse(&data[..]).unwrap();
    let flags = header.flags();

    assert_eq!(header.size(), 140464);
    assert_eq!(header.major(), 4);
    assert_eq!(header.minor(), 0);

    assert_eq!(flags.unsync, false);
    assert_eq!(flags.extended, true);
    assert_eq!(flags.experimental, false);
    assert_eq!(flags.footer, true);

    let data = b"\x00\x00\x00\x0A\x01\x16\x16\x16\x16\x16";
    let header = ExtendedHeader::parse(4, &data[..]).unwrap();

    assert_eq!(header.size(), 10);
    assert_eq!(header.data(), &vec![0x01, 0x16, 0x16, 0x16, 0x16, 0x16]);

    let data = b"TXXX\x00\x34\x10\x2A\x50\x4B";
    let header = FrameHeader::parse(4, &data[..]).unwrap();
    let flags = header.flags();

    assert_eq!(header.id(), "TXXX");
    assert_eq!(header.size(), 854058);

    assert_eq!(flags.tag_should_discard, true);
    assert_eq!(flags.file_should_discard, false);
    assert_eq!(flags.read_only, true);

    assert_eq!(flags.has_group, true);
    assert_eq!(flags.compressed, true);
    assert_eq!(flags.encrypted, false);
    assert_eq!(flags.unsync, true);
    assert_eq!(flags.has_data_len, true);
}

const UNICODE: &str = "║ Lîke â 𝕨𝕙𝕚le l𝒐𝒐p wïth nø escapê ║";

#[test]
fn id3v2_parse_latin1() {
    let data = b"\x4c\xee\x6b\x65\x20\xe2\x20\x77\x68\x69\x6c\x65\x20\x6c\x6f\x6f\x70\x20\x77\xef\x74\x68\x20\x6e\xf8\x20\x65\x73\x63\x61\x70\xea";

    assert_eq!(string::decode(Encoding::Latin1, data), "Lîke â while loop wïth nø escapê");
}

#[test]
fn id3v2_parse_utf16() {
    let data = b"\xFF\xFE\x51\x25\x20\x00\x4c\x00\xee\x00\x6b\x00\x65\x00\x20\x00\xe2\x00\x20\x00\x35\xd8\x68\xdd\x35\xd8\x59\xdd\x35\xd8\x5a\xdd\x6c\x00\x65\x00\x20\x00\x6c\x00\x35\xd8\x90\xdc\x35\xd8\x90\xdc\x70\x00\x20\x00\x77\x00\xef\x00\x74\x00\x68\x00\x20\x00\x6e\x00\xf8\x00\x20\x00\x65\x00\x73\x00\x63\x00\x61\x00\x70\x00\xea\x00\x20\x00\x51\x25";

    assert_eq!(string::decode(Encoding::Utf16, data), UNICODE);
}

#[test]
fn id3v2_parse_utf16be() {
    let data = b"\x25\x51\x00\x20\x00\x4c\x00\xee\x00\x6b\x00\x65\x00\x20\x00\xe2\x00\x20\xd8\x35\xdd\x68\xd8\x35\xdd\x59\xd8\x35\xdd\x5a\x00\x6c\x00\x65\x00\x20\x00\x6c\xd8\x35\xdc\x90\xd8\x35\xdc\x90\x00\x70\x00\x20\x00\x77\x00\xef\x00\x74\x00\x68\x00\x20\x00\x6e\x00\xf8\x00\x20\x00\x65\x00\x73\x00\x63\x00\x61\x00\x70\x00\xea\x00\x20\x25\x51";

    assert_eq!(string::decode(Encoding::Utf16Be, data), UNICODE);
}

#[test]
fn id3v2_parse_utf16le() {
    let data = b"\x51\x25\x20\x00\x4c\x00\xee\x00\x6b\x00\x65\x00\x20\x00\xe2\x00\x20\x00\x35\xd8\x68\xdd\x35\xd8\x59\xdd\x35\xd8\x5a\xdd\x6c\x00\x65\x00\x20\x00\x6c\x00\x35\xd8\x90\xdc\x35\xd8\x90\xdc\x70\x00\x20\x00\x77\x00\xef\x00\x74\x00\x68\x00\x20\x00\x6e\x00\xf8\x00\x20\x00\x65\x00\x73\x00\x63\x00\x61\x00\x70\x00\xea\x00\x20\x00\x51\x25";

    assert_eq!(string::decode(Encoding::Utf16Le, data), UNICODE);
}

#[test]
fn id3v2_parse_utf8() {
    let data = b"\xe2\x95\x91\x20\x4c\xc3\xae\x6b\x65\x20\xc3\xa2\x20\xf0\x9d\x95\xa8\xf0\x9d\x95\x99\xf0\x9d\x95\x9a\x6c\x65\x20\x6c\xf0\x9d\x92\x90\xf0\x9d\x92\x90\x70\x20\x77\xc3\xaf\x74\x68\x20\x6e\xc3\xb8\x20\x65\x73\x63\x61\x70\xc3\xaa\x20\xe2\x95\x91";

    assert_eq!(string::decode(Encoding::Utf8, data), UNICODE);
}
