use musikr::id3v2::collections::FrameMap;
use musikr::id3v2::compat::{to_v3, to_v4, upgrade_cuts_cleanly};
use musikr::id3v2::frames::{
    AnyFrame, CreditsFrame, EqualizationFrame, Frame, FrameId, RelativeVolumeFrame, TextFrame,
    UrlFrame,
};
use musikr::id3v2::tag::{SaveVersion, TagHeader, Version};
use musikr::id3v2::{ParseError, SaveError, Tag};
use musikr::string::Encoding;

fn text(id: &[u8; 4], strings: &[&str]) -> AnyFrame {
    AnyFrame::Text(TextFrame::with_strings(
        FrameId::new(id),
        strings.iter().map(|s| s.to_string()).collect(),
    ))
}

fn url(id: &[u8; 4], link: &str) -> AnyFrame {
    let mut frame = UrlFrame::new(FrameId::new(id));
    frame.url = link.to_string();
    AnyFrame::Url(frame)
}

fn text_of(frames: &FrameMap, key: &str) -> Vec<String> {
    match frames.get(key) {
        Some(AnyFrame::Text(f)) => f.strings().to_vec(),
        _ => panic!("no text frame {}", key),
    }
}

fn credits(id: &[u8; 4], people: &[(&str, &str)]) -> AnyFrame {
    let mut frame = CreditsFrame::new(FrameId::new(id));
    for (role, those) in people {
        frame.insert(role.to_string(), those.to_string());
    }
    AnyFrame::Credits(frame)
}

fn display_of(frames: &FrameMap, key: &str) -> String {
    match frames.get(key) {
        Some(AnyFrame::Text(f)) => f.display(),
        _ => panic!("no text frame {}", key),
    }
}

#[test]
fn frame_map_adds_and_inserts() {
    let mut map = FrameMap::new();
    map.add(text(b"TLAN", &["eng"]));
    map.add(url(b"WOAR", "example.com"));

    assert!(map.contains_key("TLAN"));
    assert!(map.contains_key("WOAR"));

    // Text frames added under a taken key are merged; other frames are not added.
    map.add(text(b"TLAN", &["deu"]));
    map.add(url(b"WOAR", "test.com"));

    assert_eq!(text_of(&map, "TLAN"), vec!["eng", "deu"]);
    match map.get("WOAR") {
        Some(AnyFrame::Url(f)) => assert_eq!(f.url, "example.com"),
        _ => panic!("no WOAR frame"),
    }

    // Insert overwrites.
    map.insert(text(b"TLAN", &["ara"]));
    assert_eq!(text_of(&map, "TLAN"), vec!["ara"]);
    assert_eq!(map.len(), 2);
}

#[test]
fn frame_map_keeps_keys_in_order() {
    let mut map = FrameMap::new();
    map.insert(text(b"TPE1", &["Artist"]));
    map.insert(text(b"TALB", &["Album"]));
    map.insert(text(b"TIT2", &["Title"]));
    map.insert(text(b"TALB", &["Other"]));

    assert_eq!(map.keys(), vec!["TALB", "TIT2", "TPE1"]);
    assert_eq!(map.values().len(), 3);
}

#[test]
fn frame_map_finds_and_removes_by_id() {
    let mut map = FrameMap::new();
    map.insert(text(b"TIT2", &["Title"]));
    map.insert(url(b"WOAR", "a.com"));
    map.insert(url(b"WOAF", "b.com"));

    assert!(map.contains_any(b"WOAR"));
    assert!(!map.contains_any(b"TALB"));
    assert_eq!(map.get_all(b"WOAF").len(), 1);

    let removed = map.remove_all(b"WOAR");
    assert_eq!(removed.len(), 1);
    assert!(!map.contains_key("WOAR"));
    assert!(map.contains_key("WOAF"));

    assert!(map.remove("TIT2").is_some());
    assert!(map.remove("TIT2").is_none());
    assert_eq!(map.len(), 1);

    map.clear();
    assert!(map.is_empty());
}

#[test]
fn upgrade_v3_to_v4() {
    let mut frames = FrameMap::new();

    frames.add(AnyFrame::RelativeVolume(RelativeVolumeFrame::default()));
    frames.add(AnyFrame::Equalization(EqualizationFrame::default()));
    frames.add(credits(b"TMCL", &[("Bassist", "John Smith"), ("Violinist", "Vanessa Evans")]));
    frames.add(text(b"TYER", &["2020"]));
    frames.add(text(b"TDAT", &["1010"]));
    frames.add(text(b"TIME", &["12"]));
    frames.add(text(b"TORY", &["2020"]));
    frames.add(text(b"TRDA", &["July 12th", "May 14th"]));
    frames.add(text(b"TSIZ", &["161616"]));

    assert!(upgrade_cuts_cleanly(&frames));
    to_v4(&mut frames);

    assert!(!frames.contains_key("RVAD"));
    assert!(!frames.contains_any(b"EQUA"));
    assert!(!frames.contains_key("TRDA"));
    assert!(!frames.contains_key("TSIZ"));
    assert!(!frames.contains_key("TYER"));
    assert!(!frames.contains_key("TDAT"));
    assert!(!frames.contains_key("TIME"));
    assert!(!frames.contains_key("TORY"));
    assert!(!frames.contains_key("IPLS"));

    assert!(frames.contains_key("TDOR"));
    assert!(frames.contains_key("TMCL"));
    assert_eq!(display_of(&frames, "TDRC"), "2020-10-10");
}

#[test]
fn upgrading_renames_ipls() {
    let mut frames = FrameMap::new();
    frames.add(credits(b"IPLS", &[("Mixer", "Matt Carver")]));
    assert!(frames.contains_key("TIPL"));

    to_v4(&mut frames);

    match frames.get("TIPL") {
        Some(AnyFrame::Credits(f)) => {
            assert_eq!(f.id(), FrameId::new(b"TIPL"));
            assert_eq!(f.get("Mixer").unwrap(), "Matt Carver");
        }
        _ => panic!("no TIPL frame"),
    }
}

#[test]
fn upgrade_v4_to_v3() {
    const FULL: &str = "2020-01-01T12:34:00";
    const NO_SEC: &str = "2021-02-02T16:16";
    const NO_MIN: &str = "2022-03-03T32";
    const NO_TIME: &str = "2023-04-04";
    const NO_DAY: &str = "2024-05";
    const NO_MONTH: &str = "2025";

    let mut frames = FrameMap::new();

    for id in [
        b"TDEN", b"TDRL", b"TDTG", b"TMOO", b"TPRO", b"TSST", b"TSOA", b"TSOP", b"TSOT",
    ] {
        frames.add(text(id, &[]));
    }

    frames.add(text(b"TDOR", &["2020-10-10T40:40"]));
    frames.add(credits(b"TMCL", &[("Bassist", "John Smith"), ("Violinist", "Vanessa Evans")]));
    frames.add(credits(b"TIPL", &[("Mixer", "Matt Carver"), ("Producer", "Sarah Oliver")]));
    frames.add(text(b"TDRC", &[FULL, NO_SEC, NO_MIN, NO_TIME, NO_DAY, NO_MONTH]));

    to_v3(&mut frames);

    for key in [
        "TDEN", "TDRL", "TDTG", "TMOO", "TPRO", "TSST", "TSOA", "TSOP", "TSOT", "TDOR", "TDRC",
        "TMCL",
    ] {
        assert!(!frames.contains_key(key), "{} is left", key);
    }

    assert_eq!(display_of(&frames, "TORY"), "2020");

    let ipls = match frames.get("TIPL") {
        Some(AnyFrame::Credits(f)) => f,
        _ => panic!("no IPLS frame"),
    };
    assert_eq!(ipls.id(), FrameId::new(b"IPLS"));
    assert_eq!(ipls.get("Bassist").unwrap(), "John Smith");
    assert_eq!(ipls.get("Violinist").unwrap(), "Vanessa Evans");
    assert_eq!(ipls.get("Mixer").unwrap(), "Matt Carver");
    assert_eq!(ipls.get("Producer").unwrap(), "Sarah Oliver");
    assert_eq!(display_of(&frames, "TYER"), "2020, 2021, 2022, 2023, 2024, 2025");
    assert_eq!(display_of(&frames, "TDAT"), "0101, 0202, 0303, 0404");
    assert_eq!(display_of(&frames, "TIME"), "1234, 1616");
}

#[test]
fn short_years_are_padded() {
    let mut frames = FrameMap::new();
    frames.add(text(b"TYER", &["99"]));
    to_v4(&mut frames);
    assert_eq!(display_of(&frames, "TDRC"), "0099");

    let mut frames = FrameMap::new();
    frames.add(text(b"TDRC", &["7-x", "12345-01-02"]));
    to_v3(&mut frames);
    assert_eq!(display_of(&frames, "TYER"), "0007, 12345");
    assert_eq!(display_of(&frames, "TDAT"), "0102");
    assert!(!frames.contains_key("TIME"));
}

#[test]
fn dates_survive_a_round_trip_through_v3() {
    let mut frames = FrameMap::new();
    frames.add(text(b"TDRC", &["2023-04-05"]));
    to_v3(&mut frames);
    assert_eq!(display_of(&frames, "TYER"), "2023");
    assert_eq!(display_of(&frames, "TDAT"), "0405");
    assert!(!frames.contains_key("TIME"));
    assert!(!frames.contains_key("TDRC"));
    to_v4(&mut frames);
    assert_eq!(display_of(&frames, "TDRC"), "2023-04-05");
    assert!(!frames.contains_key("TDAT"));

    let mut frames = FrameMap::new();
    frames.add(text(b"TDRC", &["2023-12-31T10:20"]));
    to_v3(&mut frames);
    assert_eq!(display_of(&frames, "TYER"), "2023");
    assert_eq!(display_of(&frames, "TDAT"), "1231");
    assert_eq!(display_of(&frames, "TIME"), "1020");
    to_v4(&mut frames);
    assert_eq!(display_of(&frames, "TDRC"), "2023-12-31T10:20");
}

#[test]
fn dates_cut_inside_a_character_are_reported() {
    let mut frames = FrameMap::new();
    frames.add(text(b"TYER", &["2020"]));
    frames.add(text(b"TDAT", &["1é23"]));
    assert!(!upgrade_cuts_cleanly(&frames));
}

const V4_TAG: &[u8] = b"ID3\x04\x00\x00\x00\x00\x00\x21\
                        TIT2\x00\x00\x00\x06\x00\x00\x00Title\
                        TPE1\x00\x00\x00\x07\x00\x00\x00Artist";

#[test]
fn tags_are_parsed() {
    let mut raw = [0u8; 10];
    raw.copy_from_slice(&V4_TAG[..10]);
    let tag = Tag::parse(raw, &V4_TAG[10..]).unwrap();

    assert_eq!(tag.version(), Version::V24);
    assert_eq!(tag.size(), 0x21);
    assert_eq!(display_of(&tag.frames, "TIT2"), "Title");
    assert_eq!(display_of(&tag.frames, "TPE1"), "Artist");
    assert!(tag.extended_header.is_none());
    assert_eq!(tag.unknown_frames.frames().len(), 0);
}

#[test]
fn malformed_headers_are_not_found() {
    let raw = *b"ID3\x04\x00\x01\x00\x00\x00\x10";
    assert!(matches!(Tag::parse(raw, &[]), Err(ParseError::NotFound)));
    let raw = *b"ID3\x05\x00\x00\x00\x00\x00\x10";
    assert!(matches!(Tag::parse(raw, &[]), Err(ParseError::Unsupported)));
}

#[test]
fn v22_tags_are_upgraded_when_read() {
    let data = b"TT2\x00\x00\x06\x00Title";
    let raw = *b"ID3\x02\x00\x00\x00\x00\x00\x0C";
    let tag = Tag::parse(raw, data).unwrap();
    assert_eq!(tag.version(), Version::V22);
    assert_eq!(display_of(&tag.frames, "TIT2"), "Title");
}

#[test]
fn tags_render_with_padding() {
    let mut tag = Tag::new();
    tag.frames.insert(text(b"TIT2", &["Title"]));
    assert!(tag.is_writable());

    let data = tag.render(0, 0).unwrap();
    // Header, one frame of 16 bytes and 1024 bytes of padding.
    assert_eq!(data.len(), 10 + 16 + 1024);
    assert_eq!(&data[..10], b"ID3\x04\x00\x00\x00\x00\x08\x10");
    assert_eq!(&data[10..26], b"TIT2\x00\x00\x00\x06\x00\x00\x03Title");
    assert!(data[26..].iter().all(|b| *b == 0));
    assert_eq!(tag.size(), 16 + 1024);

    // A smaller tag than the one in the file keeps the space it left, up to 1% of the file.
    let data = tag.render(100, 10_000).unwrap();
    assert_eq!(data.len(), 10 + 100);
    let data = tag.render(100, 1_000).unwrap();
    assert_eq!(data.len(), 10 + 16 + 10);
}

#[test]
fn priority_frames_are_rendered_first() {
    let mut map = FrameMap::new();
    map.add(url(b"WOAR", "x"));
    map.add(text(b"TIT2", &["A"]));
    assert_eq!(
        map.render(&TagHeader::with_version(Version::V24)),
        b"TIT2\x00\x00\x00\x02\x00\x00\x03AWOAR\x00\x00\x00\x01\x00\x00x"
    );
}

#[test]
fn other_frames_follow_by_size_then_key() {
    let mut map = FrameMap::new();
    map.add(url(b"WOAR", "long"));
    map.add(text(b"TCON", &["Rock"]));
    map.add(url(b"WCOM", "x"));
    map.add(url(b"WPUB", "y"));
    map.add(text(b"TIT2", &["A"]));
    map.add(text(b"TPE1", &[]));
    let mut expected: Vec<u8> = Vec::new();
    expected.extend_from_slice(b"TIT2\x00\x00\x00\x02\x00\x00\x03A");
    expected.extend_from_slice(b"TCON\x00\x00\x00\x05\x00\x00\x03Rock");
    expected.extend_from_slice(b"WCOM\x00\x00\x00\x01\x00\x00x");
    expected.extend_from_slice(b"WPUB\x00\x00\x00\x01\x00\x00y");
    expected.extend_from_slice(b"WOAR\x00\x00\x00\x04\x00\x00long");
    assert_eq!(map.render(&TagHeader::with_version(Version::V24)), expected);
}

#[test]
fn rendered_tags_read_back() {
    let mut tag = Tag::with_version(SaveVersion::V23);
    let latin1 = |id: &[u8; 4], s: &str| {
        let mut frame = TextFrame::with_strings(FrameId::new(id), vec![s.to_string()]);
        frame.encoding = Encoding::Latin1;
        AnyFrame::Text(frame)
    };
    tag.frames.insert(latin1(b"TIT2", "Title"));
    tag.frames.insert(latin1(b"TYER", "2021"));
    let data = tag.render(0, 0).unwrap();

    let mut raw = [0u8; 10];
    raw.copy_from_slice(&data[..10]);
    let read = Tag::parse(raw, &data[10..]).unwrap();
    assert_eq!(read.version(), Version::V23);
    assert_eq!(read.frames.keys(), vec!["TIT2", "TYER"]);
    assert_eq!(display_of(&read.frames, "TYER"), "2021");
}

#[test]
fn empty_tags_render_to_nothing() {
    let mut tag = Tag::new();
    tag.frames.insert(text(b"TIT2", &[]));
    let data = tag.render(50, 1000).unwrap();
    assert!(data.is_empty());
    assert_eq!(tag.size(), 0);
}

#[test]
fn v22_tags_are_saved_as_v23() {
    let data = b"TT2\x00\x00\x06\x00Title";
    let raw = *b"ID3\x02\x00\x00\x00\x00\x00\x0C";
    let mut tag = Tag::parse(raw, data).unwrap();
    let out = tag.render(0, 0).unwrap();
    assert_eq!(tag.version(), Version::V23);
    assert_eq!(&out[..4], b"ID3\x03");
}

#[test]
fn oversized_tags_are_refused() {
    let mut tag = Tag::new();
    tag.frames.insert(text(b"TIT2", &["Title"]));
    // The space left by a huge previous tag would take the tag beyond 256 MB.
    assert!(matches!(tag.render(300_000_000, 100_000_000_000), Err(SaveError::TooLarge)));
}

#[test]
fn frame_keys_use_frame_ids() {
    let frame = text(b"TIT2", &["a"]);
    assert_eq!(frame.key(), "TIT2");
}

#[test]
fn missing_extended_header_clears_the_flag() {
    // An ID3v2.3 tag flagged as having an extended header, holding a frame instead.
    let data: &[u8] = b"TIT2\x00\x00\x00\x06\x00\x00\x00Title";
    let raw: [u8; 10] = *b"ID3\x03\x00\x40\x00\x00\x00\x10";
    let tag = Tag::parse(raw, data).unwrap();

    assert_eq!(tag.version(), Version::V23);
    assert!(tag.extended_header.is_none());
    // Reading stopped after the size that an extended header cannot have, so the frame is
    // not found.
    assert!(tag.frames.is_empty());
}
