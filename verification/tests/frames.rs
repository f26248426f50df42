use musikr::id3v2::frames::{
    self, AnyFrame, EqualizationFrame, AttachedPictureFrame, Bpm, CommentsFrame, CreditsFrame, DefaultFrameParser, Event,
    EventTimingCodesFrame, EventType, FileIdFrame, Frame, FrameId, GeneralObjectFrame, Language,
    MusicCdIdFrame, OwnershipFrame, ParsedFrame, PictureType, PlayCounterFrame, PodcastFrame,
    PopularimeterFrame, PrivateFrame, RelativeVolumeFrame, SyncedContentType, SyncedLyricsFrame,
    SyncedTempoCodesFrame, SyncedText, Tempo, TermsOfUseFrame, TextFrame, TimestampFormat,
    UnsyncLyricsFrame, UrlFrame, UserTextFrame, UserUrlFrame, Volume, VolumeAdjustment,
};
use musikr::id3v2::frames::encoding;
use musikr::id3v2::frames::stats::render_play_count;
use musikr::id3v2::tag::{TagHeader, Version};
use musikr::io::BufStream;
use musikr::string::Encoding;

fn parse_any(version: Version, data: &[u8]) -> AnyFrame {
    let parsed = frames::parse(
        &TagHeader::with_version(version),
        &mut BufStream::new(data),
        &DefaultFrameParser { strict: true },
    )
    .unwrap();

    match parsed {
        ParsedFrame::Frame(frame) => frame,
        _ => panic!("cannot parse frame"),
    }
}

fn render_v4(frame: AnyFrame) -> Vec<u8> {
    assert!(!frame.is_empty());
    frames::render(&TagHeader::with_version(Version::V24), &frame).unwrap()
}

// ---- Text frames ----

const TIT2_DATA: &[u8] = b"TIT2\x00\x00\x00\x49\x00\x00\
                           \x01\
                           \xFF\xFE\x49\x00\x20\x00\x53\x00\x77\x00\x61\x00\x6c\x00\x6c\x00\
                           \x6f\x00\x77\x00\x65\x00\x64\x00\x20\x00\x48\x00\x61\x00\x72\x00\
                           \x64\x00\x2c\x00\x20\x00\x4c\x00\x69\x00\x6b\x00\x65\x00\x20\x00\
                           \x49\x00\x20\x00\x55\x00\x6e\x00\x64\x00\x65\x00\x72\x00\x73\x00\
                           \x74\x00\x6f\x00\x6f\x00\x64\x00";

const TCON_DATA: &[u8] = b"TCON\x00\x00\x00\x17\x00\x00\
                           \x00\
                           Post-Rock\0\
                           Electronica\0";

const TXXX_DATA: &[u8] = b"TXXX\x00\x00\x00\x23\x00\x00\
                           \x00\
                           replaygain_track_gain\0\
                           -7.429688 dB";

const COMM_DATA: &[u8] = b"COMM\x00\x00\x00\x14\x00\x00\
                           \x03\
                           eng\
                           Description\x00\
                           Text";

#[test]
fn parse_text() {
    let frame = match parse_any(Version::V24, TIT2_DATA) {
        AnyFrame::Text(f) => f,
        _ => panic!("not a text frame"),
    };

    assert_eq!(frame.encoding, Encoding::Utf16);
    assert_eq!(frame.text[0], "I Swallowed Hard, Like I Understood");

    let frame = match parse_any(Version::V24, TCON_DATA) {
        AnyFrame::Text(f) => f,
        _ => panic!("not a text frame"),
    };

    assert_eq!(frame.encoding, Encoding::Latin1);
    assert_eq!(frame.text[0], "Post-Rock");
    assert_eq!(frame.text[1], "Electronica");
}

const TMCL_DATA: &[u8] = b"TMCL\x00\x00\x00\x2B\x00\x00\
                           \x00\
                           Bassist\0\
                           John Smith\0\
                           Violinist\0\
                           Vanessa Evans";

#[test]
fn text_parse_credits() {
    let frame = match parse_any(Version::V24, TMCL_DATA) {
        AnyFrame::Credits(f) => f,
        _ => panic!("not a TMCL frame"),
    };

    assert_eq!(frame.encoding(), Encoding::Latin1);
    assert_eq!(frame.get("Bassist").unwrap(), "John Smith");
    assert_eq!(frame.get("Violinist").unwrap(), "Vanessa Evans");
}

#[test]
fn render_credits_in_role_order() {
    let mut frame = CreditsFrame::new(FrameId::new(b"TMCL"));
    frame.set_encoding(Encoding::Latin1);
    frame.insert(String::from("Violinist"), String::from("Vanessa Evans"));
    frame.insert(String::from("Bassist"), String::from("John Smith"));

    assert!(!frame.is_empty());
    assert_eq!(frame.key(), "TMCL");
    assert_eq!(frame.display(), "Bassist: John Smith\nViolinist: Vanessa Evans");
    assert_eq!(render_v4(AnyFrame::Credits(frame)), TMCL_DATA);
}

#[test]
fn credits_keep_one_person_list_per_role() {
    let mut frame = CreditsFrame::new(FrameId::new(b"IPLS"));
    frame.insert(String::from("Mixer"), String::from("Matt Carver"));
    frame.insert(String::from("Mixer"), String::from("Sarah Oliver"));

    assert_eq!(frame.key(), "TIPL");
    assert_eq!(frame.people().len(), 1);
    assert_eq!(frame.get("Mixer").unwrap(), "Sarah Oliver");
    assert!(frame.get("Producer").is_none());
}

#[test]
fn credits_drop_incomplete_pairs() {
    let mut frame = CreditsFrame::new(FrameId::new(b"TIPL"));
    frame.insert(String::from("Mixer"), String::new());
    assert!(frame.is_empty());

    frame.insert(String::from("Producer"), String::from("Sarah Oliver"));
    assert!(!frame.is_empty());
    assert_eq!(
        frame.render(&TagHeader::with_version(Version::V24)),
        b"\x03Producer\0Sarah Oliver".to_vec()
    );
}

#[test]
fn parse_credits_drops_unpaired_string() {
    // IPLS in an ID3v2.3 tag, with a role that has no people.
    let data = b"IPLS\x00\x00\x00\x1B\x00\x00\
                 \x00\
                 Mixer\0\
                 Matt Carver\0\
                 Producer";
    let frame = match parse_any(Version::V23, data) {
        AnyFrame::Credits(f) => f,
        _ => panic!("not an IPLS frame"),
    };

    assert_eq!(frame.id(), FrameId::new(b"IPLS"));
    assert_eq!(frame.people().len(), 1);
    assert_eq!(frame.get("Mixer").unwrap(), "Matt Carver");
}

#[test]
fn text_parse_txxx() {
    let frame = match parse_any(Version::V24, TXXX_DATA) {
        AnyFrame::UserText(f) => f,
        _ => panic!("not a TXXX frame"),
    };

    assert_eq!(frame.encoding, Encoding::Latin1);
    assert_eq!(frame.desc, "replaygain_track_gain");
    assert_eq!(frame.text[0], "-7.429688 dB");
}

#[test]
fn text_parse_comm() {
    let frame = match parse_any(Version::V24, COMM_DATA) {
        AnyFrame::Comments(f) => f,
        _ => panic!("not a COMM frame"),
    };

    assert_eq!(frame.encoding, Encoding::Utf8);
    assert_eq!(frame.lang.code(), b"eng");
    assert_eq!(frame.desc, "Description");
    assert_eq!(frame.text, "Text");
}

#[test]
fn text_render_comm() {
    let frame = CommentsFrame {
        encoding: Encoding::Utf8,
        lang: Language::new(b"eng"),
        desc: String::from("Description"),
        text: String::from("Text"),
    };

    assert_eq!(render_v4(AnyFrame::Comments(frame)), COMM_DATA);
}

#[test]
fn text_frame_keys_and_emptiness() {
    let mut frame = TextFrame::new(FrameId::new(b"TIT2"));
    assert!(frame.is_empty());
    frame.text = vec![String::new(), String::new()];
    assert!(frame.is_empty());
    frame.text = vec![String::from("a"), String::from("b")];
    assert!(!frame.is_empty());
    assert_eq!(frame.key(), "TIT2");
    assert_eq!(frame.display(), "a, b");

    let user = UserTextFrame {
        encoding: Encoding::Utf8,
        desc: String::from("replaygain_track_gain"),
        text: vec![],
    };
    assert_eq!(user.key(), "TXXX:replaygain_track_gain");

    let comm = CommentsFrame {
        encoding: Encoding::Utf8,
        lang: Language::new(b"eng"),
        desc: String::from("Description"),
        text: String::from("Text"),
    };
    assert_eq!(comm.key(), "COMM:Description:eng");
}

#[test]
fn text_frame_ids() {
    assert!(TextFrame::is_id(FrameId::new(b"TIT2")));
    assert!(TextFrame::is_id(FrameId::new(b"WFED")));
    assert!(!TextFrame::is_id(FrameId::new(b"TXXX")));
    assert!(!TextFrame::is_id(FrameId::new(b"APIC")));
}

#[test]
fn render_multiple_text_strings() {
    let mut frame = TextFrame::new(FrameId::new(b"TCON"));
    frame.encoding = Encoding::Latin1;
    frame.text = vec![String::from("Post-Rock"), String::from("Electronica")];

    assert_eq!(
        render_v4(AnyFrame::Text(frame)),
        b"TCON\x00\x00\x00\x16\x00\x00\x00Post-Rock\0Electronica"
    );
}

// ---- URL frames ----

const WOAR_DATA: &[u8] = b"WOAR\x00\x00\x00\x13\x00\x00\
                           https://fourtet.net";

const WXXX_DATA: &[u8] = b"WXXX\x00\x00\x00\x24\x00\x00\
                           \x03\
                           ID3v2.3.0\0\
                           https://id3.org/id3v2.3.0";

#[test]
fn url_parse_url() {
    let frame = match parse_any(Version::V24, WOAR_DATA) {
        AnyFrame::Url(f) => f,
        _ => panic!("not a URL frame"),
    };

    assert_eq!(frame.url, "https://fourtet.net");
}

#[test]
fn url_parse_wxxx() {
    let frame = match parse_any(Version::V24, WXXX_DATA) {
        AnyFrame::UserUrl(f) => f,
        _ => panic!("not a WXXX frame"),
    };

    assert_eq!(frame.encoding, Encoding::Utf8);
    assert_eq!(frame.desc, "ID3v2.3.0");
    assert_eq!(frame.url, "https://id3.org/id3v2.3.0");
}

#[test]
fn render_url() {
    let mut frame = UrlFrame::new(FrameId::new(b"WOAR"));
    frame.url = String::from("https://fourtet.net");

    assert_eq!(render_v4(AnyFrame::Url(frame)), WOAR_DATA);
}

#[test]
fn render_wxxx() {
    let frame = UserUrlFrame {
        encoding: Encoding::Utf8,
        desc: String::from("ID3v2.3.0"),
        url: String::from("https://id3.org/id3v2.3.0"),
    };

    assert_eq!(render_v4(AnyFrame::UserUrl(frame)), WXXX_DATA);
}

// ---- Binary frames ----

const PRIV_DATA: &[u8] = b"PRIV\x00\x00\x00\x14\x00\x00\
                           test@test.com\0\
                           \x16\x16\x16\x16\x16\x16";

const MCDI_DATA: &[u8] = b"MCDI\x00\x00\x00\x06\x00\x00\
                           \x16\x16\x16\x16\x16\x16";

const UFID_DATA: &[u8] = b"UFID\x00\x00\x00\x29\x00\x00\
                           http://www.id3.org/dummy/ufid.html\0\
                           \x16\x16\x16\x16\x16\x16";

const PCST_DATA: &[u8] = b"PCST\x00\x00\x00\x04\x00\x00\
                           \0\0\0\0";

#[test]
fn bin_parse_priv() {
    let frame = match parse_any(Version::V24, PRIV_DATA) {
        AnyFrame::Private(f) => f,
        _ => panic!("not a PRIV frame"),
    };

    assert_eq!(frame.owner, "test@test.com");
    assert_eq!(frame.data, b"\x16\x16\x16\x16\x16\x16");
}

#[test]
fn bin_parse_ufid() {
    let frame = match parse_any(Version::V24, UFID_DATA) {
        AnyFrame::FileId(f) => f,
        _ => panic!("not a UFID frame"),
    };

    assert_eq!(frame.owner, "http://www.id3.org/dummy/ufid.html");
    assert_eq!(frame.identifier, b"\x16\x16\x16\x16\x16\x16");
}

#[test]
fn parse_mcdi() {
    let frame = match parse_any(Version::V24, MCDI_DATA) {
        AnyFrame::MusicCdId(f) => f,
        _ => panic!("not a MCDI frame"),
    };

    assert_eq!(frame.data, b"\x16\x16\x16\x16\x16\x16");
}

#[test]
fn render_priv() {
    let frame = PrivateFrame {
        owner: String::from("test@test.com"),
        data: Vec::from(&b"\x16\x16\x16\x16\x16\x16"[..]),
    };

    assert_eq!(render_v4(AnyFrame::Private(frame)), PRIV_DATA);
}

#[test]
fn render_ufid() {
    let frame = FileIdFrame {
        owner: String::from("http://www.id3.org/dummy/ufid.html"),
        identifier: Vec::from(&b"\x16\x16\x16\x16\x16\x16"[..]),
    };

    assert_eq!(render_v4(AnyFrame::FileId(frame)), UFID_DATA);
}

#[test]
fn render_mcdi() {
    let frame = MusicCdIdFrame {
        data: Vec::from(&b"\x16\x16\x16\x16\x16\x16"[..]),
    };

    assert_eq!(render_v4(AnyFrame::MusicCdId(frame)), MCDI_DATA);
}

#[test]
fn bin_parse_pcst() {
    match parse_any(Version::V24, PCST_DATA) {
        AnyFrame::Podcast(_) => {}
        _ => panic!("not a PCST frame"),
    }
}

#[test]
fn bin_render_pcst() {
    assert_eq!(render_v4(AnyFrame::Podcast(PodcastFrame)), PCST_DATA);
}

#[test]
fn malformed_pcst_is_an_error() {
    let data = b"PCST\x00\x00\x00\x04\x00\x00\0\0\0\x01";
    let result = frames::parse(
        &TagHeader::with_version(Version::V24),
        &mut BufStream::new(data),
        &DefaultFrameParser { strict: true },
    );
    assert!(matches!(result, Err(musikr::id3v2::ParseError::MalformedData)));

    // Without strict mode, the frame is dropped instead.
    let result = frames::parse(
        &TagHeader::with_version(Version::V24),
        &mut BufStream::new(data),
        &DefaultFrameParser { strict: false },
    );
    assert!(matches!(result, Ok(ParsedFrame::Dropped)));
}

// ---- Statistics frames ----

const POPM_DATA: &[u8] = b"POPM\x00\x00\x00\x13\x00\x00\
                           test@test.com\0\
                           \x80\
                           \x00\x00\x16\x16";

const PCNT_DATA: &[u8] = b"PCNT\x00\x00\x00\x04\x00\x00\
                           \x00\x00\x16\x16";

#[test]
fn parse_popm() {
    let frame = match parse_any(Version::V24, POPM_DATA) {
        AnyFrame::Popularimeter(f) => f,
        _ => panic!("not a POPM frame"),
    };

    assert_eq!(frame.email, "test@test.com");
    assert_eq!(frame.rating, 0x80);
    assert_eq!(frame.plays, 0x1616);
}

#[test]
fn parse_pcnt() {
    let frame = match parse_any(Version::V24, PCNT_DATA) {
        AnyFrame::PlayCounter(f) => f,
        _ => panic!("not a PCNT frame"),
    };

    assert_eq!(frame.plays, 0x1616)
}

#[test]
fn render_popm() {
    let frame = PopularimeterFrame {
        email: String::from("test@test.com"),
        rating: 0x80,
        plays: 0x1616,
    };

    assert_eq!(render_v4(AnyFrame::Popularimeter(frame)), POPM_DATA);
}

#[test]
fn render_pcnt() {
    let frame = PlayCounterFrame { plays: 0x1616 };

    assert_eq!(render_v4(AnyFrame::PlayCounter(frame)), PCNT_DATA);
}

#[test]
fn render_large_play_counts() {
    let plays: u64 = 0x123456789ABCD;

    assert_eq!(render_play_count(plays), b"\x01\x23\x45\x67\x89\xAB\xCD");
}

#[test]
fn popm_omits_zero_play_count() {
    let frame = PopularimeterFrame {
        email: String::from("a"),
        rating: 255,
        plays: 0,
    };
    assert_eq!(frame.rating_simple(), 5);
    assert_eq!(frame.display(), "a [255/255, plays=0]");
    assert_eq!(
        render_v4(AnyFrame::Popularimeter(frame)),
        b"POPM\x00\x00\x00\x03\x00\x00a\0\xFF"
    );
}

#[test]
fn popm_simple_ratings() {
    let ratings = [(0, 0), (1, 1), (63, 1), (64, 2), (127, 2), (128, 3), (195, 3), (196, 4), (254, 4), (255, 5)];
    for (rating, stars) in ratings {
        let frame = PopularimeterFrame {
            email: String::new(),
            rating,
            plays: 0,
        };
        assert_eq!(frame.rating_simple(), stars);
    }
}

#[test]
fn short_play_counts_are_read_whole() {
    let frame = match parse_any(Version::V24, b"PCNT\x00\x00\x00\x02\x00\x00\x12\x34") {
        AnyFrame::PlayCounter(f) => f,
        _ => panic!("not a PCNT frame"),
    };
    assert_eq!(frame.plays, 0x1234);
}

#[test]
fn large_play_counts_read_back() {
    let mut stream = BufStream::new(b"\x01\x23\x45\x67\x89\xAB\xCD");
    let frame = PlayCounterFrame::parse(&mut stream).unwrap();
    assert_eq!(frame.plays, 0x123456789ABCD);

    for plays in [0u64, 1, 0xFF, 0x100, 0xFFFF_FFFF, 0x1_0000_0000, u64::MAX] {
        let bytes = render_play_count(plays);
        let frame = PlayCounterFrame::parse(&mut BufStream::new(&bytes)).unwrap();
        assert_eq!(frame.plays, plays);
    }
}

// ---- Ownership frames ----

const OWNE_DATA: &[u8] = b"OWNE\x00\x00\x00\x1E\x00\x00\
                           \x01\
                           $19.99\0\
                           20200101\
                           \xFF\xFE\x53\x00\x65\x00\x6c\x00\x6c\x00\x65\x00\x72\x00";

const USER_DATA: &[u8] = b"USER\x00\x00\x00\x26\x00\x00\
                           \x02\
                           eng\
                           \x00\x32\x00\x30\x00\x32\x00\x30\x00\x20\x00\x54\x00\x65\x00\x72\x00\
                           \x6d\x00\x73\x00\x20\x00\x6f\x00\x66\x00\x20\x00\x75\x00\x73\x00\x65";

#[test]
fn parse_owne() {
    let frame = match parse_any(Version::V24, OWNE_DATA) {
        AnyFrame::Ownership(f) => f,
        _ => panic!("not an OWNE frame"),
    };

    assert_eq!(frame.encoding, Encoding::Utf16);
    assert_eq!(frame.price, "$19.99");
    assert_eq!(frame.purchase_date, "20200101");
    assert_eq!(frame.seller, "Seller");
}

#[test]
fn parse_user() {
    let frame = match parse_any(Version::V24, USER_DATA) {
        AnyFrame::TermsOfUse(f) => f,
        _ => panic!("not a USER frame"),
    };

    assert_eq!(frame.encoding, Encoding::Utf16Be);
    assert_eq!(frame.lang.code(), b"eng");
    assert_eq!(frame.text, "2020 Terms of use")
}

#[test]
fn render_owne() {
    let frame = OwnershipFrame {
        encoding: Encoding::Utf16,
        price: String::from("$19.99"),
        purchase_date: String::from("20200101"),
        seller: String::from("Seller"),
    };

    assert_eq!(render_v4(AnyFrame::Ownership(frame)), OWNE_DATA);
}

#[test]
fn render_user() {
    let frame = TermsOfUseFrame {
        encoding: Encoding::Utf16Be,
        lang: Language::new(b"eng"),
        text: String::from("2020 Terms of use"),
    };

    assert_eq!(render_v4(AnyFrame::TermsOfUse(frame)), USER_DATA);
}

#[test]
fn owne_bad_date_is_the_epoch() {
    let frame = OwnershipFrame {
        encoding: Encoding::Latin1,
        price: String::new(),
        purchase_date: String::from("2020"),
        seller: String::new(),
    };
    assert_eq!(frame.display(), "2020");
    assert_eq!(
        render_v4(AnyFrame::Ownership(frame)),
        b"OWNE\x00\x00\x00\x0A\x00\x00\x00\x0019700101"
    );
}

// ---- Lyrics frames ----

const USLT_DATA: &[u8] = b"USLT\x00\x00\x00\x54\x00\x00\
                           \x00\
                           eng\
                           Description\0\
                           Jumped in the river, what did I see?\n\
                           Black eyed angels swam with me\n";

const SYLT_DATA: &[u8] = b"SYLT\x00\x00\x00\x63\x00\x00\
                           \x03\
                           eng\
                           \x02\x01\
                           Description\0\
                           You don't remember, you don't remember\n\0\
                           \x00\x02\x78\xD0\
                           Why don't you remember my name?\n\0\
                           \x00\x02\x88\x70";

#[test]
fn parse_uslt() {
    let frame = match parse_any(Version::V24, USLT_DATA) {
        AnyFrame::UnsyncLyrics(f) => f,
        _ => panic!("not a USLT frame"),
    };

    assert_eq!(frame.encoding, Encoding::Latin1);
    assert_eq!(frame.lang.code(), b"eng");
    assert_eq!(frame.desc, "Description");
    assert_eq!(
        frame.lyrics,
        "Jumped in the river, what did I see?\n\
        Black eyed angels swam with me\n"
    )
}

#[test]
fn lyrics_parse_sylt() {
    let frame = match parse_any(Version::V24, SYLT_DATA) {
        AnyFrame::SyncedLyrics(f) => f,
        _ => panic!("not a SYLT frame"),
    };

    assert_eq!(frame.encoding, Encoding::Utf8);
    assert_eq!(frame.lang.code(), b"eng");
    assert_eq!(frame.format, TimestampFormat::Millis);
    assert_eq!(frame.content_type, SyncedContentType::Lyrics);
    assert_eq!(frame.desc, "Description");

    assert_eq!(frame.lyrics[0].time, 162_000);
    assert_eq!(frame.lyrics[0].text, "You don't remember, you don't remember\n");
    assert_eq!(frame.lyrics[1].time, 166_000);
    assert_eq!(frame.lyrics[1].text, "Why don't you remember my name?\n");
}

#[test]
fn parse_bomless_sylt() {
    let data = b"SYLT\x00\x00\x01\x3a\x00\x00\
                \x01\
                eng\
                \x02\x01\
                \xFF\xFE\x44\x00\x65\x00\x73\x00\x63\x00\x72\x00\x69\x00\x70\x00\
                \x74\x00\x69\x00\x6f\x00\x6e\x00\0\0\
                \x59\x00\x6f\x00\x75\x00\x20\x00\x64\x00\x6f\x00\x6e\x00\
                \x27\x00\x74\x00\x20\x00\x72\x00\x65\x00\x6d\x00\x65\x00\x6d\x00\
                \x62\x00\x65\x00\x72\x00\x2c\x00\x20\x00\x79\x00\x6f\x00\x75\x00\
                \x20\x00\x64\x00\x6f\x00\x6e\x00\x27\x00\x74\x00\x20\x00\x72\x00\
                \x65\x00\x6d\x00\x65\x00\x6d\x00\x62\x00\x65\x00\x72\x00\x0a\x00\0\0\
                \x00\x02\x78\xD0\
                \x57\x00\x68\x00\x79\x00\x20\x00\x64\x00\x6f\x00\x6e\x00\
                \x27\x00\x74\x00\x20\x00\x79\x00\x6f\x00\x75\x00\x20\x00\x72\x00\
                \x65\x00\x6d\x00\x65\x00\x6d\x00\x62\x00\x65\x00\x72\x00\x20\x00\
                \x6d\x00\x79\x00\x20\x00\x6e\x00\x61\x00\x6d\x00\x65\x00\x3f\x00\
                \x0a\x00\0\0\
                \x00\x02\x88\x70";

    let frame = match parse_any(Version::V24, data) {
        AnyFrame::SyncedLyrics(f) => f,
        _ => panic!("not a SYLT frame"),
    };

    assert_eq!(frame.encoding, Encoding::Utf16);
    assert_eq!(frame.lang.code(), b"eng");
    assert_eq!(frame.format, TimestampFormat::Millis);
    assert_eq!(frame.content_type, SyncedContentType::Lyrics);
    assert_eq!(frame.desc, "Description");

    assert_eq!(frame.lyrics[0].time, 162_000);
    assert_eq!(frame.lyrics[0].text, "You don't remember, you don't remember\n");
    assert_eq!(frame.lyrics[1].time, 166_000);
    assert_eq!(frame.lyrics[1].text, "Why don't you remember my name?\n");
}

#[test]
fn render_uslt() {
    let frame = UnsyncLyricsFrame {
        encoding: Encoding::Latin1,
        lang: Language::new(b"eng"),
        desc: String::from("Description"),
        lyrics: String::from(
            "Jumped in the river, what did I see?\n\
            Black eyed angels swam with me\n",
        ),
    };

    assert_eq!(render_v4(AnyFrame::UnsyncLyrics(frame)), USLT_DATA);
}

#[test]
fn lyrics_render_sylt() {
    let frame = SyncedLyricsFrame {
        encoding: Encoding::Utf8,
        lang: Language::new(b"eng"),
        format: TimestampFormat::Millis,
        content_type: SyncedContentType::Lyrics,
        desc: String::from("Description"),
        lyrics: vec![
            SyncedText {
                text: String::from("You don't remember, you don't remember\n"),
                time: 162_000,
            },
            SyncedText {
                text: String::from("Why don't you remember my name?\n"),
                time: 166_000,
            },
        ],
    };

    assert_eq!(frame.display(), "You don't remember, you don't remember\nWhy don't you remember my name?");
    assert_eq!(render_v4(AnyFrame::SyncedLyrics(frame)), SYLT_DATA);
}

#[test]
fn sylt_cut_short_before_a_bom_is_an_error() {
    // One byte is left where a lyric should start.
    let data = b"SYLT\x00\x00\x00\x0C\x00\x00\x03eng\x02\x01Desc\0\x41";
    let result = frames::parse(
        &TagHeader::with_version(Version::V24),
        &mut BufStream::new(data),
        &DefaultFrameParser { strict: true },
    );
    assert!(matches!(result, Err(musikr::id3v2::ParseError::IoError(_))));
}

// ---- Event frames ----

const ETCO_DATA: &[u8] = b"ETCO\x00\x00\x00\x15\x00\x00\
                           \x02\
                           \x02\
                           \x00\x00\x00\x0E\
                           \x10\
                           \x00\x00\x04\xD2\
                           \x03\
                           \x00\x02\x77\x50\
                           \x11\
                           \x00\x0F\x42\x3F";

const SYTC_DATA: &[u8] = b"SYTC\x00\x00\x00\x22\x00\x00\
                           \x02\
                           \x00\
                           \x00\x00\x00\x0E\
                           \x01\
                           \x00\x00\x04\xD2\
                           \xFF\x00\
                           \x00\x02\x77\x50\
                           \xFF\xFF\
                           \x00\x0F\x42\x3F\
                           \x16\
                           \x16\x16\x16\x16\
                           \xFF\xA0\
                           \x00\x00\x00\x00";

#[test]
fn parse_etco() {
    let frame = match parse_any(Version::V24, ETCO_DATA) {
        AnyFrame::EventTimingCodes(f) => f,
        _ => panic!("not an ETCO frame"),
    };

    assert_eq!(frame.format, TimestampFormat::Millis);
    assert_eq!(frame.events[0].event_type, EventType::IntroStart);
    assert_eq!(frame.events[0].time, 14);
    assert_eq!(frame.events[1].event_type, EventType::IntroEnd);
    assert_eq!(frame.events[1].time, 1234);
    assert_eq!(frame.events[2].event_type, EventType::MainPartStart);
    assert_eq!(frame.events[2].time, 161616);
    assert_eq!(frame.events[3].event_type, EventType::MainPartEnd);
    assert_eq!(frame.events[3].time, 999_999);
}

#[test]
fn render_etco() {
    let frame = EventTimingCodesFrame {
        format: TimestampFormat::Millis,
        events: vec![
            Event {
                event_type: EventType::IntroStart,
                time: 14,
            },
            Event {
                event_type: EventType::IntroEnd,
                time: 1234,
            },
            Event {
                event_type: EventType::MainPartStart,
                time: 161616,
            },
            Event {
                event_type: EventType::MainPartEnd,
                time: 999_999,
            },
        ],
    };

    assert_eq!(frame.display(), "IntroStart, IntroEnd, MainPartStart, MainPartEnd");
    assert_eq!(render_v4(AnyFrame::EventTimingCodes(frame)), ETCO_DATA);
}

#[test]
fn events_parse_sylt() {
    let mut stream = BufStream::new(&SYTC_DATA[10..]);
    let frame = SyncedTempoCodesFrame::parse(&mut stream).unwrap();

    assert_eq!(frame.format, TimestampFormat::Millis);
    assert_eq!(frame.tempos[0], Tempo { bpm: Bpm(0), time: 14 });
    assert_eq!(frame.tempos[1], Tempo { bpm: Bpm(1), time: 1234 });
    assert_eq!(frame.tempos[2], Tempo { bpm: Bpm(255), time: 161616 });
    assert_eq!(frame.tempos[3], Tempo { bpm: Bpm(510), time: 999_999 });
    assert_eq!(frame.tempos[4], Tempo { bpm: Bpm(22), time: 0x16161616 });
    assert_eq!(frame.tempos[5], Tempo { bpm: Bpm(415), time: 0 });
}

#[test]
fn events_render_sylt() {
    let frame = SyncedTempoCodesFrame {
        format: TimestampFormat::Millis,
        tempos: vec![
            Tempo { bpm: Bpm(0), time: 14 },
            Tempo { bpm: Bpm(1), time: 1234 },
            Tempo { bpm: Bpm(255), time: 161616 },
            Tempo { bpm: Bpm(510), time: 999_999 },
            Tempo { bpm: Bpm(22), time: 0x16161616 },
            Tempo { bpm: Bpm(415), time: 0 },
        ],
    };

    assert_eq!(frame.display(), "0, 1, 255, 510, 22, 415");
    assert_eq!(render_v4(AnyFrame::SyncedTempoCodes(frame)), SYTC_DATA);
}

#[test]
fn parse_timestamp_format() {
    assert_eq!(TimestampFormat::parse(0), TimestampFormat::Other);
    assert_eq!(TimestampFormat::parse(1), TimestampFormat::MpegFrames);
    assert_eq!(TimestampFormat::parse(2), TimestampFormat::Millis);

    for i in 3..u8::MAX {
        assert_eq!(TimestampFormat::parse(i), TimestampFormat::Other)
    }
}

#[test]
fn render_timestamp_format() {
    assert_eq!(TimestampFormat::Other.to_byte(), 0);
    assert_eq!(TimestampFormat::MpegFrames.to_byte(), 1);
    assert_eq!(TimestampFormat::Millis.to_byte(), 2);
}

#[test]
fn tempos_above_510_are_capped() {
    let frame = SyncedTempoCodesFrame {
        format: TimestampFormat::Millis,
        tempos: vec![Tempo { bpm: Bpm(600), time: 1 }],
    };
    assert_eq!(
        render_v4(AnyFrame::SyncedTempoCodes(frame)),
        b"SYTC\x00\x00\x00\x07\x00\x00\x02\xFF\xFF\x00\x00\x00\x01"
    );
}

// ---- File frames ----

const APIC_DATA: &[u8] = b"APIC\x00\x00\x00\x25\x00\x00\
                           \x00\
                           image/png\0\
                           \x03\
                           Geogaddi_Cover.png\0\
                           \x16\x16\x16\x16\x16\x16";

const APIC_V2_DATA: &[u8] = b"PIC\x00\x00\x1e\
                              \x00\
                              PNG\
                              \x03\
                              Geogaddi_Cover.png\0\
                              \x16\x16\x16\x16\x16\x16";

const GEOB_DATA: &[u8] = b"GEOB\x00\x00\x00\x38\x00\x00\
                           \x01\
                           text/txt\0\
                           \xFF\xFE\x4c\x00\x79\x00\x72\x00\x69\x00\x63\x00\x73\x00\x2e\x00\x6c\x00\x72\x00\x63\x00\0\0\
                           \xFF\xFE\x4c\x00\x79\x00\x72\x00\x69\x00\x63\x00\x73\x00\0\0\
                           \x16\x16\x16\x16\x16\x16";

#[test]
fn file_parse_apic() {
    let frame = match parse_any(Version::V24, APIC_DATA) {
        AnyFrame::AttachedPicture(f) => f,
        _ => panic!("not an APIC frame"),
    };

    assert_eq!(frame.encoding, Encoding::Latin1);
    assert_eq!(frame.mime, "image/png");
    assert_eq!(frame.pic_type, PictureType::FrontCover);
    assert_eq!(frame.desc, "Geogaddi_Cover.png");
    assert_eq!(frame.picture, b"\x16\x16\x16\x16\x16\x16");
}

#[test]
fn parse_apic_v2() {
    let frame = match parse_any(Version::V22, APIC_V2_DATA) {
        AnyFrame::AttachedPicture(f) => f,
        _ => panic!("not an APIC frame"),
    };

    assert_eq!(frame.encoding, Encoding::Latin1);
    assert_eq!(frame.mime, "image/png");
    assert_eq!(frame.pic_type, PictureType::FrontCover);
    assert_eq!(frame.desc, "Geogaddi_Cover.png");
    assert_eq!(frame.picture, b"\x16\x16\x16\x16\x16\x16");
}

#[test]
fn file_parse_geob() {
    let frame = match parse_any(Version::V24, GEOB_DATA) {
        AnyFrame::GeneralObject(f) => f,
        _ => panic!("not a GEOB frame"),
    };

    assert_eq!(frame.encoding, Encoding::Utf16);
    assert_eq!(frame.mime, "text/txt");
    assert_eq!(frame.filename, "Lyrics.lrc");
    assert_eq!(frame.desc, "Lyrics");
    assert_eq!(frame.data, b"\x16\x16\x16\x16\x16\x16")
}

#[test]
fn render_apic() {
    let frame = AttachedPictureFrame {
        encoding: Encoding::Latin1,
        mime: String::from("image/png"),
        pic_type: PictureType::FrontCover,
        desc: String::from("Geogaddi_Cover.png"),
        picture: b"\x16\x16\x16\x16\x16\x16".to_vec(),
    };

    assert_eq!(frame.display(), "image/png \"Geogaddi_Cover.png\" [FrontCover]");
    assert_eq!(render_v4(AnyFrame::AttachedPicture(frame)), APIC_DATA);
}

#[test]
fn render_geob() {
    let frame = GeneralObjectFrame {
        encoding: Encoding::Utf16,
        mime: String::from("text/txt"),
        filename: String::from("Lyrics.lrc"),
        desc: String::from("Lyrics"),
        data: b"\x16\x16\x16\x16\x16\x16".to_vec(),
    };

    assert_eq!(frame.display(), "text/txt \"Lyrics.lrc\" [Lyrics]");
    assert_eq!(render_v4(AnyFrame::GeneralObject(frame)), GEOB_DATA);
}

#[test]
fn empty_apic_mime_is_image() {
    let data = b"APIC\x00\x00\x00\x04\x00\x00\x00\0\x03\0";
    let frame = match parse_any(Version::V24, data) {
        AnyFrame::AttachedPicture(f) => f,
        _ => panic!("not an APIC frame"),
    };
    assert_eq!(frame.mime, "image/");
    assert!(frame.is_empty());
}

// ---- Audio frames ----

const RVAD_DATA: &[u8] = b"RVAD\x00\x00\x00\x32\x00\x00\
                          \x2d\x20\
                          \xAB\xCD\xEF\x16\
                          \x01\x02\x04\x08\
                          \x16\x16\x16\x16\
                          \x00\x00\x00\x00\
                          \x00\xFF\x00\xFF\
                          \xFF\x00\xFF\x00\
                          \x61\xFE\xDC\xBA\
                          \x20\x40\x80\x00\
                          \x00\x00\x00\x00\
                          \x00\x00\x10\x10\
                          \x4F\x58\x43\x42\
                          \xFF\xFF\xFF\xFF";

const RVAD_DATA_V2: &[u8] = b"RVA\x00\x00\x0A\
                              \x02\x10\
                              \x12\x34\
                              \x00\x00\
                              \x16\x16\
                              \xAB\xCD";

#[test]
fn v23_parse_rvad() {
    let frame = match parse_any(Version::V23, RVAD_DATA) {
        AnyFrame::RelativeVolume(f) => f,
        _ => panic!("not an RVAD frame"),
    };

    assert_eq!(frame.right.volume, Volume::Increment(0xABCDEF16));
    assert_eq!(frame.left.volume, Volume::Decrement(0x01020408));
    assert_eq!(frame.right.peak, 0x16161616);
    assert_eq!(frame.left.peak, 0);

    assert_eq!(frame.right_back.volume, Volume::Increment(0x00FF00FF));
    assert_eq!(frame.left_back.volume, Volume::Increment(0xFF00FF00));
    assert_eq!(frame.right_back.peak, 0x61FEDCBA);
    assert_eq!(frame.left_back.peak, 0x20408000);

    assert_eq!(frame.center.volume, Volume::Decrement(0));
    assert_eq!(frame.center.peak, 0x1010);

    assert_eq!(frame.bass.volume, Volume::Increment(0x4F584342));
    assert_eq!(frame.bass.peak, 0xFFFFFFFF);
}

#[test]
fn v23_parse_rvad_v2() {
    let frame = match parse_any(Version::V22, RVAD_DATA_V2) {
        AnyFrame::RelativeVolume(f) => f,
        _ => panic!("not an RVAD frame"),
    };

    assert_eq!(frame.right.volume, Volume::Decrement(0x1234));
    assert_eq!(frame.left.volume, Volume::Increment(0x0000));
    assert_eq!(frame.right.peak, 0x1616);
    assert_eq!(frame.left.peak, 0xABCD);
}

#[test]
fn v23_render_rvad() {
    let frame = RelativeVolumeFrame {
        right: VolumeAdjustment {
            volume: Volume::Increment(0xABCDEF16),
            peak: 0x16161616,
        },
        left: VolumeAdjustment {
            volume: Volume::Decrement(0x01020408),
            peak: 0,
        },
        right_back: VolumeAdjustment {
            volume: Volume::Increment(0x00FF00FF),
            peak: 0x61FEDCBA,
        },
        left_back: VolumeAdjustment {
            volume: Volume::Increment(0xFF00FF00),
            peak: 0x20408000,
        },
        center: VolumeAdjustment {
            volume: Volume::Decrement(0),
            peak: 0x1010,
        },
        bass: VolumeAdjustment {
            volume: Volume::Increment(0x4F584342),
            peak: 0xFFFFFFFF,
        },
    };

    assert_eq!(frame.display(), "2882400022R, -16909320L");
    assert_eq!(render_v4(AnyFrame::RelativeVolume(frame)), RVAD_DATA);
}

const EQUA_DATA: &[u8] = b"EQUA\x00\x00\x00\x0D\x00\x00\
                           \x10\
                           \x00\x00\
                           \x12\x34\
                           \xAB\xCD\
                           \x00\x00\
                           \xFF\xCD\
                           \x16\x16";

#[test]
fn parse_equa() {
    let frame = match parse_any(Version::V23, EQUA_DATA) {
        AnyFrame::Equalization(f) => f,
        _ => panic!("not an EQUA frame"),
    };

    assert_eq!(frame.adjustments[&0x7FCD], Volume::Increment(0x1616));
    assert_eq!(frame.adjustments[&0], Volume::Decrement(0x1234));
    assert_eq!(frame.adjustments[&0x2BCD], Volume::Increment(0));
}

#[test]
fn render_equa() {
    let mut frame = EqualizationFrame::default();

    frame.adjustments.insert(0x7FCD, Volume::Increment(0x1616));
    frame.adjustments.insert(0, Volume::Decrement(0x1234));
    frame.adjustments.insert(0x2BCD, Volume::Increment(0));

    assert_eq!(frame.display(), "0, 11213, 32717");
    assert_eq!(
        frames::render(&TagHeader::with_version(Version::V23), &AnyFrame::Equalization(frame)).unwrap(),
        EQUA_DATA
    );
}

#[test]
fn equa_keeps_the_first_volume_of_a_frequency() {
    let data = b"EQUA\x00\x00\x00\x07\x00\x00\x08\x00\x05\x01\x80\x05\x02";
    let frame = match parse_any(Version::V23, data) {
        AnyFrame::Equalization(f) => f,
        _ => panic!("not an EQUA frame"),
    };
    assert_eq!(frame.adjustments.len(), 1);
    assert_eq!(frame.adjustments[&5], Volume::Decrement(1));
}

#[test]
fn equa_volume_size_fits_the_largest_volume() {
    let mut frame = EqualizationFrame::default();
    frame.adjustments.insert(1, Volume::Increment(0x123456));
    frame.adjustments.insert(2, Volume::Decrement(0x12));
    // The largest volume takes four bytes, so every volume does.
    let rendered = frame.render(&TagHeader::with_version(Version::V23));
    assert_eq!(rendered, b"\x20\x80\x01\x00\x12\x34\x56\x00\x02\x00\x00\x00\x12");
    let parsed = EqualizationFrame::parse(&mut BufStream::new(&rendered)).unwrap();
    assert_eq!(parsed.adjustments, frame.adjustments);
}

#[test]
fn rvad_field_size_fits_the_largest_field() {
    let frame = RelativeVolumeFrame {
        right: VolumeAdjustment { volume: Volume::Increment(0x1_0000_0000), peak: 0 },
        ..Default::default()
    };
    let rendered = frame.render(&TagHeader::with_version(Version::V23));
    assert_eq!(rendered.len(), 2 + 12 * 8);
    assert_eq!(rendered[0], 0x01);
    assert_eq!(rendered[1], 64);
    assert_eq!(&rendered[2..10], b"\x00\x00\x00\x01\x00\x00\x00\x00");
    assert!(rendered[10..].iter().all(|b| *b == 0));

    let parsed = RelativeVolumeFrame::parse(&mut BufStream::new(&rendered)).unwrap();
    assert_eq!(parsed.right.volume, Volume::Increment(0x1_0000_0000));
    assert_eq!(parsed.right.peak, 0);
    assert_eq!(parsed.left.volume, Volume::Decrement(0));
    assert_eq!(parsed.bass.volume, Volume::Decrement(0));
    assert_eq!(parsed.bass.peak, 0);
}

#[test]
fn rvad_fields_are_at_least_sixteen_bits() {
    let frame = RelativeVolumeFrame::default();
    let rendered = frame.render(&TagHeader::with_version(Version::V23));
    assert_eq!(rendered.len(), 2 + 12 * 2);
    assert_eq!(rendered[0], 0x00);
    assert_eq!(rendered[1], 16);
}

#[test]
fn rvad_with_zero_bits_is_malformed() {
    let data = b"RVAD\x00\x00\x00\x02\x00\x00\x03\x00";
    let result = frames::parse(
        &TagHeader::with_version(Version::V23),
        &mut BufStream::new(data),
        &DefaultFrameParser { strict: true },
    );
    assert!(matches!(result, Err(musikr::id3v2::ParseError::MalformedData)));
}

#[test]
fn rvad_is_unknown_in_v4() {
    let parsed = frames::parse(
        &TagHeader::with_version(Version::V24),
        &mut BufStream::new(RVAD_DATA),
        &DefaultFrameParser { strict: true },
    )
    .unwrap();
    assert!(matches!(parsed, ParsedFrame::Unknown(_)));
}

// ---- Encoding flags ----

#[test]
fn encoding_render_id3v2_encoding() {
    assert_eq!(encoding::render(Encoding::Latin1), 0x00);
    assert_eq!(encoding::render(Encoding::Utf16), 0x01);
    assert_eq!(encoding::render(Encoding::Utf16Be), 0x02);
    assert_eq!(encoding::render(Encoding::Utf8), 0x03);
    assert_eq!(encoding::render(Encoding::Utf16Le), 0x01);
}

#[test]
fn check_id3v2_encoding() {
    assert_eq!(encoding::check(Encoding::Utf16Le, Version::V24), Encoding::Utf16);
    assert_eq!(encoding::check(Encoding::Utf16Be, Version::V23), Encoding::Utf16);
    assert_eq!(encoding::check(Encoding::Utf8, Version::V23), Encoding::Utf16);
}

#[test]
fn v3_rendering_downgrades_utf8_text() {
    let mut frame = TextFrame::new(FrameId::new(b"TIT2"));
    frame.text = vec![String::from("a")];
    let data = frames::render(&TagHeader::with_version(Version::V23), &AnyFrame::Text(frame)).unwrap();
    // ID3v2.3 has no UTF-8: the text is written as UTF-16 with a byte order mark, under the
    // byte of the frame's own encoding.
    assert_eq!(data, b"TIT2\x00\x00\x00\x05\x00\x00\x03\xFF\xFEa\x00");
}

#[test]
fn v3_rendering_keeps_the_comment_encoding_byte_in_step() {
    let mut frame = CommentsFrame::default();
    frame.encoding = Encoding::Utf8;
    frame.text = String::from("a");
    let data = frame.render(&TagHeader::with_version(Version::V23));
    // Comments are flagged with the encoding their text is written in.
    assert_eq!(data[0], 0x01);
}

// ---- Frame headers ----

const DATA_V2: &[u8] = b"TT2\x00\x00\x09\x00Unspoken";
const DATA_V3: &[u8] = b"TIT2\x00\x00\x00\x09\x00\x00\x00Unspoken";
const DATA_V4: &[u8] = b"TIT2\x00\x00\x00\x09\x00\x00\x00Unspoken";

#[test]
fn parse_frame_v2() {
    let frame = parse_any(Version::V22, DATA_V2);
    assert_eq!(frame.id().inner(), *b"TIT2");
    assert_eq!(
        frames::render(&TagHeader::with_version(Version::V23), &frame).unwrap(),
        DATA_V3
    );
}

#[test]
fn parse_frame_v3() {
    let frame = parse_any(Version::V23, DATA_V3);
    assert_eq!(frame.id().inner(), *b"TIT2");
    assert_eq!(
        frames::render(&TagHeader::with_version(Version::V24), &frame).unwrap(),
        DATA_V4
    );
}

#[test]
fn parse_frame_v4() {
    let frame = parse_any(Version::V24, DATA_V4);
    assert_eq!(frame.id().inner(), *b"TIT2");
    assert_eq!(
        frames::render(&TagHeader::with_version(Version::V23), &frame).unwrap(),
        DATA_V3
    );
}

#[test]
fn parse_unknown_v2() {
    let data = b"ABC\x00\x00\x04\x16\x16\x16\x16";

    let frame = frames::parse(
        &TagHeader::with_version(Version::V22),
        &mut BufStream::new(data),
        &DefaultFrameParser { strict: true },
    )
    .unwrap();

    if let ParsedFrame::Unknown(unknown) = frame {
        assert_eq!(unknown.id(), b"ABC");
        assert_eq!(unknown.flags(), 0);
        assert_eq!(unknown.data(), b"\x16\x16\x16\x16");

        assert!(frames::render_unknown(&TagHeader::with_version(Version::V23), &unknown).is_empty());
    } else {
        panic!("frame is not unknown")
    }
}

#[test]
fn parse_unknown_v3() {
    let data = b"APIC\x00\x00\x00\x09\x00\x60\
                 \x16\x12\x34\x56\x78\x9A\xBC\xDE\xF0";

    let frame = frames::parse(
        &TagHeader::with_version(Version::V23),
        &mut BufStream::new(data),
        &DefaultFrameParser { strict: true },
    )
    .unwrap();

    if let ParsedFrame::Unknown(unknown) = frame {
        assert_eq!(unknown.id(), b"APIC");
        assert_eq!(unknown.flags(), 0x0060);
        assert_eq!(unknown.data(), b"\x16\x12\x34\x56\x78\x9A\xBC\xDE\xF0");

        assert_eq!(
            frames::render_unknown(&TagHeader::with_version(Version::V23), &unknown),
            data
        );
    } else {
        panic!("frame is not unknown")
    }
}

#[test]
fn unknown_frame_flags_are_rendered_as_they_were() {
    let data = b"APIC\x00\x00\x00\x09\x80\x40\
                 \x16\x12\x34\x56\x78\x9A\xBC\xDE\xF0";
    let frame = frames::parse(
        &TagHeader::with_version(Version::V23),
        &mut BufStream::new(data),
        &DefaultFrameParser { strict: true },
    )
    .unwrap();
    match frame {
        ParsedFrame::Unknown(unknown) => {
            assert_eq!(unknown.flags(), 0x8040);
            assert_eq!(frames::render_unknown(&TagHeader::with_version(Version::V23), &unknown), data);
        },
        _ => panic!("frame is not unknown"),
    }

    let data = b"TIT2\x00\x00\x00\x05\x40\x04\x01\x02\x03\x04\x05";
    let frame = frames::parse(
        &TagHeader::with_version(Version::V24),
        &mut BufStream::new(data),
        &DefaultFrameParser { strict: true },
    )
    .unwrap();
    match frame {
        ParsedFrame::Unknown(unknown) => {
            assert_eq!(unknown.flags(), 0x4004);
            assert_eq!(frames::render_unknown(&TagHeader::with_version(Version::V24), &unknown), data);
        },
        _ => panic!("frame is not unknown"),
    }
}

#[test]
fn parse_unknown_v4() {
    let data = b"TIT2\x00\x00\x00\x0F\x00\x06\
                 \x16\x16\x16\x16\xFF\x00\xE0\x12\x34\x56\x78\x9A\xBC\xDE\xF0";

    let out = b"TIT2\x00\x00\x00\x0E\x00\x04\
                \x16\x16\x16\x16\xFF\xE0\x12\x34\x56\x78\x9A\xBC\xDE\xF0";

    let frame = frames::parse(
        &TagHeader::with_version(Version::V24),
        &mut BufStream::new(data),
        &DefaultFrameParser { strict: true },
    )
    .unwrap();

    if let ParsedFrame::Unknown(unknown) = frame {
        assert_eq!(unknown.id(), b"TIT2");
        assert_eq!(unknown.flags(), 0x006);
        assert_eq!(
            unknown.data(),
            b"\x16\x16\x16\x16\xFF\xE0\x12\x34\x56\x78\x9A\xBC\xDE\xF0"
        );

        assert_eq!(
            frames::render_unknown(&TagHeader::with_version(Version::V24), &unknown),
            out
        );
    } else {
        panic!("frame is not unknown")
    }
}

#[test]
fn empty_frames_are_dropped() {
    let data = b"TIT2\x00\x00\x00\x00\x00\x00TPE1";
    let mut stream = BufStream::new(data);
    let parsed = frames::parse(
        &TagHeader::with_version(Version::V23),
        &mut stream,
        &DefaultFrameParser { strict: true },
    )
    .unwrap();
    assert!(matches!(parsed, ParsedFrame::Dropped));
    assert_eq!(stream.pos(), 10);
}

#[test]
fn v3_legacy_ids_are_corrected() {
    let data = b"TT2\x00\x00\x00\x00\x02\x00\x00\x00a";
    let frame = parse_any(Version::V23, data);
    assert_eq!(frame.id().inner(), *b"TIT2");
}

#[test]
fn invalid_frame_ids_are_malformed() {
    let data = b"tit2\x00\x00\x00\x02\x00\x00\x00a";
    let result = frames::parse(
        &TagHeader::with_version(Version::V23),
        &mut BufStream::new(data),
        &DefaultFrameParser { strict: true },
    );
    assert!(matches!(result, Err(musikr::id3v2::ParseError::MalformedData)));
}

#[test]
fn itunes_v4_sizes_are_corrected() {
    // A size of 256 written as a plain number reads as 128 when syncsafe.
    let mut data = b"TIT2\x00\x00\x01\x00\x00\x00\x00".to_vec();
    data.extend(vec![b'a'; 255]);
    data.extend(b"TPE1\x00\x00\x00\x02\x00\x00\x00b");
    let mut stream = BufStream::new(&data);
    let parsed = frames::parse(
        &TagHeader::with_version(Version::V24),
        &mut stream,
        &DefaultFrameParser { strict: true },
    )
    .unwrap();
    assert!(matches!(parsed, ParsedFrame::Frame(AnyFrame::Text(_))));
    // The plain size (256) leads to TPE1, so it is used.
    assert_eq!(stream.pos(), 10 + 256);
}

#[test]
fn compressed_frames_are_inflated() {
    // A Latin-1 "Hello" body compressed with zlib.
    let compressed: &[u8] = b"\x78\x9c\x63\xf0\x48\xcd\xc9\xc9\x07\x00\x05\x8d\x01\xf5";
    let mut data = b"TIT2\x00\x00\x00".to_vec();
    data.push((compressed.len() + 4) as u8);
    data.extend(b"\x00\x80\x00\x00\x00\x06");
    data.extend(compressed);
    let frame = match parse_any(Version::V23, &data) {
        AnyFrame::Text(f) => f,
        _ => panic!("not a text frame"),
    };
    assert_eq!(frame.encoding, Encoding::Latin1);
    assert_eq!(frame.text[0], "Hello");
}

#[test]
fn broken_compressed_frames_are_unknown() {
    let data = b"TIT2\x00\x00\x00\x08\x00\x80\x00\x00\x00\x06\xFF\xFF\xFF\xFF";
    let parsed = frames::parse(
        &TagHeader::with_version(Version::V23),
        &mut BufStream::new(data),
        &DefaultFrameParser { strict: true },
    )
    .unwrap();
    match parsed {
        ParsedFrame::Unknown(unknown) => {
            assert_eq!(unknown.flags(), 0x80);
            assert_eq!(unknown.data(), b"\x00\x00\x00\x06\xFF\xFF\xFF\xFF");
        }
        _ => panic!("frame is not unknown"),
    }
}

// ---- Frames read back what they write ----

fn reparse(version: Version, frame: AnyFrame) -> AnyFrame {
    let data = frames::render(&TagHeader::with_version(version), &frame).unwrap();
    parse_any(version, &data)
}

#[test]
fn text_frames_read_back() {
    let mut frame = TextFrame::with_strings(
        FrameId::new(b"TPE1"),
        vec![String::from("Sigur Rós"), String::from("Björk")],
    );
    frame.encoding = Encoding::Utf16;
    match reparse(Version::V23, AnyFrame::Text(frame.clone())) {
        AnyFrame::Text(f) => {
            assert_eq!(f.encoding, Encoding::Utf16);
            assert_eq!(f.strings(), frame.strings());
        }
        _ => panic!("not a text frame"),
    }

    // UTF-8 text is written as UTF-16 in ID3v2.3 tags, under the byte of UTF-8, so it does
    // not read back as it was.
    frame.encoding = Encoding::Utf8;
    let data = frames::render(&TagHeader::with_version(Version::V23), &AnyFrame::Text(frame.clone())).unwrap();
    assert_eq!(data[10], 0x03);
    assert_eq!(&data[11..13], b"\xFF\xFE");

    match reparse(Version::V24, AnyFrame::Text(frame.clone())) {
        AnyFrame::Text(f) => {
            assert_eq!(f.encoding, Encoding::Utf8);
            assert_eq!(f.strings(), frame.strings());
        }
        _ => panic!("not a text frame"),
    }
}

#[test]
fn user_text_and_comments_read_back() {
    let frame = UserTextFrame {
        encoding: Encoding::Utf16Be,
        desc: String::from("replaygain_track_gain"),
        text: vec![String::from("-7.429688 dB"), String::from("x")],
    };
    match reparse(Version::V24, AnyFrame::UserText(frame)) {
        AnyFrame::UserText(f) => {
            assert_eq!(f.encoding, Encoding::Utf16Be);
            assert_eq!(f.desc, "replaygain_track_gain");
            assert_eq!(f.text, vec!["-7.429688 dB", "x"]);
        }
        _ => panic!("not a TXXX frame"),
    }

    let comment = CommentsFrame {
        encoding: Encoding::Latin1,
        lang: Language::new(b"eng"),
        desc: String::from("Description"),
        text: String::from("Très bien"),
    };
    match reparse(Version::V23, AnyFrame::Comments(comment)) {
        AnyFrame::Comments(f) => {
            assert_eq!(f.encoding, Encoding::Latin1);
            assert_eq!(f.lang.code(), b"eng");
            assert_eq!(f.desc, "Description");
            assert_eq!(f.text, "Très bien");
        }
        _ => panic!("not a COMM frame"),
    }
}

#[test]
fn urls_read_back() {
    let frame = UserUrlFrame {
        encoding: Encoding::Utf16,
        desc: String::from("Bandcamp"),
        url: String::from("https://example.com/album"),
    };
    match reparse(Version::V23, AnyFrame::UserUrl(frame)) {
        AnyFrame::UserUrl(f) => {
            assert_eq!(f.encoding, Encoding::Utf16);
            assert_eq!(f.desc, "Bandcamp");
            assert_eq!(f.url, "https://example.com/album");
        }
        _ => panic!("not a WXXX frame"),
    }

    let mut link = UrlFrame::new(FrameId::new(b"WOAR"));
    link.url = String::from("https://example.com");
    match reparse(Version::V24, AnyFrame::Url(link)) {
        AnyFrame::Url(f) => assert_eq!(f.url, "https://example.com"),
        _ => panic!("not a URL frame"),
    }
}
