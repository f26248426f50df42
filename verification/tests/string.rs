use musikr::id3v2::frames::encoding;
use musikr::id3v2::tag::Version;
use musikr::io::BufStream;
use musikr::string::{self, Encoding};

const STR_LATIN1: &str = "Lîke â while loop wïth nø escapê";
const STR_UNICODE: &str = "║ Lîke â 𝕨𝕙𝕚le l𝒐𝒐p wïth nø escapê ║";

const DATA_LATIN1: &[u8] = b"L\xEEke \xE2 while loop w\xEFth n\xF8 escap\xEA";
const DATA_LATIN1_LOSSY: &[u8] = b"? L\xEEke \xE2 ???le l??p w\xEFth n\xF8 escap\xEA ?";

const DATA_UTF16: &[u8] = b"\xFF\xFE\x51\x25\x20\x00\x4c\x00\xee\x00\x6b\x00\x65\x00\x20\x00\
                            \xe2\x00\x20\x00\x35\xd8\x68\xdd\x35\xd8\x59\xdd\x35\xd8\x5a\xdd\
                            \x6c\x00\x65\x00\x20\x00\x6c\x00\x35\xd8\x90\xdc\x35\xd8\x90\xdc\
                            \x70\x00\x20\x00\x77\x00\xef\x00\x74\x00\x68\x00\x20\x00\x6e\x00\
                            \xf8\x00\x20\x00\x65\x00\x73\x00\x63\x00\x61\x00\x70\x00\xea\x00\
                            \x20\x00\x51\x25";

const DATA_UTF16BE: &[u8] = b"\x25\x51\x00\x20\x00\x4c\x00\xee\x00\x6b\x00\x65\x00\x20\x00\xe2\
                              \x00\x20\xd8\x35\xdd\x68\xd8\x35\xdd\x59\xd8\x35\xdd\x5a\x00\x6c\
                              \x00\x65\x00\x20\x00\x6c\xd8\x35\xdc\x90\xd8\x35\xdc\x90\x00\x70\
                              \x00\x20\x00\x77\x00\xef\x00\x74\x00\x68\x00\x20\x00\x6e\x00\xf8\
                              \x00\x20\x00\x65\x00\x73\x00\x63\x00\x61\x00\x70\x00\xea\x00\x20\
                              \x25\x51";

const DATA_UTF8: &[u8] = b"\xe2\x95\x91\x20\x4c\xc3\xae\x6b\x65\x20\xc3\xa2\x20\xf0\x9d\x95\
                           \xa8\xf0\x9d\x95\x99\xf0\x9d\x95\x9a\x6c\x65\x20\x6c\xf0\x9d\x92\
                           \x90\xf0\x9d\x92\x90\x70\x20\x77\xc3\xaf\x74\x68\x20\x6e\xc3\xb8\
                           \x20\x65\x73\x63\x61\x70\xc3\xaa\x20\xe2\x95\x91";

const DATA_TERMINATED_LATIN1: &[u8] = b"L\xEEke \xE2 while loo\0p w\xEFth n\xF8 escap\xEA";

const DATA_TERMINATED_UTF16: &[u8] =
    b"\xFF\xFE\x51\x25\x20\x00\x4c\x00\xee\x00\x6b\x00\x65\x00\x20\x00\
      \xe2\x00\x20\x00\x35\xd8\x68\xdd\x35\xd8\x59\xdd\x35\xd8\x5a\xdd\
      \x6c\x00\x65\x00\x20\x00\x6c\x00\x35\xd8\x90\xdc\x35\xd8\x90\xdc\0\0\
      \xFF\xFE\x70\x00\x20\x00\x77\x00\xef\x00\x74\x00\x68\x00\x20\x00\
      \x6e\x00\xf8\x00\x20\x00\x65\x00\x73\x00\x63\x00\x61\x00\x70\x00\
      \xea\x00\x20\x00\x51\x25";

const OUT_NUL_LATIN1: &[u8] = b"\x4c\xee\x6b\x65\x20\xe2\x20\x77\x68\x69\x6c\x65\x20\x6c\x6f\x6f\
                                \x70\x20\x77\xef\x74\x68\x20\x6e\xf8\x20\x65\x73\x63\x61\x70\xea\0";

const OUT_NUL_UTF16: &[u8] = b"\xFF\xFE\x51\x25\x20\x00\x4c\x00\xee\x00\x6b\x00\x65\x00\x20\x00\
                               \xe2\x00\x20\x00\x35\xd8\x68\xdd\x35\xd8\x59\xdd\x35\xd8\x5a\xdd\
                               \x6c\x00\x65\x00\x20\x00\x6c\x00\x35\xd8\x90\xdc\x35\xd8\x90\xdc\
                               \x70\x00\x20\x00\x77\x00\xef\x00\x74\x00\x68\x00\x20\x00\x6e\x00\
                               \xf8\x00\x20\x00\x65\x00\x73\x00\x63\x00\x61\x00\x70\x00\xea\x00\
                               \x20\x00\x51\x25\0\0";

#[test]
fn string_parse_latin1() {
    assert_eq!(string::decode(Encoding::Latin1, DATA_LATIN1), STR_LATIN1);
}

#[test]
fn string_parse_utf16() {
    assert_eq!(string::decode(Encoding::Utf16, DATA_UTF16), STR_UNICODE);
}

#[test]
fn string_parse_utf16be() {
    assert_eq!(string::decode(Encoding::Utf16Be, DATA_UTF16BE), STR_UNICODE);
}

#[test]
fn string_parse_utf8() {
    assert_eq!(string::decode(Encoding::Utf8, DATA_UTF8), STR_UNICODE);
}

#[test]
fn string_parse_utf16le() {
    assert_eq!(string::decode(Encoding::Utf16Le, &DATA_UTF16[2..]), STR_UNICODE);
}

#[test]
fn string_render_latin1() {
    assert_eq!(string::render(Encoding::Latin1, STR_LATIN1), DATA_LATIN1);
}

#[test]
fn string_render_latin1_lossy() {
    assert_eq!(string::render(Encoding::Latin1, STR_UNICODE), DATA_LATIN1_LOSSY);
}

#[test]
fn string_render_utf16() {
    assert_eq!(string::render(Encoding::Utf16, STR_UNICODE), DATA_UTF16);
}

#[test]
fn string_render_utf16be() {
    assert_eq!(string::render(Encoding::Utf16Be, STR_UNICODE), DATA_UTF16BE);
}

#[test]
fn string_render_utf8() {
    assert_eq!(string::render(Encoding::Utf8, STR_UNICODE), DATA_UTF8);
}

#[test]
fn string_render_utf16le() {
    assert_eq!(string::render(Encoding::Utf16Le, STR_UNICODE), &DATA_UTF16[2..]);
}

#[test]
fn parse_terminated() {
    let mut stream = BufStream::new(DATA_TERMINATED_LATIN1);

    let terminated = string::read_terminated(Encoding::Latin1, &mut stream);
    assert_eq!(terminated, "Lîke â while loo");

    let rest = string::read_terminated(Encoding::Latin1, &mut stream);
    assert_eq!(rest, "p wïth nø escapê");
}

#[test]
fn parse_terminated_utf16() {
    let mut stream = BufStream::new(DATA_TERMINATED_UTF16);

    let terminated = string::read_terminated(Encoding::Utf16, &mut stream);
    assert_eq!(terminated, "║ Lîke â 𝕨𝕙𝕚le l𝒐𝒐");

    let rest = string::read_terminated(Encoding::Utf16, &mut stream);
    assert_eq!(rest, "p wïth nø escapê ║");
}

#[test]
fn render_nul() {
    assert_eq!(string::render_terminated(Encoding::Latin1, STR_LATIN1), OUT_NUL_LATIN1);
}

#[test]
fn render_nul_utf16() {
    assert_eq!(string::render_terminated(Encoding::Utf16, STR_UNICODE), OUT_NUL_UTF16);
}

#[test]
fn parse_nul_single() {
    let mut stream = BufStream::new(DATA_TERMINATED_LATIN1);

    let terminated = string::read_terminated(Encoding::Latin1, &mut stream);
    assert_eq!(stream.pos(), 17);
    assert_eq!(terminated, "Lîke â while loo");

    let rest = string::read_terminated(Encoding::Latin1, &mut stream);
    assert_eq!(stream.pos() - 17, 16);
    assert_eq!(rest, "p wïth nø escapê");
}

#[test]
fn parse_nul_double() {
    let mut stream = BufStream::new(DATA_TERMINATED_UTF16);

    let terminated = string::read_terminated(Encoding::Utf16, &mut stream);
    assert_eq!(stream.pos(), 50);
    assert_eq!(terminated, "║ Lîke â 𝕨𝕙𝕚le l𝒐𝒐");

    let rest = string::read_terminated(Encoding::Utf16, &mut stream);
    assert_eq!(stream.pos() - 50, 38);
    assert_eq!(rest, "p wïth nø escapê ║");
}

#[test]
fn render_nul_single() {
    assert_eq!(string::render_terminated(Encoding::Latin1, STR_LATIN1), OUT_NUL_LATIN1);
}

#[test]
fn render_nul_double() {
    assert_eq!(string::render_terminated(Encoding::Utf16, STR_UNICODE), OUT_NUL_UTF16);
}

#[test]
fn string_render_id3v2_encoding() {
    let v4 = |enc| encoding::render(encoding::check(enc, Version::V24));
    let v3 = |enc| encoding::render(encoding::check(enc, Version::V23));

    assert_eq!(v4(Encoding::Latin1), 0x00);
    assert_eq!(v4(Encoding::Utf16), 0x01);
    assert_eq!(v4(Encoding::Utf16Be), 0x02);
    assert_eq!(v4(Encoding::Utf8), 0x03);

    assert_eq!(v3(Encoding::Utf16Be), 0x01);
    assert_eq!(v3(Encoding::Utf8), 0x01);
    assert_eq!(v3(Encoding::Utf16Le), 0x01);
}

#[test]
fn terminated_without_nul_takes_the_rest() {
    let mut stream = BufStream::new(b"abc");
    assert_eq!(string::read_terminated(Encoding::Latin1, &mut stream), "abc");
    assert!(stream.is_empty());
}

#[test]
fn utf16_without_bom_is_big_endian() {
    assert_eq!(string::decode(Encoding::Utf16, b"\x00\x41\x00\x42"), "AB");
}

#[test]
fn lone_surrogates_decode_lossily() {
    assert_eq!(string::decode(Encoding::Utf16Be, b"\xd8\x35\x00\x41"), "\u{FFFD}A");
}

#[test]
fn decimal_renders_digits() {
    assert_eq!(string::decimal(0), "0");
    assert_eq!(string::decimal(140464), "140464");
    assert_eq!(string::decimal(u64::MAX), "18446744073709551615");
}

#[test]
fn terminated_strings_read_back() {
    for (encoding, text) in [
        (Encoding::Latin1, STR_LATIN1),
        (Encoding::Utf8, STR_UNICODE),
        (Encoding::Utf16, STR_UNICODE),
        (Encoding::Utf16Be, STR_UNICODE),
        (Encoding::Utf16Le, STR_UNICODE),
    ] {
        let mut data = string::render_terminated(encoding, text);
        data.extend(b"after");
        let mut stream = BufStream::new(&data);

        assert_eq!(string::read_terminated(encoding, &mut stream), text);
        assert_eq!(stream.take_rest(), b"after");
    }
}

#[test]
fn stream_search_finds_aligned_patterns() {
    let data = b"ab\0\0cd";
    let mut stream = BufStream::new(data);
    assert_eq!(stream.search(b"\0\0"), b"ab\0\0");
    assert_eq!(stream.pos(), 4);
    assert_eq!(stream.remaining(), 2);
    // A pattern that is not found takes the rest.
    assert_eq!(stream.search(b"\0\0"), b"cd");
    assert!(stream.is_empty());
    assert_eq!(stream.len(), data.len());
    assert_eq!(stream.to_vec(), data.to_vec());
}

#[test]
fn stream_search_for_nothing_does_not_move() {
    let data = b"abc";
    let mut stream = BufStream::new(data);
    stream.skip(1).unwrap();
    assert_eq!(stream.search(b""), b"");
    assert_eq!(stream.pos(), 1);
    assert_eq!(stream.remaining(), 2);
    assert_eq!(stream.len(), 3);
}

#[test]
fn stream_keeps_its_buffer_through_every_call() {
    let src: &[u8] = b"\x01\x02\x03\x04\x05\x06\x07\x08\x09\x0A\x0B\x0C\x0D\x0E\x0F\x10\x00\x00rest";
    let mut s = BufStream::new(src);
    let check = |s: &BufStream| {
        assert!(s.pos() <= s.len());
        assert_eq!(s.len(), src.len());
        assert_eq!(s.remaining(), s.len() - s.pos());
        assert_eq!(s.to_vec(), src.to_vec());
    };
    check(&s);
    assert_eq!(s.read_u8().unwrap(), 0x01);
    check(&s);
    assert_eq!(s.read_be_u16().unwrap(), 0x0203);
    check(&s);
    assert_eq!(s.read_le_u32().unwrap(), 0x07060504);
    check(&s);
    s.skip(1).unwrap();
    check(&s);
    assert_eq!(s.slice(2).unwrap(), b"\x09\x0A");
    check(&s);
    let mut buf = [0u8; 3];
    s.read_exact(&mut buf).unwrap();
    assert_eq!(buf, [0x0B, 0x0C, 0x0D]);
    check(&s);
    assert!(s.skip(1000).is_err());
    check(&s);
    assert_eq!(s.search(b"\x10"), b"\x0E\x0F\x10");
    check(&s);
    assert_eq!(s.take_rest(), b"\x00\x00rest");
    check(&s);
    assert!(s.read_u8().is_err());
    check(&s);
}
