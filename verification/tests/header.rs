use musikr::id3v2::header::{ExtendedHeader, FrameFlags, FrameHeader, TagHeader};
use musikr::id3v2::tag::{
    self, ImageEncodingRestriction, ImageSizeRestriction, Restrictions, TagSizeRestriction,
    TextEncodingRestriction, TextSizeRestriction, Version,
};
use musikr::io::BufStream;
use musikr::raw;

const EXT_DATA_V3: &[u8] = b"\x00\x00\x00\x0A\x80\x00\xAB\xCD\xEF\x16\x16\x16\x16\x16";
const EXT_DATA_V4: &[u8] = b"\x00\x00\x00\x0F\x01\x70\x00\x05\x07\x5E\x37\x5E\x16\x01\xB4";

#[test]
fn tag_parse_v3_tag_header() {
    let data = b"\x49\x44\x33\x03\x00\xA0\x00\x08\x49\x30";
    let header = tag::TagHeader::parse(*data).unwrap();
    let flags = header.flags();

    assert_eq!(header.size(), 140464);
    assert_eq!(header.version(), Version::V23);

    assert!(flags.unsync);
    assert!(!flags.extended);
    assert!(flags.experimental);
}

#[test]
fn tag_parse_v4_tag_header() {
    let data = b"\x49\x44\x33\x04\x00\x50\x00\x08\x49\x30";
    let header = tag::TagHeader::parse(*data).unwrap();
    let flags = header.flags();

    assert_eq!(header.size(), 140464);
    assert_eq!(header.version(), Version::V24);

    assert!(!flags.unsync);
    assert!(flags.extended);
    assert!(!flags.experimental);
    assert!(flags.footer);
}

#[test]
fn tag_parse_v3_ext_header() {
    let header =
        tag::ExtendedHeader::parse(&mut BufStream::new(EXT_DATA_V3), Version::V23).unwrap();

    assert_eq!(header.padding_size, Some(0xABCDEF16));
    assert_eq!(header.crc32, Some(0x16161616));
    assert!(!header.is_update);
    assert_eq!(header.restrictions, None);
}

#[test]
fn tag_parse_v4_ext_header() {
    let header =
        tag::ExtendedHeader::parse(&mut BufStream::new(EXT_DATA_V4), Version::V24).unwrap();

    assert_eq!(header.padding_size, None);
    assert_eq!(header.crc32, Some(0x7BCDEF16));
    assert!(header.is_update);

    let restrictions = header.restrictions.unwrap();

    assert_eq!(restrictions.tag_size, TagSizeRestriction::Max32Frames40Kb);
    assert_eq!(restrictions.text_encoding, TextEncodingRestriction::Latin1OrUtf8);
    assert_eq!(restrictions.text_size, TextSizeRestriction::LessThan128Chars);
    assert_eq!(restrictions.image_encoding, ImageEncodingRestriction::OnlyPngOrJpeg);
    assert_eq!(restrictions.image_size, ImageSizeRestriction::Unrestricted);
}

#[test]
fn render_v3_ext_header() {
    let header = tag::ExtendedHeader {
        padding_size: Some(0xABCDEF16),
        crc32: Some(0x16161616),
        ..Default::default()
    };

    assert_eq!(header.render(Version::V23), EXT_DATA_V3);
}

#[test]
fn render_v4_ext_header() {
    let header = tag::ExtendedHeader {
        crc32: Some(0x7BCDEF16),
        is_update: true,
        restrictions: Some(Restrictions {
            tag_size: TagSizeRestriction::Max32Frames40Kb,
            text_encoding: TextEncodingRestriction::Latin1OrUtf8,
            text_size: TextSizeRestriction::LessThan128Chars,
            image_encoding: ImageEncodingRestriction::OnlyPngOrJpeg,
            image_size: ImageSizeRestriction::Unrestricted,
        }),
        ..Default::default()
    };

    assert_eq!(header.render(Version::V24), EXT_DATA_V4);
}

#[test]
fn tag_header_render_parse() {
    let data = [0x49, 0x44, 0x33, 0x04, 0x00, 0x50, 0x00, 0x08, 0x49, 0x30];
    let header = tag::TagHeader::parse(data).unwrap();
    assert_eq!(header.render(), data);
}

#[test]
fn bad_tag_headers_are_rejected() {
    assert!(tag::TagHeader::parse(*b"ID4\x04\x00\x00\x00\x00\x00\x00").is_err());
    assert!(tag::TagHeader::parse(*b"ID3\x05\x00\x00\x00\x00\x00\x00").is_err());
    assert!(tag::TagHeader::parse(*b"ID3\x04\x00\x00\x80\x00\x00\x00").is_err());
}

#[test]
fn header_parse_v3_tag_header() {
    let data = b"\x49\x44\x33\x03\x00\xA0\x00\x08\x49\x30";
    let header = TagHeader::parse(&data[..]).unwrap();
    let flags = header.flags();

    assert_eq!(header.size(), 140464);
    assert_eq!(header.major(), 3);
    assert_eq!(header.minor(), 0);

    assert!(flags.unsync);
    assert!(!flags.extended);
    assert!(flags.experimental);
}

#[test]
fn header_parse_v4_tag_header() {
    let data = b"\x49\x44\x33\x04\x00\x50\x00\x08\x49\x30";
    let header = TagHeader::parse(&data[..]).unwrap();
    let flags = header.flags();

    assert_eq!(header.size(), 140464);
    assert_eq!(header.major(), 4);
    assert_eq!(header.minor(), 0);

    assert!(!flags.unsync);
    assert!(flags.extended);
    assert!(!flags.experimental);
    assert!(flags.footer);
}

#[test]
fn header_parse_v3_ext_header() {
    let data = b"\x00\x00\x00\x06\x16\x16\x16\x16\x16\x16";
    let header = ExtendedHeader::parse(3, &data[..]).unwrap();

    assert_eq!(header.size(), 6);
    assert_eq!(header.data(), &vec![0x16; 6]);
}

#[test]
fn header_parse_v4_ext_header() {
    let data = b"\x00\x00\x00\x0A\x01\x16\x16\x16\x16\x16";
    let header = ExtendedHeader::parse(4, &data[..]).unwrap();

    assert_eq!(header.size(), 10);
    assert_eq!(header.data(), &vec![0x01, 0x16, 0x16, 0x16, 0x16, 0x16]);
}

#[test]
fn parse_v3_frame_header() {
    let data = b"TXXX\x00\x0A\x71\x7B\xA0\x40";
    let header = FrameHeader::parse(3, &data[..]).unwrap();
    let flags = header.flags();

    assert_eq!(header.id(), "TXXX");
    assert_eq!(header.size(), 684411);

    assert!(flags.tag_should_discard);
    assert!(!flags.file_should_discard);
    assert!(flags.read_only);

    assert!(!flags.compressed);
    assert!(flags.encrypted);
    assert!(!flags.has_group);
}

#[test]
fn parse_v4_frame_header() {
    let data = b"TXXX\x00\x34\x10\x2A\x50\x4B";
    let header = FrameHeader::parse(4, &data[..]).unwrap();
    let flags = header.flags();

    assert_eq!(header.id(), "TXXX");
    assert_eq!(header.size(), 854058);

    assert!(flags.tag_should_discard);
    assert!(!flags.file_should_discard);
    assert!(flags.read_only);

    assert!(flags.has_group);
    assert!(flags.compressed);
    assert!(!flags.encrypted);
    assert!(flags.unsync);
    assert!(flags.has_data_len);
}

#[test]
fn frame_header_with_bad_id_is_rejected() {
    assert!(FrameHeader::parse(3, b"txxx\x00\x00\x00\x01\x00\x00").is_err());
    assert!(FrameHeader::parse(2, b"TXXX\x00\x00\x00\x01\x00\x00").is_err());
}

#[test]
fn frame_headers_take_ids_with_z_and_nine() {
    let header = FrameHeader::new("TSIZ");
    assert_eq!(header.id(), "TSIZ");
    assert_eq!(header.size(), 0);
    assert_eq!(*header.flags(), FrameFlags::default());

    let header = FrameHeader::parse(3, b"TSIZ\x00\x00\x00\x01\x00\x00").unwrap();
    assert_eq!(header.id(), "TSIZ");
    let header = FrameHeader::parse(4, b"XYZ9\x00\x00\x00\x01\x00\x00").unwrap();
    assert_eq!(header.id(), "XYZ9");
    assert!(FrameHeader::parse(3, b"TSI[\x00\x00\x00\x01\x00\x00").is_err());
    assert!(FrameHeader::parse(3, b"TSI:\x00\x00\x00\x01\x00\x00").is_err());
}

#[test]
fn raw_parse_u32() {
    let data = vec![0xAB, 0xCD, 0xDE, 0xF0];

    assert_eq!(raw::to_u32(&data), 0xABCDDEF0);
}

#[test]
fn raw_parse_u16() {
    let data = vec![0xAB, 0xCD];

    assert_eq!(raw::to_u16(&data), 0xABCD);
}

#[test]
fn raw_parse_bit() {
    let data = 0b10101101;

    assert_eq!(raw::bit_at(0, data), true);
    assert_eq!(raw::bit_at(1, data), false);
    assert_eq!(raw::bit_at(2, data), true);
    assert_eq!(raw::bit_at(3, data), true);
    assert_eq!(raw::bit_at(4, data), false);
    assert_eq!(raw::bit_at(5, data), true);
    assert_eq!(raw::bit_at(6, data), false);
    assert_eq!(raw::bit_at(7, data), true);
}

#[test]
fn common_parse_u32() {
    let data = vec![0xAB, 0xCD, 0xDE, 0xF0];

    assert_eq!(raw::to_u32(&data), 0xABCDDEF0);
}

#[test]
fn common_parse_u16() {
    let data = vec![0xAB, 0xCD];

    assert_eq!(raw::to_u16(&data), 0xABCD);
}

#[test]
fn common_parse_bit() {
    let data = 0b10101101;

    assert_eq!(raw::bit_at(0, data), true);
    assert_eq!(raw::bit_at(1, data), false);
    assert_eq!(raw::bit_at(2, data), true);
    assert_eq!(raw::bit_at(3, data), true);
    assert_eq!(raw::bit_at(4, data), false);
    assert_eq!(raw::bit_at(5, data), true);
    assert_eq!(raw::bit_at(6, data), false);
    assert_eq!(raw::bit_at(7, data), true);
}

#[test]
fn sizes_of_short_slices() {
    assert_eq!(raw::to_size(&[0x01, 0x02]), 0x010200);
    assert_eq!(raw::to_u32(&[0x01, 0x02]), 0x010200);
    assert_eq!(raw::to_u16(&[0x07]), 0x07);
}
