//! Record decoding, serialization and classification.

use avirus::frame::Frame;

// "00dc": compressed video chunk of stream 00
const VID: u32 = 0x3030_6463;
// "00db": uncompressed video chunk of stream 00
const VID_DB: u32 = 0x3030_6462;
// "01wb": audio chunk of stream 01
const AUD: u32 = 0x3031_7762;

#[test]
fn decode_uses_big_endian_id_and_little_endian_fields() {
    let bytes: [u8; 16] = [
        0x30, 0x30, 0x64, 0x63, // id "00dc", big-endian
        0x10, 0x00, 0x00, 0x00, // flags 0x10, little-endian
        0x04, 0x00, 0x00, 0x00, // offset 4
        0x02, 0x00, 0x00, 0x00, // length 2
    ];
    let f = Frame::new(&bytes);
    assert_eq!(f.id, 0x3030_6463);
    assert_eq!(f.flag, 0x0000_0010);
    assert_eq!(f.offset, 4);
    assert_eq!(f.length, 2);
}

#[test]
fn serialize_round_trips() {
    let f = Frame { id: VID, flag: 0x10, offset: 0x0102_0304, length: 0xDEAD_BEEF };
    let bytes = f.as_bytes();
    assert_eq!(bytes[0..4], [0x30, 0x30, 0x64, 0x63]);
    assert_eq!(bytes[4..8], [0x10, 0x00, 0x00, 0x00]);
    assert_eq!(bytes[8..12], [0x04, 0x03, 0x02, 0x01]);
    assert_eq!(bytes[12..16], [0xEF, 0xBE, 0xAD, 0xDE]);
    let g = Frame::new(&bytes);
    assert_eq!(g, f);
}

#[test]
fn keyframe_video_record() {
    // id "00dc", keyframe flag set
    let f = Frame { id: 0x3030_6463, flag: 0x0000_0010, offset: 0, length: 2 };
    assert!(f.is_videoframe());
    assert!(f.is_iframe());
    assert!(!f.is_pframe());
    assert!(!f.is_audioframe());
}

#[test]
fn audio_record_is_neither_key_nor_delta() {
    // id ASCII "01wb"
    let f = Frame { id: AUD, flag: 0x0000_0010, offset: 0, length: 9 };
    assert!(f.is_audioframe());
    assert!(!f.is_videoframe());
    assert!(!f.is_iframe());
    assert!(!f.is_pframe());
}

#[test]
fn video_record_is_key_exactly_when_not_delta() {
    for id in [VID, VID_DB] {
        for flag in [0u32, 0x10, 0x11, 0xFFFF_FFEF, 0xFFFF_FFFF] {
            let f = Frame { id, flag, offset: 7, length: 3 };
            assert!(f.is_videoframe());
            assert_eq!(f.is_iframe(), !f.is_pframe());
            assert_eq!(f.is_iframe(), flag & 0x10 != 0);
        }
    }
}

#[test]
fn unknown_tag_is_neither_video_nor_audio() {
    // id "00xx"
    let f = Frame { id: 0x3030_7878, flag: 0x10, offset: 0, length: 0 };
    assert!(!f.is_videoframe());
    assert!(!f.is_audioframe());
    assert!(!f.is_iframe());
    assert!(!f.is_pframe());
}
