//! Loading, validation errors, and the full rewrite path, against
//! hand-assembled container buffers.

use avirus::bytes::IDX1_TAG;
use avirus::bytes::MOVI_TAG;
use avirus::bytes::RIFF_TAG;
use avirus::error::AviError;
use avirus::frame::Frame;
use avirus::AVI;

fn le(v: u32) -> [u8; 4] {
    v.to_le_bytes()
}

fn read_le(b: &[u8], p: usize) -> u32 {
    u32::from_le_bytes([b[p], b[p + 1], b[p + 2], b[p + 3]])
}

/// A small well-formed container:
///   0: "RIFF", stale size, "AVI "
///  12: "JUNK" chunk, 40 zero body bytes (so the movi region starts past 52)
///  60: "LIST" chunk, body "movi" + two frame chunks
///  94: "idx1", 32 index bytes: a video keyframe and an audio frame
fn sample_avi() -> Vec<u8> {
    let mut b: Vec<u8> = Vec::new();
    b.extend_from_slice(b"RIFF");
    b.extend_from_slice(&le(0));
    b.extend_from_slice(b"AVI ");
    b.extend_from_slice(b"JUNK");
    b.extend_from_slice(&le(40));
    b.extend_from_slice(&[0u8; 40]);
    assert_eq!(b.len(), 60);
    b.extend_from_slice(b"LIST");
    b.extend_from_slice(&le(26));
    b.extend_from_slice(b"movi"); // movable-data position: 68
    b.extend_from_slice(b"00dc"); // frame chunk at movi-relative offset 4
    b.extend_from_slice(&le(2));
    b.extend_from_slice(&[0xAA, 0xBB]);
    b.extend_from_slice(b"01wb"); // frame chunk at movi-relative offset 14
    b.extend_from_slice(&le(3));
    b.extend_from_slice(&[0x01, 0x02, 0x03]);
    b.push(0); // word-alignment pad of the odd-length chunk
    assert_eq!(b.len(), 94);
    b.extend_from_slice(b"idx1");
    b.extend_from_slice(&le(32));
    // record 0: video keyframe
    b.extend_from_slice(b"00dc");
    b.extend_from_slice(&le(0x10));
    b.extend_from_slice(&le(4));
    b.extend_from_slice(&le(2));
    // record 1: audio
    b.extend_from_slice(b"01wb");
    b.extend_from_slice(&le(0));
    b.extend_from_slice(&le(14));
    b.extend_from_slice(&le(3));
    assert_eq!(b.len(), 134);
    b
}

#[test]
fn load_decodes_the_index() {
    let buf = sample_avi();
    let avi = AVI::new(&buf).unwrap();
    assert_eq!(avi.frames.stream, buf);
    assert_eq!(avi.frames.pos_of_movi, 68);
    assert_eq!(avi.frames.meta.len(), 2);
    assert_eq!(
        avi.frames.meta[0],
        Frame { id: 0x3030_6463, flag: 0x10, offset: 4, length: 2 }
    );
    assert_eq!(
        avi.frames.meta[1],
        Frame { id: 0x3031_7762, flag: 0, offset: 14, length: 3 }
    );
}

#[test]
fn missing_riff_reports_validation_at_offset_zero() {
    let buf = vec![0u8; 32];
    let err = AVI::new(&buf).unwrap_err();
    assert_eq!(err, AviError::Validation { offset: 0, expected: RIFF_TAG });
}

#[test]
fn missing_avi_kind_reports_validation_at_offset_eight() {
    let mut buf = vec![0u8; 32];
    buf[0..4].copy_from_slice(b"RIFF");
    let err = AVI::new(&buf).unwrap_err();
    assert_eq!(err, AviError::Validation { offset: 8, expected: avirus::bytes::AVI_TAG });
}

#[test]
fn wrong_terminal_tag_reports_validation_at_its_offset() {
    let mut buf = Vec::new();
    buf.extend_from_slice(b"RIFF");
    buf.extend_from_slice(&le(0));
    buf.extend_from_slice(b"AVI ");
    buf.extend_from_slice(b"xxxx");
    let err = AVI::new(&buf).unwrap_err();
    assert_eq!(err, AviError::Validation { offset: 12, expected: IDX1_TAG });
}

#[test]
fn short_buffer_reports_truncation() {
    let mut buf = Vec::new();
    buf.extend_from_slice(b"RIFF");
    buf.extend_from_slice(&le(0));
    buf.extend_from_slice(b"AVI ");
    let err = AVI::new(&buf).unwrap_err();
    assert_eq!(err, AviError::Truncation);
}

#[test]
fn truncated_index_reports_truncation() {
    let mut buf = sample_avi();
    buf.truncate(120); // inside the second index record
    let err = AVI::new(&buf).unwrap_err();
    assert_eq!(err, AviError::Truncation);
}

#[test]
fn rewrite_patches_sizes_and_counts() {
    let buf = sample_avi();
    let mut avi = AVI::new(&buf).unwrap();
    avi.output().unwrap();
    let out = &avi.frames.stream;
    assert_eq!(out.len(), 130);
    assert_eq!(&out[0..4], b"RIFF");
    // total-size field: output length minus 8
    assert_eq!(read_le(out, 4), 122);
    // video-frame count: one of the two records is video
    assert_eq!(read_le(out, 48), 1);
    // movable-data size field: the preserved fixed literal
    assert_eq!(read_le(out, 64), 4);
    // the blob: both chunks re-emitted, odd payload padded
    assert_eq!(&out[68..72], b"00dc");
    assert_eq!(read_le(out, 72), 2);
    assert_eq!(&out[76..78], &[0xAA, 0xBB]);
    assert_eq!(&out[78..82], b"01wb");
    assert_eq!(read_le(out, 82), 3);
    assert_eq!(&out[86..89], &[0x01, 0x02, 0x03]);
    assert_eq!(out[89], 0);
    // the fresh index
    assert_eq!(&out[90..94], b"idx1");
    assert_eq!(read_le(out, 94), 32);
}

#[test]
fn rewrite_reparses_to_the_same_classification() {
    let buf = sample_avi();
    let mut avi = AVI::new(&buf).unwrap();
    avi.output().unwrap();
    let out = avi.frames.stream.clone();
    // decode the records the rewrite wrote at its index position
    let rec0 = Frame::new(&out[98..114]);
    let rec1 = Frame::new(&out[114..130]);
    assert_eq!(rec0.id, 0x3030_6463);
    assert_eq!(rec0.flag, 0x10);
    assert!(rec0.is_videoframe() && rec0.is_iframe());
    assert_eq!(rec1.id, 0x3031_7762);
    assert!(rec1.is_audioframe());
    // offsets were rebased: the re-parse of the output finds no "movi" word,
    // so re-extraction uses base 0 and must land on the same payloads
    assert_eq!(rec0.offset, 68);
    assert_eq!(rec1.offset, 78);
    let p0 = &out[rec0.offset as usize + 8..rec0.offset as usize + 8 + rec0.length as usize];
    assert_eq!(p0, &[0xAA, 0xBB]);
    let p1 = &out[rec1.offset as usize + 8..rec1.offset as usize + 8 + rec1.length as usize];
    assert_eq!(p1, &[0x01, 0x02, 0x03]);
}

#[test]
fn duplicated_records_reread_the_original_bytes() {
    let buf = sample_avi();
    let mut avi = AVI::new(&buf).unwrap();
    let audio = avi.frames.meta[1];
    avi.frames.meta.push(audio);
    avi.frames.meta.push(audio);
    avi.output().unwrap();
    let out = &avi.frames.stream;
    // 3 chunks of the audio frame: the original one and two duplicates
    assert_eq!(read_le(out, 48), 1);
    assert_eq!(avi.frames.meta.len(), 4);
    for rec in &avi.frames.meta[1..] {
        let p = &out[rec.offset as usize + 8..rec.offset as usize + 8 + rec.length as usize];
        assert_eq!(p, &[0x01, 0x02, 0x03]);
    }
}

#[test]
fn record_past_the_end_fails_per_record() {
    let buf = sample_avi();
    let mut avi = AVI::new(&buf).unwrap();
    avi.frames.meta[1].length = 100_000;
    let before = avi.frames.stream.clone();
    let err = avi.output().unwrap_err();
    assert_eq!(err, AviError::OutOfBounds { frame: 1 });
    // a failed rewrite leaves the container unchanged
    assert_eq!(avi.frames.stream, before);
    assert_eq!(avi.frames.meta[1].length, 100_000);
}

#[test]
fn missing_movable_data_fails_the_rewrite() {
    let mut buf = Vec::new();
    buf.extend_from_slice(b"RIFF");
    buf.extend_from_slice(&le(0));
    buf.extend_from_slice(b"AVI ");
    buf.extend_from_slice(b"idx1");
    buf.extend_from_slice(&le(0));
    let mut avi = AVI::new(&buf).unwrap();
    assert_eq!(avi.frames.pos_of_movi, 0);
    let err = avi.output().unwrap_err();
    assert_eq!(err, AviError::Validation { offset: 0, expected: MOVI_TAG });
}

#[test]
fn output_too_short_for_header_patches_fails() {
    let mut buf = Vec::new();
    buf.extend_from_slice(b"RIFF");
    buf.extend_from_slice(&le(0));
    buf.extend_from_slice(b"AVI ");
    buf.extend_from_slice(b"LIST");
    buf.extend_from_slice(&le(4));
    buf.extend_from_slice(b"movi");
    buf.extend_from_slice(b"idx1");
    buf.extend_from_slice(&le(0));
    let mut avi = AVI::new(&buf).unwrap();
    assert_eq!(avi.frames.pos_of_movi, 20);
    // the rebuilt stream would be 28 bytes: the patched fields at 4 and 48
    // do not fit
    let err = avi.output().unwrap_err();
    assert_eq!(err, AviError::Truncation);
}

#[test]
fn make_framedata_emits_chunks_and_rebases_offsets() {
    let buf = sample_avi();
    let mut avi = AVI::new(&buf).unwrap();
    let blob = avi.frames.make_framedata().unwrap();
    let mut expected: Vec<u8> = Vec::new();
    expected.extend_from_slice(b"00dc");
    expected.extend_from_slice(&le(2));
    expected.extend_from_slice(&[0xAA, 0xBB]);
    expected.extend_from_slice(b"01wb");
    expected.extend_from_slice(&le(3));
    expected.extend_from_slice(&[0x01, 0x02, 0x03, 0x00]);
    assert_eq!(blob, expected);
    // offsets now name the positions the frames will occupy in the output
    assert_eq!(
        avi.frames.meta[0],
        Frame { id: 0x3030_6463, flag: 0x10, offset: 68, length: 2 }
    );
    assert_eq!(
        avi.frames.meta[1],
        Frame { id: 0x3031_7762, flag: 0, offset: 78, length: 3 }
    );
}

#[test]
fn overwrite_assembles_the_given_blob() {
    let buf = sample_avi();
    let mut avi = AVI::new(&buf).unwrap();
    let blob = avi.frames.make_framedata().unwrap();
    avi.frames.overwrite(&blob);
    let out = &avi.frames.stream;
    assert_eq!(out.len(), 130);
    // header prefix copied verbatim up to the movable-data size field
    assert_eq!(&out[0..4], b"RIFF");
    assert_eq!(&out[8..12], b"AVI ");
    assert_eq!(&out[12..16], b"JUNK");
    assert_eq!(read_le(out, 4), 122);
    assert_eq!(read_le(out, 48), 1);
    assert_eq!(&out[68..90], &blob[..]);
}

#[test]
fn error_descriptions_are_distinct() {
    let kinds = [
        AviError::Validation { offset: 0, expected: RIFF_TAG },
        AviError::Truncation,
        AviError::OutOfBounds { frame: 3 },
        AviError::TooLarge,
    ];
    for (i, a) in kinds.iter().enumerate() {
        assert!(!a.describe().is_empty());
        for (j, b) in kinds.iter().enumerate() {
            if i != j {
                assert_ne!(a.describe(), b.describe());
            }
        }
    }
}
