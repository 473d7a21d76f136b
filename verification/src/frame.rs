//! A frame-index record: the 16-byte entry describing one frame's identity,
//! flags, position and length. The `id` holds the four ASCII bytes of the
//! chunk tag as one big-endian integer; its last two characters decide the
//! semantic class (`"db"`/`"dc"` video, `"wb"` audio, anything else neither).

use vstd::prelude::*;

use crate::bytes::be32_at;
use crate::bytes::be_bytes;
use crate::bytes::le32_at;
use crate::bytes::le_bytes;
use crate::bytes::read_be32;
use crate::bytes::read_le32;

verus! {

/// Flag bit marking an entry that points to a list rather than a chunk.
/// Carried through unexamined.
pub const LIST_FLAG: u32 = 0x0000_0001;

/// Flag bit marking a keyframe in a record's `flag` field: the only bit the
/// classification reads.
pub const KEYFRAME_FLAG: u32 = 0x0000_0010;

/// Flag bit marking a chunk of zero duration. Carried through unexamined.
pub const NO_TIME_FLAG: u32 = 0x0000_0100;

/// One frame-index record.
#[derive(Clone, Copy, Debug, PartialEq, Eq, Structural)]
pub struct Frame {
    /// Four-character chunk tag, as the big-endian integer of its bytes.
    pub id: u32,
    /// Bitmask; bit 0x10 marks a keyframe, other bits pass through unexamined.
    pub flag: u32,
    /// Position of the frame's chunk, relative to the movable-data region.
    pub offset: u32,
    /// Byte length of the raw payload, excluding chunk header and padding.
    pub length: u32,
}

/// The third ASCII byte of the tag whose big-endian integer is `id`.
pub open spec fn id_byte2(id: u32) -> u32 {
    (id / 0x100) % 0x100
}

/// The fourth ASCII byte of the tag whose big-endian integer is `id`.
pub open spec fn id_byte3(id: u32) -> u32 {
    id % 0x100
}

/// Whether a tag names a video chunk: it ends in `"db"` or `"dc"`.
pub open spec fn is_video_id(id: u32) -> bool {
    id_byte2(id) == 0x64 && (id_byte3(id) == 0x62 || id_byte3(id) == 0x63)
}

/// Whether a tag names an audio chunk: it ends in `"wb"`.
pub open spec fn is_audio_id(id: u32) -> bool {
    id_byte2(id) == 0x77 && id_byte3(id) == 0x62
}

/// Whether a record is a video keyframe (an I-frame).
pub open spec fn is_key(f: Frame) -> bool {
    is_video_id(f.id) && f.flag & KEYFRAME_FLAG != 0
}

/// Whether a record is a video delta frame (a P-frame).
pub open spec fn is_delta(f: Frame) -> bool {
    is_video_id(f.id) && f.flag & KEYFRAME_FLAG == 0
}

/// The record decoded from 16 bytes at position `p`: id big-endian, the
/// three numeric fields little-endian.
pub open spec fn frame_at(b: Seq<u8>, p: int) -> Frame {
    Frame {
        id: be32_at(b, p),
        flag: le32_at(b, p + 4),
        offset: le32_at(b, p + 8),
        length: le32_at(b, p + 12),
    }
}

/// The 16 bytes that serialize a record: id big-endian, the rest little-endian.
pub open spec fn frame_bytes(f: Frame) -> Seq<u8> {
    be_bytes(f.id) + le_bytes(f.flag) + le_bytes(f.offset) + le_bytes(f.length)
}

/// Serializing a record and decoding the bytes yields the record back.
pub proof fn lemma_frame_bytes_round_trip(f: Frame)
    ensures
        frame_bytes(f).len() == 16,
        frame_at(frame_bytes(f), 0) == f,
{
    crate::bytes::lemma_be_round_trip(f.id);
    crate::bytes::lemma_le_round_trip(f.flag);
    crate::bytes::lemma_le_round_trip(f.offset);
    crate::bytes::lemma_le_round_trip(f.length);
}

impl Frame {
    /// Decodes a record from the first 16 bytes of `bytes`: 4 bytes
    /// big-endian id, then flags, offset and length little-endian. The
    /// asymmetry lets the id compare byte-for-byte against ASCII tags while
    /// the numeric fields stay native little-endian.
    pub fn new(bytes: &[u8]) -> (r: Frame)
        requires
            bytes@.len() >= 16,
        ensures
            r == frame_at(bytes@, 0),
    {
        Frame {
            id: read_be32(bytes, 0),
            flag: read_le32(bytes, 4),
            offset: read_le32(bytes, 8),
            length: read_le32(bytes, 12),
        }
    }

    /// Serializes the record as its 16 index bytes.
    pub fn as_bytes(&self) -> (r: [u8; 16])
        ensures
            r@ == frame_bytes(*self),
    {
        let id = self.id;
        let flag = self.flag;
        let offset = self.offset;
        let length = self.length;
        let r = [
            ((id / 0x100_0000) % 0x100) as u8,
            ((id / 0x1_0000) % 0x100) as u8,
            ((id / 0x100) % 0x100) as u8,
            (id % 0x100) as u8,
            (flag % 0x100) as u8,
            ((flag / 0x100) % 0x100) as u8,
            ((flag / 0x1_0000) % 0x100) as u8,
            ((flag / 0x100_0000) % 0x100) as u8,
            (offset % 0x100) as u8,
            ((offset / 0x100) % 0x100) as u8,
            ((offset / 0x1_0000) % 0x100) as u8,
            ((offset / 0x100_0000) % 0x100) as u8,
            (length % 0x100) as u8,
            ((length / 0x100) % 0x100) as u8,
            ((length / 0x1_0000) % 0x100) as u8,
            ((length / 0x100_0000) % 0x100) as u8,
        ];
        proof {
            assert(r@ =~= frame_bytes(*self));
        }
        r
    }

    /// Whether this record describes a video frame.
    pub fn is_videoframe(&self) -> (r: bool)
        ensures
            r == is_video_id(self.id),
    {
        let b2 = (self.id / 0x100) % 0x100;
        let b3 = self.id % 0x100;
        b2 == 0x64 && (b3 == 0x62 || b3 == 0x63)
    }

    /// Whether this record describes an audio frame.
    pub fn is_audioframe(&self) -> (r: bool)
        ensures
            r == is_audio_id(self.id),
    {
        let b2 = (self.id / 0x100) % 0x100;
        let b3 = self.id % 0x100;
        b2 == 0x77 && b3 == 0x62
    }

    /// Whether this record is a video keyframe (an I-frame).
    pub fn is_iframe(&self) -> (r: bool)
        ensures
            r == is_key(*self),
    {
        if self.is_videoframe() {
            self.flag & KEYFRAME_FLAG != 0
        } else {
            false
        }
    }

    /// Whether this record is a video delta frame (a P-frame).
    pub fn is_pframe(&self) -> (r: bool)
        ensures
            r == is_delta(*self),
    {
        if self.is_videoframe() {
            self.flag & KEYFRAME_FLAG == 0
        } else {
            false
        }
    }
}

/// Classification is a partition of the video records: a video record is a
/// keyframe exactly when it is not a delta frame, and an audio record is
/// neither. Video and audio classes never overlap.
pub proof fn lemma_classification(f: Frame)
    ensures
        is_video_id(f.id) ==> (is_key(f) <==> !is_delta(f)),
        is_audio_id(f.id) ==> !is_key(f) && !is_delta(f),
        !(is_video_id(f.id) && is_audio_id(f.id)),
{
}

} // verus!
