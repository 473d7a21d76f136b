//! The frame list and the byte stream it was parsed from.
//!
//! Loading walks the top-level chunks to find the movable-data ("movi")
//! region and the frame index ("idx1"), then decodes the index into records.
//! Rebuilding extracts every frame's payload from the original stream,
//! rewrites each record's offset for the new layout, and assembles a fresh
//! stream with patched summary fields.

use vstd::prelude::*;

use crate::bytes::be32_at;
use crate::bytes::be_bytes;
use crate::bytes::le32_at;
use crate::bytes::le_bytes;
use crate::bytes::patch4;
use crate::bytes::push_be32;
use crate::bytes::push_le32;
use crate::bytes::read_be32;
use crate::bytes::read_le32;
use crate::bytes::set_le32;
use crate::bytes::IDX1_TAG;
use crate::bytes::JUNK_TAG;
use crate::bytes::LIST_TAG;
use crate::bytes::MOVI_TAG;
use crate::error::AviError;
use crate::frame::frame_at;
use crate::frame::frame_bytes;
use crate::frame::is_audio_id;
use crate::frame::is_delta;
use crate::frame::is_key;
use crate::frame::is_video_id;
use crate::frame::Frame;

verus! {

/// Result of walking the optional top-level chunks from a given position:
/// either the walk reached a 4-byte tag that is neither "LIST" nor "JUNK"
/// (recording where, and where a "movi" body was seen, 0 if never), or a
/// 4-byte read ran off the end of the buffer.
pub enum Walk {
    Stopped { movi: int, tag_pos: int },
    Short,
}

/// Termination measure for the walk: each step advances at least 8 bytes,
/// and a step past the buffer stops at once.
pub open spec fn walk_fuel(len: int, p: int) -> int {
    if p <= len + 16 {
        len + 16 - p
    } else {
        0
    }
}

/// Walks the optional "LIST"/"JUNK" chunks starting at position `p`, with
/// `movi` the position of the last "movi" body seen so far. Each chunk is a
/// 4-byte tag, a 4-byte little-endian body length `s`, and `s` body bytes;
/// the first 4 body bytes are probed for "movi". The walk stops at the first
/// tag that is neither marker.
pub open spec fn walk(b: Seq<u8>, p: int, movi: int) -> Walk
    decreases walk_fuel(b.len() as int, p),
{
    if p + 4 > b.len() {
        Walk::Short
    } else if be32_at(b, p) != LIST_TAG && be32_at(b, p) != JUNK_TAG {
        Walk::Stopped { movi, tag_pos: p }
    } else if p + 12 > b.len() {
        Walk::Short
    } else {
        let m2 = if be32_at(b, p + 8) == MOVI_TAG {
            p + 8
        } else {
            movi
        };
        walk(b, p + 8 + le32_at(b, p + 4), m2)
    }
}

/// A movable-data position is either the fallback 0 (never seen) or a
/// position whose 4 probed bytes lie inside the buffer.
pub open spec fn movi_ok(b: Seq<u8>, movi: int) -> bool {
    movi == 0 || (20 <= movi && movi + 4 <= b.len())
}

/// Whether the top-level walk of the whole buffer reaches a terminal tag.
pub open spec fn walk_stopped(b: Seq<u8>) -> bool {
    walk(b, 12, 0) is Stopped
}

/// Movable-data position found by the top-level walk (0 if never seen).
pub open spec fn walk_movi(b: Seq<u8>) -> int {
    match walk(b, 12, 0) {
        Walk::Stopped { movi, .. } => movi,
        Walk::Short => 0,
    }
}

/// Position of the terminal (frame-index) tag of the top-level walk.
pub open spec fn walk_tag_pos(b: Seq<u8>) -> int {
    match walk(b, 12, 0) {
        Walk::Stopped { tag_pos, .. } => tag_pos,
        Walk::Short => 0,
    }
}

/// Number of 16-byte records in an index region of `l` declared bytes:
/// records are read until the cursor passes the declared end.
pub open spec fn record_count(l: u32) -> int {
    (l + 15) / 16
}

/// First byte of the index records: past the terminal tag and its length.
pub open spec fn index_start(b: Seq<u8>) -> int {
    walk_tag_pos(b) + 8
}

/// Declared byte length of the index region.
pub open spec fn index_len(b: Seq<u8>) -> u32 {
    le32_at(b, walk_tag_pos(b) + 4)
}

/// The `n` records decoded from consecutive 16-byte slots at `start`.
pub open spec fn records_at(b: Seq<u8>, start: int, n: int) -> Seq<Frame> {
    Seq::new(n as nat, |i: int| frame_at(b, start + 16 * i))
}

/// Whether the frame list can be parsed out of the buffer: the walk stops,
/// the index length field is readable, and every declared record fits.
pub open spec fn parse_ok(b: Seq<u8>) -> bool {
    &&& walk_stopped(b)
    &&& walk_tag_pos(b) + 8 <= b.len()
    &&& index_start(b) + 16 * record_count(index_len(b)) <= b.len()
}

/// The frame list parsed from the buffer.
pub open spec fn parsed_meta(b: Seq<u8>) -> Seq<Frame> {
    records_at(b, index_start(b), record_count(index_len(b)))
}

/// The raw payload bytes of one record, read from the original stream at the
/// record's original, movable-data-relative offset; the 8 skipped bytes are
/// the frame chunk's own tag and size header.
pub open spec fn payload_of(stream: Seq<u8>, movi: int, f: Frame) -> Seq<u8> {
    stream.subrange(movi + f.offset + 8, movi + f.offset + 8 + f.length)
}

/// Whether a record's payload lies inside the stream.
pub open spec fn record_in_bounds(stream: Seq<u8>, movi: int, f: Frame) -> bool {
    movi + f.offset + 8 + f.length <= stream.len()
}

/// Chunks are word-aligned: a payload of odd length gets one zero pad byte.
pub open spec fn pad_len(f: Frame) -> int {
    if f.length % 2 == 1 {
        1
    } else {
        0
    }
}

/// Bytes emitted into the frame-data blob for one record: 4-byte big-endian
/// id, 4-byte little-endian length, the payload, and the pad byte if any.
pub open spec fn chunk_of(stream: Seq<u8>, movi: int, f: Frame) -> Seq<u8> {
    crate::bytes::be_bytes(f.id) + crate::bytes::le_bytes(f.length) + payload_of(stream, movi, f)
        + if f.length % 2 == 1 {
        seq![0u8]
    } else {
        Seq::<u8>::empty()
    }
}

/// Byte length of one emitted chunk.
pub open spec fn chunk_len(f: Frame) -> int {
    8 + f.length + pad_len(f)
}

/// The frame-data blob: the chunks of all records, in list order.
pub open spec fn blob(stream: Seq<u8>, movi: int, frames: Seq<Frame>) -> Seq<u8>
    decreases frames.len(),
{
    if frames.len() == 0 {
        Seq::<u8>::empty()
    } else {
        blob(stream, movi, frames.drop_last()) + chunk_of(stream, movi, frames.last())
    }
}

/// Byte length of the blob, independent of the stream contents.
pub open spec fn blob_len(frames: Seq<Frame>) -> int
    decreases frames.len(),
{
    if frames.len() == 0 {
        0
    } else {
        blob_len(frames.drop_last()) + chunk_len(frames.last())
    }
}

/// A record as extraction rewrites it: identity and flags kept, length
/// re-measured (hence kept), offset moved to where the frame will live,
/// `running` bytes into the blob plus the movable-data base.
pub open spec fn rewritten_record(movi: int, running: int, f: Frame) -> Frame {
    Frame { id: f.id, flag: f.flag, offset: (movi + running) as u32, length: f.length }
}

/// The whole frame list as extraction rewrites it.
pub open spec fn rewritten(frames: Seq<Frame>, movi: int) -> Seq<Frame> {
    Seq::new(
        frames.len(),
        |i: int| rewritten_record(movi, blob_len(frames.take(i)), frames[i]),
    )
}

/// Outcome of extraction from record `i` on: the first record whose payload
/// lies outside the stream fails per-record; a rebuilt offset that cannot fit
/// a 4-byte field fails the whole pass.
pub open spec fn extract_check(stream: Seq<u8>, movi: int, frames: Seq<Frame>, i: int) -> Result<
    (),
    AviError,
>
    decreases frames.len() - i,
{
    if i >= frames.len() {
        Ok(())
    } else if !record_in_bounds(stream, movi, frames[i]) {
        Err(AviError::OutOfBounds { frame: i as usize })
    } else if movi + blob_len(frames.take(i)) > u32::MAX {
        Err(AviError::TooLarge)
    } else {
        extract_check(stream, movi, frames, i + 1)
    }
}

/// The blob is empty exactly for an empty list, and grows chunk by chunk.
pub proof fn lemma_blob_take_step(stream: Seq<u8>, movi: int, frames: Seq<Frame>, i: int)
    requires
        0 <= i < frames.len(),
    ensures
        blob(stream, movi, frames.take(i + 1)) == blob(stream, movi, frames.take(i)) + chunk_of(
            stream,
            movi,
            frames[i],
        ),
        blob_len(frames.take(i + 1)) == blob_len(frames.take(i)) + chunk_len(frames[i]),
{
    assert(frames.take(i + 1).drop_last() =~= frames.take(i));
    assert(frames.take(i + 1).last() == frames[i]);
}

/// An in-bounds chunk is as long as `chunk_len` says.
pub proof fn lemma_chunk_of_len(stream: Seq<u8>, movi: int, f: Frame)
    requires
        0 <= movi,
        record_in_bounds(stream, movi, f),
    ensures
        chunk_of(stream, movi, f).len() == chunk_len(f),
{
}

/// How many records of the list are video frames.
pub open spec fn video_count(s: Seq<Frame>) -> int
    decreases s.len(),
{
    if s.len() == 0 {
        0
    } else {
        video_count(s.drop_last()) + if is_video_id(s.last().id) {
            1int
        } else {
            0int
        }
    }
}

/// The serialized index table: the 16 bytes of every record, in list order.
pub open spec fn index_bytes(s: Seq<Frame>) -> Seq<u8>
    decreases s.len(),
{
    if s.len() == 0 {
        Seq::<u8>::empty()
    } else {
        index_bytes(s.drop_last()) + frame_bytes(s.last())
    }
}

/// Total length of a rebuilt stream: the header prefix and the rewritten
/// movable-data size field (`movi` bytes), the frame-data blob, the index
/// tag and length fields, and 16 bytes per record.
pub open spec fn out_len(movi: int, fd_len: int, n: int) -> int {
    movi + fd_len + 8 + 16 * n
}

/// A rebuilt stream before its two summary fields are patched: the original
/// header bytes up to the movable-data size field, that size field written as
/// the fixed literal 4 (a preserved quirk of the format dialect: the true
/// payload size is not computed), the frame-data blob, the index tag, the
/// index byte length, and the serialized records.
pub open spec fn assembled_base(stream: Seq<u8>, movi: int, fd: Seq<u8>, frames: Seq<Frame>) -> Seq<
    u8,
> {
    stream.subrange(0, movi - 4) + le_bytes(4u32) + fd + be_bytes(IDX1_TAG) + le_bytes(
        (16 * frames.len()) as u32,
    ) + index_bytes(frames)
}

/// A complete rebuilt stream: the base with the container's total-size field
/// (total length minus 8) patched at byte offset 4, and the video-frame count
/// patched at byte offset 48, the conventional single-video-stream position
/// of the stream header's frame-count field.
pub open spec fn assembled(stream: Seq<u8>, movi: int, fd: Seq<u8>, frames: Seq<Frame>) -> Seq<
    u8,
> {
    let base = assembled_base(stream, movi, fd, frames);
    patch4(patch4(base, 4, (base.len() - 8) as u32), 48, video_count(frames) as u32)
}

/// The serialized index grows 16 bytes per record, the video count by one
/// per video record.
pub proof fn lemma_index_take_step(s: Seq<Frame>, t: int)
    requires
        0 <= t < s.len(),
    ensures
        index_bytes(s.take(t + 1)) == index_bytes(s.take(t)) + frame_bytes(s[t]),
        video_count(s.take(t + 1)) == video_count(s.take(t)) + if is_video_id(s[t].id) {
            1int
        } else {
            0int
        },
{
    assert(s.take(t + 1).drop_last() =~= s.take(t));
    assert(s.take(t + 1).last() == s[t]);
}

/// The serialized index is 16 bytes per record.
pub proof fn lemma_index_bytes_len(s: Seq<Frame>)
    ensures
        index_bytes(s).len() == 16 * s.len(),
    decreases s.len(),
{
    if s.len() > 0 {
        lemma_index_bytes_len(s.drop_last());
    }
}

/// The video count lies between 0 and the list length.
pub proof fn lemma_video_count_bounds(s: Seq<Frame>)
    ensures
        0 <= video_count(s) <= s.len(),
    decreases s.len(),
{
    if s.len() > 0 {
        lemma_video_count_bounds(s.drop_last());
    }
}

/// The first keyframe at or after position `i`, if any: the initial stand-in
/// for the "last delta frame" of the keyframe-sync transform.
pub open spec fn first_keyframe_from(s: Seq<Frame>, i: int) -> Option<Frame>
    decreases s.len() - i,
{
    if i < 0 || i >= s.len() {
        None
    } else if is_key(s[i]) {
        Some(s[i])
    } else {
        first_keyframe_from(s, i + 1)
    }
}

/// The "last delta frame" remembered after scanning the first `i` records,
/// starting from `init`: the latest delta frame in the prefix, else `init`.
pub open spec fn last_delta_after(s: Seq<Frame>, init: Option<Frame>, i: int) -> Option<Frame>
    decreases i,
{
    if i <= 0 {
        init
    } else if is_delta(s[i - 1]) {
        Some(s[i - 1])
    } else {
        last_delta_after(s, init, i - 1)
    }
}

/// Output of the keyframe-sync transform on the first `i` records: audio and
/// delta frames are kept; a keyframe is replaced by the remembered "last
/// delta frame" (dropped if there is none yet); anything else is dropped.
pub open spec fn keysync(s: Seq<Frame>, init: Option<Frame>, i: int) -> Seq<Frame>
    decreases i,
{
    if i <= 0 {
        Seq::<Frame>::empty()
    } else {
        let prev = keysync(s, init, i - 1);
        let f = s[i - 1];
        if is_audio_id(f.id) {
            prev + seq![f]
        } else if is_delta(f) {
            prev + seq![f]
        } else if is_key(f) {
            match last_delta_after(s, init, i - 1) {
                Some(l) => prev + seq![l],
                None => prev,
            }
        } else {
            prev
        }
    }
}

/// A blob never has negative length.
pub proof fn lemma_blob_len_nonneg(frames: Seq<Frame>)
    ensures
        0 <= blob_len(frames),
    decreases frames.len(),
{
    if frames.len() > 0 {
        lemma_blob_len_nonneg(frames.drop_last());
    }
}

/// The video count depends on the record ids alone.
pub proof fn lemma_video_count_ids(s1: Seq<Frame>, s2: Seq<Frame>)
    requires
        s1.len() == s2.len(),
        forall|i: int| 0 <= i < s1.len() ==> s1[i].id == s2[i].id,
    ensures
        video_count(s1) == video_count(s2),
    decreases s1.len(),
{
    if s1.len() > 0 {
        lemma_video_count_ids(s1.drop_last(), s2.drop_last());
    }
}

/// Walks the top-level chunks of the whole buffer; returns the movable-data
/// position (0 if never seen) and the terminal tag's position.
pub(crate) fn walk_chunks(file: &Vec<u8>) -> (r: Result<(usize, usize), AviError>)
    ensures
        match r {
            Ok(pair) => {
                &&& walk(file@, 12, 0) == (Walk::Stopped {
                    movi: pair.0 as int,
                    tag_pos: pair.1 as int,
                })
                &&& movi_ok(file@, pair.0 as int)
                &&& 12 <= pair.1
                &&& pair.1 + 4 <= file@.len()
            },
            Err(e) => walk(file@, 12, 0) is Short && e == AviError::Truncation,
        },
{
    let len = file.len();
    let mut p: usize = 12;
    let mut movi: usize = 0;
    loop
        invariant
            len == file@.len(),
            12 <= p,
            movi == 0 || (20 <= movi && movi + 4 <= len),
            walk(file@, 12, 0) == walk(file@, p as int, movi as int),
        decreases len - p,
    {
        if len < 4 || p > len - 4 {
            proof {
                assert(walk(file@, p as int, movi as int) == Walk::Short);
            }
            return Err(AviError::Truncation);
        }
        let tag = read_be32(file.as_slice(), p);
        if tag != LIST_TAG && tag != JUNK_TAG {
            proof {
                assert(walk(file@, p as int, movi as int) == (Walk::Stopped {
                    movi: movi as int,
                    tag_pos: p as int,
                }));
            }
            return Ok((movi, p));
        }
        if len - p < 12 {
            proof {
                assert(walk(file@, p as int, movi as int) == Walk::Short);
            }
            return Err(AviError::Truncation);
        }
        let s = read_le32(file.as_slice(), p + 4);
        let probe = read_be32(file.as_slice(), p + 8);
        let ghost movi_before: int = movi as int;
        if probe == MOVI_TAG {
            movi = p + 8;
        }
        proof {
            assert(walk(file@, p as int, movi_before) == walk(
                file@,
                p as int + 8 + le32_at(file@, p as int + 4),
                movi as int,
            ));
        }
        if (s as usize) > len - p - 12 {
            // the next tag read starts past the end of the buffer
            proof {
                assert(walk(file@, p as int + 8 + s as int, movi as int) == Walk::Short);
            }
            return Err(AviError::Truncation);
        }
        p = p + 8 + (s as usize);
    }
}

/// The byte stream of a container and the frame list decoded from its index.
#[derive(Debug)]
pub struct Frames {
    /// The container's current byte stream.
    pub stream: Vec<u8>,
    /// Absolute position of the movable-data region's payload (the "movi"
    /// word) in the stream it was parsed from; 0 if the region was not seen.
    /// Set by load; rewriting relies on it to slice the header prefix.
    pub pos_of_movi: usize,
    /// The ordered frame list; index order is playback order. Callers may
    /// drop, duplicate or reorder records freely between load and rewrite.
    pub meta: Vec<Frame>,
}

impl Frames {
    /// Absolute position of the movable-data region's payload.
    pub open spec fn movi_pos(&self) -> int {
        self.pos_of_movi as int
    }

    /// Absolute position of the movable-data region's payload, 0 if none.
    pub fn movi_position(&self) -> (r: usize)
        ensures
            r as int == self.movi_pos(),
    {
        self.pos_of_movi
    }

    /// Decodes a byte stream: walks the top-level chunks to capture the
    /// movable-data position, then reads the index region that follows the
    /// terminal tag as a run of 16-byte records. The terminal tag itself is
    /// not inspected here (validation checks it before trusting the buffer).
    pub fn new(file: &Vec<u8>) -> (r: Result<Frames, AviError>)
        ensures
            match r {
                Ok(f) => {
                    &&& parse_ok(file@)
                    &&& f.stream@ == file@
                    &&& f.movi_pos() == walk_movi(file@)
                    &&& f.meta@ == parsed_meta(file@)
                    &&& movi_ok(file@, f.movi_pos())
                },
                Err(e) => !parse_ok(file@) && e == AviError::Truncation,
            },
    {
        let len = file.len();
        let (movi, q) = match walk_chunks(file) {
            Ok(pair) => pair,
            Err(e) => return Err(e),
        };
        if len - q < 8 {
            return Err(AviError::Truncation);
        }
        let l = read_le32(file.as_slice(), q + 4);
        let start = q + 8;
        let l_us = l as usize;
        let n = l_us / 16 + if l_us % 16 == 0 {
            0
        } else {
            1
        };
        let mut meta: Vec<Frame> = Vec::new();
        let mut pos = start;
        let mut i: usize = 0;
        while i < n
            invariant
                len == file@.len(),
                start + 16 * n <= start + 16 * record_count(index_len(file@)),
                n == record_count(index_len(file@)),
                start == walk_tag_pos(file@) + 8,
                start <= len,
                pos == start + 16 * i,
                pos <= len,
                i <= n,
                meta@.len() == i,
                forall|j: int| 0 <= j < i ==> meta@[j] == frame_at(file@, start + 16 * j),
            decreases n - i,
        {
            if len - pos < 16 {
                proof {
                    assert(start + 16 * record_count(index_len(file@)) > len);
                }
                return Err(AviError::Truncation);
            }
            let f = Frame::new(&file.as_slice()[pos..pos + 16]);
            proof {
                assert(file@.subrange(pos as int, (pos + 16) as int)[0] == file@[pos as int]);
                assert(f == frame_at(file@, pos as int));
            }
            meta.push(f);
            pos = pos + 16;
            i = i + 1;
        }
        proof {
            assert(meta@ =~= parsed_meta(file@));
        }
        Ok(Frames { stream: copy_bytes(file), pos_of_movi: movi, meta })
    }

    /// Builds the frame-data blob: for each record in list order, reads its
    /// payload from the current stream at the record's original offset, and
    /// emits a chunk (id, length, payload, pad). Each record is then rewritten
    /// in place: the offset becomes the position the frame will occupy in the
    /// rebuilt output, the length is the re-measured payload length. Reads use
    /// the original offsets even for duplicated records, so duplicating a
    /// record in the list duplicates its bytes with no further caller work.
    /// On any failure the frame list is left unchanged.
    pub fn make_framedata(&mut self) -> (r: Result<Vec<u8>, AviError>)
        ensures
            final(self).stream@ == old(self).stream@,
            final(self).movi_pos() == old(self).movi_pos(),
            match r {
                Ok(fd) => {
                    &&& extract_check(old(self).stream@, old(self).movi_pos(), old(self).meta@, 0)
                        is Ok
                    &&& fd@ == blob(old(self).stream@, old(self).movi_pos(), old(self).meta@)
                    &&& fd@.len() == blob_len(old(self).meta@)
                    &&& final(self).meta@ == rewritten(old(self).meta@, old(self).movi_pos())
                },
                Err(e) => {
                    &&& final(self).meta@ == old(self).meta@
                    &&& (extract_check(
                        old(self).stream@,
                        old(self).movi_pos(),
                        old(self).meta@,
                        0,
                    ) matches Err(e2) && e == e2)
                },
            },
    {
        let ghost stream0: Seq<u8> = self.stream@;
        let ghost meta0: Seq<Frame> = self.meta@;
        let stream_len = self.stream.len();
        let movi = self.pos_of_movi;
        let mut fd: Vec<u8> = Vec::new();
        let mut new_meta: Vec<Frame> = Vec::new();
        let n = self.meta.len();
        let mut i: usize = 0;
        while i < n
            invariant
                *self == *old(self),
                stream0 == self.stream@,
                meta0 == self.meta@,
                stream_len == stream0.len(),
                movi == self.pos_of_movi,
                n == meta0.len(),
                i <= n,
                fd@ == blob(stream0, movi as int, meta0.take(i as int)),
                fd@.len() == blob_len(meta0.take(i as int)),
                new_meta@.len() == i,
                forall|j: int|
                    0 <= j < i ==> new_meta@[j] == rewritten(meta0, movi as int)[j],
                extract_check(stream0, movi as int, meta0, i as int) == extract_check(
                    stream0,
                    movi as int,
                    meta0,
                    0,
                ),
            decreases n - i,
        {
            let f = self.meta[i];
            let need = f.offset as u64 + f.length as u64 + 8;
            if (stream_len as u64) < need || (movi as u64) > stream_len as u64 - need {
                proof {
                    assert(!record_in_bounds(stream0, movi as int, f));
                    assert(extract_check(stream0, movi as int, meta0, i as int) == Err::<
                        (),
                        AviError,
                    >(AviError::OutOfBounds { frame: i }));
                }
                return Err(AviError::OutOfBounds { frame: i });
            }
            if movi as u64 > 0xFFFF_FFFFu64 || fd.len() as u64 > 0xFFFF_FFFFu64 - movi as u64 {
                proof {
                    assert(record_in_bounds(stream0, movi as int, f));
                    assert(movi + blob_len(meta0.take(i as int)) > u32::MAX);
                    assert(extract_check(stream0, movi as int, meta0, i as int) == Err::<
                        (),
                        AviError,
                    >(AviError::TooLarge));
                }
                return Err(AviError::TooLarge);
            }
            let new_off = (movi as u64 + fd.len() as u64) as u32;
            let ghost fd_before: Seq<u8> = fd@;
            push_be32(&mut fd, f.id);
            push_le32(&mut fd, f.length);
            let base = movi + f.offset as usize + 8;
            let length = f.length as usize;
            let ghost header: Seq<u8> = fd_before + crate::bytes::be_bytes(f.id)
                + crate::bytes::le_bytes(f.length);
            let mut k: usize = 0;
            while k < length
                invariant
                    *self == *old(self),
                    stream0 == self.stream@,
                    k <= length,
                    base == movi + f.offset + 8,
                    stream_len == stream0.len(),
                    base + length <= stream_len,
                    fd@ == header + stream0.subrange(base as int, base + k),
                decreases length - k,
            {
                fd.push(self.stream[base + k]);
                proof {
                    assert(stream0.subrange(base as int, base + k + 1) =~= stream0.subrange(
                        base as int,
                        base + k,
                    ) + seq![stream0[base + k]]);
                    assert(fd@ =~= header + stream0.subrange(base as int, base + k + 1));
                }
                k = k + 1;
            }
            if f.length % 2 == 1 {
                fd.push(0u8);
            }
            proof {
                assert(fd@ =~= blob(stream0, movi as int, meta0.take(i as int)) + chunk_of(
                    stream0,
                    movi as int,
                    f,
                ));
                lemma_blob_take_step(stream0, movi as int, meta0, i as int);
                lemma_chunk_of_len(stream0, movi as int, f);
            }
            new_meta.push(Frame { id: f.id, flag: f.flag, offset: new_off, length: f.length });
            i = i + 1;
        }
        proof {
            assert(meta0.take(n as int) =~= meta0);
            assert(new_meta@ =~= rewritten(meta0, movi as int));
        }
        self.meta = new_meta;
        Ok(fd)
    }

    /// The keyframe-sync transform: rebuilds the frame list so that every
    /// video keyframe is replaced by a duplicate of the most recent delta
    /// frame (seeded with the first keyframe found, so a leading run of
    /// keyframes survives as copies of the first), keeping audio frames and
    /// delta frames unchanged. The byte stream is not touched; only the list
    /// changes, to be realized by a later rewrite.
    pub fn remove_keyframes(&mut self)
        ensures
            final(self).stream@ == old(self).stream@,
            final(self).movi_pos() == old(self).movi_pos(),
            final(self).meta@ == keysync(
                old(self).meta@,
                first_keyframe_from(old(self).meta@, 0),
                old(self).meta@.len() as int,
            ),
    {
        let n = self.meta.len();
        let mut last: Option<Frame> = None;
        let mut j: usize = 0;
        while j < n
            invariant_except_break
                *self == *old(self),
                n == self.meta@.len(),
                j <= n,
                last is None,
                first_keyframe_from(self.meta@, 0) == first_keyframe_from(self.meta@, j as int),
            ensures
                *self == *old(self),
                n == self.meta@.len(),
                last == first_keyframe_from(self.meta@, 0),
            decreases n - j,
        {
            let f = self.meta[j];
            if f.is_iframe() {
                last = Some(f);
                proof {
                    assert(first_keyframe_from(self.meta@, j as int) == Some(f));
                }
                break;
            }
            j = j + 1;
        }
        let ghost init: Option<Frame> = last;
        let ghost meta0: Seq<Frame> = self.meta@;
        let mut data: Vec<Frame> = Vec::new();
        let mut i: usize = 0;
        while i < n
            invariant
                *self == *old(self),
                meta0 == self.meta@,
                n == meta0.len(),
                i <= n,
                last == last_delta_after(meta0, init, i as int),
                data@ == keysync(meta0, init, i as int),
            decreases n - i,
        {
            let f = self.meta[i];
            if f.is_audioframe() {
                data.push(f);
            } else if f.is_pframe() {
                data.push(f);
                last = Some(f);
            } else if f.is_iframe() {
                if let Some(l) = last {
                    data.push(l);
                }
            }
            i = i + 1;
            proof {
                assert(data@ == keysync(meta0, init, i as int));
            }
        }
        self.meta = data;
    }

    /// Rebuilds the byte stream from the current frame list and a frame-data
    /// blob, replacing the stream: the original bytes up to the movable-data
    /// size field are copied verbatim, that size field is written as the
    /// fixed literal 4 (a preserved dialect quirk), the blob and a fresh
    /// index follow, and finally the total-size field at byte offset 4 and
    /// the video-frame count at byte offset 48 are patched in place. The
    /// callers must have found the movable-data region and the output must
    /// both reach the patched fields and fit the 4-byte size fields.
    pub fn overwrite(&mut self, framedata: &[u8])
        requires
            4 <= old(self).movi_pos(),
            old(self).movi_pos() - 4 <= old(self).stream@.len(),
            52 <= out_len(
                old(self).movi_pos(),
                framedata@.len() as int,
                old(self).meta@.len() as int,
            ),
            out_len(old(self).movi_pos(), framedata@.len() as int, old(self).meta@.len() as int)
                <= u32::MAX,
        ensures
            final(self).meta@ == old(self).meta@,
            final(self).movi_pos() == old(self).movi_pos(),
            final(self).stream@ == assembled(
                old(self).stream@,
                old(self).movi_pos(),
                framedata@,
                old(self).meta@,
            ),
            final(self).stream@.len() == out_len(
                old(self).movi_pos(),
                framedata@.len() as int,
                old(self).meta@.len() as int,
            ),
            le32_at(final(self).stream@, 4) as int == final(self).stream@.len() - 8,
            le32_at(final(self).stream@, 48) as int == video_count(old(self).meta@),
    {
        let ghost stream0: Seq<u8> = self.stream@;
        let ghost meta0: Seq<Frame> = self.meta@;
        let movi = self.pos_of_movi;
        let n = self.meta.len();
        let fd_len = framedata.len();
        let mut out: Vec<u8> = Vec::new();
        let prefix_end = movi - 4;
        let mut i: usize = 0;
        while i < prefix_end
            invariant
                *self == *old(self),
                stream0 == self.stream@,
                i <= prefix_end,
                prefix_end <= stream0.len(),
                out@ == stream0.subrange(0, i as int),
            decreases prefix_end - i,
        {
            out.push(self.stream[i]);
            proof {
                assert(out@ =~= stream0.subrange(0, i + 1));
            }
            i = i + 1;
        }
        let ghost part1: Seq<u8> = stream0.subrange(0, movi - 4);
        push_le32(&mut out, 4);
        let ghost part2: Seq<u8> = part1 + le_bytes(4u32);
        let mut k: usize = 0;
        while k < fd_len
            invariant
                fd_len == framedata@.len(),
                k <= fd_len,
                out@ == part2 + framedata@.subrange(0, k as int),
            decreases fd_len - k,
        {
            out.push(framedata[k]);
            proof {
                assert(out@ =~= part2 + framedata@.subrange(0, k + 1));
            }
            k = k + 1;
        }
        proof {
            assert(framedata@.subrange(0, framedata@.len() as int) =~= framedata@);
        }
        push_be32(&mut out, IDX1_TAG);
        let count_field = (16u64 * (n as u64)) as u32;
        push_le32(&mut out, count_field);
        let ghost part3: Seq<u8> = part2 + framedata@ + be_bytes(IDX1_TAG) + le_bytes(
            (16 * meta0.len()) as u32,
        );
        proof {
            assert(out@ =~= part3);
        }
        let mut t: usize = 0;
        let mut framecount: u32 = 0;
        while t < n
            invariant
                *self == *old(self),
                meta0 == self.meta@,
                n == meta0.len(),
                16 * n <= u32::MAX,
                t <= n,
                out@ == part3 + index_bytes(meta0.take(t as int)),
                framecount == video_count(meta0.take(t as int)),
                framecount <= t,
            decreases n - t,
        {
            let f = self.meta[t];
            push_be32(&mut out, f.id);
            push_le32(&mut out, f.flag);
            push_le32(&mut out, f.offset);
            push_le32(&mut out, f.length);
            proof {
                lemma_index_take_step(meta0, t as int);
                lemma_video_count_bounds(meta0.take(t as int));
                assert(out@ =~= part3 + index_bytes(meta0.take(t + 1)));
            }
            if f.is_videoframe() {
                framecount = framecount + 1;
            }
            t = t + 1;
        }
        proof {
            assert(meta0.take(n as int) =~= meta0);
            assert(out@ =~= assembled_base(stream0, movi as int, framedata@, meta0));
            lemma_index_bytes_len(meta0);
            assert(out@.len() == out_len(movi as int, framedata@.len() as int, n as int));
        }
        let total = out.len();
        let size_field = (total - 8) as u32;
        set_le32(&mut out, 4, size_field);
        set_le32(&mut out, 48, framecount);
        proof {
            lemma_video_count_bounds(meta0);
            assert(out@ == assembled(stream0, movi as int, framedata@, meta0));
            crate::bytes::lemma_le_round_trip(size_field);
            crate::bytes::lemma_le_round_trip(framecount);
            assert(le32_at(out@, 4) == size_field);
            assert(le32_at(out@, 48) == framecount);
        }
        self.stream = out;
    }
}

/// A fresh vector holding the same bytes.
fn copy_bytes(src: &Vec<u8>) -> (r: Vec<u8>)
    ensures
        r@ == src@,
{
    let mut r: Vec<u8> = Vec::new();
    let mut i: usize = 0;
    while i < src.len()
        invariant
            i <= src@.len(),
            r@ == src@.subrange(0, i as int),
        decreases src@.len() - i,
    {
        r.push(src[i]);
        proof {
            assert(r@ =~= src@.subrange(0, i + 1));
        }
        i = i + 1;
    }
    proof {
        assert(src@.subrange(0, src@.len() as int) =~= src@);
    }
    r
}

} // verus!
