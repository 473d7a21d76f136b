//! Parser and re-serializer for RIFF/AVI containers, aimed at frame-level
//! editing ("datamoshing"): the frame index is decoded into a list of records
//! that a caller may drop, duplicate or reorder, and the container is then
//! rebuilt as a structurally consistent byte stream. The crate works on
//! in-memory buffers only; reading and writing files is the caller's concern.

use vstd::prelude::*;

pub mod bytes;
pub mod error;
pub mod frame;
pub mod frames;
pub mod laws;

use crate::bytes::be32_at;
use crate::bytes::read_be32;
use crate::bytes::AVI_TAG;
use crate::bytes::IDX1_TAG;
use crate::bytes::MOVI_TAG;
use crate::bytes::RIFF_TAG;
use crate::error::AviError;
use crate::frame::Frame;
use crate::frames::assembled;
use crate::frames::blob;
use crate::frames::blob_len;
use crate::frames::extract_check;
use crate::frames::out_len;
use crate::frames::parse_ok;
use crate::frames::parsed_meta;
use crate::frames::rewritten;
use crate::frames::video_count;
use crate::frames::walk_chunks;
use crate::frames::walk_movi;
use crate::frames::walk_stopped;
use crate::frames::walk_tag_pos;
use crate::frames::Frames;

verus! {

/// Whether the buffer carries the minimal structural signature: "RIFF" at 0,
/// "AVI " at 8, and a top-level walk that ends on the "idx1" tag.
pub open spec fn formatted(b: Seq<u8>) -> bool {
    &&& b.len() >= 12
    &&& be32_at(b, 0) == RIFF_TAG
    &&& be32_at(b, 8) == AVI_TAG
    &&& walk_stopped(b)
    &&& be32_at(b, walk_tag_pos(b)) == IDX1_TAG
}

/// The error validation reports, checkpoint by checkpoint: a missing tag
/// names the tag and its expected byte offset; a read past the end is a
/// truncation.
pub open spec fn format_error(b: Seq<u8>) -> AviError {
    if b.len() < 4 {
        AviError::Truncation
    } else if be32_at(b, 0) != RIFF_TAG {
        AviError::Validation { offset: 0, expected: RIFF_TAG }
    } else if b.len() < 12 {
        AviError::Truncation
    } else if be32_at(b, 8) != AVI_TAG {
        AviError::Validation { offset: 8, expected: AVI_TAG }
    } else if !walk_stopped(b) {
        AviError::Truncation
    } else {
        AviError::Validation { offset: walk_tag_pos(b) as usize, expected: IDX1_TAG }
    }
}

/// The error a failed load reports: validation's own error, else the
/// truncation that stopped index decoding.
pub open spec fn load_error(b: Seq<u8>) -> AviError {
    if !formatted(b) {
        format_error(b)
    } else {
        AviError::Truncation
    }
}

/// Validates the structural signature of a buffer before it is trusted:
/// checks "RIFF" at offset 0 and "AVI " at offset 8, walks the optional
/// list/padding chunks, and requires the terminal tag to be "idx1". A
/// read-only scan; positions are not retained.
fn is_formatted(file: &Vec<u8>) -> (r: Result<(), AviError>)
    ensures
        r is Ok <==> formatted(file@),
        r matches Err(e) ==> e == format_error(file@),
{
    let len = file.len();
    if len < 4 {
        return Err(AviError::Truncation);
    }
    if read_be32(file.as_slice(), 0) != RIFF_TAG {
        return Err(AviError::Validation { offset: 0, expected: RIFF_TAG });
    }
    if len < 12 {
        return Err(AviError::Truncation);
    }
    if read_be32(file.as_slice(), 8) != AVI_TAG {
        return Err(AviError::Validation { offset: 8, expected: AVI_TAG });
    }
    let q = match walk_chunks(file) {
        Ok(pair) => pair.1,
        Err(e) => return Err(e),
    };
    if read_be32(file.as_slice(), q) != IDX1_TAG {
        return Err(AviError::Validation { offset: q, expected: IDX1_TAG });
    }
    Ok(())
}

/// Whether a rewrite of a container in this state runs to completion: the
/// movable-data position is known, the header prefix lies inside the stream,
/// extraction passes, and the output both reaches the patched summary fields
/// and fits the 4-byte size fields.
pub open spec fn rewrite_ok(stream: Seq<u8>, movi: int, meta: Seq<Frame>) -> bool {
    &&& 4 <= movi
    &&& movi - 4 <= stream.len()
    &&& extract_check(stream, movi, meta, 0) is Ok
    &&& out_len(movi, blob_len(meta), meta.len() as int) <= u32::MAX
    &&& 52 <= out_len(movi, blob_len(meta), meta.len() as int)
}

/// The error a failed rewrite reports, checkpoint by checkpoint. A
/// movable-data region that was never seen (the position is the fallback 0)
/// fails loudly here rather than corrupting the output silently.
pub open spec fn rewrite_error(stream: Seq<u8>, movi: int, meta: Seq<Frame>) -> AviError {
    if movi < 4 {
        AviError::Validation { offset: 0, expected: MOVI_TAG }
    } else if movi - 4 > stream.len() {
        AviError::Truncation
    } else {
        match extract_check(stream, movi, meta, 0) {
            Err(e) => e,
            Ok(u) => if out_len(movi, blob_len(meta), meta.len() as int) > u32::MAX {
                AviError::TooLarge
            } else {
                AviError::Truncation
            },
        }
    }
}

/// A loaded container: the byte stream and the frame list decoded from it.
#[derive(Debug)]
pub struct AVI {
    /// The stream and its frame list; the list is the caller's edit surface.
    pub frames: Frames,
}

impl AVI {
    /// Loads a container from a byte buffer: validates the structural
    /// signature, then decodes the frame index. The buffer is kept as the
    /// container's current stream.
    pub fn new(buf: &Vec<u8>) -> (r: Result<AVI, AviError>)
        ensures
            r is Ok <==> formatted(buf@) && parse_ok(buf@),
            r matches Ok(a) ==> {
                &&& a.frames.stream@ == buf@
                &&& a.frames.movi_pos() == walk_movi(buf@)
                &&& a.frames.meta@ == parsed_meta(buf@)
            },
            r matches Err(e) ==> e == load_error(buf@),
    {
        match is_formatted(buf) {
            Ok(()) => {},
            Err(e) => return Err(e),
        }
        let frames = match Frames::new(buf) {
            Ok(f) => f,
            Err(e) => return Err(e),
        };
        Ok(AVI { frames })
    }

    /// Rebuilds the container's stream from the current frame list: extracts
    /// every frame's payload at its original offset, rewrites the records for
    /// the new layout, and assembles the output with its total-size and
    /// video-frame-count fields patched. On success the rebuilt stream
    /// replaces the current one (no undo); on any failure the container is
    /// left unchanged.
    pub fn output(&mut self) -> (r: Result<(), AviError>)
        ensures
            final(self).frames.movi_pos() == old(self).frames.movi_pos(),
            match r {
                Ok(()) => {
                    &&& rewrite_ok(
                        old(self).frames.stream@,
                        old(self).frames.movi_pos(),
                        old(self).frames.meta@,
                    )
                    &&& final(self).frames.meta@ == rewritten(
                        old(self).frames.meta@,
                        old(self).frames.movi_pos(),
                    )
                    &&& final(self).frames.stream@ == assembled(
                        old(self).frames.stream@,
                        old(self).frames.movi_pos(),
                        blob(
                            old(self).frames.stream@,
                            old(self).frames.movi_pos(),
                            old(self).frames.meta@,
                        ),
                        final(self).frames.meta@,
                    )
                    &&& crate::bytes::le32_at(final(self).frames.stream@, 4) as int == final(self).frames.stream@.len() - 8
                    &&& crate::bytes::le32_at(final(self).frames.stream@, 48) as int
                        == video_count(old(self).frames.meta@)
                },
                Err(e) => {
                    &&& !rewrite_ok(
                        old(self).frames.stream@,
                        old(self).frames.movi_pos(),
                        old(self).frames.meta@,
                    )
                    &&& e == rewrite_error(
                        old(self).frames.stream@,
                        old(self).frames.movi_pos(),
                        old(self).frames.meta@,
                    )
                    &&& final(self).frames.meta@ == old(self).frames.meta@
                    &&& final(self).frames.stream@ == old(self).frames.stream@
                },
            },
    {
        let ghost stream0: Seq<u8> = self.frames.stream@;
        let ghost meta0: Seq<Frame> = self.frames.meta@;
        let movi = self.frames.movi_position();
        if movi < 4 {
            return Err(AviError::Validation { offset: 0, expected: MOVI_TAG });
        }
        let slen = self.frames.stream.len();
        if movi - 4 > slen {
            return Err(AviError::Truncation);
        }
        let n = self.frames.meta.len();
        let mut total: u64 = 0;
        let mut i: usize = 0;
        while i < n
            invariant
                *self == *old(self),
                stream0 == self.frames.stream@,
                meta0 == self.frames.meta@,
                slen == stream0.len(),
                movi as int == self.frames.movi_pos(),
                4 <= movi,
                movi - 4 <= slen,
                n == meta0.len(),
                i <= n,
                total == blob_len(meta0.take(i as int)),
                total <= 0xFFFF_FFFFu64 + 0x2_0000_0009u64,
                extract_check(stream0, movi as int, meta0, i as int) == extract_check(
                    stream0,
                    movi as int,
                    meta0,
                    0,
                ),
            decreases n - i,
        {
            let f = self.frames.meta[i];
            let need = f.offset as u64 + f.length as u64 + 8;
            if (slen as u64) < need || (movi as u64) > slen as u64 - need {
                proof {
                    assert(!crate::frames::record_in_bounds(stream0, movi as int, f));
                    assert(extract_check(stream0, movi as int, meta0, i as int) == Err::<
                        (),
                        AviError,
                    >(AviError::OutOfBounds { frame: i }));
                }
                return Err(AviError::OutOfBounds { frame: i });
            }
            if movi as u64 > 0xFFFF_FFFFu64 || total > 0xFFFF_FFFFu64 - movi as u64 {
                proof {
                    assert(movi + blob_len(meta0.take(i as int)) > u32::MAX);
                    assert(extract_check(stream0, movi as int, meta0, i as int) == Err::<
                        (),
                        AviError,
                    >(AviError::TooLarge));
                }
                return Err(AviError::TooLarge);
            }
            let chunk = 8u64 + f.length as u64 + (f.length % 2) as u64;
            proof {
                crate::frames::lemma_blob_take_step(stream0, movi as int, meta0, i as int);
            }
            total = total + chunk;
            i = i + 1;
        }
        proof {
            assert(meta0.take(n as int) =~= meta0);
            crate::frames::lemma_blob_len_nonneg(meta0);
        }
        if movi as u64 > 0xFFFF_FFFFu64 {
            return Err(AviError::TooLarge);
        }
        if (n as u64) > 0x0FFF_FFFFu64 {
            return Err(AviError::TooLarge);
        }
        let out_total = movi as u64 + total + 8 + 16 * (n as u64);
        if out_total > 0xFFFF_FFFFu64 {
            return Err(AviError::TooLarge);
        }
        if out_total < 52 {
            return Err(AviError::Truncation);
        }
        let fd = match self.frames.make_framedata() {
            Ok(fd) => fd,
            Err(_) => {
                proof {
                    assert(false);
                }
                return Err(AviError::Truncation);
            },
        };
        self.frames.overwrite(fd.as_slice());
        proof {
            crate::frames::lemma_video_count_ids(rewritten(meta0, movi as int), meta0);
        }
        Ok(())
    }
}

} // verus!
