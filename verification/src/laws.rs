//! Laws relating the library's operations, stated and proved once over the
//! specification model: what the keyframe-sync transform preserves, and that
//! a rebuilt stream re-parses and re-extracts to what was written into it.

use vstd::prelude::*;

use crate::bytes::be32_at;
use crate::bytes::be_bytes;
use crate::bytes::le32_at;
use crate::bytes::le_bytes;
use crate::bytes::IDX1_TAG;
use crate::frame::frame_at;
use crate::frame::frame_bytes;
use crate::frame::is_audio_id;
use crate::frame::is_delta;
use crate::frame::is_key;
use crate::frame::is_video_id;
use crate::frame::lemma_frame_bytes_round_trip;
use crate::frame::Frame;
use crate::frames::assembled;
use crate::frames::assembled_base;
use crate::frames::blob;
use crate::frames::blob_len;
use crate::frames::chunk_len;
use crate::frames::chunk_of;
use crate::frames::extract_check;
use crate::frames::first_keyframe_from;
use crate::frames::index_bytes;
use crate::frames::keysync;
use crate::frames::last_delta_after;
use crate::frames::lemma_blob_len_nonneg;
use crate::frames::lemma_chunk_of_len;
use crate::frames::lemma_index_bytes_len;
use crate::frames::lemma_video_count_ids;
use crate::frames::out_len;
use crate::frames::parse_ok;
use crate::frames::parsed_meta;
use crate::frames::payload_of;
use crate::frames::record_in_bounds;
use crate::frames::records_at;
use crate::frames::rewritten;
use crate::frames::video_count;
use crate::frames::walk_movi;

verus! {

/// The record a keyframe scan returns is a keyframe.
pub proof fn lemma_first_keyframe_is_key(s: Seq<Frame>, i: int)
    ensures
        first_keyframe_from(s, i) matches Some(f) ==> is_key(f),
    decreases s.len() - i,
{
    if i < 0 || i >= s.len() {
    } else if is_key(s[i]) {
    } else {
        lemma_first_keyframe_is_key(s, i + 1);
    }
}

/// If some record at or after `i` is a keyframe, the scan from `i` finds one.
pub proof fn lemma_first_keyframe_exists(s: Seq<Frame>, i: int, j: int)
    requires
        0 <= i <= j < s.len(),
        is_key(s[j]),
    ensures
        first_keyframe_from(s, i) is Some,
    decreases j - i,
{
    if i == j {
    } else if is_key(s[i]) {
    } else {
        lemma_first_keyframe_exists(s, i + 1, j);
    }
}

/// A remembered record never goes away once one is remembered.
pub proof fn lemma_last_delta_some(s: Seq<Frame>, init: Option<Frame>, i: int)
    requires
        init is Some,
    ensures
        last_delta_after(s, init, i) is Some,
    decreases i,
{
    if i <= 0 {
    } else if is_delta(s[i - 1]) {
    } else {
        lemma_last_delta_some(s, init, i - 1);
    }
}

/// The remembered record is always the seed or a delta frame; with a
/// keyframe seed it is always a keyframe or a delta frame.
pub proof fn lemma_last_delta_kind(s: Seq<Frame>, init: Option<Frame>, i: int)
    requires
        init matches Some(g) ==> is_key(g),
    ensures
        last_delta_after(s, init, i) matches Some(l) ==> is_key(l) || is_delta(l),
    decreases i,
{
    if i <= 0 {
    } else if is_delta(s[i - 1]) {
    } else {
        lemma_last_delta_kind(s, init, i - 1);
    }
}

/// KEYFRAME-SYNC LAW, length: on a list of audio and video records only, the
/// transform yields exactly one record per input record.
pub proof fn lemma_keysync_len(s: Seq<Frame>)
    requires
        forall|k: int| 0 <= k < s.len() ==> is_audio_id(#[trigger] s[k].id) || is_video_id(s[k].id),
    ensures
        keysync(s, first_keyframe_from(s, 0), s.len() as int).len() == s.len(),
{
    lemma_keysync_len_aux(s, s.len() as int);
}

proof fn lemma_keysync_len_aux(s: Seq<Frame>, i: int)
    requires
        0 <= i <= s.len(),
        forall|k: int| 0 <= k < s.len() ==> is_audio_id(#[trigger] s[k].id) || is_video_id(s[k].id),
    ensures
        keysync(s, first_keyframe_from(s, 0), i).len() == i,
    decreases i,
{
    let init = first_keyframe_from(s, 0);
    if i > 0 {
        lemma_keysync_len_aux(s, i - 1);
        let f = s[i - 1];
        if is_audio_id(f.id) {
        } else if is_delta(f) {
        } else if is_key(f) {
            lemma_first_keyframe_exists(s, 0, i - 1);
            lemma_last_delta_some(s, init, i - 1);
        } else {
            assert(is_video_id(f.id));
            assert(false);
        }
    }
}

/// KEYFRAME-SYNC LAW, keyframes: in the transformed list, a keyframe can
/// stand only before every delta frame — the leading prefix before the first
/// delta frame is seen; after that no keyframe remains.
pub proof fn lemma_keysync_keyframes(s: Seq<Frame>)
    ensures
        ({
            let out = keysync(s, first_keyframe_from(s, 0), s.len() as int);
            forall|j: int, k: int|
                0 <= k < j < out.len() && is_key(#[trigger] out[j]) ==> !is_delta(#[trigger] out[k])
        }),
{
    lemma_first_keyframe_is_key(s, 0);
    lemma_keysync_key_aux(s, first_keyframe_from(s, 0), s.len() as int);
}

proof fn lemma_keysync_key_aux(s: Seq<Frame>, init: Option<Frame>, i: int)
    requires
        0 <= i <= s.len(),
        init matches Some(g) ==> is_key(g),
    ensures
        ({
            let out = keysync(s, init, i);
            &&& forall|j: int, k: int|
                0 <= k < j < out.len() && is_key(#[trigger] out[j]) ==> !is_delta(
                    #[trigger] out[k],
                )
            &&& forall|k: int|
                0 <= k < out.len() && is_delta(#[trigger] out[k]) ==> (
                last_delta_after(s, init, i) matches Some(l) && is_delta(l))
        }),
    decreases i,
{
    if i > 0 {
        lemma_keysync_key_aux(s, init, i - 1);
        lemma_last_delta_kind(s, init, i - 1);
        let prev = keysync(s, init, i - 1);
        let out = keysync(s, init, i);
        let f = s[i - 1];
        let last = last_delta_after(s, init, i - 1);
        if is_audio_id(f.id) {
            assert(!is_key(f) && !is_delta(f));
            lemma_keysync_push_step(s, init, i, prev, out, f);
        } else if is_delta(f) {
            lemma_keysync_push_step(s, init, i, prev, out, f);
        } else if is_key(f) {
            match last {
                Some(l) => {
                    if is_delta(l) {
                        lemma_keysync_push_step(s, init, i, prev, out, l);
                    } else {
                        // the remembered record is still the keyframe seed:
                        // no delta frame has been scanned, so none was kept
                        assert(forall|k: int|
                            0 <= k < prev.len() ==> !is_delta(#[trigger] prev[k]));
                        assert(out == prev + seq![l]);
                        assert(forall|k: int|
                            0 <= k < out.len() - 1 ==> #[trigger] out[k] == prev[k]);
                        assert(forall|k: int| 0 <= k < out.len() ==> !is_delta(#[trigger] out[k]));
                    }
                },
                None => {},
            }
        } else {
        }
    }
}

/// The subsequence of audio records, in list order.
pub open spec fn audio_of(s: Seq<Frame>) -> Seq<Frame>
    decreases s.len(),
{
    if s.len() == 0 {
        Seq::<Frame>::empty()
    } else {
        audio_of(s.drop_last()) + if is_audio_id(s.last().id) {
            seq![s.last()]
        } else {
            Seq::<Frame>::empty()
        }
    }
}

proof fn lemma_audio_of_push(t: Seq<Frame>, x: Frame)
    ensures
        audio_of(t + seq![x]) == audio_of(t) + if is_audio_id(x.id) {
            seq![x]
        } else {
            Seq::<Frame>::empty()
        },
{
    assert((t + seq![x]).drop_last() =~= t);
    assert((t + seq![x]).last() == x);
}

/// KEYFRAME-SYNC LAW, audio: the transform keeps the audio records exactly —
/// the same records in the same order, whatever else the list holds.
pub proof fn lemma_keysync_audio(s: Seq<Frame>)
    ensures
        audio_of(keysync(s, first_keyframe_from(s, 0), s.len() as int)) == audio_of(s),
{
    lemma_first_keyframe_is_key(s, 0);
    lemma_keysync_audio_aux(s, first_keyframe_from(s, 0), s.len() as int);
    assert(s.take(s.len() as int) =~= s);
}

proof fn lemma_keysync_audio_aux(s: Seq<Frame>, init: Option<Frame>, i: int)
    requires
        0 <= i <= s.len(),
        init matches Some(g) ==> is_key(g),
    ensures
        audio_of(keysync(s, init, i)) == audio_of(s.take(i)),
    decreases i,
{
    if i > 0 {
        lemma_keysync_audio_aux(s, init, i - 1);
        lemma_last_delta_kind(s, init, i - 1);
        let prev = keysync(s, init, i - 1);
        let f = s[i - 1];
        assert(s.take(i).drop_last() =~= s.take(i - 1));
        assert(s.take(i).last() == f);
        if is_audio_id(f.id) {
            lemma_audio_of_push(prev, f);
        } else if is_delta(f) {
            lemma_audio_of_push(prev, f);
        } else if is_key(f) {
            match last_delta_after(s, init, i - 1) {
                Some(l) => {
                    lemma_audio_of_push(prev, l);
                    assert(is_key(l) || is_delta(l));
                },
                None => {},
            }
        } else {
        }
    }
}

/// One pushed record that is not a keyframe keeps both transform invariants.
proof fn lemma_keysync_push_step(
    s: Seq<Frame>,
    init: Option<Frame>,
    i: int,
    prev: Seq<Frame>,
    out: Seq<Frame>,
    x: Frame,
)
    requires
        0 < i <= s.len(),
        prev == keysync(s, init, i - 1),
        out == keysync(s, init, i),
        out == prev + seq![x],
        !is_key(x),
        forall|j: int, k: int|
            0 <= k < j < prev.len() && is_key(#[trigger] prev[j]) ==> !is_delta(#[trigger] prev[k]),
        forall|k: int|
            0 <= k < prev.len() && is_delta(#[trigger] prev[k]) ==> (last_delta_after(
                s,
                init,
                i - 1,
            ) matches Some(l) && is_delta(l)),
        is_delta(x) ==> (last_delta_after(s, init, i) matches Some(l) && is_delta(l)),
        !is_delta(x) ==> last_delta_after(s, init, i) == last_delta_after(s, init, i - 1),
    ensures
        forall|j: int, k: int|
            0 <= k < j < out.len() && is_key(#[trigger] out[j]) ==> !is_delta(#[trigger] out[k]),
        forall|k: int|
            0 <= k < out.len() && is_delta(#[trigger] out[k]) ==> (last_delta_after(
                s,
                init,
                i,
            ) matches Some(l) && is_delta(l)),
{
    assert(forall|k: int| 0 <= k < prev.len() ==> #[trigger] out[k] == prev[k]);
    assert(out[out.len() - 1] == x);
    assert forall|j: int, k: int|
        0 <= k < j < out.len() && is_key(#[trigger] out[j]) implies !is_delta(
        #[trigger] out[k],
    ) by {
        if j < prev.len() {
        } else {
            assert(out[j] == x);
            assert(!is_key(x));
        }
    }
}

/// A passed extraction means every record is in bounds and every rebuilt
/// offset fits a 4-byte field.
pub proof fn lemma_extract_ok_all(stream: Seq<u8>, movi: int, meta: Seq<Frame>, i: int)
    requires
        0 <= i <= meta.len(),
        extract_check(stream, movi, meta, i) is Ok,
    ensures
        forall|j: int|
            i <= j < meta.len() ==> record_in_bounds(stream, movi, #[trigger] meta[j]),
        forall|j: int| i <= j < meta.len() ==> movi + blob_len(#[trigger] meta.take(j)) <= u32::MAX,
    decreases meta.len() - i,
{
    if i < meta.len() {
        lemma_extract_ok_all(stream, movi, meta, i + 1);
    }
}

/// Under in-bounds records the blob is as long as `blob_len` says.
pub proof fn lemma_blob_len_matches(stream: Seq<u8>, movi: int, frames: Seq<Frame>)
    requires
        0 <= movi,
        forall|j: int|
            0 <= j < frames.len() ==> record_in_bounds(stream, movi, #[trigger] frames[j]),
    ensures
        blob(stream, movi, frames).len() == blob_len(frames),
    decreases frames.len(),
{
    if frames.len() > 0 {
        lemma_blob_len_matches(stream, movi, frames.drop_last());
        lemma_chunk_of_len(stream, movi, frames.last());
    }
}

/// Each record's chunk lies between non-negative prefix sums of the blob.
pub proof fn lemma_blob_len_prefix(frames: Seq<Frame>, i: int)
    requires
        0 <= i < frames.len(),
    ensures
        0 <= blob_len(frames.take(i)),
        blob_len(frames.take(i)) + chunk_len(frames[i]) <= blob_len(frames),
    decreases frames.len(),
{
    lemma_blob_len_nonneg(frames.take(i));
    let dl = frames.drop_last();
    if i == frames.len() - 1 {
        assert(frames.take(i) =~= dl);
    } else {
        assert(frames.take(i) =~= dl.take(i));
        lemma_blob_len_prefix(dl, i);
    }
}

/// The chunk of record `i` sits in the blob at its prefix-sum offset.
pub proof fn lemma_blob_slice(stream: Seq<u8>, movi: int, frames: Seq<Frame>, i: int)
    requires
        0 <= movi,
        0 <= i < frames.len(),
        forall|j: int|
            0 <= j < frames.len() ==> record_in_bounds(stream, movi, #[trigger] frames[j]),
    ensures
        blob(stream, movi, frames).subrange(
            blob_len(frames.take(i)),
            blob_len(frames.take(i)) + chunk_len(frames[i]),
        ) == chunk_of(stream, movi, frames[i]),
    decreases frames.len(),
{
    let dl = frames.drop_last();
    let whole = blob(stream, movi, frames);
    let prefix = blob(stream, movi, dl);
    lemma_blob_len_matches(stream, movi, dl);
    lemma_chunk_of_len(stream, movi, frames.last());
    if i == frames.len() - 1 {
        assert(frames.take(i) =~= dl);
        assert(whole.subrange(blob_len(dl), blob_len(dl) + chunk_len(frames[i])) =~= chunk_of(
            stream,
            movi,
            frames[i],
        ));
    } else {
        assert(frames.take(i) =~= dl.take(i));
        lemma_blob_slice(stream, movi, dl, i);
        lemma_blob_len_prefix(dl, i);
        let a = blob_len(dl.take(i));
        let b = a + chunk_len(dl[i]);
        assert(whole.subrange(a, b) =~= prefix.subrange(a, b));
    }
}

/// The 16 bytes of record `i` sit in the serialized index at offset `16 * i`.
pub proof fn lemma_index_slice(frames: Seq<Frame>, i: int)
    requires
        0 <= i < frames.len(),
    ensures
        index_bytes(frames).subrange(16 * i, 16 * i + 16) == frame_bytes(frames[i]),
    decreases frames.len(),
{
    let dl = frames.drop_last();
    let whole = index_bytes(frames);
    lemma_index_bytes_len(dl);
    lemma_frame_bytes_round_trip(frames.last());
    if i == frames.len() - 1 {
        assert(whole.subrange(16 * i, 16 * i + 16) =~= frame_bytes(frames[i]));
    } else {
        lemma_index_slice(dl, i);
        lemma_frame_bytes_round_trip(frames[i]);
        assert(whole.subrange(16 * i, 16 * i + 16) =~= index_bytes(dl).subrange(
            16 * i,
            16 * i + 16,
        ));
    }
}

/// Byte layout of a rebuilt stream: when the movable-data base lies at or
/// past the patched header fields, the blob, the index tag and length, and
/// the serialized records land untouched at their positions.
pub proof fn lemma_assembled_layout(stream: Seq<u8>, movi: int, meta: Seq<Frame>)
    requires
        52 <= movi,
        movi - 4 <= stream.len(),
        forall|j: int|
            0 <= j < meta.len() ==> record_in_bounds(stream, movi, #[trigger] meta[j]),
    ensures
        ({
            let fd = blob(stream, movi, meta);
            let meta2 = rewritten(meta, movi);
            let out = assembled(stream, movi, fd, meta2);
            let l = blob_len(meta);
            let rs = movi + l + 8;
            &&& out.len() == out_len(movi, l, meta.len() as int)
            &&& forall|x: int| movi <= x < movi + l ==> #[trigger] out[x] == fd[x - movi]
            &&& forall|x: int|
                movi + l <= x < movi + l + 4 ==> #[trigger] out[x] == be_bytes(IDX1_TAG)[x - (movi
                    + l)]
            &&& forall|x: int|
                movi + l + 4 <= x < rs ==> #[trigger] out[x] == le_bytes(
                    (16 * meta.len()) as u32,
                )[x - (movi + l + 4)]
            &&& forall|x: int|
                rs <= x < rs + 16 * meta.len() ==> #[trigger] out[x] == index_bytes(meta2)[x - rs]
        }),
{
    let fd = blob(stream, movi, meta);
    let meta2 = rewritten(meta, movi);
    let base = assembled_base(stream, movi, fd, meta2);
    let out = assembled(stream, movi, fd, meta2);
    let l = blob_len(meta);
    let rs = movi + l + 8;
    lemma_blob_len_matches(stream, movi, meta);
    lemma_blob_len_nonneg(meta);
    lemma_index_bytes_len(meta2);
    assert(meta2.len() == meta.len());
    let part_a = stream.subrange(0, movi - 4);
    let part_ab = part_a + le_bytes(4u32);
    let part_abc = part_ab + fd;
    let part_abcd = part_abc + be_bytes(IDX1_TAG);
    let part_abcde = part_abcd + le_bytes((16 * meta2.len()) as u32);
    assert(base == part_abcde + index_bytes(meta2));
    assert(part_a.len() == movi - 4);
    assert(part_ab.len() == movi);
    assert(part_abc.len() == movi + l);
    assert(part_abcd.len() == movi + l + 4);
    assert(part_abcde.len() == rs);
    assert(base.len() == rs + 16 * meta.len());
    assert(out.len() == base.len());
    assert forall|x: int| 52 <= x < base.len() implies out[x] == base[x] by {
    }
    assert forall|x: int| movi <= x < movi + l implies #[trigger] out[x] == fd[x - movi] by {
        assert(base[x] == fd[x - movi]);
    }
    assert forall|x: int| movi + l <= x < movi + l + 4 implies #[trigger] out[x] == be_bytes(
        IDX1_TAG,
    )[x - (movi + l)] by {
        assert(base[x] == be_bytes(IDX1_TAG)[x - (movi + l)]);
    }
    assert forall|x: int| movi + l + 4 <= x < rs implies #[trigger] out[x] == le_bytes(
        (16 * meta.len()) as u32,
    )[x - (movi + l + 4)] by {
        assert(base[x] == le_bytes((16 * meta2.len()) as u32)[x - (movi + l + 4)]);
    }
    assert forall|x: int| rs <= x < rs + 16 * meta.len() implies #[trigger] out[x] == index_bytes(
        meta2,
    )[x - rs] by {
        assert(base[x] == index_bytes(meta2)[x - rs]);
    }
}

/// One record of the rebuilt index decodes back to the rewritten record.
#[verifier::rlimit(100)]
proof fn lemma_reparse_one(stream: Seq<u8>, movi: int, meta: Seq<Frame>, i: int)
    requires
        52 <= movi,
        movi - 4 <= stream.len(),
        extract_check(stream, movi, meta, 0) is Ok,
        0 <= i < meta.len(),
    ensures
        frame_at(
            assembled(stream, movi, blob(stream, movi, meta), rewritten(meta, movi)),
            movi + blob_len(meta) + 8 + 16 * i,
        ) == rewritten(meta, movi)[i],
{
    let meta2 = rewritten(meta, movi);
    let out = assembled(stream, movi, blob(stream, movi, meta), meta2);
    let rs = movi + blob_len(meta) + 8;
    lemma_extract_ok_all(stream, movi, meta, 0);
    lemma_assembled_layout(stream, movi, meta);
    lemma_index_slice(meta2, i);
    lemma_index_bytes_len(meta2);
    lemma_frame_bytes_round_trip(meta2[i]);
    let fb = frame_bytes(meta2[i]);
    assert forall|t: int| 0 <= t < 16 implies #[trigger] out[rs + 16 * i + t] == fb[t] by {
        assert(out[rs + 16 * i + t] == index_bytes(meta2)[16 * i + t]);
        assert(index_bytes(meta2).subrange(16 * i, 16 * i + 16)[t] == fb[t]);
    }
    assert(out[rs + 16 * i + 0] == fb[0]);
    assert(out[rs + 16 * i + 1] == fb[1]);
    assert(out[rs + 16 * i + 2] == fb[2]);
    assert(out[rs + 16 * i + 3] == fb[3]);
    assert(out[rs + 16 * i + 4] == fb[4]);
    assert(out[rs + 16 * i + 5] == fb[5]);
    assert(out[rs + 16 * i + 6] == fb[6]);
    assert(out[rs + 16 * i + 7] == fb[7]);
    assert(out[rs + 16 * i + 8] == fb[8]);
    assert(out[rs + 16 * i + 9] == fb[9]);
    assert(out[rs + 16 * i + 10] == fb[10]);
    assert(out[rs + 16 * i + 11] == fb[11]);
    assert(out[rs + 16 * i + 12] == fb[12]);
    assert(out[rs + 16 * i + 13] == fb[13]);
    assert(out[rs + 16 * i + 14] == fb[14]);
    assert(out[rs + 16 * i + 15] == fb[15]);
    assert(frame_at(out, rs + 16 * i) == frame_at(fb, 0));
}

/// ROUND-TRIP LAW: a rebuilt stream carries the index tag and byte length it
/// was given, and decoding the records written there yields exactly the
/// rewritten list — the same ids and flags as the list the rebuild consumed,
/// hence the same video count. (The movable-data base must lie past the two
/// patched header fields, as it does in any conventional header layout.)
pub proof fn lemma_round_trip_index(stream: Seq<u8>, movi: int, meta: Seq<Frame>)
    requires
        52 <= movi,
        movi - 4 <= stream.len(),
        extract_check(stream, movi, meta, 0) is Ok,
    ensures
        ({
            let out = assembled(stream, movi, blob(stream, movi, meta), rewritten(meta, movi));
            let rs = movi + blob_len(meta) + 8;
            let reparsed = records_at(out, rs, meta.len() as int);
            &&& be32_at(out, movi + blob_len(meta)) == IDX1_TAG
            &&& le32_at(out, movi + blob_len(meta) + 4) == (16 * meta.len()) as u32
            &&& reparsed == rewritten(meta, movi)
            &&& reparsed.len() == meta.len()
            &&& forall|i: int|
                0 <= i < meta.len() ==> (#[trigger] reparsed[i]).id == meta[i].id
                    && reparsed[i].flag == meta[i].flag
            &&& video_count(reparsed) == video_count(meta)
        }),
{
    let fd = blob(stream, movi, meta);
    let meta2 = rewritten(meta, movi);
    let out = assembled(stream, movi, fd, meta2);
    let l = blob_len(meta);
    let rs = movi + l + 8;
    let n = meta.len() as int;
    let reparsed = records_at(out, rs, n);
    lemma_extract_ok_all(stream, movi, meta, 0);
    lemma_assembled_layout(stream, movi, meta);
    crate::bytes::lemma_be_round_trip(IDX1_TAG);
    crate::bytes::lemma_le_round_trip((16 * meta.len()) as u32);
    assert(be32_at(out, movi + l) == IDX1_TAG);
    assert(le32_at(out, movi + l + 4) == (16 * meta.len()) as u32);
    assert forall|i: int| 0 <= i < n implies #[trigger] reparsed[i] == meta2[i] by {
        lemma_reparse_one(stream, movi, meta, i);
    }
    assert(reparsed =~= meta2);
    lemma_video_count_ids(reparsed, meta);
}

/// One payload re-extracted from the rebuilt stream equals the original one.
proof fn lemma_reextract_one(stream: Seq<u8>, movi: int, meta: Seq<Frame>, i: int)
    requires
        52 <= movi,
        movi - 4 <= stream.len(),
        extract_check(stream, movi, meta, 0) is Ok,
        0 <= i < meta.len(),
    ensures
        ({
            let out = assembled(stream, movi, blob(stream, movi, meta), rewritten(meta, movi));
            let meta2 = rewritten(meta, movi);
            &&& record_in_bounds(out, 0, meta2[i])
            &&& payload_of(out, 0, meta2[i]) == payload_of(stream, movi, meta[i])
        }),
{
    let fd = blob(stream, movi, meta);
    let meta2 = rewritten(meta, movi);
    let out = assembled(stream, movi, fd, meta2);
    let l = blob_len(meta);
    lemma_extract_ok_all(stream, movi, meta, 0);
    lemma_assembled_layout(stream, movi, meta);
    lemma_blob_len_matches(stream, movi, meta);
    lemma_blob_len_prefix(meta, i);
    lemma_blob_slice(stream, movi, meta, i);
    lemma_chunk_of_len(stream, movi, meta[i]);
    let si = blob_len(meta.take(i));
    let len_i = meta[i].length as int;
    assert(movi + si <= u32::MAX);
    assert(meta2[i].offset == (movi + si) as u32);
    assert(meta2[i].offset as int == movi + si);
    assert(meta2[i].length == meta[i].length);
    assert(si + 8 + len_i <= l);
    assert(record_in_bounds(out, 0, meta2[i]));
    let src = payload_of(stream, movi, meta[i]);
    let dst = payload_of(out, 0, meta2[i]);
    let ck = chunk_of(stream, movi, meta[i]);
    assert(src.len() == len_i);
    assert(dst.len() == len_i);
    assert forall|t: int| 0 <= t < len_i implies #[trigger] dst[t] == src[t] by {
        assert(dst[t] == out[movi + si + 8 + t]);
        assert(out[movi + si + 8 + t] == fd[si + 8 + t]);
        assert(fd.subrange(si, si + chunk_len(meta[i]))[8 + t] == fd[si + 8 + t]);
        assert(ck[8 + t] == src[t]);
    }
    assert(dst =~= src);
}

/// OFFSET-REWRITE LAW: re-extracting payloads from the rebuilt stream with
/// the rewritten records — against the movable-data base 0 that re-parsing
/// the rebuilt stream reports, since the rebuild does not re-emit the "movi"
/// word — yields byte-identical payloads to what the blob was built from.
pub proof fn lemma_reextract(stream: Seq<u8>, movi: int, meta: Seq<Frame>)
    requires
        52 <= movi,
        movi - 4 <= stream.len(),
        extract_check(stream, movi, meta, 0) is Ok,
    ensures
        ({
            let out = assembled(stream, movi, blob(stream, movi, meta), rewritten(meta, movi));
            let meta2 = rewritten(meta, movi);
            forall|i: int|
                0 <= i < meta.len() ==> record_in_bounds(out, 0, #[trigger] meta2[i])
                    && payload_of(out, 0, meta2[i]) == payload_of(stream, movi, meta[i])
        }),
{
    let meta2 = rewritten(meta, movi);
    let out = assembled(stream, movi, blob(stream, movi, meta), meta2);
    assert forall|i: int|
        0 <= i < meta.len() implies record_in_bounds(out, 0, #[trigger] meta2[i]) && payload_of(
        out,
        0,
        meta2[i],
    ) == payload_of(stream, movi, meta[i]) by {
        lemma_reextract_one(stream, movi, meta, i);
    }
}

/// ROUND-TRIP LAW for a loaded container: load a well-formed buffer, edit
/// nothing, rebuild — the index written into the output decodes to records
/// with the same ids and flags as the loaded list, and the same video count.
pub proof fn lemma_load_rewrite_round_trip(b: Seq<u8>)
    requires
        parse_ok(b),
        52 <= walk_movi(b),
        walk_movi(b) - 4 <= b.len(),
        extract_check(b, walk_movi(b), parsed_meta(b), 0) is Ok,
    ensures
        ({
            let meta = parsed_meta(b);
            let movi = walk_movi(b);
            let out = assembled(b, movi, blob(b, movi, meta), rewritten(meta, movi));
            let reparsed = records_at(out, movi + blob_len(meta) + 8, meta.len() as int);
            &&& reparsed.len() == meta.len()
            &&& forall|i: int|
                0 <= i < meta.len() ==> (#[trigger] reparsed[i]).id == meta[i].id
                    && reparsed[i].flag == meta[i].flag
            &&& video_count(reparsed) == video_count(meta)
        }),
{
    lemma_round_trip_index(b, walk_movi(b), parsed_meta(b));
}

} // verus!
