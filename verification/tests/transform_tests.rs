//! The keyframe-sync transform on the frame list alone.

use avirus::frame::Frame;
use avirus::frames::Frames;

// "00dc" video, "01wb" audio
const VID: u32 = 0x3030_6463;
const AUD: u32 = 0x3031_7762;

fn video_key(offset: u32) -> Frame {
    Frame { id: VID, flag: 0x10, offset, length: 1 }
}

fn video_delta(offset: u32) -> Frame {
    Frame { id: VID, flag: 0, offset, length: 1 }
}

fn audio(offset: u32) -> Frame {
    Frame { id: AUD, flag: 0, offset, length: 1 }
}

fn with_meta(meta: Vec<Frame>) -> Frames {
    Frames { stream: Vec::new(), pos_of_movi: 0, meta }
}

#[test]
fn keyframes_become_copies_of_the_last_delta() {
    let mut fr = with_meta(vec![
        video_key(10),
        audio(20),
        video_delta(30),
        video_key(40),
        audio(50),
    ]);
    fr.remove_keyframes();
    // the leading keyframe is seeded with itself; the later one is replaced
    // by the most recent delta frame; audio is untouched
    assert_eq!(
        fr.meta,
        vec![video_key(10), audio(20), video_delta(30), video_delta(30), audio(50)]
    );
}

#[test]
fn leading_keyframes_duplicate_the_first_keyframe() {
    let mut fr = with_meta(vec![video_key(1), video_key(2), video_key(3)]);
    fr.remove_keyframes();
    assert_eq!(fr.meta, vec![video_key(1), video_key(1), video_key(1)]);
}

#[test]
fn audio_and_delta_frames_pass_through() {
    let frames = vec![audio(1), video_delta(2), audio(3), video_delta(4)];
    let mut fr = with_meta(frames.clone());
    fr.remove_keyframes();
    assert_eq!(fr.meta, frames);
}

#[test]
fn empty_list_stays_empty() {
    let mut fr = with_meta(Vec::new());
    fr.remove_keyframes();
    assert!(fr.meta.is_empty());
}

#[test]
fn audio_order_survives_mixed_lists() {
    let mut fr = with_meta(vec![
        audio(1),
        video_key(2),
        audio(3),
        video_delta(4),
        video_key(5),
        audio(6),
    ]);
    fr.remove_keyframes();
    let audio_only: Vec<Frame> = fr.meta.iter().copied().filter(|f| f.is_audioframe()).collect();
    assert_eq!(audio_only, vec![audio(1), audio(3), audio(6)]);
    // no keyframe survives once a delta frame was seen
    let mut delta_seen = false;
    for f in &fr.meta {
        if f.is_pframe() {
            delta_seen = true;
        }
        if delta_seen {
            assert!(!f.is_iframe());
        }
    }
}

#[test]
fn records_of_unknown_class_are_dropped() {
    // id "00xx": neither video nor audio; the transform drops it
    let stray = Frame { id: 0x3030_7878, flag: 0, offset: 9, length: 9 };
    let mut fr = with_meta(vec![audio(1), stray, video_delta(2)]);
    fr.remove_keyframes();
    assert_eq!(fr.meta, vec![audio(1), video_delta(2)]);
}

#[test]
fn transform_does_not_touch_the_stream() {
    let mut fr = Frames {
        stream: vec![1, 2, 3],
        pos_of_movi: 7,
        meta: vec![video_key(1), video_delta(2)],
    };
    fr.remove_keyframes();
    assert_eq!(fr.stream, vec![1, 2, 3]);
    assert_eq!(fr.pos_of_movi, 7);
}
