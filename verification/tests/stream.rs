use shinra::stream::{chroma_slots, forces_keyframe, frame_message, i420_sizes, next_frame_index, read_message};

#[test]
fn a_keyframe_every_thirty_frames() {
    assert!(forces_keyframe(0));
    assert!(!forces_keyframe(1));
    assert!(!forces_keyframe(29));
    assert!(forces_keyframe(30));
    assert!(forces_keyframe(60));
    assert_eq!(next_frame_index(7), 8);
    assert_eq!(next_frame_index(u32::MAX), 0);
}

#[test]
fn messages_are_flagged_and_read_back() {
    assert_eq!(frame_message(true, &vec![]), None);
    let m = frame_message(true, &vec![9, 8, 7]).unwrap();
    assert_eq!(m, vec![1, 9, 8, 7]);
    assert_eq!(read_message(&m), Some((true, vec![9, 8, 7])));
    let d = frame_message(false, &vec![5]).unwrap();
    assert_eq!(d, vec![0, 5]);
    assert_eq!(read_message(&d), Some((false, vec![5])));
    assert_eq!(read_message(&[]), None);
    assert_eq!(read_message(&[2, 1]), Some((false, vec![1])));
}

#[test]
fn i420_layout() {
    assert_eq!(i420_sizes(512, 384), (512 * 384 * 3 / 2, 512 * 384));
    let y = 4 * 2;
    assert_eq!(chroma_slots(4, 2, 0, 0), Some((y, y + 2)));
    assert_eq!(chroma_slots(4, 2, 0, 2), Some((y + 1, y + 3)));
    assert_eq!(chroma_slots(4, 2, 0, 1), None);
    assert_eq!(chroma_slots(4, 2, 1, 0), None);
    assert_eq!(chroma_slots(512, 384, 382, 510), Some((512 * 384 + 191 * 256 + 255, 512 * 384 + 512 * 96 + 191 * 256 + 255)));
}
