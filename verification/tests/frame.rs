use locker::frame::{open, seal, ESC, ESC_ESC, ESC_LAST};
use locker::LAST;

#[test]
fn seal_escapes_marker_and_escape_byte() {
    let frame = seal(&[1, LAST, ESC, 2]);
    assert_eq!(frame, vec![1, ESC, ESC_LAST, ESC, ESC_ESC, 2, LAST]);
}

#[test]
fn seal_of_nothing_is_the_marker() {
    assert_eq!(seal(&[]), vec![LAST]);
    assert_eq!(open(&[LAST]), Some(Vec::new()));
}

#[test]
fn open_gives_the_payload_back() {
    assert_eq!(open(&[1, ESC, ESC_LAST, ESC, ESC_ESC, 2, LAST]), Some(vec![1, LAST, ESC, 2]));
}

#[test]
fn open_after_seal_for_every_byte() {
    let payload: Vec<u8> = (0..=255u8).chain([LAST, LAST, ESC, ESC, 0]).collect();
    let frame = seal(&payload);
    assert_eq!(frame.iter().filter(|b| **b == LAST).count(), 1);
    assert_eq!(frame.last(), Some(&LAST));
    assert_eq!(open(&frame), Some(payload));
}

#[test]
fn open_refuses_what_is_no_frame() {
    assert_eq!(open(&[]), None);
    assert_eq!(open(&[1, 2, 3]), None);
    assert_eq!(open(&[1, LAST, 2, LAST]), None);
    assert_eq!(open(&[1, ESC, LAST]), None);
    assert_eq!(open(&[ESC, 7, LAST]), None);
    assert_eq!(open(&[ESC, ESC, LAST]), None);
}
