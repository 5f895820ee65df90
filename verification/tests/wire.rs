use locker::message::{Action, Reaction};
use locker::unit::{sort_for_display, text_precedes, Unit, UnitKind};
use locker::wire::{failure_text, kind_text, text_failure, text_kind, Bytes};
use locker::{Failure, LAST};

fn sample_units() -> Vec<Unit> {
    vec![
        Unit { path: "docs".to_string(), kind: UnitKind::Directory },
        Unit { path: "docs/clip.mkv".to_string(), kind: UnitKind::Video },
        Unit { path: "song\n.ogg".to_string(), kind: UnitKind::Audio },
        Unit { path: "a.txt".to_string(), kind: UnitKind::File },
    ]
}

fn marker_only_last(frame: &[u8]) -> bool {
    frame.last() == Some(&LAST) && !frame[..frame.len() - 1].contains(&LAST)
}

#[test]
fn ls_round_trip() {
    let action = Action::Ls("docs/old".to_string());
    let frame = action.bytes();
    assert!(marker_only_last(&frame));
    assert_eq!(Action::from_bytes(frame), Ok(action));
}

#[test]
fn ls_frame_bytes_are_exact() {
    let frame = Action::Ls("ab".to_string()).bytes();
    assert_eq!(frame, vec![0xA1, 0x62, b'L', b's', 0x62, b'a', b'b', 0x0A]);
}

#[test]
fn rm_round_trip() {
    let action = Action::Rm(sample_units());
    let frame = action.bytes();
    assert!(marker_only_last(&frame));
    assert_eq!(Action::from_bytes(frame), Ok(action));
}

#[test]
fn mv_round_trip() {
    let action = Action::Mv {
        from: vec!["a.txt".to_string(), "docs/b.txt".to_string()],
        to: "Downloads".to_string(),
    };
    let frame = action.bytes();
    assert!(marker_only_last(&frame));
    assert_eq!(Action::from_bytes(frame), Ok(action));
}

#[test]
fn cp_round_trip() {
    let action = Action::Cp { from: vec![".bash_history".to_string()], to: "Downloads".to_string() };
    let frame = action.bytes();
    assert_eq!(Action::from_bytes(frame), Ok(action));
}

#[test]
fn mv_and_cp_are_told_apart() {
    let mv = Action::Mv { from: vec!["a".to_string()], to: "b".to_string() };
    let cp = Action::Cp { from: vec!["a".to_string()], to: "b".to_string() };
    assert_ne!(mv.bytes(), cp.bytes());
    assert_eq!(Action::from_bytes(cp.bytes()), Ok(cp));
}

#[test]
fn mp4_round_trip() {
    let action = Action::Mp4(vec!["record.mkv".to_string(), "x/y.avi".to_string()]);
    let frame = action.bytes();
    assert_eq!(Action::from_bytes(frame), Ok(action));
}

#[test]
fn empty_lists_round_trip() {
    for action in [
        Action::Ls(String::new()),
        Action::Rm(Vec::new()),
        Action::Mv { from: Vec::new(), to: String::new() },
        Action::Mp4(Vec::new()),
    ] {
        assert_eq!(Action::from_bytes(action.bytes()), Ok(action));
    }
    let listing = Reaction::Ls(Vec::new());
    assert_eq!(Reaction::from_bytes(listing.bytes()), Ok(listing));
}

#[test]
fn reaction_listing_round_trip() {
    let reaction = Reaction::Ls(sample_units());
    let frame = reaction.bytes();
    assert!(marker_only_last(&frame));
    assert_eq!(Reaction::from_bytes(frame), Ok(reaction));
}

#[test]
fn reaction_fine_round_trip() {
    let frame = Reaction::Fine.bytes();
    assert_eq!(frame, vec![0x64, b'F', b'i', b'n', b'e', 0x0A]);
    assert_eq!(Reaction::from_bytes(frame), Ok(Reaction::Fine));
}

#[test]
fn reaction_failure_round_trip() {
    for failure in [
        Failure::MalformedFrame,
        Failure::OutsideRoot,
        Failure::IoFailure,
        Failure::ProcessFailure,
    ] {
        let reaction = Reaction::Failed(failure);
        let frame = reaction.bytes();
        assert!(marker_only_last(&frame));
        assert_eq!(Reaction::from_bytes(frame), Ok(reaction));
    }
}

#[test]
fn marker_inside_a_path_is_escaped() {
    // A path of ten bytes has the text header 0x6A; one with a line feed holds the marker itself.
    let action = Action::Ls("line\nfeed\x1b!".to_string());
    let frame = action.bytes();
    assert!(marker_only_last(&frame));
    assert_eq!(Action::from_bytes(frame), Ok(action));
    let ten = Action::Mp4(vec!["x".to_string(); 10]);
    let frame = ten.bytes();
    assert!(marker_only_last(&frame));
    assert_eq!(Action::from_bytes(frame), Ok(ten));
}

#[test]
fn long_path_round_trip() {
    let action = Action::Ls("d/".repeat(5000));
    let frame = action.bytes();
    assert!(marker_only_last(&frame));
    assert_eq!(Action::from_bytes(frame), Ok(action));
}

#[test]
fn truncated_frame_is_malformed() {
    let mut frame = Action::Ls("docs".to_string()).bytes();
    frame.pop();
    assert_eq!(Action::from_bytes(frame.clone()), Err(Failure::MalformedFrame));
    frame.pop();
    frame.push(LAST);
    assert_eq!(Action::from_bytes(frame), Err(Failure::MalformedFrame));
    assert_eq!(Action::from_bytes(Vec::new()), Err(Failure::MalformedFrame));
    assert_eq!(Action::from_bytes(vec![LAST]), Err(Failure::MalformedFrame));
}

#[test]
fn unknown_tag_is_malformed() {
    // {"Zz": "ab"}
    let frame = vec![0xA1, 0x62, b'Z', b'z', 0x62, b'a', b'b', LAST];
    assert_eq!(Action::from_bytes(frame), Err(Failure::MalformedFrame));
    // A request is no answer, and an answer no request.
    assert_eq!(Reaction::from_bytes(Action::Mp4(Vec::new()).bytes()), Err(Failure::MalformedFrame));
    assert_eq!(Action::from_bytes(Reaction::Fine.bytes()), Err(Failure::MalformedFrame));
}

#[test]
fn unknown_kind_is_malformed() {
    let good = Action::Rm(vec![Unit { path: "a".to_string(), kind: UnitKind::File }]).bytes();
    let at = good.windows(4).position(|w| w == b"File").unwrap();
    let mut bad = good.clone();
    bad[at] = b'G';
    assert!(Action::from_bytes(good).is_ok());
    assert_eq!(Action::from_bytes(bad), Err(Failure::MalformedFrame));
}

#[test]
fn frames_written_by_hand_are_read() {
    // {"Ls": "ab"}
    let frame = vec![0xA1, 0x62, b'L', b's', 0x62, b'a', b'b', LAST];
    assert_eq!(Action::from_bytes(frame), Ok(Action::Ls("ab".to_string())));
    // {"Rm": [{"path": "a", "kind": "File"}]}
    let mut frame = vec![0xA1, 0x62, b'R', b'm', 0x81, 0xA2, 0x64];
    frame.extend_from_slice(b"path");
    frame.extend_from_slice(&[0x61, b'a', 0x64]);
    frame.extend_from_slice(b"kind");
    frame.push(0x64);
    frame.extend_from_slice(b"File");
    frame.push(LAST);
    let expected = Action::Rm(vec![Unit { path: "a".to_string(), kind: UnitKind::File }]);
    assert_eq!(expected.bytes(), frame);
    assert_eq!(Action::from_bytes(frame), Ok(expected));
}

#[test]
fn kind_and_failure_names() {
    for kind in [UnitKind::Directory, UnitKind::Video, UnitKind::Audio, UnitKind::File] {
        assert_eq!(text_kind(kind_text(kind)), Some(kind));
    }
    assert_eq!(kind_text(UnitKind::Directory), "Directory");
    assert_eq!(text_kind("Dir"), None);
    assert_eq!(failure_text(Failure::ProcessFailure), "ProcessFailure");
    assert_eq!(text_failure("IoFailure"), Some(Failure::IoFailure));
    assert_eq!(text_failure("io"), None);
}

#[test]
fn kinds_are_ordered_for_display() {
    assert!(UnitKind::Directory < UnitKind::Video);
    assert!(UnitKind::Video < UnitKind::Audio);
    assert!(UnitKind::Audio < UnitKind::File);
}

#[test]
fn checked_frames_read_back() {
    let action = Action::Mv { from: vec!["a\n".to_string()], to: "T".to_string() };
    let frame = action.checked_bytes().unwrap();
    assert_eq!(frame, action.bytes());
    assert_eq!(Action::from_bytes(frame), Ok(action));
    let reaction = Reaction::Ls(sample_units());
    assert_eq!(reaction.checked_bytes(), Some(reaction.bytes()));
}

#[test]
fn same_compares_by_value() {
    let a = Action::Rm(sample_units());
    assert!(a.same(&Action::Rm(sample_units())));
    assert!(!a.same(&Action::Rm(Vec::new())));
    assert!(!a.same(&Action::Mp4(Vec::new())));
    let mv = Action::Mv { from: vec!["a".to_string()], to: "b".to_string() };
    let cp = Action::Cp { from: vec!["a".to_string()], to: "b".to_string() };
    assert!(mv.same(&mv.clone()));
    assert!(!mv.same(&cp));
    assert!(!mv.same(&Action::Mv { from: vec!["a".to_string()], to: "c".to_string() }));
    assert!(!mv.same(&Action::Mv { from: vec!["x".to_string()], to: "b".to_string() }));
    assert!(Reaction::Fine.same(&Reaction::Fine));
    assert!(!Reaction::Fine.same(&Reaction::Ls(Vec::new())));
    assert!(Reaction::Failed(Failure::IoFailure).same(&Reaction::Failed(Failure::IoFailure)));
    assert!(!Reaction::Failed(Failure::IoFailure).same(&Reaction::Failed(Failure::OutsideRoot)));
}

#[test]
fn units_are_shown_by_kind_then_path() {
    let unit = |path: &str, kind| Unit { path: path.to_string(), kind };
    let ordered = [
        unit("b", UnitKind::Directory),
        unit("z", UnitKind::Directory),
        unit("a", UnitKind::Video),
        unit("a", UnitKind::Audio),
        unit("", UnitKind::File),
        unit("a", UnitKind::File),
        unit("a.txt", UnitKind::File),
        unit("b", UnitKind::File),
        unit("\u{e9}", UnitKind::File),
    ];
    for (i, a) in ordered.iter().enumerate() {
        for (j, b) in ordered.iter().enumerate() {
            assert_eq!(a.shown_before(b), i < j, "{a:?} {b:?}");
            assert_eq!(a.same(b), i == j);
        }
    }
}

#[test]
fn texts_are_ordered_character_by_character() {
    assert!(text_precedes("", "a"));
    assert!(text_precedes("a", "ab"));
    assert!(text_precedes("ab", "b"));
    assert!(text_precedes("Z", "a"));
    assert!(!text_precedes("a", "a"));
    assert!(!text_precedes("b", "ab"));
    assert!(!text_precedes("", ""));
    assert_eq!(text_precedes("a\u{e9}", "a\u{4e16}"), "a\u{e9}" < "a\u{4e16}");
}

#[test]
fn a_listing_is_sorted_for_display() {
    let unit = |path: &str, kind| Unit { path: path.to_string(), kind };
    let listing = vec![
        unit("b.txt", UnitKind::File),
        unit("song.ogg", UnitKind::Audio),
        unit("zoo", UnitKind::Directory),
        unit("a.txt", UnitKind::File),
        unit("clip.mkv", UnitKind::Video),
        unit("docs", UnitKind::Directory),
        unit("a.txt", UnitKind::File),
    ];
    assert_eq!(
        sort_for_display(listing),
        vec![
            unit("docs", UnitKind::Directory),
            unit("zoo", UnitKind::Directory),
            unit("clip.mkv", UnitKind::Video),
            unit("song.ogg", UnitKind::Audio),
            unit("a.txt", UnitKind::File),
            unit("a.txt", UnitKind::File),
            unit("b.txt", UnitKind::File),
        ]
    );
    assert_eq!(sort_for_display(Vec::new()), Vec::new());
}
