use locker::executor::{
    proceed, settle, transcoder_args, transcoder_outcome, Call, Entry, Executor, Next, Plan, Step,
    TRANSCODER,
};
use locker::message::{Action, Reaction};
use locker::root::Root;
use locker::session::answer_steps;
use locker::unit::{Unit, UnitKind};
use locker::Failure;

fn executor() -> Executor {
    Executor::new(Root::new("/srv/locker").unwrap())
}

fn s(text: &str) -> String {
    text.to_string()
}

#[test]
fn ls_plans_one_read() {
    assert_eq!(executor().plan(&Action::Ls(s("docs"))), Ok(Plan::List { dir: s("/srv/locker/docs") }));
    assert_eq!(executor().plan(&Action::Ls(s(""))), Ok(Plan::List { dir: s("/srv/locker/") }));
}

#[test]
fn ls_outside_the_root_is_refused() {
    assert_eq!(executor().plan(&Action::Ls(s("../../etc"))), Err(Failure::OutsideRoot));
    assert_eq!(executor().plan(&Action::Ls(s("/etc"))), Err(Failure::OutsideRoot));
}

#[test]
fn rm_removes_in_order_by_kind() {
    let action = Action::Rm(vec![
        Unit { path: s("old"), kind: UnitKind::Directory },
        Unit { path: s("a.txt"), kind: UnitKind::File },
        Unit { path: s("clip.mkv"), kind: UnitKind::Video },
        Unit { path: s("../x"), kind: UnitKind::File },
        Unit { path: s("song.ogg"), kind: UnitKind::Audio },
    ]);
    assert_eq!(
        executor().plan(&action),
        Ok(Plan::InTurn {
            steps: vec![
                Step::RemoveDir { path: s("/srv/locker/old") },
                Step::RemoveFile { path: s("/srv/locker/a.txt") },
                Step::RemoveFile { path: s("/srv/locker/clip.mkv") },
                Step::Refuse { failure: Failure::OutsideRoot },
                Step::RemoveFile { path: s("/srv/locker/song.ogg") },
            ],
        })
    );
}

#[test]
fn rm_of_one_unit_removes_its_resolved_path() {
    let unit = Unit { path: s("docs/a.txt"), kind: UnitKind::File };
    let root = Root::new("/srv/locker").unwrap();
    let resolved = root.resolve(&unit.path).unwrap();
    assert_eq!(
        executor().plan(&Action::Rm(vec![unit])),
        Ok(Plan::InTurn { steps: vec![Step::RemoveFile { path: resolved }] })
    );
}

#[test]
fn mv_moves_each_source_under_its_own_name() {
    let action = Action::Mv { from: vec![s("a.txt"), s("docs/b.txt")], to: s("Downloads") };
    assert_eq!(
        executor().plan(&action),
        Ok(Plan::Together {
            steps: vec![
                Step::Move { from: s("/srv/locker/a.txt"), to: s("/srv/locker/Downloads/a.txt") },
                Step::Move {
                    from: s("/srv/locker/docs/b.txt"),
                    to: s("/srv/locker/Downloads/b.txt"),
                },
            ],
        })
    );
}

#[test]
fn cp_copies_each_source_under_its_own_name() {
    let action = Action::Cp { from: vec![s(".bash_history")], to: s("Downloads/") };
    assert_eq!(
        executor().plan(&action),
        Ok(Plan::Together {
            steps: vec![Step::Copy {
                from: s("/srv/locker/.bash_history"),
                to: s("/srv/locker/Downloads/.bash_history"),
            }],
        })
    );
    let into_root = Action::Cp { from: vec![s("docs/a.txt")], to: s("") };
    assert_eq!(
        executor().plan(&into_root),
        Ok(Plan::Together {
            steps: vec![Step::Copy { from: s("/srv/locker/docs/a.txt"), to: s("/srv/locker/a.txt") }],
        })
    );
}

#[test]
fn transfer_into_a_directory_outside_the_root_fails_as_a_whole() {
    let mv = Action::Mv { from: vec![s("a.txt")], to: s("../elsewhere") };
    let cp = Action::Cp { from: vec![s("a.txt")], to: s("/tmp") };
    assert_eq!(executor().plan(&mv), Err(Failure::OutsideRoot));
    assert_eq!(executor().plan(&cp), Err(Failure::OutsideRoot));
}

#[test]
fn a_source_that_cannot_be_carried_is_refused_alone() {
    let action = Action::Cp { from: vec![s("ok1"), s("../secret"), s(""), s("ok2")], to: s("T") };
    assert_eq!(
        executor().plan(&action),
        Ok(Plan::Together {
            steps: vec![
                Step::Copy { from: s("/srv/locker/ok1"), to: s("/srv/locker/T/ok1") },
                Step::Refuse { failure: Failure::OutsideRoot },
                Step::Refuse { failure: Failure::IoFailure },
                Step::Copy { from: s("/srv/locker/ok2"), to: s("/srv/locker/T/ok2") },
            ],
        })
    );
}

#[test]
fn mp4_transcodes_to_the_file_beside_the_source() {
    let action = Action::Mp4(vec![s("record.mkv"), s("clips/a.b.avi"), s("raw"), s("../x.mkv"), s("")]);
    assert_eq!(
        executor().plan(&action),
        Ok(Plan::Together {
            steps: vec![
                Step::Transcode { from: s("/srv/locker/record.mkv"), to: s("/srv/locker/record.mp4") },
                Step::Transcode {
                    from: s("/srv/locker/clips/a.b.avi"),
                    to: s("/srv/locker/clips/a.b.mp4"),
                },
                Step::Transcode { from: s("/srv/locker/raw"), to: s("/srv/locker/raw.mp4") },
                Step::Refuse { failure: Failure::OutsideRoot },
                Step::Refuse { failure: Failure::IoFailure },
            ],
        })
    );
}

#[test]
fn empty_requests_plan_no_step() {
    assert_eq!(executor().plan(&Action::Rm(Vec::new())), Ok(Plan::InTurn { steps: Vec::new() }));
    assert_eq!(executor().plan(&Action::Mp4(Vec::new())), Ok(Plan::Together { steps: Vec::new() }));
    assert_eq!(settle(&Vec::new()), Ok(()));
}

#[test]
fn fan_out_partial_failure() {
    let action = Action::Cp { from: vec![s("ok1"), s("missing"), s("ok2")], to: s("T") };
    let plan = executor().plan(&action).unwrap();
    match &plan {
        Plan::Together { steps } => assert_eq!(steps.len(), 3),
        other => panic!("{other:?}"),
    }
    // The copies of ok1 and ok2 succeeded, the one of the missing file did not.
    let outcomes = vec![Ok(()), Err(Failure::IoFailure), Ok(())];
    assert_eq!(settle(&outcomes), Err(Failure::IoFailure));
    assert_eq!(answer_steps(&outcomes), Reaction::Failed(Failure::IoFailure));
}

#[test]
fn settle_surfaces_the_first_failure() {
    assert_eq!(settle(&vec![Ok(()), Ok(())]), Ok(()));
    assert_eq!(
        settle(&vec![Ok(()), Err(Failure::ProcessFailure), Err(Failure::IoFailure)]),
        Err(Failure::ProcessFailure)
    );
    assert_eq!(settle(&vec![Err(Failure::OutsideRoot)]), Err(Failure::OutsideRoot));
    assert_eq!(answer_steps(&vec![Ok(()), Ok(())]), Reaction::Fine);
}

#[test]
fn listing_of_a_root_with_one_directory_and_one_file() {
    let entries = vec![
        Entry { name: s("docs"), is_dir: true },
        Entry { name: s("a.txt"), is_dir: false },
    ];
    let dir = match executor().plan(&Action::Ls(s(""))) {
        Ok(Plan::List { dir }) => dir,
        other => panic!("{other:?}"),
    };
    assert_eq!(
        executor().listing(&dir, &entries),
        Ok(vec![
            Unit { path: s("docs"), kind: UnitKind::Directory },
            Unit { path: s("a.txt"), kind: UnitKind::File },
        ])
    );
}

#[test]
fn listing_units_resolve_to_their_entries() {
    let entries = vec![
        Entry { name: s("old"), is_dir: true },
        Entry { name: s("clip.mkv"), is_dir: false },
    ];
    let root = Root::new("/srv/locker").unwrap();
    for dir in ["docs", "docs/"] {
        let read = root.resolve(dir).unwrap();
        let units = executor().listing(&read, &entries).unwrap();
        assert_eq!(units.len(), entries.len());
        for (unit, entry) in units.iter().zip(&entries) {
            assert_eq!(unit.path, format!("docs/{}", entry.name));
            assert_eq!(root.resolve(&unit.path), Ok(format!("/srv/locker/docs/{}", entry.name)));
            assert_eq!(unit.kind == UnitKind::Directory, entry.is_dir);
        }
        assert_eq!(units[1].kind, UnitKind::File);
    }
}

#[test]
fn listing_refuses_an_entry_outside_the_root() {
    let entries = vec![
        Entry { name: s("docs"), is_dir: true },
        Entry { name: s(".."), is_dir: true },
    ];
    assert_eq!(executor().listing("/srv/locker/", &entries), Err(Failure::OutsideRoot));
    assert_eq!(executor().listing("/srv/locker/", &entries[..1].to_vec()).map(|u| u.len()), Ok(1));
    assert_eq!(executor().listing("/etc", &entries[..1].to_vec()), Err(Failure::OutsideRoot));
    assert_eq!(executor().listing("/srv/locker/", &Vec::new()), Ok(Vec::new()));
}

#[test]
fn transcoder_must_start_and_exit_with_zero() {
    assert_eq!(transcoder_outcome(true, Some(0)), Ok(()));
    assert_eq!(transcoder_outcome(true, Some(1)), Err(Failure::ProcessFailure));
    assert_eq!(transcoder_outcome(true, None), Err(Failure::ProcessFailure));
    assert_eq!(transcoder_outcome(false, None), Err(Failure::ProcessFailure));
    assert_eq!(transcoder_outcome(false, Some(0)), Err(Failure::ProcessFailure));
}

#[test]
fn a_move_copies_then_removes_the_source() {
    let step = Step::Move { from: s("/r/a"), to: s("/r/T/a") };
    assert_eq!(step.next(0, Ok(())), Next::Call(Call::Copy { from: s("/r/a"), to: s("/r/T/a") }));
    assert_eq!(step.next(1, Ok(())), Next::Call(Call::RemoveFile { path: s("/r/a") }));
    assert_eq!(step.next(2, Ok(())), Next::Done(Ok(())));
    // The source stays where the copy failed.
    assert_eq!(step.next(1, Err(Failure::IoFailure)), Next::Done(Err(Failure::IoFailure)));
    assert_eq!(step.next(2, Err(Failure::IoFailure)), Next::Done(Err(Failure::IoFailure)));
}

#[test]
fn a_copy_is_one_call() {
    let step = Step::Copy { from: s("/r/a"), to: s("/r/T/a") };
    assert_eq!(step.next(0, Ok(())), Next::Call(Call::Copy { from: s("/r/a"), to: s("/r/T/a") }));
    assert_eq!(step.next(1, Ok(())), Next::Done(Ok(())));
    assert_eq!(step.next(1, Err(Failure::IoFailure)), Next::Done(Err(Failure::IoFailure)));
}

#[test]
fn removals_are_one_call_each() {
    let dir = Step::RemoveDir { path: s("/r/d") };
    let file = Step::RemoveFile { path: s("/r/f") };
    assert_eq!(dir.next(0, Ok(())), Next::Call(Call::RemoveDir { path: s("/r/d") }));
    assert_eq!(dir.next(1, Ok(())), Next::Done(Ok(())));
    assert_eq!(file.next(0, Err(Failure::IoFailure)), Next::Call(Call::RemoveFile { path: s("/r/f") }));
    assert_eq!(file.next(1, Err(Failure::IoFailure)), Next::Done(Err(Failure::IoFailure)));
}

#[test]
fn a_transcoding_needs_only_the_transcoder() {
    let step = Step::Transcode { from: s("/r/a.mkv"), to: s("/r/a.mp4") };
    assert_eq!(step.next(0, Ok(())), Next::Call(Call::RemoveFile { path: s("/r/a.mp4") }));
    // Nothing was there to clear: the transcoder runs all the same.
    assert_eq!(
        step.next(1, Err(Failure::IoFailure)),
        Next::Call(Call::Transcode { from: s("/r/a.mkv"), to: s("/r/a.mp4") })
    );
    assert_eq!(
        step.next(2, Err(Failure::ProcessFailure)),
        Next::Done(Err(Failure::ProcessFailure))
    );
    assert_eq!(step.next(2, Ok(())), Next::Call(Call::RemoveFile { path: s("/r/a.mkv") }));
    assert_eq!(step.next(3, Err(Failure::IoFailure)), Next::Done(Ok(())));
    assert_eq!(step.next(3, Ok(())), Next::Done(Ok(())));
}

#[test]
fn a_refused_step_makes_no_call() {
    let step = Step::Refuse { failure: Failure::OutsideRoot };
    assert_eq!(step.next(0, Ok(())), Next::Done(Err(Failure::OutsideRoot)));
    assert_eq!(step.next(1, Ok(())), Next::Done(Err(Failure::OutsideRoot)));
}

#[test]
fn steps_in_turn_stop_at_the_first_failure() {
    assert_eq!(proceed(3, &vec![]), Some(0));
    assert_eq!(proceed(3, &vec![Ok(())]), Some(1));
    assert_eq!(proceed(3, &vec![Ok(()), Ok(())]), Some(2));
    assert_eq!(proceed(3, &vec![Ok(()), Ok(()), Ok(())]), None);
    assert_eq!(proceed(3, &vec![Ok(()), Err(Failure::IoFailure)]), None);
    assert_eq!(proceed(0, &vec![]), None);
}

#[test]
fn the_transcoder_gets_input_then_output() {
    assert_eq!(TRANSCODER, "ffmpeg");
    assert_eq!(transcoder_args("/r/a.mkv", "/r/a.mp4"), vec![s("-i"), s("/r/a.mkv"), s("/r/a.mp4")]);
}
