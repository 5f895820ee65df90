use locker::client::{read_answer, read_listing, Refusal};
use locker::executor::{Entry, Executor, Plan, Step};
use locker::message::{Action, Reaction};
use locker::root::Root;
use locker::session::{Command, Event, Stage};
use locker::unit::{Unit, UnitKind};
use locker::wire::Bytes;
use locker::{Failure, LAST};

fn executor() -> Executor {
    Executor::new(Root::new("/srv/locker").unwrap())
}

fn s(text: &str) -> String {
    text.to_string()
}

fn sent(command: Command) -> Reaction {
    match command {
        Command::Send(data) => {
            assert_eq!(data.iter().filter(|b| **b == LAST).count(), 1);
            Reaction::from_bytes(data).unwrap()
        }
        other => panic!("{other:?}"),
    }
}

#[test]
fn a_listing_takes_two_events() {
    let (stage, command) = executor().advance(Stage::Reading, Event::Frame(Action::Ls(s("")).bytes()));
    assert_eq!(stage, Stage::Listing { dir: s("/srv/locker/") });
    assert_eq!(command, Command::Work(Plan::List { dir: s("/srv/locker/") }));
    let entries = vec![
        Entry { name: s("docs"), is_dir: true },
        Entry { name: s("a.txt"), is_dir: false },
    ];
    let (stage, command) = executor().advance(stage, Event::Listed(Ok(entries)));
    assert_eq!(stage, Stage::Closed);
    assert_eq!(
        sent(command),
        Reaction::Ls(vec![
            Unit { path: s("docs"), kind: UnitKind::Directory },
            Unit { path: s("a.txt"), kind: UnitKind::File },
        ])
    );
}

#[test]
fn a_failed_read_is_answered_with_its_failure() {
    let listing = Stage::Listing { dir: s("/srv/locker/docs") };
    let (stage, command) = executor().advance(listing, Event::Listed(Err(Failure::IoFailure)));
    assert_eq!(stage, Stage::Closed);
    assert_eq!(sent(command), Reaction::Failed(Failure::IoFailure));
}

#[test]
fn a_removal_is_planned_and_acknowledged() {
    let action = Action::Rm(vec![Unit { path: s("a.txt"), kind: UnitKind::File }]);
    let (stage, command) = executor().advance(Stage::Reading, Event::Frame(action.bytes()));
    assert_eq!(stage, Stage::Running);
    assert_eq!(
        command,
        Command::Work(Plan::InTurn { steps: vec![Step::RemoveFile { path: s("/srv/locker/a.txt") }] })
    );
    let (stage, command) = executor().advance(stage, Event::Ran(vec![Ok(())]));
    assert_eq!(stage, Stage::Closed);
    assert_eq!(sent(command), Reaction::Fine);
}

#[test]
fn the_first_failure_of_a_run_is_answered() {
    let outcomes = vec![Ok(()), Err(Failure::IoFailure), Err(Failure::ProcessFailure)];
    let (stage, command) = executor().advance(Stage::Running, Event::Ran(outcomes));
    assert_eq!(stage, Stage::Closed);
    assert_eq!(sent(command), Reaction::Failed(Failure::IoFailure));
}

#[test]
fn path_escape_is_answered_with_outside_root() {
    let frame = Action::Ls(s("../../etc")).bytes();
    let (stage, command) = executor().advance(Stage::Reading, Event::Frame(frame));
    assert_eq!(stage, Stage::Closed);
    assert_eq!(sent(command), Reaction::Failed(Failure::OutsideRoot));
}

#[test]
fn garbage_is_answered_with_malformed_frame() {
    for frame in [Vec::new(), vec![LAST], vec![1, 2, 3], vec![0xFF, LAST], Reaction::Fine.bytes()] {
        let (stage, command) = executor().advance(Stage::Reading, Event::Frame(frame));
        assert_eq!(stage, Stage::Closed);
        assert_eq!(sent(command), Reaction::Failed(Failure::MalformedFrame));
    }
}

#[test]
fn an_event_out_of_turn_closes_the_connection() {
    let frame = Action::Ls(s("")).bytes();
    assert_eq!(
        executor().advance(Stage::Closed, Event::Frame(frame.clone())),
        (Stage::Closed, Command::Close)
    );
    assert_eq!(
        executor().advance(Stage::Listing { dir: s("/srv/locker/") }, Event::Frame(frame)),
        (Stage::Closed, Command::Close)
    );
    assert_eq!(
        executor().advance(Stage::Reading, Event::Ran(Vec::new())),
        (Stage::Closed, Command::Close)
    );
    assert_eq!(
        executor().advance(Stage::Running, Event::Listed(Ok(Vec::new()))),
        (Stage::Closed, Command::Close)
    );
}

#[test]
fn the_client_reads_a_listing() {
    let units = vec![Unit { path: s("docs"), kind: UnitKind::Directory }];
    assert_eq!(read_listing(Reaction::Ls(units.clone()).bytes()), Ok(units));
    assert_eq!(read_listing(Reaction::Fine.bytes()), Err(Refusal::Unexpected));
    assert_eq!(
        read_listing(Reaction::Failed(Failure::OutsideRoot).bytes()),
        Err(Refusal::Failed(Failure::OutsideRoot))
    );
    assert_eq!(read_listing(Vec::new()), Err(Refusal::Malformed));
    assert_eq!(read_listing(vec![0x64, b'F', b'i', b'n']), Err(Refusal::Malformed));
}

#[test]
fn the_client_tells_the_three_refusals_apart() {
    let ls = Action::Ls(s("docs"));
    let rm = Action::Rm(Vec::new());
    assert_eq!(read_answer(&ls, Reaction::Ls(Vec::new()).bytes()), Ok(Reaction::Ls(Vec::new())));
    assert_eq!(read_answer(&rm, Reaction::Fine.bytes()), Ok(Reaction::Fine));
    assert_eq!(read_answer(&ls, Reaction::Fine.bytes()), Err(Refusal::Unexpected));
    assert_eq!(read_answer(&rm, Reaction::Ls(Vec::new()).bytes()), Err(Refusal::Unexpected));
    assert_eq!(
        read_answer(&rm, Reaction::Failed(Failure::IoFailure).bytes()),
        Err(Refusal::Failed(Failure::IoFailure))
    );
    assert_eq!(read_answer(&rm, vec![1, 2, 3]), Err(Refusal::Malformed));
}
