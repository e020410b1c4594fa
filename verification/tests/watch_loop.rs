use musso::config::{Config, Library};
use musso::error::Error;
use musso::ignore::IgnoreSet;
use musso::event::{EventKind, ModifyKind, RawEvent, RenameMode};
use musso::path::FsPath;
use musso::snapshot::{EntryKind, Snapshot};
use musso::sorting::{Options, Report, SortOutcome, SortRequest, Summary};
use musso::watcher::{Action, Input, Note, Phase, Step, Watcher};

fn p(text: &str) -> FsPath {
    let names = text.split('/').filter(|s| !s.is_empty()).map(|s| s.to_string()).collect();
    FsPath::new(text.starts_with('/'), names)
}

fn paths(texts: &[&str]) -> Vec<FsPath> {
    texts.iter().map(|t| p(t)).collect()
}

fn seen(entries: &[(&str, EntryKind)]) -> Snapshot {
    let mut snapshot = Snapshot::new();
    for (text, kind) in entries {
        snapshot.record(p(text), *kind);
    }
    snapshot
}

fn library(name: &str, folders: &[&str], format: &str, exfat_compat: bool) -> Library {
    Library {
        name: name.to_string(),
        folders: paths(folders),
        options: Options {
            format: format.to_string(),
            dryrun: true,
            recursive: false,
            exfat_compat,
            remove_empty: false,
        },
    }
}

fn jazz() -> Config {
    Config { libraries: vec![library("Jazz", &["/music/Jazz"], "{artist}/{title}", true)], every: None }
}

fn create(path: &str) -> RawEvent {
    RawEvent { kind: EventKind::Create, paths: paths(&[path]) }
}

fn running(config: Config) -> Watcher {
    let mut watcher = Watcher::new(config);
    watcher.watch();
    let step = watcher.watchloop(Input::Subscribed);
    assert_eq!(step, Step { note: Note::Quiet, action: Action::Await });
    assert_eq!(watcher.phase(), Phase::Running);
    watcher
}

fn running_with(config: Config, tracker: IgnoreSet) -> Watcher {
    let mut watcher = Watcher::with_tracker(config, tracker);
    watcher.watch();
    watcher.watchloop(Input::Subscribed);
    assert_eq!(watcher.phase(), Phase::Running);
    watcher
}

fn file_request(root: &str, path: &str, format: &str, exfat_compat: bool) -> SortRequest {
    SortRequest {
        folder: false,
        root: p(root),
        path: p(path),
        options: Options {
            format: format.to_string(),
            dryrun: false,
            recursive: true,
            exfat_compat,
            remove_empty: true,
        },
    }
}

fn one_of_one() -> Note {
    Note::Done { summary: Summary { total: 1, success: 1, failed: 0 }, fault: None }
}

#[test]
fn empty_configuration_finishes_without_subscribing() {
    let mut watcher = Watcher::new(Config { libraries: vec![], every: None });
    assert_eq!(watcher.phase(), Phase::Idle);
    assert_eq!(watcher.watch(), Action::Finish);
    assert_eq!(watcher.phase(), Phase::Idle);
    assert_eq!(watcher.pending(), Action::Finish);
    let step = watcher.watchloop(Input::Subscribed);
    assert_eq!(step, Step { note: Note::Quiet, action: Action::Finish });
    assert_eq!(watcher.phase(), Phase::Idle);
}

#[test]
fn libraries_without_folders_leave_nothing_to_watch() {
    let config = Config { libraries: vec![library("Jazz", &[], "x", false)], every: Some(2) };
    let mut watcher = Watcher::new(config);
    assert_eq!(watcher.watch(), Action::Finish);
    assert_eq!(watcher.phase(), Phase::Idle);
}

#[test]
fn start_subscribes_to_every_root() {
    let config = Config {
        libraries: vec![
            library("Jazz", &["/music/Jazz", "/mnt/Jazz"], "a", false),
            library("Rock", &["/music/Rock"], "b", false),
        ],
        every: Some(3),
    };
    let mut watcher = Watcher::new(config);
    let wanted =
        Action::Subscribe { every: 3, roots: paths(&["/music/Jazz", "/mnt/Jazz", "/music/Rock"]) };
    assert_eq!(watcher.watch(), wanted);
    assert_eq!(watcher.phase(), Phase::Subscribed);
    // asked again, or told something else, it still waits for the subscription
    assert_eq!(watcher.watch(), wanted);
    let step = watcher.watchloop(Input::Batch(vec![create("/music/Jazz/a.mp3")]));
    assert_eq!(step, Step { note: Note::Quiet, action: wanted });
    assert_eq!(watcher.phase(), Phase::Subscribed);
    let step = watcher.watchloop(Input::Subscribed);
    assert_eq!(step, Step { note: Note::Quiet, action: Action::Await });
    assert_eq!(watcher.phase(), Phase::Running);
}

#[test]
fn batch_window_defaults_to_one_second() {
    let mut watcher = Watcher::new(jazz());
    assert_eq!(watcher.watch(), Action::Subscribe { every: 1, roots: paths(&["/music/Jazz"]) });
}

#[test]
fn first_input_starts_an_idle_watcher() {
    let mut watcher = Watcher::new(jazz());
    let step = watcher.watchloop(Input::Lost);
    assert_eq!(
        step,
        Step {
            note: Note::Quiet,
            action: Action::Subscribe { every: 1, roots: paths(&["/music/Jazz"]) },
        }
    );
    assert_eq!(watcher.phase(), Phase::Subscribed);
}

#[test]
fn refused_subscription_ends_the_watch_with_a_failure() {
    let mut watcher = Watcher::new(jazz());
    watcher.watch();
    let step = watcher.watchloop(Input::Refused);
    assert_eq!(step, Step { note: Note::Quiet, action: Action::Abort });
    assert_eq!(watcher.phase(), Phase::Idle);
    // started again, the watcher asks for the subscription again
    assert_eq!(watcher.watch(), Action::Subscribe { every: 1, roots: paths(&["/music/Jazz"]) });
    // once running, a refusal answers nothing
    let mut watcher = running(jazz());
    let step = watcher.watchloop(Input::Refused);
    assert_eq!(step, Step { note: Note::Quiet, action: Action::Await });
    assert_eq!(watcher.phase(), Phase::Running);
}

#[test]
fn closed_source_ends_the_watch() {
    let mut watcher = running(jazz());
    let step = watcher.watchloop(Input::Closed);
    assert_eq!(step, Step { note: Note::Quiet, action: Action::Finish });
    assert_eq!(watcher.phase(), Phase::Idle);
}

#[test]
fn closed_source_is_not_taken_while_a_candidate_is_dealt_with() {
    let mut watcher = running(jazz());
    watcher.watchloop(Input::Batch(vec![create("/music/Jazz/a.mp3")]));
    let step = watcher.watchloop(Input::Closed);
    assert_eq!(step.action, Action::Probe(paths(&["/music/Jazz/a.mp3"])));
    let step = watcher.watchloop(Input::Probed(Snapshot::new()));
    let request = file_request("/music/Jazz", "/music/Jazz/a.mp3", "{artist}/{title}", true);
    assert_eq!(step.action, Action::Sort(request.clone()));
    let step = watcher.watchloop(Input::Closed);
    assert_eq!(step.action, Action::Sort(request));
    assert_eq!(watcher.phase(), Phase::Running);
    let mut waiting = Watcher::new(jazz());
    waiting.watch();
    let step = waiting.watchloop(Input::Closed);
    assert_eq!(step.action, Action::Subscribe { every: 1, roots: paths(&["/music/Jazz"]) });
}

#[test]
fn lost_batch_keeps_the_loop_waiting() {
    let mut watcher = running(jazz());
    let step = watcher.watchloop(Input::Lost);
    assert_eq!(step, Step { note: Note::Quiet, action: Action::Await });
    assert_eq!(watcher.phase(), Phase::Running);
    let step = watcher.watchloop(Input::Batch(vec![create("/music/Jazz/a.mp3")]));
    assert_eq!(step.action, Action::Probe(paths(&["/music/Jazz/a.mp3"])));
}

#[test]
fn batch_without_candidates_keeps_the_loop_waiting() {
    let mut watcher = running(jazz());
    let batch = vec![
        RawEvent { kind: EventKind::Other, paths: paths(&["/music/Jazz/a.mp3"]) },
        RawEvent { kind: EventKind::Modify(ModifyKind::Data), paths: paths(&["/music/Jazz/b"]) },
    ];
    let step = watcher.watchloop(Input::Batch(batch));
    assert_eq!(step, Step { note: Note::Quiet, action: Action::Await });
    let step = watcher.watchloop(Input::Batch(vec![]));
    assert_eq!(step, Step { note: Note::Quiet, action: Action::Await });
}

#[test]
fn new_file_is_handed_to_the_engine_with_forced_options() {
    let mut watcher = running(jazz());
    let step = watcher.watchloop(Input::Batch(vec![create("/music/Jazz/in/a.mp3")]));
    assert_eq!(step, Step { note: Note::Quiet, action: Action::Probe(paths(&["/music/Jazz/in/a.mp3"])) });
    let step =
        watcher.watchloop(Input::Probed(seen(&[("/music/Jazz/in/a.mp3", EntryKind::File)])));
    let request = file_request("/music/Jazz", "/music/Jazz/in/a.mp3", "{artist}/{title}", true);
    assert_eq!(step, Step { note: Note::Quiet, action: Action::Sort(request.clone()) });
    assert_eq!(watcher.pending(), Action::Sort(request));
    let step =
        watcher.watchloop(Input::Sorted(SortOutcome::File(p("/music/Jazz/Miles/So What.mp3"))));
    assert_eq!(step, Step { note: one_of_one(), action: Action::Await });
    assert!(watcher.ignored().contains(&p("/music/Jazz/Miles/So What.mp3")));
    assert!(watcher.ignored().contains(&p("/music/Jazz/Miles")));
    assert!(!watcher.ignored().contains(&p("/music/Jazz")));
}

#[test]
fn missing_candidate_is_sorted_as_a_file() {
    let mut watcher = running(jazz());
    watcher.watchloop(Input::Batch(vec![create("/music/Jazz/gone.mp3")]));
    let step = watcher.watchloop(Input::Probed(Snapshot::new()));
    assert_eq!(
        step.action,
        Action::Sort(file_request("/music/Jazz", "/music/Jazz/gone.mp3", "{artist}/{title}", true))
    );
}

#[test]
fn directory_is_handed_to_the_engine_as_a_folder() {
    let mut watcher = running(jazz());
    watcher.watchloop(Input::Batch(vec![create("/music/Jazz/in/AlbumX")]));
    let step =
        watcher.watchloop(Input::Probed(seen(&[("/music/Jazz/in/AlbumX", EntryKind::Directory)])));
    let mut request = file_request("/music/Jazz", "/music/Jazz/in/AlbumX", "{artist}/{title}", true);
    request.folder = true;
    assert_eq!(step, Step { note: Note::Quiet, action: Action::Sort(request) });
    let report = Report::new(
        3,
        2,
        paths(&["/music/Jazz/Miles/Blue/1.mp3", "/music/Jazz/Miles/Green/2.mp3"]),
    )
    .unwrap();
    let step = watcher.watchloop(Input::Sorted(SortOutcome::Folder(report)));
    assert_eq!(
        step,
        Step {
            note: Note::Done { summary: Summary { total: 3, success: 2, failed: 1 }, fault: None },
            action: Action::Await,
        }
    );
    for put_down in [
        "/music/Jazz/Miles/Blue/1.mp3",
        "/music/Jazz/Miles/Blue",
        "/music/Jazz/Miles/Green/2.mp3",
        "/music/Jazz/Miles/Green",
    ] {
        assert!(watcher.ignored().contains(&p(put_down)));
    }
    assert!(!watcher.ignored().contains(&p("/music/Jazz/Miles")));
}

#[test]
fn engine_failure_on_one_candidate_spares_the_others() {
    let mut watcher = running(jazz());
    let batch = vec![
        create("/music/Jazz/a.mp3"),
        create("/music/Jazz/b.mp3"),
        create("/music/Jazz/c.mp3"),
    ];
    let step = watcher.watchloop(Input::Batch(batch));
    assert_eq!(step.action, Action::Probe(paths(&["/music/Jazz/a.mp3"])));

    let step = watcher.watchloop(Input::Probed(seen(&[("/music/Jazz/a.mp3", EntryKind::File)])));
    assert_eq!(
        step.action,
        Action::Sort(file_request("/music/Jazz", "/music/Jazz/a.mp3", "{artist}/{title}", true))
    );
    let step = watcher.watchloop(Input::Sorted(SortOutcome::File(p("/music/Jazz/Miles/a.mp3"))));
    assert_eq!(step, Step { note: one_of_one(), action: Action::Probe(paths(&["/music/Jazz/b.mp3"])) });

    let step = watcher.watchloop(Input::Probed(seen(&[("/music/Jazz/b.mp3", EntryKind::File)])));
    assert_eq!(
        step.action,
        Action::Sort(file_request("/music/Jazz", "/music/Jazz/b.mp3", "{artist}/{title}", true))
    );
    let step = watcher.watchloop(Input::Failed);
    assert_eq!(step, Step { note: Note::Quiet, action: Action::Probe(paths(&["/music/Jazz/c.mp3"])) });

    let step = watcher.watchloop(Input::Probed(seen(&[("/music/Jazz/c.mp3", EntryKind::File)])));
    assert_eq!(
        step.action,
        Action::Sort(file_request("/music/Jazz", "/music/Jazz/c.mp3", "{artist}/{title}", true))
    );
    let step = watcher.watchloop(Input::Sorted(SortOutcome::File(p("/music/Jazz/Duke/c.mp3"))));
    assert_eq!(step, Step { note: one_of_one(), action: Action::Await });

    assert_eq!(watcher.phase(), Phase::Running);
    assert!(watcher.ignored().contains(&p("/music/Jazz/Miles/a.mp3")));
    assert!(watcher.ignored().contains(&p("/music/Jazz/Miles")));
    assert!(watcher.ignored().contains(&p("/music/Jazz/Duke/c.mp3")));
    assert!(watcher.ignored().contains(&p("/music/Jazz/Duke")));
    assert!(!watcher.ignored().contains(&p("/music/Jazz/b.mp3")));
    let step = watcher.watchloop(Input::Batch(vec![create("/music/Jazz/d.mp3")]));
    assert_eq!(step.action, Action::Probe(paths(&["/music/Jazz/d.mp3"])));
}

#[test]
fn events_for_own_moves_start_no_second_sort() {
    let mut watcher = running(jazz());
    watcher.watchloop(Input::Batch(vec![create("/music/Jazz/a.mp3")]));
    watcher.watchloop(Input::Probed(seen(&[("/music/Jazz/a.mp3", EntryKind::File)])));
    watcher.watchloop(Input::Sorted(SortOutcome::File(p("/music/Jazz/Miles/a.mp3"))));

    let disk = [
        ("/music/Jazz/Miles/a.mp3", EntryKind::File),
        ("/music/Jazz/Miles", EntryKind::Directory),
    ];
    let batch = vec![create("/music/Jazz/Miles/a.mp3"), create("/music/Jazz/Miles")];
    let step = watcher.watchloop(Input::Batch(batch));
    assert_eq!(
        step.action,
        Action::Probe(paths(&["/music/Jazz/Miles/a.mp3", "/music/Jazz/Miles"]))
    );
    let step = watcher.watchloop(Input::Probed(seen(&disk)));
    assert_eq!(
        step,
        Step {
            note: Note::Suppressed(p("/music/Jazz/Miles/a.mp3")),
            action: Action::Probe(paths(&["/music/Jazz/Miles"])),
        }
    );
    let step = watcher.watchloop(Input::Probed(seen(&disk)));
    assert_eq!(
        step,
        Step { note: Note::Suppressed(p("/music/Jazz/Miles")), action: Action::Await }
    );
    assert!(!watcher.ignored().contains(&p("/music/Jazz/Miles/a.mp3")));
    assert!(!watcher.ignored().contains(&p("/music/Jazz/Miles")));
}

#[test]
fn parent_event_before_the_file_event_is_dropped_too() {
    let mut watcher = running(jazz());
    watcher.watchloop(Input::Batch(vec![create("/music/Jazz/a.mp3")]));
    watcher.watchloop(Input::Probed(seen(&[("/music/Jazz/a.mp3", EntryKind::File)])));
    watcher.watchloop(Input::Sorted(SortOutcome::File(p("/music/Jazz/Miles/a.mp3"))));
    let disk = [
        ("/music/Jazz/Miles/a.mp3", EntryKind::File),
        ("/music/Jazz/Miles", EntryKind::Directory),
    ];
    watcher.watchloop(Input::Batch(vec![create("/music/Jazz/Miles"), create("/music/Jazz/Miles/a.mp3")]));
    let step = watcher.watchloop(Input::Probed(seen(&disk)));
    assert_eq!(step.note, Note::Suppressed(p("/music/Jazz/Miles")));
    let step = watcher.watchloop(Input::Probed(seen(&disk)));
    assert_eq!(
        step,
        Step { note: Note::Suppressed(p("/music/Jazz/Miles/a.mp3")), action: Action::Await }
    );
}

#[test]
fn second_event_for_the_same_path_is_sorted() {
    let mut watcher = running(jazz());
    watcher.watchloop(Input::Batch(vec![create("/music/Jazz/a.mp3")]));
    watcher.watchloop(Input::Probed(seen(&[("/music/Jazz/a.mp3", EntryKind::File)])));
    watcher.watchloop(Input::Sorted(SortOutcome::File(p("/music/Jazz/b.mp3"))));
    let disk = [("/music/Jazz/b.mp3", EntryKind::File)];

    watcher.watchloop(Input::Batch(vec![create("/music/Jazz/b.mp3")]));
    let step = watcher.watchloop(Input::Probed(seen(&disk)));
    assert_eq!(step, Step { note: Note::Suppressed(p("/music/Jazz/b.mp3")), action: Action::Await });

    watcher.watchloop(Input::Batch(vec![create("/music/Jazz/b.mp3")]));
    let step = watcher.watchloop(Input::Probed(seen(&disk)));
    assert_eq!(
        step,
        Step {
            note: Note::Quiet,
            action: Action::Sort(file_request(
                "/music/Jazz",
                "/music/Jazz/b.mp3",
                "{artist}/{title}",
                true
            )),
        }
    );
}

#[test]
fn moved_directory_suppresses_events_below_it() {
    let config = Config {
        libraries: vec![
            library("Jazz", &["/music/Jazz"], "{artist}/{album}", false),
            library("Inbox", &["/incoming"], "{artist}/{album}", false),
        ],
        every: None,
    };
    let mut watcher = running(config);
    watcher.watchloop(Input::Batch(vec![create("/incoming/AlbumX")]));
    let step = watcher.watchloop(Input::Probed(seen(&[("/incoming/AlbumX", EntryKind::Directory)])));
    let mut request = file_request("/incoming", "/incoming/AlbumX", "{artist}/{album}", false);
    request.folder = true;
    assert_eq!(step.action, Action::Sort(request));
    let report = Report::new(1, 1, paths(&["/music/Jazz/Artist/AlbumX"])).unwrap();
    watcher.watchloop(Input::Sorted(SortOutcome::Folder(report)));
    assert!(watcher.ignored().contains(&p("/music/Jazz/Artist")));
    assert!(watcher.ignored().contains(&p("/music/Jazz/Artist/AlbumX")));

    let step = watcher.watchloop(Input::Batch(vec![create("/music/Jazz/Artist/AlbumX/track1.mp3")]));
    assert_eq!(
        step.action,
        Action::Probe(paths(&[
            "/music/Jazz/Artist/AlbumX/track1.mp3",
            "/music/Jazz/Artist/AlbumX",
            "/music/Jazz/Artist",
        ]))
    );
    // the lookup finds the moved directory; the track is not reported as a file
    let disk = seen(&[
        ("/music/Jazz/Artist/AlbumX", EntryKind::Directory),
        ("/music/Jazz/Artist", EntryKind::Directory),
    ]);
    let step = watcher.watchloop(Input::Probed(disk));
    assert_eq!(
        step,
        Step {
            note: Note::Suppressed(p("/music/Jazz/Artist/AlbumX/track1.mp3")),
            action: Action::Await,
        }
    );
    // the entry of the moved directory is used up, the one above it stays
    assert!(!watcher.ignored().contains(&p("/music/Jazz/Artist/AlbumX")));
    assert!(watcher.ignored().contains(&p("/music/Jazz/Artist")));
}

#[test]
fn second_event_below_a_moved_directory_is_sorted() {
    let mut tracker = IgnoreSet::new();
    tracker.mark_produced(&p("/music/Jazz/d"), &p("/music/Jazz")).unwrap();
    let mut watcher = running_with(jazz(), tracker);
    let disk = [("/music/Jazz/d", EntryKind::Directory)];
    let event = || RawEvent { kind: EventKind::Create, paths: paths(&["/music/Jazz/d/t"]) };

    let step = watcher.watchloop(Input::Batch(vec![event(), event()]));
    assert_eq!(step.action, Action::Probe(paths(&["/music/Jazz/d/t", "/music/Jazz/d"])));
    let step = watcher.watchloop(Input::Probed(seen(&disk)));
    assert_eq!(
        step,
        Step {
            note: Note::Suppressed(p("/music/Jazz/d/t")),
            action: Action::Probe(paths(&["/music/Jazz/d/t"])),
        }
    );
    assert!(!watcher.ignored().contains(&p("/music/Jazz/d")));
    let step = watcher.watchloop(Input::Probed(seen(&disk)));
    assert_eq!(
        step,
        Step {
            note: Note::Quiet,
            action: Action::Sort(file_request(
                "/music/Jazz",
                "/music/Jazz/d/t",
                "{artist}/{title}",
                true
            )),
        }
    );
}

#[test]
fn should_ignore_changes_the_tracker_only() {
    let mut watcher = Watcher::new(jazz());
    watcher.ignore_path(&p("/music/Jazz/Artist/AlbumX"), &p("/music/Jazz")).unwrap();
    let disk = seen(&[
        ("/music/Jazz/Artist/AlbumX", EntryKind::Directory),
        ("/music/Jazz/Artist", EntryKind::Directory),
    ]);
    assert!(!watcher.should_ignore(&p("/music/Jazz/Other"), &disk));
    assert!(watcher.ignored().contains(&p("/music/Jazz/Artist/AlbumX")));
    assert!(watcher.should_ignore(&p("/music/Jazz/Artist/AlbumX/cd1"), &disk));
    assert!(!watcher.ignored().contains(&p("/music/Jazz/Artist/AlbumX")));
    assert!(watcher.ignored().contains(&p("/music/Jazz/Artist")));
    assert_eq!(watcher.phase(), Phase::Idle);
    assert_eq!(watcher.roots().roots(), &paths(&["/music/Jazz"]));
}

#[test]
fn directory_move_is_tracked_by_parent_and_leaf() {
    let mut watcher = Watcher::new(jazz());
    assert_eq!(watcher.ignore_path(&p("/music/Jazz/Artist/AlbumX"), &p("/music/Jazz")), Ok(()));
    assert!(watcher.ignored().contains(&p("/music/Jazz/Artist")));
    assert!(watcher.ignored().contains(&p("/music/Jazz/Artist/AlbumX")));
    let disk = seen(&[
        ("/music/Jazz/Artist/AlbumX", EntryKind::Directory),
        ("/music/Jazz/Artist", EntryKind::Directory),
    ]);
    assert!(watcher.is_ignored(&p("/music/Jazz/Artist/AlbumX/track1.mp3"), &disk));
    assert!(watcher.is_ignored(&p("/music/Jazz/Artist/AlbumX"), &disk));
    // once the moved directory is gone again, nothing guards the track
    let later = seen(&[("/music/Jazz/Artist", EntryKind::File)]);
    assert!(!watcher.is_ignored(&p("/music/Jazz/Artist/AlbumX/track1.mp3"), &later));
}

#[test]
fn file_below_a_moved_directory_needs_its_own_entry() {
    let mut watcher = Watcher::new(jazz());
    watcher.ignore_path(&p("/music/Jazz/Artist/AlbumX"), &p("/music/Jazz")).unwrap();
    let disk = seen(&[
        ("/music/Jazz/Artist/AlbumX/track1.mp3", EntryKind::File),
        ("/music/Jazz/Artist/AlbumX", EntryKind::Directory),
        ("/music/Jazz/Artist", EntryKind::Directory),
    ]);
    assert!(!watcher.is_ignored(&p("/music/Jazz/Artist/AlbumX/track1.mp3"), &disk));
}

#[test]
fn candidate_outside_every_root_is_rejected_and_skipped() {
    let mut watcher = running(jazz());
    let batch = vec![create("/incoming/x.mp3"), create("/music/Jazz/y.mp3")];
    watcher.watchloop(Input::Batch(batch));
    let step = watcher.watchloop(Input::Probed(seen(&[("/incoming/x.mp3", EntryKind::File)])));
    assert_eq!(
        step,
        Step {
            note: Note::Rejected(Error::InvalidRoot { path: "/incoming/x.mp3".to_string() }),
            action: Action::Probe(paths(&["/music/Jazz/y.mp3"])),
        }
    );
    let step = watcher.watchloop(Input::Probed(seen(&[("/music/Jazz/y.mp3", EntryKind::File)])));
    assert_eq!(
        step.action,
        Action::Sort(file_request("/music/Jazz", "/music/Jazz/y.mp3", "{artist}/{title}", true))
    );
}

#[test]
fn destination_without_parent_stops_the_bookkeeping() {
    let mut watcher = running(jazz());
    watcher.watchloop(Input::Batch(vec![create("/music/Jazz/in")]));
    watcher.watchloop(Input::Probed(seen(&[("/music/Jazz/in", EntryKind::Directory)])));
    let report =
        Report::new(3, 3, paths(&["/music/Jazz/A/x.mp3", "/", "/music/Jazz/B/y.mp3"])).unwrap();
    let step = watcher.watchloop(Input::Sorted(SortOutcome::Folder(report)));
    assert_eq!(
        step,
        Step {
            note: Note::Done {
                summary: Summary { total: 3, success: 3, failed: 0 },
                fault: Some(Error::InvalidParent { child: "/".to_string() }),
            },
            action: Action::Await,
        }
    );
    assert!(watcher.ignored().contains(&p("/music/Jazz/A/x.mp3")));
    assert!(watcher.ignored().contains(&p("/music/Jazz/A")));
    assert!(!watcher.ignored().contains(&p("/music/Jazz/B/y.mp3")));
    assert!(!watcher.ignored().contains(&p("/music/Jazz/B")));

    watcher.watchloop(Input::Batch(vec![create("/music/Jazz/b.mp3")]));
    watcher.watchloop(Input::Probed(Snapshot::new()));
    let step = watcher.watchloop(Input::Sorted(SortOutcome::File(p("/"))));
    assert_eq!(
        step.note,
        Note::Done {
            summary: Summary { total: 1, success: 1, failed: 0 },
            fault: Some(Error::InvalidParent { child: "/".to_string() }),
        }
    );
}

#[test]
fn input_that_answers_nothing_is_dropped() {
    let mut watcher = running(jazz());
    // waiting for a batch
    for input in [
        Input::Subscribed,
        Input::Failed,
        Input::Probed(Snapshot::new()),
        Input::Sorted(SortOutcome::File(p("/music/Jazz/A/x.mp3"))),
    ] {
        assert_eq!(watcher.watchloop(input), Step { note: Note::Quiet, action: Action::Await });
    }
    assert!(!watcher.ignored().contains(&p("/music/Jazz/A/x.mp3")));

    // waiting for a lookup
    watcher.watchloop(Input::Batch(vec![create("/music/Jazz/a.mp3")]));
    let probe = || Action::Probe(paths(&["/music/Jazz/a.mp3"]));
    for input in [
        Input::Subscribed,
        Input::Lost,
        Input::Failed,
        Input::Batch(vec![create("/music/Jazz/late.mp3")]),
        Input::Sorted(SortOutcome::File(p("/music/Jazz/A/x.mp3"))),
    ] {
        assert_eq!(watcher.watchloop(input), Step { note: Note::Quiet, action: probe() });
    }

    // waiting for the engine
    let step = watcher.watchloop(Input::Probed(Snapshot::new()));
    let request = file_request("/music/Jazz", "/music/Jazz/a.mp3", "{artist}/{title}", true);
    assert_eq!(step.action, Action::Sort(request.clone()));
    for input in [
        Input::Subscribed,
        Input::Lost,
        Input::Probed(Snapshot::new()),
        Input::Batch(vec![create("/music/Jazz/late.mp3")]),
    ] {
        assert_eq!(
            watcher.watchloop(input),
            Step { note: Note::Quiet, action: Action::Sort(request.clone()) }
        );
    }
    let step = watcher.watchloop(Input::Failed);
    assert_eq!(step, Step { note: Note::Quiet, action: Action::Await });
}

#[test]
fn rename_pair_in_a_batch_sorts_the_new_name() {
    let mut watcher = running(jazz());
    let batch = vec![RawEvent {
        kind: EventKind::Modify(ModifyKind::Name(RenameMode::Both)),
        paths: paths(&["/music/Jazz/old.mp3", "/music/Jazz/new.mp3"]),
    }];
    let step = watcher.watchloop(Input::Batch(batch));
    assert_eq!(step.action, Action::Probe(paths(&["/music/Jazz/new.mp3"])));
    let step = watcher.watchloop(Input::Probed(seen(&[("/music/Jazz/new.mp3", EntryKind::File)])));
    assert_eq!(
        step.action,
        Action::Sort(file_request("/music/Jazz", "/music/Jazz/new.mp3", "{artist}/{title}", true))
    );
}

#[test]
fn root_for_climbs_to_the_nearest_root() {
    let config = Config {
        libraries: vec![
            library("Jazz", &["/music/Jazz"], "a", false),
            library("Live", &["/music/Jazz/Live"], "b", false),
        ],
        every: None,
    };
    let watcher = Watcher::new(config);
    assert_eq!(watcher.root_for(&p("/music/Jazz")), Some(p("/music/Jazz")));
    assert_eq!(watcher.root_for(&p("/music/Jazz/A/B/c.mp3")), Some(p("/music/Jazz")));
    assert_eq!(watcher.root_for(&p("/music/Jazz/Live/x.mp3")), Some(p("/music/Jazz/Live")));
    assert_eq!(watcher.root_for(&p("/music/Rock/x.mp3")), None);
    assert_eq!(watcher.roots().roots(), &paths(&["/music/Jazz", "/music/Jazz/Live"]));
}

#[test]
fn move_files_uses_the_library_of_the_nearest_root() {
    let config = Config {
        libraries: vec![
            library("Jazz", &["/music/Jazz"], "{artist}", false),
            library("Live", &["/music/Jazz/Live"], "{date}", true),
        ],
        every: None,
    };
    let watcher = Watcher::new(config);
    let disk = seen(&[("/music/Jazz/Live/set", EntryKind::Directory)]);
    let mut live = file_request("/music/Jazz/Live", "/music/Jazz/Live/set", "{date}", true);
    live.folder = true;
    assert_eq!(watcher.move_files(&p("/music/Jazz/Live/set"), &disk), Ok(live));
    assert_eq!(
        watcher.move_files(&p("/music/Jazz/x.mp3"), &disk),
        Ok(file_request("/music/Jazz", "/music/Jazz/x.mp3", "{artist}", false))
    );
    assert_eq!(
        watcher.move_files(&p("/elsewhere/x.mp3"), &disk),
        Err(Error::InvalidRoot { path: "/elsewhere/x.mp3".to_string() })
    );
}

#[test]
fn ignore_path_without_parent_changes_nothing() {
    let mut watcher = Watcher::new(jazz());
    assert_eq!(
        watcher.ignore_path(&p("/"), &p("/music/Jazz")),
        Err(Error::InvalidParent { child: "/".to_string() })
    );
    assert!(!watcher.ignored().contains(&p("/")));
    assert_eq!(watcher.phase(), Phase::Idle);
}

#[test]
fn watcher_takes_a_tracker_that_is_handed_in() {
    let mut tracker = IgnoreSet::new();
    tracker.mark_produced(&p("/music/Jazz/Miles/a.mp3"), &p("/music/Jazz")).unwrap();
    let mut watcher = Watcher::with_tracker(jazz(), tracker);
    assert_eq!(watcher.phase(), Phase::Idle);
    assert!(watcher.ignored().contains(&p("/music/Jazz/Miles/a.mp3")));
    assert!(watcher.ignored().contains(&p("/music/Jazz/Miles")));
    assert_eq!(watcher.watch(), Action::Subscribe { every: 1, roots: paths(&["/music/Jazz"]) });
    watcher.watchloop(Input::Subscribed);
    watcher.watchloop(Input::Batch(vec![create("/music/Jazz/Miles/a.mp3")]));
    let step = watcher
        .watchloop(Input::Probed(seen(&[("/music/Jazz/Miles/a.mp3", EntryKind::File)])));
    assert_eq!(
        step,
        Step { note: Note::Suppressed(p("/music/Jazz/Miles/a.mp3")), action: Action::Await }
    );
}
