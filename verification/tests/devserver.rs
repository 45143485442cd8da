use ssg::devserver::passes_filter;
use ssg::devserver::asks_for_index;
use ssg::devserver::{answer, respond, stays_below_root, url_climbs};
use ssg::devserver::{
    content_type, event_qualifies, has_changes_since, noise_name, requested_path,
    served_path, should_notify, watched_extension, ChangeKind, DevLoop, FileStamp,
    LoopAction, LoopEvent, LoopState, WatchBatch, WatchEvent, SETTLE_MILLIS,
};

fn event(path: &str) -> WatchEvent {
    WatchEvent { path: path.into(), canonical: Some(path.into()), kind: ChangeKind::Any }
}

fn batch(paths: &[&str]) -> WatchBatch {
    WatchBatch::Events(paths.iter().map(|p| event(p)).collect())
}

#[test]
fn burst_of_qualifying_events_notifies_once() {
    let many: Vec<String> = (0..50).map(|i| format!("/site/posts/p{i}.md")).collect();
    let refs: Vec<&str> = many.iter().map(|s| s.as_str()).collect();
    assert!(should_notify("/site", "/site/dist", &batch(&refs)));
    assert!(should_notify("/site", "/site/dist", &batch(&["/site/a.md"])));
}

#[test]
fn one_qualifying_event_among_noise_notifies() {
    let b = batch(&["/site/dist/a.html", "/site/.hidden.md", "/site/a.txt", "/site/style.css"]);
    assert!(should_notify("/site", "/site/dist", &b));
}

#[test]
fn events_in_the_output_directory_never_notify() {
    let b = batch(&["/site/dist/index.html", "/site/dist/posts/first/index.html"]);
    assert!(!should_notify("/site", "/site/dist", &b));
    assert!(!event_qualifies("/site", "/site/dist", &event("/site/dist/a.md")));
    // A directory whose name only begins like the output directory is not in it.
    assert!(event_qualifies("/site", "/site/dist", &event("/site/dist2/a.md")));
}

#[test]
fn events_outside_the_source_directory_never_notify() {
    assert!(!should_notify("/site", "/out", &batch(&["/other/a.md", "/a.md"])));
}

#[test]
fn events_without_a_watched_extension_never_notify() {
    let b = batch(&["/site/a.txt", "/site/b.png", "/site/c", "/site/d.MD", "/site/e.htm"]);
    assert!(!should_notify("/site", "/out", &b));
}

#[test]
fn hidden_backup_and_swap_files_never_notify() {
    let b = batch(&["/site/.a.md", "/site/a.md~", "/site/a.html.swp", "/site/.swp", "/site/~"]);
    assert!(!should_notify("/site", "/out", &b));
    assert!(!event_qualifies("/site", "/out", &event("/site/.config.toml")));
}

#[test]
fn unresolvable_events_never_notify() {
    let e = WatchEvent { path: "/site/a.md".into(), canonical: None, kind: ChangeKind::Continuous };
    assert!(!event_qualifies("/site", "/out", &e));
    assert!(!should_notify("/site", "/out", &WatchBatch::Events(vec![e])));
}

#[test]
fn empty_batch_does_not_notify() {
    assert!(!should_notify("/site", "/out", &WatchBatch::Events(Vec::new())));
}

#[test]
fn watcher_error_forces_a_notification() {
    assert!(should_notify("/site", "/out", &WatchBatch::Error));
}

#[test]
fn each_watched_extension_qualifies() {
    for ext in ["md", "toml", "html", "css", "js"] {
        assert!(watched_extension(ext));
        assert!(event_qualifies("/site", "/out", &event(&format!("/site/sub/a.{ext}"))));
    }
    for ext in ["", "MD", "mdx", "json", "htm"] {
        assert!(!watched_extension(ext));
    }
    assert!(!event_qualifies("/site", "/out", &event("/site/md")));
}

#[test]
fn noise_names() {
    for name in [".git", ".", "a~", "~", "a.swp", ".swp", "x.md.swp"] {
        assert!(noise_name(name), "{name}");
    }
    for name in ["", "a", "swp", "a.swpx", "a.swo", "a~b", "a.b"] {
        assert!(!noise_name(name), "{name}");
    }
}

#[test]
fn changes_are_files_newer_than_the_last_build() {
    let files = vec![
        FileStamp { path: "/s/a.md".into(), modified: Some(100) },
        FileStamp { path: "/s/b.css".into(), modified: Some(200) },
    ];
    assert!(has_changes_since(&files, 150));
    assert!(has_changes_since(&files, 199));
    assert!(!has_changes_since(&files, 200));
    assert!(!has_changes_since(&files, 300));
    assert!(!has_changes_since(&Vec::new(), 0));
}

#[test]
fn a_newer_file_of_any_kind_is_a_change() {
    let other = vec![FileStamp { path: "/s/a.txt".into(), modified: Some(500) }];
    assert!(has_changes_since(&other, 0));
    assert!(has_changes_since(&other, 499));
    assert!(!has_changes_since(&other, 500));
    let bare = vec![FileStamp { path: "/s/deep/down/c".into(), modified: Some(u128::MAX) }];
    assert!(has_changes_since(&bare, 0));
    assert!(has_changes_since(&bare, u128::MAX - 1));
    assert!(!has_changes_since(&bare, u128::MAX));
}

#[test]
fn a_file_without_a_known_time_is_no_change() {
    let files = vec![
        FileStamp { path: "/s/b.md".into(), modified: None },
        FileStamp { path: "/s/a.txt".into(), modified: None },
    ];
    assert!(!has_changes_since(&files, 0));
    let mixed = vec![
        FileStamp { path: "/s/b.md".into(), modified: None },
        FileStamp { path: "/s/old.md".into(), modified: Some(3) },
        FileStamp { path: "/s/new.bin".into(), modified: Some(9) },
    ];
    assert!(has_changes_since(&mixed, 5));
    assert!(!has_changes_since(&mixed, 9));
}

#[test]
fn loop_starts_idle() {
    let l = DevLoop::start(42);
    assert_eq!(l.state, LoopState::Idle);
    assert_eq!(l.last_build, 42);
}

#[test]
fn spurious_wake_goes_back_to_idle() {
    let mut l = DevLoop::start(10);
    assert_eq!(l.step(LoopEvent::Notified), LoopAction::Verify { since: 10 });
    assert_eq!(l.state, LoopState::Verifying);
    assert_eq!(l.step(LoopEvent::Verified { changed: false }), LoopAction::Wait);
    assert_eq!(l, DevLoop { state: LoopState::Idle, last_build: 10 });
}

#[test]
fn real_change_rebuilds_and_settles() {
    let mut l = DevLoop::start(10);
    l.step(LoopEvent::Notified);
    assert_eq!(l.step(LoopEvent::Verified { changed: true }), LoopAction::Rebuild);
    assert_eq!(l.state, LoopState::Rebuilding);
    assert_eq!(l.last_build, 10);
    assert_eq!(
        l.step(LoopEvent::Rebuilt { finished_at: 99 }),
        LoopAction::Settle { millis: 100 }
    );
    assert_eq!(SETTLE_MILLIS, 100);
    assert_eq!(l, DevLoop { state: LoopState::Idle, last_build: 99 });
    assert_eq!(l.step(LoopEvent::Notified), LoopAction::Verify { since: 99 });
}

#[test]
fn closed_source_ends_the_loop() {
    for state in [LoopState::Idle, LoopState::Verifying, LoopState::Rebuilding, LoopState::Stopped] {
        let mut l = DevLoop { state, last_build: 5 };
        assert_eq!(l.step(LoopEvent::Closed), LoopAction::Exit);
        assert_eq!(l, DevLoop { state: LoopState::Stopped, last_build: 5 });
    }
    let mut l = DevLoop { state: LoopState::Stopped, last_build: 5 };
    assert_eq!(l.step(LoopEvent::Notified), LoopAction::Exit);
    assert_eq!(l.step(LoopEvent::Rebuilt { finished_at: 9 }), LoopAction::Exit);
    assert_eq!(l, DevLoop { state: LoopState::Stopped, last_build: 5 });
}

#[test]
fn events_out_of_turn_change_nothing() {
    let mut l = DevLoop::start(5);
    assert_eq!(l.step(LoopEvent::Verified { changed: true }), LoopAction::Wait);
    assert_eq!(l.step(LoopEvent::Rebuilt { finished_at: 9 }), LoopAction::Wait);
    assert_eq!(l, DevLoop::start(5));

    let mut l = DevLoop { state: LoopState::Verifying, last_build: 5 };
    assert_eq!(l.step(LoopEvent::Notified), LoopAction::Verify { since: 5 });
    assert_eq!(l.step(LoopEvent::Rebuilt { finished_at: 9 }), LoopAction::Verify { since: 5 });
    assert_eq!(l, DevLoop { state: LoopState::Verifying, last_build: 5 });

    let mut l = DevLoop { state: LoopState::Rebuilding, last_build: 5 };
    assert_eq!(l.step(LoopEvent::Notified), LoopAction::Rebuild);
    assert_eq!(l.step(LoopEvent::Verified { changed: false }), LoopAction::Rebuild);
    assert_eq!(l, DevLoop { state: LoopState::Rebuilding, last_build: 5 });
}

#[test]
fn request_for_a_directory_is_served_its_index() {
    // GET /posts/first where /posts/first/index.html exists.
    assert_eq!(requested_path("/out", "/posts/first").as_deref(), Some("/out/posts/first"));
    let path = served_path("/out", "/posts/first", true).unwrap();
    assert_eq!(path, "/out/posts/first/index.html");
    let r = answer("/out", "/posts/first", true, Some(b"<h1>First</h1>".to_vec()));
    assert_eq!(r.status, 200);
    assert_eq!(r.body, b"<h1>First</h1>");
    assert_eq!(r.content_type.as_deref(), Some("text/html"));
}

#[test]
fn request_without_a_file_is_not_found() {
    let path = served_path("/out", "/missing.html", false).unwrap();
    assert_eq!(path, "/out/missing.html");
    let r = answer("/out", "/missing.html", false, None);
    assert_eq!(r.status, 404);
    assert_eq!(r.body, b"404 Not Found");
    assert_eq!(r.content_type, None);
}

#[test]
fn request_ending_in_a_slash_is_served_the_index() {
    assert_eq!(served_path("/out", "/", false).as_deref(), Some("/out/index.html"));
    assert_eq!(served_path("/out", "/posts/", false).as_deref(), Some("/out/posts/index.html"));
    assert_eq!(served_path("/out", "", true).as_deref(), Some("/out/index.html"));
    assert_eq!(served_path("/out", "", false).as_deref(), Some("/out/"));
}

#[test]
fn request_for_a_file_is_served_the_file() {
    assert_eq!(served_path("/out", "/css/site.css", false).as_deref(), Some("/out/css/site.css"));
    assert_eq!(served_path("/out", "///a.js", false).as_deref(), Some("/out/a.js"));
    assert_eq!(requested_path("out", "a/b").as_deref(), Some("out/a/b"));
}

#[test]
fn content_type_goes_by_extension() {
    assert_eq!(content_type("/out/index.html"), "text/html");
    assert_eq!(content_type("/out/site.css"), "text/css");
    assert_eq!(content_type("/out/a.PNG"), "image/png");
    assert_eq!(content_type("/out/unknown.zzzz"), "application/octet-stream");
    assert_eq!(content_type("/out/noext"), "application/octet-stream");
}

#[test]
fn many_notifications_are_consumed_as_one() {
    let mut s = ssg::devserver::RebuildSignal::new();
    assert_eq!(s.take(), None);
    for _ in 0..25 {
        s.raise();
    }
    assert_eq!(s.take(), Some(LoopEvent::Notified));
    assert_eq!(s.take(), None);
    s.raise();
    assert_eq!(s.take(), Some(LoopEvent::Notified));
    assert_eq!(s.take(), None);
}

#[test]
fn drained_signal_holds_nothing() {
    let mut s = ssg::devserver::RebuildSignal::new();
    s.raise();
    s.raise();
    s.drain();
    assert_eq!(s.take(), None);
    s.drain();
    assert!(!s.pending && !s.closed);
}

#[test]
fn closed_signal_hands_out_what_is_pending_first() {
    let mut s = ssg::devserver::RebuildSignal::new();
    s.raise();
    s.close();
    assert_eq!(s.take(), Some(LoopEvent::Notified));
    assert_eq!(s.take(), Some(LoopEvent::Closed));
    assert_eq!(s.take(), Some(LoopEvent::Closed));
    s.drain();
    assert!(s.closed);
}

#[test]
fn signal_drives_the_loop_to_its_end() {
    let mut s = ssg::devserver::RebuildSignal::new();
    let mut l = DevLoop::start(1);
    s.raise();
    s.raise();
    assert_eq!(l.step(s.take().unwrap()), LoopAction::Verify { since: 1 });
    s.drain();
    assert_eq!(l.step(LoopEvent::Verified { changed: true }), LoopAction::Rebuild);
    s.raise();
    assert_eq!(l.step(LoopEvent::Rebuilt { finished_at: 7 }), LoopAction::Settle { millis: 100 });
    s.drain();
    s.close();
    assert_eq!(l.step(s.take().unwrap()), LoopAction::Exit);
    assert_eq!(l.state, LoopState::Stopped);
    assert_eq!(l.last_build, 7);
}

#[test]
fn filter_on_what_is_known_of_a_path() {
    assert!(passes_filter(false, true, Some("a.md"), Some("md")));
    assert!(passes_filter(false, true, None, Some("css")));
    // In the output directory.
    assert!(!passes_filter(true, true, Some("a.md"), Some("md")));
    // Outside the source directory.
    assert!(!passes_filter(false, false, Some("a.md"), Some("md")));
    // Hidden, backup, swap.
    assert!(!passes_filter(false, true, Some(".a.md"), Some("md")));
    assert!(!passes_filter(false, true, Some("a.md~"), Some("md~")));
    assert!(!passes_filter(false, true, Some("a.swp"), Some("swp")));
    // No watched extension.
    assert!(!passes_filter(false, true, Some("a.txt"), Some("txt")));
    assert!(!passes_filter(false, true, Some("a"), None));
}

#[test]
fn index_is_asked_for_by_slash_or_directory() {
    assert!(asks_for_index("/", false));
    assert!(asks_for_index("/a/", false));
    assert!(asks_for_index("/a", true));
    assert!(asks_for_index("", true));
    assert!(!asks_for_index("/a", false));
    assert!(!asks_for_index("", false));
    assert!(!asks_for_index("/a/?q=/x", false));
}

#[test]
fn urls_that_climb_above_their_start() {
    for url in [
        "/../secret.txt",
        "..",
        "/..",
        "../",
        "/a/../../b/",
        "/a/../..",
        "a\\..\\..\\b",
        "//..//",
        "/./../a",
        "/a/b/../../../c",
        "/../a/b",
    ] {
        assert!(url_climbs(url), "{url}");
        assert!(!stays_below_root(url), "{url}");
    }
}

#[test]
fn urls_that_go_up_and_stay_below_their_start() {
    for url in [
        "/a/../b",
        "/a/..",
        "/a/../b/",
        "a\\..\\b",
        "/a/..\\b",
        "/a/b/../../c",
        "/a/./../b",
        "/a//../b",
    ] {
        assert!(!url_climbs(url), "{url}");
        assert!(stays_below_root(url), "{url}");
    }
    for url in ["", "/", ".", "/.", "/a/./b", "/...", "/..a", "/a..", "/a../b", "/a/b..c", "/.a./", "/a.b"] {
        assert!(!url_climbs(url), "{url}");
        assert!(stays_below_root(url), "{url}");
    }
}

#[test]
fn request_that_goes_up_below_the_root_is_served() {
    assert_eq!(served_path("/out", "/a/../b/", false).as_deref(), Some("/out/a/../b/index.html"));
    assert_eq!(served_path("/out", "/a/../b", true).as_deref(), Some("/out/a/../b/index.html"));
    assert_eq!(requested_path("/out", "/a/../b").as_deref(), Some("/out/a/../b"));
    let r = answer("/out", "/a/../b/", false, Some(b"<p>b</p>".to_vec()));
    assert_eq!(r.status, 200);
    assert_eq!(r.body, b"<p>b</p>");
    assert_eq!(r.content_type.as_deref(), Some("text/html"));
}

#[test]
fn answer_from_what_is_known_of_a_request() {
    let found = respond(true, "/out/posts/first/index.html", Some(b"<h1>First</h1>".to_vec()));
    assert_eq!(found.status, 200);
    assert_eq!(found.body, b"<h1>First</h1>");
    assert_eq!(found.content_type.as_deref(), Some("text/html"));
    let missing = respond(true, "/out/none.html", None);
    assert_eq!(missing.status, 404);
    assert_eq!(missing.body, b"404 Not Found");
    assert_eq!(missing.content_type, None);
    assert_eq!(respond(false, "/secret.txt", Some(b"secret".to_vec())), missing);
    assert_eq!(respond(false, "/secret.txt", None), missing);
}

#[test]
fn request_that_leaves_the_root_is_not_found() {
    assert_eq!(requested_path("/out", "/../secret.txt"), None);
    assert_eq!(served_path("/out", "/../secret.txt", false), None);
    assert_eq!(served_path("/out", "/a/../../b/", true), None);
    assert_eq!(served_path("/out", "/a/../../b/", false), None);
    // Whatever was read for it, such a request is answered as not found.
    let r = answer("/out", "/../secret.txt", false, Some(b"secret".to_vec()));
    assert_eq!(r.status, 404);
    assert_eq!(r.body, b"404 Not Found");
    assert_eq!(r.content_type, None);
    assert_eq!(r, answer("/out", "/a/../../b/", true, Some(b"secret".to_vec())));
    assert_eq!(r, answer("/out", "/missing", false, None));
}

#[test]
fn request_below_the_root_is_answered_from_the_file() {
    let r = answer("/out", "/a/b.css", false, Some(b"x".to_vec()));
    assert_eq!(r.status, 200);
    assert_eq!(r.body, b"x");
    assert_eq!(r.content_type.as_deref(), Some("text/css"));
    assert_eq!(answer("/out", "/a/b.css", false, None).status, 404);
    // A directory is answered with the type of its index file.
    let dir = answer("/out", "/a", true, Some(b"<p>".to_vec()));
    assert_eq!(dir.content_type.as_deref(), Some("text/html"));
}
