use std::cell::{Cell, RefCell};

use cargo_apfs_compress::flock::{
    acquire, creates_parent_on, error_unsupported, is_on_nfs_mount, siblings_to_remove,
    try_acquire, Filesystem, IoErrorKind, TryLockOutcome,
};
use cargo_apfs_compress::process::{
    compression_inputs, outcome_report, overall_result, plan_work_dir, DirOutcome, RunError,
    WorkDirPlan, LOCK_FILE_NAME,
};
use cargo_apfs_compress::discover::DirEntryInfo;
use cargo_apfs_compress::progress::{required_verbosity, truncate_path, SkipKind, Verbosity, PREFIX_LEN};
use cargo_apfs_compress::text::{join, same_text, text_less};

#[test]
fn excludes_cargo_lock_from_inputs() {
    let names = vec!["artifact.bin".to_owned(), LOCK_FILE_NAME.to_owned()];
    let inputs = compression_inputs("/w/target/debug", &names);
    assert_eq!(inputs.paths.len(), 1);
    assert!(inputs.paths.iter().any(|p| p.ends_with("artifact.bin")));
    assert!(!inputs.paths.iter().any(|p| p.ends_with(LOCK_FILE_NAME)));
    assert!(inputs.excluded_lock);
}

#[test]
fn inputs_keep_listing_order_without_sentinel() {
    let names = vec!["b".to_owned(), "a".to_owned()];
    let inputs = compression_inputs("/d/", &names);
    assert_eq!(inputs.paths, vec!["/d/b".to_owned(), "/d/a".to_owned()]);
    assert!(!inputs.excluded_lock);
}

#[test]
fn plans_by_what_is_on_disk() {
    assert_eq!(plan_work_dir(false, false), WorkDirPlan::SkipMissing);
    assert_eq!(plan_work_dir(true, false), WorkDirPlan::NotADirectory);
    assert_eq!(plan_work_dir(true, true), WorkDirPlan::Process);
}

#[test]
fn returns_error_if_any_worker_fails() {
    let outcomes = vec![
        DirOutcome { dir: "/t/debug".to_owned(), error: Some("compression failed".to_owned()) },
        DirOutcome { dir: "/t/release".to_owned(), error: None },
    ];
    let result = overall_result(&outcomes);
    assert_eq!(result, Err(RunError::DirectoriesFailed));
    assert_eq!(outcome_report(&outcomes[1]), "ok /t/release");
    assert_eq!(outcome_report(&outcomes[0]), "error /t/debug: compression failed");
    assert_eq!(RunError::DirectoriesFailed.message(), "one or more directories failed");
}

#[test]
fn all_successes_give_success() {
    let outcomes = vec![DirOutcome { dir: "/t/debug".to_owned(), error: None }];
    assert_eq!(overall_result(&outcomes), Ok(()));
    assert_eq!(overall_result(&[]), Ok(()));
}

#[test]
fn lock_taken_at_once_does_not_block() {
    let notices = RefCell::new(Vec::new());
    let blocked = Cell::new(false);
    let r = acquire(
        "build directory",
        "/d/.cargo-lock",
        &|| TryLockOutcome::Locked,
        &|s: String| notices.borrow_mut().push(s),
        &|| {
            blocked.set(true);
            Ok(())
        },
    );
    assert!(r.is_ok());
    assert!(notices.borrow().is_empty());
    assert!(!blocked.get());
}

#[test]
fn held_lock_notifies_then_blocks() {
    let notices = RefCell::new(Vec::new());
    let blocked = Cell::new(false);
    let r = acquire(
        "build directory",
        "/d/.cargo-lock",
        &|| TryLockOutcome::WouldBlock,
        &|s: String| notices.borrow_mut().push(s),
        &|| {
            blocked.set(true);
            Ok(())
        },
    );
    assert!(r.is_ok());
    assert_eq!(*notices.borrow(), vec!["Blocking waiting for file lock on build directory at /d/.cargo-lock".to_owned()]);
    assert!(blocked.get());
}

#[test]
fn blocking_failure_is_reported_with_path() {
    let r = acquire(
        "build directory",
        "/d/.cargo-lock",
        &|| TryLockOutcome::WouldBlock,
        &|_s: String| {},
        &|| Err(IoErrorKind::Other),
    );
    match r {
        Err(e) => {
            assert_eq!(e.path, "/d/.cargo-lock");
            assert_eq!(e.kind, IoErrorKind::Other);
        }
        Ok(()) => panic!("lock failure hidden"),
    }
}

#[test]
fn unsupported_locking_counts_as_held() {
    assert!(matches!(try_acquire("/d/l", &|| TryLockOutcome::Failed(IoErrorKind::Unsupported)), Ok(true)));
    assert!(matches!(try_acquire("/d/l", &|| TryLockOutcome::WouldBlock), Ok(false)));
    match try_acquire("/d/l", &|| TryLockOutcome::Failed(IoErrorKind::NotFound)) {
        Err(e) => assert_eq!(e.kind, IoErrorKind::NotFound),
        Ok(_) => panic!("error hidden"),
    }
    assert!(error_unsupported(IoErrorKind::Unsupported));
    assert!(!error_unsupported(IoErrorKind::Other));
    assert!(!is_on_nfs_mount("/mnt/nfs"));
}

#[test]
fn creates_parent_only_for_missing_file() {
    assert!(creates_parent_on(IoErrorKind::NotFound, true));
    assert!(!creates_parent_on(IoErrorKind::NotFound, false));
    assert!(!creates_parent_on(IoErrorKind::Other, true));
}

#[test]
fn filesystem_paths() {
    let mut fs = Filesystem::new("/w/target".to_owned());
    assert_eq!(fs.join("debug").display(), "/w/target/debug");
    assert_eq!(fs.file_path(LOCK_FILE_NAME), "/w/target/.cargo-lock");
    fs.push("release");
    assert_eq!(fs.as_path_unlocked(), "/w/target/release");
    fs.push("/abs");
    assert_eq!(fs.into_path_unlocked(), "/abs");
}

#[test]
fn joins_like_unix_paths() {
    assert_eq!(join("/a", "b"), "/a/b");
    assert_eq!(join("/a/", "b"), "/a/b");
    assert_eq!(join("", "b"), "b");
    assert_eq!(join("/a", "/b"), "/b");
}

#[test]
fn compares_text() {
    assert!(same_text("abc", "abc"));
    assert!(!same_text("abc", "abd"));
    assert!(text_less("/a-b", "/a/b"));
    assert!(text_less("ab", "abc"));
    assert!(!text_less("abc", "abc"));
    assert!(!text_less("b", "abc"));
}

#[test]
fn truncates_long_paths() {
    assert_eq!(truncate_path("short", PREFIX_LEN), "short");
    assert_eq!(truncate_path("/very/long/path/to/a/file.rs", 10), "...file.rs");
    assert_eq!(truncate_path("abcdef", 2), "...");
    assert_eq!(truncate_path("abcdef", 6), "abcdef");
}

#[test]
fn verbosity_levels() {
    assert_eq!(Verbosity::default(), Verbosity::Normal);
    assert!(Verbosity::Verbose.allows(Verbosity::Normal));
    assert!(!Verbosity::Quiet.allows(Verbosity::Normal));
    assert!(Verbosity::Normal.allows(Verbosity::Normal));
}

#[test]
fn routine_skips_need_verbose_output() {
    assert_eq!(required_verbosity(SkipKind::HardLink), Verbosity::Verbose);
    assert_eq!(required_verbosity(SkipKind::AlreadyCompressed), Verbosity::Verbose);
    assert_eq!(required_verbosity(SkipKind::TooLarge), Verbosity::Normal);
    assert_eq!(required_verbosity(SkipKind::FsNotSupported), Verbosity::Normal);
}

#[test]
fn clearing_keeps_only_the_lock_file() {
    let entries = vec![
        DirEntryInfo { name: "deps".to_owned(), is_dir: true },
        DirEntryInfo { name: LOCK_FILE_NAME.to_owned(), is_dir: false },
        DirEntryInfo { name: "app.d".to_owned(), is_dir: false },
    ];
    let removals = siblings_to_remove("/w/target/debug", LOCK_FILE_NAME, &entries);
    assert_eq!(
        removals,
        vec![
            ("/w/target/debug/deps".to_owned(), true),
            ("/w/target/debug/app.d".to_owned(), false),
        ]
    );
}
