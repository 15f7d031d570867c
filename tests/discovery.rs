use cargo_apfs_compress::discover::{classify_root_entry, discover_work_dirs, DirEntryInfo, RootAction, RootListing};

fn dir(name: &str) -> DirEntryInfo {
    DirEntryInfo { name: name.to_owned(), is_dir: true }
}

fn file(name: &str) -> DirEntryInfo {
    DirEntryInfo { name: name.to_owned(), is_dir: false }
}

fn listing(entry: DirEntryInfo, children: Vec<DirEntryInfo>) -> RootListing {
    RootListing { entry, children }
}

#[test]
fn discovers_default_target_roots() {
    let target = "/w/target";
    let listings = vec![
        listing(dir("debug"), vec![]),
        listing(dir("release"), vec![]),
        listing(dir("x86_64-apple-darwin"), vec![dir("debug"), dir("release")]),
        listing(dir("doc"), vec![]),
        listing(dir("tmp"), vec![]),
    ];
    let dirs = discover_work_dirs(target, &listings, &[]);

    assert!(dirs.contains(&"/w/target/debug".to_owned()));
    assert!(dirs.contains(&"/w/target/release".to_owned()));
    assert!(dirs.contains(&"/w/target/x86_64-apple-darwin/debug".to_owned()));
    assert!(dirs.contains(&"/w/target/x86_64-apple-darwin/release".to_owned()));
    assert!(!dirs.contains(&"/w/target/doc".to_owned()));
    assert!(!dirs.contains(&"/w/target/tmp".to_owned()));
    assert_eq!(dirs.len(), 4);
}

#[test]
fn discovers_only_requested_targets_when_filtered() {
    let target = "/w/target";
    let listings = vec![
        listing(dir("x86_64-apple-darwin"), vec![dir("debug")]),
        listing(dir("aarch64-apple-darwin"), vec![dir("debug")]),
    ];
    let dirs = discover_work_dirs(target, &listings, &["x86_64-apple-darwin".to_owned()]);
    assert_eq!(dirs, vec!["/w/target/x86_64-apple-darwin/debug".to_owned()]);
}

#[test]
fn skips_hidden_files_and_bookkeeping_dirs() {
    let listings = vec![
        listing(dir(".rustc_info"), vec![]),
        listing(file("CACHEDIR.TAG"), vec![]),
        listing(dir("package"), vec![]),
        listing(
            dir("aarch64-apple-darwin"),
            vec![
                dir("debug"),
                dir(".fingerprint"),
                dir("build"),
                dir("deps"),
                dir("examples"),
                dir("incremental"),
                file("notes.txt"),
            ],
        ),
        listing(dir("custom-prof"), vec![]),
    ];
    let dirs = discover_work_dirs("/t", &listings, &[]);
    assert_eq!(dirs, vec!["/t/aarch64-apple-darwin/debug".to_owned(), "/t/custom-prof".to_owned()]);
}

#[test]
fn classifies_root_entries() {
    assert_eq!(classify_root_entry(&dir("debug"), &[]), RootAction::AddSelf);
    assert_eq!(classify_root_entry(&dir("x86_64-unknown-linux-gnu"), &[]), RootAction::AddChildren);
    assert_eq!(classify_root_entry(&dir("doc"), &[]), RootAction::Skip);
    assert_eq!(classify_root_entry(&dir(".hidden"), &[]), RootAction::Skip);
    assert_eq!(classify_root_entry(&file("x86_64-apple-darwin"), &[]), RootAction::Skip);
    let filter = vec!["wasm32-unknown-unknown".to_owned()];
    assert_eq!(classify_root_entry(&dir("wasm32-unknown-unknown"), &filter), RootAction::AddChildren);
    assert_eq!(classify_root_entry(&dir("debug"), &filter), RootAction::Skip);
}
