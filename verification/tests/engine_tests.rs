use multi_file_rename_tool::Action;
use multi_file_rename_tool::Config;
use multi_file_rename_tool::DirEntry;
use multi_file_rename_tool::Engine;
use multi_file_rename_tool::Event;
use multi_file_rename_tool::FileKind;

fn config(salt: &str, targets: &[&str]) -> Config {
    let mut args = vec![salt.to_string()];
    for t in targets {
        args.push(t.to_string());
    }
    Config::new(&args).unwrap()
}

fn expect_classify(a: Action, path: &str) {
    match a {
        Action::Classify(p) => assert_eq!(p, path),
        _ => panic!("a classification request was expected for {}", path),
    }
}

fn expect_list(a: Action, dir: &str) {
    match a {
        Action::ListDir(d) => assert_eq!(d, dir),
        _ => panic!("a listing request was expected for {}", dir),
    }
}

fn expect_rename(a: Action, from: &str, to: &str) {
    match a {
        Action::Rename(f, t) => {
            assert_eq!(f, from);
            assert_eq!(t, to);
        },
        _ => panic!("a rename request was expected for {}", from),
    }
}

fn expect_ok(a: Action) {
    match a {
        Action::Finished(r) => assert_eq!(r, Ok(true)),
        _ => panic!("a successful finish was expected"),
    }
}

fn expect_err(a: Action, msg: &str) {
    match a {
        Action::Finished(r) => assert_eq!(r, Err(msg.to_string())),
        _ => panic!("a failed finish was expected"),
    }
}

#[test]
fn test_end_to_end_directory_scenario() {
    let mut eng = Engine::new(config("_s", &["a.txt", "dir/"]));
    expect_classify(eng.step(Event::Start), "a.txt");
    expect_rename(
        eng.step(Event::Classified(FileKind::RegularFile)),
        "a.txt",
        "a_s.txt",
    );
    expect_classify(eng.step(Event::Renamed), "dir/");
    expect_list(eng.step(Event::Classified(FileKind::Directory)), "dir/");
    let listing = vec![
        DirEntry { path: "dir/b.log".to_string(), kind: FileKind::RegularFile },
        DirEntry { path: "dir/sub".to_string(), kind: FileKind::Directory },
    ];
    expect_list(eng.step(Event::Listed(listing)), "dir/sub");
    let listing_sub = vec![DirEntry {
        path: "dir/sub/c".to_string(),
        kind: FileKind::RegularFile,
    }];
    expect_rename(eng.step(Event::Listed(listing_sub)), "dir/b.log", "dir/b_s.log");
    expect_rename(eng.step(Event::Renamed), "dir/sub/c", "dir/sub/c_s");
    expect_ok(eng.step(Event::Renamed));
}

#[test]
fn test_missing_target_stops_run_at_once() {
    let mut eng = Engine::new(config("_x", &["ghost.txt", "later.txt"]));
    expect_classify(eng.step(Event::Start), "ghost.txt");
    expect_err(
        eng.step(Event::Classified(FileKind::Missing)),
        "file don't found",
    );
}

#[test]
fn test_symlink_target_is_passed_over() {
    let mut eng = Engine::new(config("_x", &["link", "real.txt"]));
    expect_classify(eng.step(Event::Start), "link");
    expect_classify(eng.step(Event::Classified(FileKind::SymbolicLink)), "real.txt");
    expect_rename(
        eng.step(Event::Classified(FileKind::RegularFile)),
        "real.txt",
        "real_x.txt",
    );
    expect_ok(eng.step(Event::Renamed));
}

#[test]
fn test_symlink_only_target_succeeds_without_renames() {
    let mut eng = Engine::new(config("_x", &["link"]));
    expect_classify(eng.step(Event::Start), "link");
    expect_ok(eng.step(Event::Classified(FileKind::SymbolicLink)));
}

#[test]
fn test_directory_tree_renames_all_regular_files() {
    let mut eng = Engine::new(config("_z", &["top"]));
    expect_classify(eng.step(Event::Start), "top");
    expect_list(eng.step(Event::Classified(FileKind::Directory)), "top");
    let listing = vec![
        DirEntry { path: "top/f1.txt".to_string(), kind: FileKind::RegularFile },
        DirEntry { path: "top/l1".to_string(), kind: FileKind::SymbolicLink },
        DirEntry { path: "top/sub".to_string(), kind: FileKind::Directory },
        DirEntry { path: "top/f2".to_string(), kind: FileKind::RegularFile },
    ];
    expect_list(eng.step(Event::Listed(listing)), "top/sub");
    let listing_sub = vec![
        DirEntry { path: "top/sub/gone".to_string(), kind: FileKind::Missing },
        DirEntry { path: "top/sub/g1.log".to_string(), kind: FileKind::RegularFile },
    ];
    // depth-first: f1.txt was collected first, then the subdirectory's g1.log,
    // then f2; the symbolic link and the vanished entry are skipped
    expect_rename(eng.step(Event::Listed(listing_sub)), "top/f1.txt", "top/f1_z.txt");
    expect_rename(eng.step(Event::Renamed), "top/sub/g1.log", "top/sub/g1_z.log");
    expect_rename(eng.step(Event::Renamed), "top/f2", "top/f2_z");
    expect_ok(eng.step(Event::Renamed));
}

#[test]
fn test_empty_directory_target_succeeds() {
    let mut eng = Engine::new(config("_s", &["dir"]));
    expect_classify(eng.step(Event::Start), "dir");
    expect_list(eng.step(Event::Classified(FileKind::Directory)), "dir");
    expect_ok(eng.step(Event::Listed(Vec::new())));
}

#[test]
fn test_rename_failure_aborts_the_run() {
    let mut eng = Engine::new(config("_s", &["a.txt", "b.txt"]));
    expect_classify(eng.step(Event::Start), "a.txt");
    expect_rename(
        eng.step(Event::Classified(FileKind::RegularFile)),
        "a.txt",
        "a_s.txt",
    );
    expect_err(
        eng.step(Event::RenameFailed("permission denied".to_string())),
        "permission denied",
    );
}

#[test]
fn test_list_failure_aborts_the_run() {
    let mut eng = Engine::new(config("_s", &["dir"]));
    expect_classify(eng.step(Event::Start), "dir");
    expect_list(eng.step(Event::Classified(FileKind::Directory)), "dir");
    expect_err(
        eng.step(Event::ListFailed("directory not readable".to_string())),
        "directory not readable",
    );
}

#[test]
fn test_no_targets_finishes_at_once() {
    let mut eng = Engine::new(Config { salt: "_s".to_string(), files: Vec::new() });
    expect_ok(eng.step(Event::Start));
}
