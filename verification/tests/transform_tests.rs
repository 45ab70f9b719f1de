use multi_file_rename_tool::transform;
use multi_file_rename_tool::Config;
use multi_file_rename_tool::Extension;
use multi_file_rename_tool::File;

#[test]
fn test_transform_preserves_extension() {
    assert_eq!(transform("report.txt", "_v2"), "report_v2.txt");
}

#[test]
fn test_transform_without_dot_appends() {
    assert_eq!(transform("README", "-bak"), "README-bak");
}

#[test]
fn test_transform_only_last_dot_is_extension() {
    assert_eq!(transform("archive.tar.gz", "_x"), "archive.tar_x.gz");
}

#[test]
fn test_transform_twice_appends_twice() {
    let once = transform("README", "-bak");
    let twice = transform(&once, "-bak");
    assert_eq!(once, "README-bak");
    assert_eq!(twice, "README-bak-bak");
    assert_ne!(twice, once);
}

#[test]
fn test_transform_keeps_parent_directory() {
    assert_eq!(transform("dir/sub/b.log", "_s"), "dir/sub/b_s.log");
}

#[test]
fn test_transform_leading_dot_name_has_no_extension() {
    assert_eq!(transform(".gitignore", "_x"), ".gitignore_x");
}

#[test]
fn test_transform_empty_salt_is_identity() {
    assert_eq!(transform("a.txt", ""), "a.txt");
    assert_eq!(transform("README", ""), "README");
}

#[test]
fn test_transform_unicode_name() {
    assert_eq!(transform("docs/résumé.pdf", "_kopie"), "docs/résumé_kopie.pdf");
    assert_eq!(transform("файл", "_а"), "файл_а");
}

#[test]
fn test_transform_dot_in_directory_name() {
    assert_eq!(transform("v1.2/notes", "_s"), "v1.2/notes_s");
}

#[test]
fn test_file_accessors() {
    let f = File::from("dir/archive.tar.gz");
    assert_eq!(f.get_name(), "archive.tar.gz");
    assert_eq!(f.get_pathbuff(), "dir/archive.tar.gz");
    assert!(f.have_extension());
    match f.get_extension() {
        Extension::Present(e) => assert_eq!(e, "gz"),
        Extension::Absent => panic!("an extension was expected"),
    }
}

#[test]
fn test_file_without_extension() {
    let f = File::from("dir/README");
    assert_eq!(f.get_name(), "README");
    assert!(!f.have_extension());
    match f.get_extension() {
        Extension::Present(_) => panic!("no extension was expected"),
        Extension::Absent => {},
    }
}

#[test]
fn test_add_salt_moves_identity_forward() {
    let mut f = File::from("dir/a.txt");
    f.add_salt(&String::from("_s"));
    assert_eq!(f.get_pathbuff(), "dir/a_s.txt");
    assert_eq!(f.get_name(), "a_s.txt");
    f.add_salt(&String::from("_s"));
    assert_eq!(f.get_pathbuff(), "dir/a_s_s.txt");
}

#[test]
fn test_config_new_splits_salt_and_targets() {
    let args = vec![
        String::from("_s"),
        String::from("a.txt"),
        String::from("dir/"),
    ];
    let cfg = Config::new(&args).unwrap();
    assert_eq!(cfg.salt, "_s");
    assert_eq!(cfg.files, vec![String::from("a.txt"), String::from("dir/")]);
}

#[test]
fn test_config_new_rejects_too_few_arguments() {
    let args = vec![String::from("_s")];
    match Config::new(&args) {
        Ok(_) => panic!("an error was expected"),
        Err(m) => assert_eq!(m, "Not enough arguments"),
    }
    match Config::new(&[]) {
        Ok(_) => panic!("an error was expected"),
        Err(m) => assert_eq!(m, "Not enough arguments"),
    }
}
