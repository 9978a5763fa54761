use patholog::model::PlatformMode;
use patholog::path_env::parse_path;

fn temp_dir() -> tempfile::TempDir {
    tempfile::tempdir().expect("create tempdir")
}

fn sub_dir(root: &tempfile::TempDir, name: &str) -> tempfile::TempDir {
    tempfile::Builder::new()
        .prefix(name)
        .rand_bytes(0)
        .tempdir_in(root.path())
        .expect("create directory")
}

fn file_in(root: &tempfile::TempDir, name: &str) -> tempfile::NamedTempFile {
    tempfile::Builder::new()
        .prefix(name)
        .rand_bytes(0)
        .tempfile_in(root.path())
        .expect("create file")
}

fn shown<P: AsRef<std::path::Path>>(path: P) -> String {
    path.as_ref().display().to_string()
}

#[test]
fn posix_path_parsing_preserves_order() {
    let root = temp_dir();
    let first = sub_dir(&root, "first");
    let second = sub_dir(&root, "second");
    let (first, second) = (shown(first.path()), shown(second.path()));

    let entries = parse_path(&format!("{first}:{second}"), PlatformMode::Posix, None);

    assert_eq!(entries.iter().map(|entry| entry.raw.as_str()).collect::<Vec<_>>(), [first, second]);
}

#[test]
fn windows_path_parsing_uses_semicolon_and_case_insensitive_keys() {
    let root = temp_dir();
    let first = sub_dir(&root, "Tools");
    let first = shown(first.path());
    let upper = first.to_uppercase();

    let entries = parse_path(&format!("{first};{upper}"), PlatformMode::Windows, None);

    assert_eq!(entries[0].comparison_key, entries[1].comparison_key);
}

#[test]
fn empty_missing_and_non_directory_entries_are_classified() {
    let root = temp_dir();
    let file = file_in(&root, "file");
    let missing = shown(root.path().join("missing"));

    let entries = parse_path(&format!(":{missing}:{}", shown(file.path())), PlatformMode::Posix, None);

    assert!(entries[0].is_empty);
    assert!(!entries[1].exists);
    assert!(entries[2].exists);
    assert!(!entries[2].is_dir);
}
