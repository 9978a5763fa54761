use patholog::cli::loaded_config;
use patholog::config::{LoadedConfig, RawPolicy, merge_drop_entries, merge_fail_on, merge_presets};
use patholog::model::{IssueKind, PathVariable, PlatformMode, PresetKind};
use patholog::path_env::parse_path;
use patholog::policy::PathPolicy;

fn raw(drop: &[&str], presets: &[&str], fail_on: &[&str]) -> RawPolicy {
    RawPolicy {
        drop_entries: drop.iter().map(|s| s.to_string()).collect(),
        presets: presets.iter().map(|s| s.to_string()).collect(),
        fail_on: fail_on.iter().map(|s| s.to_string()).collect(),
    }
}

fn config(path: RawPolicy, manpath: RawPolicy) -> LoadedConfig {
    loaded_config("patholog.toml".to_owned(), Ok((1, path, manpath))).expect("load config")
}

#[test]
fn merge_helpers_append_cli_values_after_config_values() {
    let config = config(raw(&["/config"], &["cargo"], &["duplicate"]), raw(&[], &[], &[]));
    let policy = config.policy_for(PathVariable::Path);

    assert_eq!(
        merge_drop_entries(Some(policy), &[String::from("/cli")]),
        ["/config", "/cli"]
    );
    assert_eq!(
        merge_presets(Some(policy), &[PresetKind::Pyenv]),
        [PresetKind::Cargo, PresetKind::Pyenv]
    );
    assert_eq!(
        merge_fail_on(Some(policy), &[IssueKind::Unwanted]),
        [IssueKind::Duplicate, IssueKind::Unwanted]
    );
}

#[test]
fn fink_preset_remains_variable_specific_after_config_merge() {
    let config = config(raw(&[], &["fink"], &[]), raw(&[], &["fink"], &[]));

    let path_policy = PathPolicy::new(
        &merge_drop_entries(Some(config.policy_for(PathVariable::Path)), &[]),
        &merge_presets(Some(config.policy_for(PathVariable::Path)), &[]),
        PathVariable::Path,
    )
    .compile(PlatformMode::Posix, None);
    let manpath_policy = PathPolicy::new(
        &merge_drop_entries(Some(config.policy_for(PathVariable::Manpath)), &[]),
        &merge_presets(Some(config.policy_for(PathVariable::Manpath)), &[]),
        PathVariable::Manpath,
    )
    .compile(PlatformMode::Posix, None);
    let path_entries = parse_path("/sw/bin:/sw/share/man", PlatformMode::Posix, None);
    let manpath_entries = parse_path("/sw/bin:/sw/share/man", PlatformMode::Posix, None);

    assert!(path_policy.matches_entry(&path_entries[0]));
    assert!(!path_policy.matches_entry(&path_entries[1]));
    assert!(!manpath_policy.matches_entry(&manpath_entries[0]));
    assert!(manpath_policy.matches_entry(&manpath_entries[1]));
}

#[test]
fn validated_config_keeps_first_of_each_value() {
    let config = config(
        raw(&["/a", "/a", "/b"], &["homebrew", "cargo", "homebrew"], &["empty"]),
        raw(&["/m"], &[], &["duplicate", "duplicate"]),
    );

    assert_eq!(config.config.version, 1);
    assert_eq!(config.config.path.drop_entries, ["/a", "/b"]);
    assert_eq!(config.config.path.presets, [PresetKind::Homebrew, PresetKind::Cargo]);
    assert_eq!(config.config.path.fail_on, [IssueKind::Empty]);
    assert_eq!(config.config.manpath.drop_entries, ["/m"]);
    assert_eq!(config.config.manpath.fail_on, [IssueKind::Duplicate]);
}

#[test]
fn validated_config_rejects_invalid_fail_on() {
    let error = loaded_config(
        "patholog.toml".to_owned(),
        Ok((1, raw(&[], &[], &[]), raw(&[], &[], &["sometimes"]))),
    )
    .expect_err("invalid kind");

    assert!(error.contains("unsupported issue kind \"sometimes\""));
}

fn load(version: u64, path: RawPolicy, manpath: RawPolicy) -> Result<LoadedConfig, String> {
    loaded_config("patholog.toml".to_owned(), Ok((version, path, manpath)))
}

#[test]
fn load_required_config_accepts_minimal_config() {
    let config = load(1, raw(&[], &[], &[]), raw(&[], &[], &[])).expect("load config");

    assert_eq!(config.config.version, 1);
    assert!(config.config.path.drop_entries.is_empty());
    assert!(config.config.manpath.presets.is_empty());
}

#[test]
fn load_required_config_parses_path_and_manpath_policy() {
    let config = load(
        1,
        raw(&["/drop", "/drop"], &["homebrew", "cargo"], &["duplicate", "unwanted"]),
        raw(&["/man"], &["fink"], &["missing"]),
    )
    .expect("load config");

    assert_eq!(config.config.path.drop_entries, ["/drop"]);
    assert_eq!(config.config.path.presets, [PresetKind::Homebrew, PresetKind::Cargo]);
    assert_eq!(config.config.path.fail_on, [IssueKind::Duplicate, IssueKind::Unwanted]);
    assert_eq!(config.config.manpath.drop_entries, ["/man"]);
    assert_eq!(config.config.manpath.presets, [PresetKind::Fink]);
    assert_eq!(config.config.manpath.fail_on, [IssueKind::Missing]);
}

#[test]
fn load_required_config_rejects_unknown_fields() {
    let error = loaded_config(
        "patholog.toml".to_owned(),
        Err("unknown field `unknown`, expected one of `version`, `path`, `manpath`".to_owned()),
    )
    .expect_err("load should fail");

    assert!(error.contains("config file is invalid"));
    assert!(error.contains("unknown"));
}

#[test]
fn load_required_config_rejects_unsupported_version() {
    let error = load(2, raw(&[], &[], &[]), raw(&[], &[], &[])).expect_err("load should fail");

    assert!(error.contains("unsupported version 2"));
}

#[test]
fn load_required_config_rejects_invalid_preset() {
    let error = load(1, raw(&[], &["unknown"], &[]), raw(&[], &[], &[])).expect_err("load should fail");

    assert!(error.contains("unsupported preset"));
}

#[test]
fn load_required_config_rejects_invalid_fail_on() {
    let error = load(1, raw(&[], &[], &["unknown"]), raw(&[], &[], &[])).expect_err("load should fail");

    assert!(error.contains("unsupported issue kind"));
}
