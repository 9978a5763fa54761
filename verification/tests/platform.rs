use patholog::model::PlatformMode;
use patholog::platform::{default_windows_pathext, parse_pathext, resolve_platform_rules, rules_for_mode};

#[test]
fn pathext_pieces_are_trimmed_dotted_upper_cased_and_unique() {
    assert_eq!(parse_pathext(Some(" exe ; .Com;;.EXE;bat")), [".EXE", ".COM", ".BAT"]);
    assert_eq!(parse_pathext(None), default_windows_pathext());
    assert_eq!(parse_pathext(Some("")), [".EXE", ".CMD", ".BAT"]);
}

#[test]
fn platform_rules_follow_the_mode() {
    let windows = resolve_platform_rules(PlatformMode::Windows, Some(".ps1"));
    assert_eq!(windows.separator, ';');
    assert!(!windows.case_sensitive);
    assert_eq!(windows.pathext, [".PS1"]);
    let posix = resolve_platform_rules(PlatformMode::Posix, Some(".ps1"));
    assert_eq!(posix.separator, ':');
    assert!(posix.case_sensitive);
    assert!(posix.pathext.is_empty());
    assert_eq!(rules_for_mode(PlatformMode::Auto, None).mode, PlatformMode::Posix);
    assert_ne!(resolve_platform_rules(PlatformMode::Auto, None).mode, PlatformMode::Auto);
}

#[test]
fn pathext_is_never_empty_and_never_repeats() {
    assert_eq!(parse_pathext(Some(" ; ;")), [".EXE", ".CMD", ".BAT"]);
    assert_eq!(parse_pathext(Some("exe;.EXE; com ;.com")), [".EXE", ".COM"]);
    assert_eq!(parse_pathext(Some("\u{3000}py\t")), [".PY"]);
}
