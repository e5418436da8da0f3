use desktop_fixer::{get_fixed_content, is_chromium_pwa, needs_wmclass_fix, with_fixed_wmclass};
use ini::Ini;

#[test]
fn test_is_chromium_pwa_positive() {
    let content = "[Desktop Entry]\nExec=/usr/bin/google-chrome-stable --app-id=abcdefg\n";
    assert!(is_chromium_pwa(content));
}

#[test]
fn test_is_chromium_pwa_negative_no_app_id() {
    let content = "[Desktop Entry]\nExec=/usr/bin/google-chrome-stable\n";
    assert!(!is_chromium_pwa(content));
}

#[test]
fn test_is_chromium_pwa_negative_no_desktop_entry() {
    let content = "Exec=/usr/bin/google-chrome-stable --app-id=abcdefg\n";
    assert!(!is_chromium_pwa(content));
}

#[test]
fn test_needs_wmclass_fix_mismatch() {
    let content = "[Desktop Entry]\nIcon=chrome-abc-Default\nStartupWMClass=wrong\n";
    assert!(needs_wmclass_fix(content));
}

#[test]
fn test_needs_wmclass_fix_match() {
    let content =
        "[Desktop Entry]\nIcon=chrome-abc-Default\nStartupWMClass=chrome-abc-Default\n";
    assert!(!needs_wmclass_fix(content));
}

#[test]
fn test_needs_wmclass_fix_missing_wmclass() {
    let content = "[Desktop Entry]\nIcon=chrome-abc-Default\n";
    assert!(needs_wmclass_fix(content));
}

#[test]
fn test_get_fixed_content() {
    let content = "[Desktop Entry]\nIcon=chrome-abc-Default\nStartupWMClass=wrong\n";
    let fixed = get_fixed_content(content).unwrap();
    assert!(fixed.contains("StartupWMClass=chrome-abc-Default"));
}

#[test]
fn pwa_marker_anywhere_in_exec() {
    let content = "[Desktop Entry]\nExec=--app-id=x /opt/chrome --flag\n";
    assert!(is_chromium_pwa(content));
    let content = "[Desktop Entry]\nExec=/opt/chrome --profile-directory=Work --app-id=x\n";
    assert!(is_chromium_pwa(content));
}

#[test]
fn pwa_exec_in_other_section_only() {
    let content = "[Other]\nExec=/opt/chrome --app-id=x\n[Desktop Entry]\nName=A\n";
    assert!(!is_chromium_pwa(content));
}

#[test]
fn pwa_marker_must_be_whole() {
    let content = "[Desktop Entry]\nExec=/opt/chrome --app-id x\n";
    assert!(!is_chromium_pwa(content));
}

#[test]
fn pwa_unparsable_text() {
    let content = "[Desktop Entry\nExec=/opt/chrome --app-id=x\n";
    assert!(!is_chromium_pwa(content));
}

#[test]
fn wmclass_no_icon_needs_no_fix() {
    let content = "[Desktop Entry]\nStartupWMClass=wrong\n";
    assert!(!needs_wmclass_fix(content));
    assert!(!needs_wmclass_fix("[Desktop Entry]\nName=A\n"));
    assert!(!needs_wmclass_fix("Icon=a\n"));
}

#[test]
fn fixed_content_reparses_with_class_from_icon() {
    let content = "[Desktop Entry]\nName=Mail\nIcon=chrome-xyz-Work\nStartupWMClass=old\nExec=/opt/chrome --app-id=xyz\n[Desktop Action New]\nName=New\n";
    let fixed = get_fixed_content(content).unwrap();
    let again = Ini::load_from_str(&fixed).unwrap();
    assert_eq!(again.get_from(Some("Desktop Entry"), "StartupWMClass"), Some("chrome-xyz-Work"));
    assert_eq!(again.get_from(Some("Desktop Entry"), "Icon"), Some("chrome-xyz-Work"));
    assert_eq!(again.get_from(Some("Desktop Entry"), "Name"), Some("Mail"));
    assert_eq!(again.get_from(Some("Desktop Entry"), "Exec"), Some("/opt/chrome --app-id=xyz"));
    assert_eq!(again.get_from(Some("Desktop Action New"), "Name"), Some("New"));
    assert!(!needs_wmclass_fix(&fixed));
}

#[test]
fn fixed_content_adds_missing_class() {
    let content = "[Desktop Entry]\nIcon=chrome-abc-Default\n";
    let fixed = get_fixed_content(content).unwrap();
    let again = Ini::load_from_str(&fixed).unwrap();
    assert_eq!(again.get_from(Some("Desktop Entry"), "StartupWMClass"), Some("chrome-abc-Default"));
}

#[test]
fn fixed_content_without_icon_is_none() {
    assert!(get_fixed_content("[Desktop Entry]\nName=A\n").is_none());
    assert!(get_fixed_content("Name=A\n").is_none());
    assert!(get_fixed_content("[Desktop Entry\n").is_none());
}

#[test]
fn with_fixed_wmclass_sets_class_only() {
    let record = Ini::load_from_str("[Desktop Entry]\nIcon=i1\nStartupWMClass=w\nName=N\n").unwrap();
    let fixed = with_fixed_wmclass(record).unwrap();
    assert_eq!(fixed.get_from(Some("Desktop Entry"), "StartupWMClass"), Some("i1"));
    assert_eq!(fixed.get_from(Some("Desktop Entry"), "Name"), Some("N"));
    let bare = Ini::load_from_str("[Desktop Entry]\nName=N\n").unwrap();
    assert!(with_fixed_wmclass(bare).is_none());
}

#[test]
fn fixed_content_settles_in_one_pass() {
    let content = "[Desktop Entry]\nName=Mail\nIcon=chrome-xyz-Work\nStartupWMClass=old\nExec=/opt/chrome --app-id=xyz --profile-directory=Work\n";
    let fixed = get_fixed_content(content).unwrap();
    assert!(!needs_wmclass_fix(&fixed));
    assert_eq!(get_fixed_content(&fixed).unwrap(), fixed);
    assert_eq!(
        desktop_fixer::generate_new_filename(&fixed),
        desktop_fixer::generate_new_filename(content)
    );
}

#[test]
fn fixed_content_escapes_backslash() {
    let content = "[Desktop Entry]\nIcon=a\\\\b\n";
    let fixed = get_fixed_content(content).unwrap();
    assert!(fixed.contains("StartupWMClass=a\\\\b"));
    assert!(fixed.contains("Icon=a\\\\b"));
}
