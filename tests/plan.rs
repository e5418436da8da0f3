use desktop_fixer::plan_record;

fn paths(v: &[&str]) -> Vec<String> {
    v.iter().map(|s| s.to_string()).collect()
}

const WORK: &str = "[Desktop Entry]\nName=Mail\nIcon=chrome-xyz-Work\nStartupWMClass=old\nExec=/opt/chrome --app-id=xyz --profile-directory=Work\n";

#[test]
fn plan_skips_non_shortcut() {
    let content = "[Desktop Entry]\nName=Mail\nIcon=a\nExec=/usr/bin/mail\n";
    let existing = paths(&["/d/x.desktop"]);
    assert_eq!(plan_record("/d/x.desktop", content, &existing, true), (None, None));
}

#[test]
fn plan_fix_and_move() {
    let existing = paths(&["/d/x.desktop"]);
    let (fixed, moved) = plan_record("/d/x.desktop", WORK, &existing, true);
    assert!(fixed.unwrap().contains("StartupWMClass=chrome-xyz-Work"));
    assert_eq!(moved, Some("/d/Mail (Work).desktop".to_string()));
}

#[test]
fn plan_without_rename() {
    let existing = paths(&["/d/x.desktop"]);
    let (fixed, moved) = plan_record("/d/x.desktop", WORK, &existing, false);
    assert!(fixed.is_some());
    assert_eq!(moved, None);
}

#[test]
fn plan_already_in_place() {
    let content = "[Desktop Entry]\nName=Mail\nIcon=i\nStartupWMClass=i\nExec=/opt/chrome --app-id=xyz\n";
    let existing = paths(&["/d/Mail.desktop"]);
    assert_eq!(plan_record("/d/Mail.desktop", content, &existing, true), (None, None));
}

#[test]
fn plan_moves_to_numbered_variant() {
    let content = "[Desktop Entry]\nName=Mail\nIcon=i\nStartupWMClass=i\nExec=/opt/chrome --app-id=xyz\n";
    let existing = paths(&["/d/Mail.desktop", "/d/y.desktop"]);
    assert_eq!(
        plan_record("/d/y.desktop", content, &existing, true),
        (None, Some("/d/Mail (1).desktop".to_string()))
    );
    let existing = paths(&["/d/Mail.desktop", "/d/Mail (2).desktop"]);
    assert_eq!(plan_record("/d/Mail (2).desktop", content, &existing, true), (None, None));
}
