use desktop_fixer::generate_new_filename;

#[test]
fn test_generate_new_filename_default_profile() {
    let content = "[Desktop Entry]\nName=Google Calendar\nExec=/usr/bin/google-chrome-stable --app-id=abc --profile-directory=Default\n";
    assert_eq!(
        generate_new_filename(content).unwrap(),
        "Google Calendar.desktop"
    );
}

#[test]
fn test_generate_new_filename_work_profile() {
    let content = "[Desktop Entry]\nName=Google Calendar\nExec=/usr/bin/google-chrome-stable --app-id=abc --profile-directory=Work\n";
    assert_eq!(
        generate_new_filename(content).unwrap(),
        "Google Calendar (Work).desktop"
    );
}

#[test]
fn test_generate_new_filename_sanitization() {
    let content = "[Desktop Entry]\nName=Google/Calendar\nExec=/usr/bin/google-chrome-stable --app-id=abc --profile-directory=Default\n";
    assert_eq!(
        generate_new_filename(content).unwrap(),
        "Google-Calendar.desktop"
    );
}

#[test]
fn filename_without_profile_flag_is_default() {
    let content = "[Desktop Entry]\nName=Notes\nExec=/opt/chrome --app-id=abc\n";
    assert_eq!(generate_new_filename(content).unwrap(), "Notes.desktop");
}

#[test]
fn filename_first_profile_flag_wins() {
    let content = "[Desktop Entry]\nName=Notes\nExec=/opt/chrome --profile-directory=Profile\t1 --profile-directory=Other\n";
    assert_eq!(generate_new_filename(content).unwrap(), "Notes (Profile).desktop");
}

#[test]
fn filename_profile_value_keeps_equals() {
    let content = "[Desktop Entry]\nName=Notes\nExec=/opt/chrome --profile-directory=Work=2\n";
    assert_eq!(generate_new_filename(content).unwrap(), "Notes (Work=2).desktop");
}

#[test]
fn filename_empty_profile_value() {
    let content = "[Desktop Entry]\nName=Notes\nExec=/opt/chrome --profile-directory=\n";
    assert_eq!(generate_new_filename(content).unwrap(), "Notes ().desktop");
}

#[test]
fn filename_flag_inside_token_is_ignored() {
    let content = "[Desktop Entry]\nName=Notes\nExec=/opt/chrome x--profile-directory=Work\n";
    assert_eq!(generate_new_filename(content).unwrap(), "Notes.desktop");
}

#[test]
fn filename_several_slashes() {
    let content = "[Desktop Entry]\nName=a/b/c\nExec=/opt/chrome --profile-directory=P\n";
    assert_eq!(generate_new_filename(content).unwrap(), "a-b-c (P).desktop");
}

#[test]
fn filename_missing_fields() {
    assert!(generate_new_filename("[Desktop Entry]\nName=A\n").is_none());
    assert!(generate_new_filename("[Desktop Entry]\nExec=/opt/chrome\n").is_none());
    assert!(generate_new_filename("Name=A\nExec=b\n").is_none());
    assert!(generate_new_filename("[Desktop Entry\n").is_none());
}

#[test]
fn filename_keeps_quoted_blanks() {
    let content = "[Desktop Entry]\nName=\" A \"\nExec=/opt/chrome --app-id=abc\n";
    assert_eq!(generate_new_filename(content).unwrap(), " A .desktop");
}
