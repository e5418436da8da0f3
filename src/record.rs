//! Launcher records: recognising browser web-app shortcuts and aligning
//! their window class with their icon.
//!
//! A record is parsed with the `ini` crate. What the logic reads of a parsed
//! record is modelled as a map from (section, key) to the value that a lookup
//! of that key in that section returns.
use vstd::prelude::*;
use ini::{Ini, ParseError};
use crate::text::{chars_of, contains_exec, contains_sub};

verus! {

#[verifier::external_type_specification]
#[verifier::external_body]
pub struct ExIni(Ini);

#[verifier::external_type_specification]
#[verifier::external_body]
pub struct ExParseError(ParseError);

/// The entries of a parsed record: for each section name and key, the value
/// that looking the key up in that section yields. Where a section name or a
/// key occurs more than once, that is the first section of the name and the
/// first value of the key, as `ini` reads them.
pub uninterp spec fn ini_entries(i: Ini) -> Map<(Seq<char>, Seq<char>), Seq<char>>;

/// The entries that parsing the text yields, or `None` where it is refused.
pub uninterp spec fn ini_parse(text: Seq<char>) -> Option<Map<(Seq<char>, Seq<char>), Seq<char>>>;

/// Relies on `ini::Ini::load_from_str`: whether the text parses, and what it
/// parses to, depends on the text alone.
#[verifier::external_body]
pub(crate) fn load_ini(text: &str) -> (r: Result<Ini, ParseError>)
    ensures
        r is Ok <==> ini_parse(text@) is Some,
        r matches Ok(i) ==> ini_entries(i) == ini_parse(text@)->Some_0,
{
    Ini::load_from_str(text)
}

/// Relies on `ini::Ini::get_from`: the value of `key` in the section named
/// `section`, if there is one.
#[verifier::external_body]
pub(crate) fn get_from(i: &Ini, section: &str, key: &str) -> (r: Option<String>)
    ensures
        r is Some <==> ini_entries(*i).contains_key((section@, key@)),
        r matches Some(v) ==> v@ == ini_entries(*i)[(section@, key@)],
{
    i.get_from(Some(section), key).map(|v| v.to_string())
}

/// Relies on `ini::Ini::set_to`: replaces the value of `key` in the section
/// named `section` (creating the section if needed), leaving every other
/// entry as it was.
#[verifier::external_body]
fn set_to(i: &mut Ini, section: &str, key: &str, value: String)
    ensures
        ini_entries(*final(i)) == ini_entries(*old(i)).insert((section@, key@), value@),
{
    i.set_to(Some(section), key.to_string(), value)
}

pub open spec fn hex_digit(d: int) -> char {
    if d < 10 {
        if d == 0 { '0' } else if d == 1 { '1' } else if d == 2 { '2' } else if d == 3 { '3' }
        else if d == 4 { '4' } else if d == 5 { '5' } else if d == 6 { '6' } else if d == 7 { '7' }
        else if d == 8 { '8' } else { '9' }
    } else {
        if d == 10 { 'a' } else if d == 11 { 'b' } else if d == 12 { 'c' } else if d == 13 { 'd' }
        else if d == 14 { 'e' } else { 'f' }
    }
}

/// How the INI writer's basic escaping renders one character: a backslash
/// and the ASCII control characters are escaped, everything else is kept.
pub open spec fn escaped_char(c: char) -> Seq<char> {
    if c == '\\' {
        seq!['\\', '\\']
    } else if c == '\0' {
        seq!['\\', '0']
    } else if c == '\u{7}' {
        seq!['\\', 'a']
    } else if c == '\u{8}' {
        seq!['\\', 'b']
    } else if c == '\u{c}' {
        seq!['\\', 'f']
    } else if c == '\u{b}' {
        seq!['\\', 'v']
    } else if c == '\n' {
        seq!['\\', 'n']
    } else if c == '\t' {
        seq!['\\', 't']
    } else if c == '\r' {
        seq!['\\', 'r']
    } else if c <= '\u{1f}' || c == '\u{7f}' {
        seq!['\\', 'x', '0', '0', hex_digit((c as int) / 16), hex_digit((c as int) % 16)]
    } else {
        seq![c]
    }
}

/// `s` as the INI writer's basic escaping renders it.
pub open spec fn escaped(s: Seq<char>) -> Seq<char>
    decreases s.len(),
{
    if s.len() == 0 {
        Seq::empty()
    } else {
        escaped(s.drop_last()) + escaped_char(s.last())
    }
}

/// A character that basic escaping leaves as it is.
pub open spec fn plain_char(c: char) -> bool {
    c != '\\' && !(c <= '\u{1f}') && c != '\u{7f}'
}

/// Text with no backslash or ASCII control character is written unescaped.
pub proof fn lemma_plain_unescaped(s: Seq<char>)
    requires
        forall|i: int| 0 <= i < s.len() ==> plain_char(#[trigger] s[i]),
    ensures
        escaped(s) == s,
    decreases s.len(),
{
    if s.len() > 0 {
        lemma_plain_unescaped(s.drop_last());
        assert(escaped(s) =~= s);
    }
}

/// Every entry of `m` stands in the text `t` as a `key=value` line body, both
/// sides escaped as the INI writer does.
pub open spec fn holds_lines(m: Map<(Seq<char>, Seq<char>), Seq<char>>, t: Seq<char>) -> bool {
    forall|s: Seq<char>, k: Seq<char>| #[trigger] m.contains_key((s, k))
        ==> contains_sub(t, escaped(k) + seq!['='] + escaped(m[(s, k)]))
}

/// Relies on `ini::Ini::write_to`: the record written out as INI text.
/// Writing into a `Vec<u8>` cannot fail, and every byte written comes from
/// Rust strings, so the result is always `Some`. The writer emits each
/// property of each section as its escaped key, `=`, and its escaped value
/// (default escape policy), so every entry stands in the text.
///
/// Nothing is stated of what the text parses back to: the parser unquotes
/// and trims what it reads, which the writer does not undo (a value read
/// from `" x"` is written bare and reads back as `x`). The line separator
/// depends on the platform.
#[verifier::external_body]
fn write_ini(i: &Ini) -> (r: Option<String>)
    ensures
        r is Some,
        r matches Some(t) ==> holds_lines(ini_entries(*i), t@),
{
    let mut buf: Vec<u8> = Vec::new();
    match i.write_to(&mut buf) {
        Ok(()) => String::from_utf8(buf).ok(),
        Err(_) => None,
    }
}

pub open spec fn desktop_entry() -> Seq<char> {
    "Desktop Entry"@
}

/// The value of `key` in the `Desktop Entry` section of the record text,
/// if the text parses and has it.
pub open spec fn entry_of(text: Seq<char>, key: Seq<char>) -> Option<Seq<char>> {
    match ini_parse(text) {
        Some(m) => if m.contains_key((desktop_entry(), key)) {
            Some(m[(desktop_entry(), key)])
        } else {
            None
        },
        None => None,
    }
}

/// The record is a browser web-app shortcut: its `Exec` holds the app-id flag.
pub open spec fn is_web_app(text: Seq<char>) -> bool {
    match entry_of(text, "Exec"@) {
        Some(e) => contains_sub(e, "--app-id="@),
        None => false,
    }
}

/// The window class must be corrected: there is an icon, and the class is
/// missing or differs from it.
pub open spec fn class_mismatch(icon: Option<Seq<char>>, class: Option<Seq<char>>) -> bool {
    match (icon, class) {
        (Some(i), Some(w)) => i != w,
        (Some(_), None) => true,
        _ => false,
    }
}

/// The value of `key` in the `Desktop Entry` section of the entries `m`.
pub open spec fn entry_in(m: Map<(Seq<char>, Seq<char>), Seq<char>>, key: Seq<char>) -> Option<Seq<char>> {
    if m.contains_key((desktop_entry(), key)) {
        Some(m[(desktop_entry(), key)])
    } else {
        None
    }
}

/// A record whose entries are those of `before` with `StartupWMClass` set to
/// its icon, as `with_fixed_wmclass` makes it, needs no further fix, and keeps
/// the icon, name and command line that file naming reads.
pub proof fn law_fixed_record_settled(before: Ini, after: Ini)
    requires
        ini_entries(before).contains_key((desktop_entry(), "Icon"@)),
        ini_entries(after) == ini_entries(before).insert(
            (desktop_entry(), "StartupWMClass"@),
            ini_entries(before)[(desktop_entry(), "Icon"@)],
        ),
    ensures
        !class_mismatch(entry_in(ini_entries(after), "Icon"@), entry_in(ini_entries(after), "StartupWMClass"@)),
        entry_in(ini_entries(after), "Icon"@) == entry_in(ini_entries(before), "Icon"@),
        entry_in(ini_entries(after), "Name"@) == entry_in(ini_entries(before), "Name"@),
        entry_in(ini_entries(after), "Exec"@) == entry_in(ini_entries(before), "Exec"@),
{
    reveal_strlit("Icon");
    reveal_strlit("Name");
    reveal_strlit("Exec");
    reveal_strlit("StartupWMClass");
    assert("Icon"@.len() == 4);
    assert("Name"@.len() == 4);
    assert("Exec"@.len() == 4);
    assert("StartupWMClass"@.len() == 14);
    assert("Icon"@ != "StartupWMClass"@);
    assert("Name"@ != "StartupWMClass"@);
    assert("Exec"@ != "StartupWMClass"@);
}

/// The entries of the record text once `StartupWMClass` is set to its icon.
pub open spec fn fixed_entries(text: Seq<char>) -> Map<(Seq<char>, Seq<char>), Seq<char>> {
    let m = ini_parse(text)->Some_0;
    m.insert((desktop_entry(), "StartupWMClass"@), m[(desktop_entry(), "Icon"@)])
}

/// Whether the record text is a browser web-app shortcut.
pub fn is_chromium_pwa(content: &str) -> (r: bool)
    ensures
        r == is_web_app(content@),
        entry_of(content@, "Exec"@) is None ==> !r,
        entry_of(content@, "Exec"@) matches Some(e) && contains_sub(e, "--app-id="@) ==> r,
{
    let i = match load_ini(content) {
        Ok(i) => i,
        Err(_) => return false,
    };
    match get_from(&i, "Desktop Entry", "Exec") {
        Some(e) => {
            let ev = chars_of(e.as_str());
            let marker = chars_of("--app-id=");
            contains_exec(&ev, &marker)
        },
        None => false,
    }
}

/// Whether the record's `StartupWMClass` must be set from its `Icon`.
pub fn needs_wmclass_fix(content: &str) -> (r: bool)
    ensures
        r == class_mismatch(entry_of(content@, "Icon"@), entry_of(content@, "StartupWMClass"@)),
        entry_of(content@, "Icon"@) is None ==> !r,
        entry_of(content@, "Icon"@) matches Some(i) ==> (r <==> entry_of(content@, "StartupWMClass"@) != Some(i)),
{
    let i = match load_ini(content) {
        Ok(i) => i,
        Err(_) => return false,
    };
    let icon = get_from(&i, "Desktop Entry", "Icon");
    let class = get_from(&i, "Desktop Entry", "StartupWMClass");
    match (icon, class) {
        (Some(a), Some(b)) => a != b,
        (Some(_), None) => true,
        _ => false,
    }
}

/// The record with `StartupWMClass` set to its `Icon`, or `None` where the
/// record has no icon.
pub fn with_fixed_wmclass(record: Ini) -> (r: Option<Ini>)
    ensures
        r is Some <==> ini_entries(record).contains_key((desktop_entry(), "Icon"@)),
        r matches Some(f) ==> ini_entries(f) == ini_entries(record).insert(
            (desktop_entry(), "StartupWMClass"@),
            ini_entries(record)[(desktop_entry(), "Icon"@)],
        ),
        r matches Some(f) ==> ini_entries(f)[(desktop_entry(), "StartupWMClass"@)]
            == ini_entries(record)[(desktop_entry(), "Icon"@)],
        r matches Some(f) ==> forall|k: (Seq<char>, Seq<char>)| k != (desktop_entry(), "StartupWMClass"@)
            ==> (ini_entries(f).contains_key(k) == ini_entries(record).contains_key(k)
                && ini_entries(f)[k] == ini_entries(record)[k]),
{
    let mut record = record;
    let icon = match get_from(&record, "Desktop Entry", "Icon") {
        Some(v) => v,
        None => return None,
    };
    set_to(&mut record, "Desktop Entry", "StartupWMClass", icon);
    Some(record)
}

/// The record text with `StartupWMClass` set to its `Icon`, written out again
/// (the record written is the one `with_fixed_wmclass` returns). `None`
/// exactly where the text does not parse or has no `Icon` in its
/// `Desktop Entry` section.
pub fn get_fixed_content(content: &str) -> (r: Option<String>)
    ensures
        r is Some <==> entry_of(content@, "Icon"@) is Some,
        r matches Some(t) ==> holds_lines(fixed_entries(content@), t@),
        r matches Some(t) ==> contains_sub(
            t@,
            escaped("StartupWMClass"@) + seq!['='] + escaped(entry_of(content@, "Icon"@)->Some_0),
        ),
{
    let record = match load_ini(content) {
        Ok(i) => i,
        Err(_) => return None,
    };
    match with_fixed_wmclass(record) {
        Some(fixed) => {
            let r = write_ini(&fixed);
            assert(ini_entries(fixed) == fixed_entries(content@));
            assert(ini_entries(fixed).contains_key((desktop_entry(), "StartupWMClass"@)));
            r
        },
        None => None,
    }
}

} // verus!
