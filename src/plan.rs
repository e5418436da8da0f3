//! What to do with one launcher file: the corrected text to write, if any,
//! and the path to move it to, if any.
use vstd::prelude::*;
use crate::naming::{canonical_name, generate_new_filename};
use crate::record::{class_mismatch, entry_of, fixed_entries, holds_lines, get_fixed_content, is_chromium_pwa, is_web_app, needs_wmclass_fix};
use crate::resolve::{dir_part, get_final_filepath, resolved};
use crate::text::{after_last_exec, chars_of, lemma_after_last_bounds, push_all, seq_eq, slice, string_of};

verus! {

/// The file's window class is to be corrected.
pub open spec fn planned_fix(content: Seq<char>) -> bool {
    is_web_app(content) && class_mismatch(entry_of(content, "Icon"@), entry_of(content, "StartupWMClass"@))
}

/// The path with its file name replaced by the record's canonical name.
pub open spec fn target_of(path: Seq<char>, content: Seq<char>) -> Seq<char> {
    dir_part(path) + canonical_name(entry_of(content, "Name"@)->Some_0, entry_of(content, "Exec"@)->Some_0)
}

/// Where the file at `path` is to be moved, if anywhere.
pub open spec fn planned_move(path: Seq<char>, content: Seq<char>, existing: Seq<String>, rename: bool) -> Option<Seq<char>> {
    if rename && is_web_app(content) && entry_of(content, "Name"@) is Some && entry_of(content, "Exec"@) is Some {
        let f = resolved(target_of(path, content), Some(path), existing);
        if f == path {
            None
        } else {
            Some(f)
        }
    } else {
        None
    }
}

/// The plan for the launcher file at `path` with text `content`, when the
/// paths in `existing` are taken: the corrected text to write where the
/// window class must be fixed, and, where `rename` is asked for, the new path
/// where it differs from `path`. Files that are not web-app shortcuts are left
/// alone.
pub fn plan_record(path: &str, content: &str, existing: &Vec<String>, rename: bool) -> (r: (Option<String>, Option<String>))
    ensures
        r.0 is Some <==> planned_fix(content@),
        r.0 matches Some(t) ==> holds_lines(fixed_entries(content@), t@),
        r.1 is Some <==> planned_move(path@, content@, existing@, rename) is Some,
        r.1 matches Some(p) ==> planned_move(path@, content@, existing@, rename) == Some(p@),
{
    if !is_chromium_pwa(content) {
        return (None, None);
    }
    let fixed = if needs_wmclass_fix(content) {
        get_fixed_content(content)
    } else {
        None
    };
    if !rename {
        return (fixed, None);
    }
    let name = match generate_new_filename(content) {
        Some(n) => n,
        None => return (fixed, None),
    };
    let pv = chars_of(path);
    let s = after_last_exec(&pv, '/');
    proof { lemma_after_last_bounds(pv@, '/', pv@.len() as int); }
    let mut t = slice(&pv, 0, s);
    push_all(&mut t, &chars_of(name.as_str()));
    let target = string_of(&t);
    assert(target@ == target_of(path@, content@));
    let fin = get_final_filepath(target.as_str(), Some(path), existing);
    if seq_eq(&chars_of(fin.as_str()), &pv) {
        (fixed, None)
    } else {
        (fixed, Some(fin))
    }
}

} // verus!
