//! The canonical file name of a launcher record: its name, with the browser
//! profile added unless that is the default one.
use vstd::prelude::*;
use crate::record::{entry_of, get_from, load_ini};
use crate::text::{chars_of, is_ws, is_ws_char, occurs_at, occurs_at_exec, push_all, seq_eq, slice, string_of};

verus! {

/// `s` with every `/` replaced by `-`.
pub open spec fn sanitized(s: Seq<char>) -> Seq<char> {
    s.map_values(|c: char| if c == '/' { '-' } else { c })
}

/// A whitespace-separated token of `s` starts at `i`.
pub open spec fn token_start(s: Seq<char>, i: int) -> bool {
    0 <= i < s.len() && !is_ws(s[i]) && (i == 0 || is_ws(s[i - 1]))
}

/// A token of `s` that starts at `i` begins with `--profile-directory=`.
pub open spec fn profile_flag_at(s: Seq<char>, i: int) -> bool {
    token_start(s, i) && occurs_at(s, "--profile-directory="@, i)
}

pub open spec fn first_profile_flag(s: Seq<char>, i: int) -> bool {
    profile_flag_at(s, i) && forall|j: int| 0 <= j < i ==> !profile_flag_at(s, j)
}

/// The first index at or after `k` that ends a flag's value: white space or
/// the end of `s`.
pub open spec fn value_end(s: Seq<char>, k: int) -> int
    decreases s.len() - k,
{
    if k < 0 || k >= s.len() || is_ws(s[k]) {
        if k < 0 { 0 } else if k > s.len() { s.len() as int } else { k }
    } else {
        value_end(s, k + 1)
    }
}

/// The profile that the command line `exec` launches: the value of the first
/// token that begins with `--profile-directory=` (the rest of that token), or
/// `Default` where there is none.
pub open spec fn profile_of(exec: Seq<char>) -> Seq<char> {
    if exists|i: int| first_profile_flag(exec, i) {
        let i = choose|i: int| first_profile_flag(exec, i);
        let k = i + "--profile-directory="@.len();
        exec.subrange(k, value_end(exec, k))
    } else {
        "Default"@
    }
}

/// The file name for a record named `name` whose command line is `exec`.
pub open spec fn canonical_name(name: Seq<char>, exec: Seq<char>) -> Seq<char> {
    let base = sanitized(name);
    let p = profile_of(exec);
    if p == "Default"@ {
        base + ".desktop"@
    } else {
        base + " ("@ + p + ").desktop"@
    }
}

proof fn lemma_first_flag_unique(s: Seq<char>, i: int)
    requires
        first_profile_flag(s, i),
    ensures
        (choose|j: int| first_profile_flag(s, j)) == i,
{
    let j = choose|j: int| first_profile_flag(s, j);
    assert(first_profile_flag(s, j));
    if j < i {
        assert(!profile_flag_at(s, j));
    } else if i < j {
        assert(!profile_flag_at(s, i));
    }
}

/// The profile named on the command line `exec`.
pub fn profile_exec(exec: &Vec<char>) -> (r: Vec<char>)
    ensures
        r@ == profile_of(exec@),
{
    let flag = chars_of("--profile-directory=");
    let mut i: usize = 0;
    while i < exec.len()
        invariant
            0 <= i <= exec.len(),
            flag@ == "--profile-directory="@,
            forall|j: int| 0 <= j < i ==> !profile_flag_at(exec@, j),
        decreases exec.len() - i,
    {
        let starts = !is_ws_char(exec[i]) && (i == 0 || is_ws_char(exec[i - 1]));
        if starts && occurs_at_exec(exec, &flag, i) {
            proof { lemma_first_flag_unique(exec@, i as int); }
            let k: usize = i + flag.len();
            let mut e: usize = k;
            while e < exec.len() && !is_ws_char(exec[e])
                invariant
                    k <= e <= exec.len(),
                    value_end(exec@, k as int) == value_end(exec@, e as int),
                decreases exec.len() - e,
            {
                e = e + 1;
            }
            return slice(exec, k, e);
        }
        i = i + 1;
    }
    assert forall|j: int| !first_profile_flag(exec@, j) by {
        if 0 <= j && j < i {
        }
    }
    chars_of("Default")
}

/// `s` with every `/` replaced by `-`.
pub fn sanitize(s: &Vec<char>) -> (r: Vec<char>)
    ensures
        r@ == sanitized(s@),
{
    let mut r: Vec<char> = Vec::new();
    let mut k: usize = 0;
    while k < s.len()
        invariant
            0 <= k <= s.len(),
            r@ == sanitized(s@.subrange(0, k as int)),
        decreases s.len() - k,
    {
        let c = if s[k] == '/' { '-' } else { s[k] };
        r.push(c);
        assert(sanitized(s@.subrange(0, k + 1)) =~= sanitized(s@.subrange(0, k as int)).push(c));
        k = k + 1;
    }
    assert(s@.subrange(0, s.len() as int) =~= s@);
    r
}

/// The canonical file name of the record text: `<Name>.desktop` for the
/// default profile, `<Name> (<profile>).desktop` otherwise, with `/` in the
/// name replaced by `-`. `None` where the text does not parse or lacks
/// `Name` or `Exec` in its `Desktop Entry` section.
pub fn generate_new_filename(content: &str) -> (r: Option<String>)
    ensures
        r is Some <==> (entry_of(content@, "Name"@) is Some && entry_of(content@, "Exec"@) is Some),
        r matches Some(f) ==> f@ == canonical_name(
            entry_of(content@, "Name"@)->Some_0,
            entry_of(content@, "Exec"@)->Some_0,
        ),
{
    let i = match load_ini(content) {
        Ok(i) => i,
        Err(_) => return None,
    };
    let name = match get_from(&i, "Desktop Entry", "Name") {
        Some(v) => v,
        None => return None,
    };
    let exec = match get_from(&i, "Desktop Entry", "Exec") {
        Some(v) => v,
        None => return None,
    };
    let base = sanitize(&chars_of(name.as_str()));
    let profile = profile_exec(&chars_of(exec.as_str()));
    let mut out: Vec<char> = Vec::new();
    push_all(&mut out, &base);
    if seq_eq(&profile, &chars_of("Default")) {
        push_all(&mut out, &chars_of(".desktop"));
    } else {
        push_all(&mut out, &chars_of(" ("));
        push_all(&mut out, &profile);
        push_all(&mut out, &chars_of(").desktop"));
    }
    Some(string_of(&out))
}

} // verus!
