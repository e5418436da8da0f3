//! Choosing the path that a launcher file should finally have.
//!
//! A path is read as text: its directory part is everything up to and
//! including the last `/`, its file name what follows. A file name's stem and
//! extension are split at its last `.`, unless that dot is its first
//! character, in which case the extension is empty.
use vstd::prelude::*;
use vstd::set_lib::*;
use crate::text::{after_last, after_last_exec, chars_of, lemma_after_last_bounds, push_all, seq_eq, slice, string_of};

verus! {

pub open spec fn dir_part(p: Seq<char>) -> Seq<char> {
    p.subrange(0, after_last(p, '/', p.len() as int))
}

pub open spec fn file_name(p: Seq<char>) -> Seq<char> {
    p.subrange(after_last(p, '/', p.len() as int), p.len() as int)
}

pub open spec fn stem(f: Seq<char>) -> Seq<char> {
    let d = after_last(f, '.', f.len() as int);
    if d <= 1 {
        f
    } else {
        f.subrange(0, d - 1)
    }
}

pub open spec fn extension(f: Seq<char>) -> Seq<char> {
    let d = after_last(f, '.', f.len() as int);
    if d <= 1 {
        Seq::empty()
    } else {
        f.subrange(d, f.len() as int)
    }
}

pub open spec fn digit(d: int) -> char {
    if d == 0 { '0' } else if d == 1 { '1' } else if d == 2 { '2' } else if d == 3 { '3' }
    else if d == 4 { '4' } else if d == 5 { '5' } else if d == 6 { '6' } else if d == 7 { '7' }
    else if d == 8 { '8' } else { '9' }
}

/// The decimal digits of `n`, most significant first.
pub open spec fn decimal(n: nat) -> Seq<char>
    decreases n,
{
    if n < 10 {
        seq![digit(n as int)]
    } else {
        decimal(n / 10).push(digit((n % 10) as int))
    }
}

/// What precedes the number in a numbered variant: directory, stem and ` (`.
pub open spec fn variant_head(t: Seq<char>) -> Seq<char> {
    dir_part(t) + stem(file_name(t)) + seq![' ', '(']
}

/// What follows the number in a numbered variant: `).` and the extension.
pub open spec fn variant_tail(t: Seq<char>) -> Seq<char> {
    seq![')', '.'] + extension(file_name(t))
}

/// `<dir>/<stem> (<n>).<extension>` for the target path `t`.
pub open spec fn numbered(t: Seq<char>, n: nat) -> Seq<char> {
    variant_head(t) + decimal(n) + variant_tail(t)
}

pub open spec fn is_prefix(a: Seq<char>, s: Seq<char>) -> bool {
    a.len() <= s.len() && s.subrange(0, a.len() as int) == a
}

pub open spec fn is_suffix(a: Seq<char>, s: Seq<char>) -> bool {
    a.len() <= s.len() && s.subrange(s.len() - a.len(), s.len() as int) == a
}

/// The file name `f` looks like a parenthesised variant of the target `t`:
/// it starts with `<stem> (` and ends with `).<extension>`.
pub open spec fn variant_like(f: Seq<char>, t: Seq<char>) -> bool {
    is_prefix(stem(file_name(t)) + seq![' ', '('], f) && is_suffix(variant_tail(t), f)
}

/// `p` is one of the paths listed as existing.
pub open spec fn on_disk(existing: Seq<String>, p: Seq<char>) -> bool {
    exists|j: int| 0 <= j < existing.len() && existing[j]@ == p
}

/// The search for a numbered variant stops at `n`: it is the current path,
/// or it is free.
pub open spec fn stops_at(t: Seq<char>, c: Option<Seq<char>>, existing: Seq<String>, n: nat) -> bool {
    c == Some(numbered(t, n)) || !on_disk(existing, numbered(t, n))
}

pub open spec fn is_first_stop(t: Seq<char>, c: Option<Seq<char>>, existing: Seq<String>, n: nat) -> bool {
    n >= 1 && stops_at(t, c, existing, n) && forall|m: nat| 1 <= m < n ==> !stops_at(t, c, existing, m)
}

/// The least `n >= 1` at which the search stops.
pub open spec fn first_stop(t: Seq<char>, c: Option<Seq<char>>, existing: Seq<String>) -> nat {
    choose|n: nat| is_first_stop(t, c, existing, n)
}

/// The path chosen for a file whose desired path is `t` and whose current
/// path is `c`, when the paths in `existing` are taken.
pub open spec fn resolved(t: Seq<char>, c: Option<Seq<char>>, existing: Seq<String>) -> Seq<char> {
    if c == Some(t) {
        t
    } else if !on_disk(existing, t) {
        t
    } else if c is Some && variant_like(file_name(c->Some_0), t) {
        c->Some_0
    } else {
        numbered(t, first_stop(t, c, existing))
    }
}

pub open spec fn opt_view(c: Option<&str>) -> Option<Seq<char>> {
    match c {
        Some(s) => Some(s@),
        None => None,
    }
}

pub proof fn lemma_decimal_nonempty(n: nat)
    ensures
        decimal(n).len() >= 1,
        n >= 10 ==> decimal(n).len() >= 2,
    decreases n,
{
    if n >= 10 {
        lemma_decimal_nonempty(n / 10);
    }
}

/// Distinct numbers have distinct decimal renderings.
pub proof fn lemma_decimal_injective(a: nat, b: nat)
    requires
        decimal(a) == decimal(b),
    ensures
        a == b,
    decreases a,
{
    lemma_decimal_nonempty(a);
    lemma_decimal_nonempty(b);
    if a < 10 && b < 10 {
        assert(decimal(a) == seq![digit(a as int)]);
        assert(decimal(b) == seq![digit(b as int)]);
        assert(decimal(a)[0] == digit(a as int));
        assert(decimal(b)[0] == digit(b as int));
    } else if a >= 10 && b >= 10 {
        let da = decimal(a);
        assert(da.last() == digit((a % 10) as int));
        assert(decimal(b).last() == digit((b % 10) as int));
        assert(da.drop_last() =~= decimal(a / 10));
        assert(decimal(b).drop_last() =~= decimal(b / 10));
        lemma_decimal_injective(a / 10, b / 10);
        assert(digit((a % 10) as int) == digit((b % 10) as int));
        assert(a % 10 == b % 10);
        assert(a == 10 * (a / 10) + a % 10);
        assert(b == 10 * (b / 10) + b % 10);
    } else if a < 10 {
        assert(decimal(a).len() == 1);
    } else {
        assert(decimal(b).len() == 1);
    }
}

/// Distinct numbers give distinct numbered variants.
pub proof fn lemma_numbered_injective(t: Seq<char>, a: nat, b: nat)
    requires
        numbered(t, a) == numbered(t, b),
    ensures
        a == b,
{
    let h = variant_head(t);
    let x = numbered(t, a);
    assert(x.len() == h.len() + decimal(a).len() + variant_tail(t).len());
    assert(numbered(t, b).len() == h.len() + decimal(b).len() + variant_tail(t).len());
    assert(decimal(a).len() == decimal(b).len());
    assert(x.subrange(h.len() as int, (h.len() + decimal(a).len()) as int) =~= decimal(a));
    assert(numbered(t, b).subrange(h.len() as int, (h.len() + decimal(b).len()) as int) =~= decimal(b));
    lemma_decimal_injective(a, b);
}

proof fn lemma_first_stop_unique(t: Seq<char>, c: Option<Seq<char>>, existing: Seq<String>, n: nat)
    requires
        is_first_stop(t, c, existing, n),
    ensures
        first_stop(t, c, existing) == n,
{
    let k = first_stop(t, c, existing);
    assert(is_first_stop(t, c, existing, k));
    if k < n {
        assert(!stops_at(t, c, existing, k));
    } else if n < k {
        assert(!stops_at(t, c, existing, n));
    }
}

/// A file that already sits at its target path keeps it, whatever paths are
/// taken.
pub proof fn law_current_at_target_kept(t: Seq<char>, existing: Seq<String>)
    ensures
        resolved(t, Some(t), existing) == t,
{
}

/// When the target is taken and the current path's file name is
/// `<stem> (<n>).<extension>` of that target, the current path is kept.
pub proof fn law_numbered_current_kept(t: Seq<char>, c: Seq<char>, existing: Seq<String>, n: nat)
    requires
        on_disk(existing, t),
        file_name(c) == stem(file_name(t)) + seq![' ', '('] + decimal(n) + variant_tail(t),
    ensures
        resolved(t, Some(c), existing) == c,
{
    let f = file_name(c);
    let p = stem(file_name(t)) + seq![' ', '('];
    let q = variant_tail(t);
    assert(f.subrange(0, p.len() as int) =~= p);
    assert(f.subrange(f.len() - q.len(), f.len() as int) =~= q);
    assert(variant_like(f, t));
}

/// With the target taken and no current path, the first free numbered
/// variant, counting from 1, is chosen.
pub proof fn law_collision_takes_first_free(t: Seq<char>, existing: Seq<String>, n: nat)
    requires
        on_disk(existing, t),
        n >= 1,
        !on_disk(existing, numbered(t, n)),
        forall|m: nat| 1 <= m < n ==> on_disk(existing, #[trigger] numbered(t, m)),
    ensures
        resolved(t, None, existing) == numbered(t, n),
{
    assert(is_first_stop(t, None, existing, n));
    lemma_first_stop_unique(t, None, existing, n);
}

fn digit_exec(d: u128) -> (r: char)
    requires
        d < 10,
    ensures
        r == digit(d as int),
{
    if d == 0 { '0' } else if d == 1 { '1' } else if d == 2 { '2' } else if d == 3 { '3' }
    else if d == 4 { '4' } else if d == 5 { '5' } else if d == 6 { '6' } else if d == 7 { '7' }
    else if d == 8 { '8' } else { '9' }
}

fn push_decimal(n: u128, out: &mut Vec<char>)
    ensures
        final(out)@ == old(out)@ + decimal(n as nat),
    decreases n,
{
    if n >= 10 {
        push_decimal(n / 10, out);
    }
    out.push(digit_exec(n % 10));
    assert(final(out)@ =~= old(out)@ + decimal(n as nat));
}

/// Finds `p` among `existing`.
fn find_path(existing: &Vec<String>, p: &String) -> (r: Option<usize>)
    ensures
        r is None <==> !on_disk(existing@, p@),
        r matches Some(j) ==> j < existing.len() && existing@[j as int]@ == p@,
{
    let mut j: usize = 0;
    while j < existing.len()
        invariant
            0 <= j <= existing.len(),
            forall|k: int| 0 <= k < j ==> existing@[k]@ != p@,
        decreases existing.len() - j,
    {
        if existing[j] == *p {
            return Some(j);
        }
        j = j + 1;
    }
    None
}

/// The path that a file whose desired path is `target_path` should be given.
///
/// `current_path` is where the file is now, if anywhere; `existing` lists the
/// paths that are taken. A file already at its target stays. A free target is
/// taken. When the target is taken and the current path already reads as
/// `<stem> (<something>).<extension>`, the file keeps it, so that repeated runs
/// do not renumber it. Otherwise the first `<stem> (<n>).<extension>`, from
/// `n = 1` up, that is free or is the current path is chosen.
pub fn get_final_filepath(target_path: &str, current_path: Option<&str>, existing: &Vec<String>) -> (r: String)
    ensures
        r@ == resolved(target_path@, opt_view(current_path), existing@),
        opt_view(current_path) != Some(target_path@) && on_disk(existing@, target_path@)
            && !(current_path matches Some(cp) && variant_like(file_name(cp@), target_path@))
            ==> is_first_stop(
                target_path@,
                opt_view(current_path),
                existing@,
                first_stop(target_path@, opt_view(current_path), existing@),
            ),
{
    let ghost t = target_path@;
    let ghost c = opt_view(current_path);
    let tv = chars_of(target_path);
    let cur: Option<Vec<char>> = match current_path {
        Some(cp) => Some(chars_of(cp)),
        None => None,
    };
    if let Some(cv) = &cur {
        if seq_eq(cv, &tv) {
            return string_of(&tv);
        }
    }
    let target = string_of(&tv);
    if find_path(existing, &target).is_none() {
        return target;
    }
    let s = after_last_exec(&tv, '/');
    proof { lemma_after_last_bounds(t, '/', t.len() as int); }
    let dir = slice(&tv, 0, s);
    let name = slice(&tv, s, tv.len());
    let d = after_last_exec(&name, '.');
    proof { lemma_after_last_bounds(name@, '.', name@.len() as int); }
    let (st, ext) = if d <= 1 {
        (slice(&name, 0, name.len()), Vec::new())
    } else {
        (slice(&name, 0, d - 1), slice(&name, d, name.len()))
    };
    assert(st@ == stem(file_name(t)));
    assert(ext@ == extension(file_name(t)));
    let mut open_paren: Vec<char> = Vec::new();
    push_all(&mut open_paren, &st);
    open_paren.push(' ');
    open_paren.push('(');
    let mut tail: Vec<char> = Vec::new();
    tail.push(')');
    tail.push('.');
    push_all(&mut tail, &ext);
    assert(open_paren@ =~= stem(file_name(t)) + seq![' ', '(']);
    assert(tail@ =~= variant_tail(t));
    if let Some(cv) = &cur {
        let cs = after_last_exec(cv, '/');
        proof { lemma_after_last_bounds(cv@, '/', cv@.len() as int); }
        let cname = slice(cv, cs, cv.len());
        assert(cname@ == file_name(cv@));
        if open_paren.len() <= cname.len() && tail.len() <= cname.len() {
            let p = slice(&cname, 0, open_paren.len());
            let q = slice(&cname, cname.len() - tail.len(), cname.len());
            if seq_eq(&p, &open_paren) && seq_eq(&q, &tail) {
                return string_of(cv);
            }
        }
    }
    assert(!(c is Some && variant_like(file_name(c->Some_0), t)));
    let mut head: Vec<char> = Vec::new();
    push_all(&mut head, &dir);
    push_all(&mut head, &open_paren);
    assert(head@ =~= variant_head(t));
    let mut n: u128 = 1;
    let ghost mut used: Set<int> = Set::empty();
    loop
        invariant
            1 <= n <= existing.len() + 1,
            used.finite(),
            used.len() == n - 1,
            head@ == variant_head(t),
            tail@ == variant_tail(t),
            c == opt_view(current_path),
            t == target_path@,
            cur matches Some(cv) ==> c == Some(cv@),
            cur is None ==> c is None,
            forall|j: int| used.contains(j) ==> 0 <= j < existing.len(),
            forall|j: int| used.contains(j) ==> exists|m: nat| 1 <= m < n && existing@[j]@ == numbered(t, m),
            forall|m: nat| 1 <= m < n ==> !stops_at(t, c, existing@, m),
            c != Some(t),
            on_disk(existing@, t),
            !(c is Some && variant_like(file_name(c->Some_0), t)),
        decreases existing.len() + 1 - n,
    {
        let mut cand: Vec<char> = Vec::new();
        push_all(&mut cand, &head);
        push_decimal(n, &mut cand);
        push_all(&mut cand, &tail);
        assert(cand@ =~= numbered(t, n as nat));
        let mut hit = false;
        if let Some(cv) = &cur {
            hit = seq_eq(cv, &cand);
        }
        let path = string_of(&cand);
        if hit {
            proof { lemma_first_stop_unique(t, c, existing@, n as nat); }
            return path;
        }
        match find_path(existing, &path) {
            None => {
                proof { lemma_first_stop_unique(t, c, existing@, n as nat); }
                return path;
            },
            Some(j) => {
                proof {
                    if used.contains(j as int) {
                        let m = choose|m: nat| 1 <= m < n && existing@[j as int]@ == numbered(t, m);
                        lemma_numbered_injective(t, m, n as nat);
                    }
                    assert(!used.contains(j as int));
                    let old_used = used;
                    used = used.insert(j as int);
                    assert forall|k: int| used.contains(k) implies exists|m: nat| 1 <= m < n + 1 && existing@[k]@ == numbered(t, m) by {
                        if k == j as int {
                            assert(existing@[k]@ == numbered(t, n as nat));
                        } else {
                            assert(old_used.contains(k));
                        }
                    }
                    lemma_int_range(0, existing.len() as int);
                    assert(used.subset_of(set_int_range(0, existing.len() as int)));
                    assert(used.len() == n);
                    lemma_len_subset(used, set_int_range(0, existing.len() as int));
                }
                n = n + 1;
            },
        }
    }
}

} // verus!
