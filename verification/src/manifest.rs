//! Building an example as a package of its own: the package name derived
//! from the example's path, and the manifest template with its package name
//! rewritten.
//!
//! The package name line is found with the pattern
//! `(?m)^name\s*=\s*"[^"]+"\s*$`: at the start of a line, `name`,
//! whitespace, `=`, whitespace, a quoted non-empty value without `"`, then
//! whitespace up to the end of a line; the leftmost such line is rewritten.

use vstd::prelude::*;
use crate::error::{Failure, PreprocessError};
use crate::note::{lemma_unquoted_run_bound, unquoted_run};
use crate::path::{path_without_extension, with_extension};
use crate::text::{
    chars_occur_at, chars_to_string, lemma_ws_run_bound, occurs_at, push_all, push_str,
    str_to_chars, sub_chars, ws_run, ws_run_exec,
};

verus! {

broadcast use vstd::slice::group_slice_axioms;

// ---------------------------------------------------------------------------
// Package names
// ---------------------------------------------------------------------------

/// Whether `c` is an ASCII letter or digit.
pub open spec fn is_ascii_alnum(c: char) -> bool {
    ('0' <= c && c <= '9') || ('a' <= c && c <= 'z') || ('A' <= c && c <= 'Z')
}

/// `c` with an ASCII capital letter replaced by the small letter.
pub open spec fn ascii_lower(c: char) -> char {
    if 'A' <= c && c <= 'Z' {
        ((c as u32) + 32) as char
    } else {
        c
    }
}

/// The name built from the characters of `s`, after the prefix `runnable-`:
/// ASCII letters and digits in lowercase, every run of other characters as
/// one `-` (none right after the prefix); and whether it ends with `-`.
pub open spec fn slug(s: Seq<char>) -> (Seq<char>, bool)
    decreases s.len(),
{
    if s.len() == 0 {
        ("runnable-"@, true)
    } else {
        let (acc, dash) = slug(s.drop_last());
        let c = s.last();
        if is_ascii_alnum(c) {
            (acc.push(ascii_lower(c)), false)
        } else if !dash {
            (acc.push('-'), true)
        } else {
            (acc, dash)
        }
    }
}

/// Number of `-` at the end of `s`.
pub open spec fn trailing_dashes(s: Seq<char>) -> nat
    decreases s.len(),
{
    if s.len() == 0 || s.last() != '-' {
        0
    } else {
        1 + trailing_dashes(s.drop_last())
    }
}

/// The package name for the extension-less path text `stem`: the slug
/// without trailing `-`, and `runnable-example` when nothing else is left.
pub open spec fn package_name(stem: Seq<char>) -> Seq<char> {
    let s = slug(stem).0;
    let t = s.take(s.len() - trailing_dashes(s));
    if t == "runnable"@ {
        t + "-example"@
    } else {
        t
    }
}

pub proof fn lemma_trailing_dashes_bound(s: Seq<char>)
    ensures
        trailing_dashes(s) <= s.len(),
    decreases s.len(),
{
    if s.len() > 0 && s.last() == '-' {
        lemma_trailing_dashes_bound(s.drop_last());
    }
}

fn is_ascii_alnum_exec(c: char) -> (r: bool)
    ensures
        r == is_ascii_alnum(c),
{
    ('0' <= c && c <= '9') || ('a' <= c && c <= 'z') || ('A' <= c && c <= 'Z')
}

fn ascii_lower_exec(c: char) -> (r: char)
    ensures
        r == ascii_lower(c),
{
    if 'A' <= c && c <= 'Z' {
        ((c as u8) + 32) as char
    } else {
        c
    }
}

/// The package name for an extension-less path text.
pub fn package_name_from_stem(stem: &str) -> (r: String)
    ensures
        r@ == package_name(stem@),
{
    let s = str_to_chars(stem);
    let mut out = str_to_chars("runnable-");
    let mut dash = true;
    let mut i: usize = 0;
    assert(s@.take(0) =~= Seq::<char>::empty());
    while i < s.len()
        invariant
            i <= s@.len(),
            s@ == stem@,
            (out@, dash) == slug(s@.take(i as int)),
        decreases s@.len() - i,
    {
        let c = s[i];
        proof {
            assert(s@.take(i + 1).drop_last() =~= s@.take(i as int));
            assert(s@.take(i + 1).last() == c);
        }
        if is_ascii_alnum_exec(c) {
            out.push(ascii_lower_exec(c));
            dash = false;
        } else if !dash {
            out.push('-');
            dash = true;
        }
        i = i + 1;
    }
    assert(s@.take(s@.len() as int) =~= s@);
    let ghost full = out@;
    proof {
        lemma_trailing_dashes_bound(full);
    }
    while out.len() > 0 && out[out.len() - 1] == '-'
        invariant
            out@.len() <= full.len(),
            full.take(full.len() - trailing_dashes(full)) == out@.take(
                out@.len() - trailing_dashes(out@),
            ),
            trailing_dashes(out@) <= out@.len(),
        decreases out@.len(),
    {
        let ghost before = out@;
        out.pop();
        proof {
            assert(out@ == before.drop_last());
            assert(trailing_dashes(before) == 1 + trailing_dashes(out@));
            assert(before.take(before.len() - trailing_dashes(before)) =~= out@.take(
                out@.len() - trailing_dashes(out@),
            ));
        }
    }
    assert(trailing_dashes(out@) == 0);
    assert(out@.take(out@.len() as int) =~= out@);
    let base = str_to_chars("runnable");
    if crate::text::chars_eq(out.as_slice(), base.as_slice()) {
        push_str(&mut out, "-example");
    }
    chars_to_string(out.as_slice())
}

/// The package name under which the example at `rel_path` is built: its
/// path without extension, reduced to lowercase ASCII letters, digits and
/// single dashes, after `runnable-`.
pub fn example_package_name(rel_path: &str) -> (r: String)
    ensures
        r@ == package_name(with_extension(rel_path@, Seq::empty())),
{
    let stem = path_without_extension(rel_path);
    package_name_from_stem(stem.as_str())
}

/// Whether `c` may stand in a package name built here.
pub open spec fn package_name_char(c: char) -> bool {
    ('0' <= c && c <= '9') || ('a' <= c && c <= 'z') || c == '-'
}

pub proof fn lemma_slug_chars(s: Seq<char>)
    ensures
        forall|i: int| 0 <= i < slug(s).0.len() ==> package_name_char(#[trigger] slug(s).0[i]),
        slug(s).0.len() >= 9,
        slug(s).0.take(9) == "runnable-"@,
        slug(s).1 <==> slug(s).0.last() == '-',
        forall|i: int| 0 <= i < slug(s).0.len() - 1 ==> !(#[trigger] slug(s).0[i] == '-' && slug(
            s,
        ).0[i + 1] == '-'),
    decreases s.len(),
{
    reveal_strlit("runnable-");
    if s.len() > 0 {
        lemma_slug_chars(s.drop_last());
        let acc = slug(s.drop_last()).0;
        assert(acc.take(9) == "runnable-"@);
        let r = slug(s).0;
        if r.len() > acc.len() {
            assert(r.take(9) =~= acc.take(9));
            assert forall|i: int| 0 <= i < r.len() implies package_name_char(#[trigger] r[i]) by {
                if i < acc.len() {
                    assert(r[i] == acc[i]);
                }
            }
            assert forall|i: int| 0 <= i < r.len() - 1 implies !(#[trigger] r[i] == '-' && r[i
                + 1] == '-') by {
                if i + 1 < acc.len() {
                    assert(r[i] == acc[i] && r[i + 1] == acc[i + 1]);
                } else {
                    assert(r[i] == acc[i]);
                    assert(i == acc.len() - 1);
                }
            }
        }
    } else {
        assert(slug(s).0 == "runnable-"@);
        assert(slug(s).0.take(9) =~= slug(s).0);
    }
}

/// A package name built here starts with `runnable-`, holds only lowercase
/// ASCII letters, digits and dashes, never two dashes in a row, and does
/// not end with a dash; in particular it holds no `$` and no `"`.
pub proof fn lemma_package_name_shape(stem: Seq<char>)
    ensures
        package_name(stem).len() > 9,
        package_name(stem).take(9) == "runnable-"@,
        forall|i: int|
            0 <= i < package_name(stem).len() ==> package_name_char(#[trigger] package_name(stem)[i]),
        package_name(stem).last() != '-',
        forall|i: int|
            0 <= i < package_name(stem).len() - 1 ==> !(#[trigger] package_name(stem)[i] == '-'
                && package_name(stem)[i + 1] == '-'),
{
    reveal_strlit("runnable-");
    reveal_strlit("runnable");
    reveal_strlit("-example");
    reveal_strlit("runnable-example");
    lemma_slug_chars(stem);
    let s = slug(stem).0;
    lemma_trailing_dashes_bound(s);
    let n = trailing_dashes(s);
    let t = s.take(s.len() - n);
    // the slug never ends with two dashes, so at most one is dropped
    assert(n <= 1) by {
        if n >= 2 {
            assert(s.last() == '-');
            assert(trailing_dashes(s.drop_last()) >= 1);
            assert(s.drop_last().last() == '-');
            assert(s[s.len() - 2] == '-' && s[s.len() - 1] == '-');
        }
    }
    assert(s.take(9)[8] == s[8]);
    assert("runnable-"@[8] == '-');
    assert(s[8] == '-');
    assert(t.len() >= 8);
    if n == 1 {
        assert(t.len() == s.len() - 1);
        if t.len() > 0 {
            assert(t.last() == s[s.len() - 2]);
            assert(s.last() == '-');
            assert(!(s[s.len() - 2] == '-' && s[s.len() - 1] == '-'));
        }
    } else {
        assert(s.len() == 0 || s.last() != '-');
        assert(t =~= s);
    }
    if t.len() == 8 {
        assert(t =~= "runnable"@);
    } else {
        assert(t.take(9) =~= s.take(9));
        assert(t != "runnable"@);
    }
    let p = package_name(stem);
    if t == "runnable"@ {
        assert(p =~= "runnable-example"@);
    }
    assert forall|i: int| 0 <= i < p.len() implies package_name_char(#[trigger] p[i]) by {
        if t != "runnable"@ {
            assert(p[i] == s[i]);
        }
    }
    assert forall|i: int| 0 <= i < p.len() - 1 implies !(#[trigger] p[i] == '-' && p[i + 1]
        == '-') by {
        if t != "runnable"@ {
            assert(p[i] == s[i] && p[i + 1] == s[i + 1]);
        }
    }
}

// ---------------------------------------------------------------------------
// Rewriting the package name of the manifest template
// ---------------------------------------------------------------------------

/// Whether index `i` of `t` is the start of a line.
pub open spec fn at_line_start(t: Seq<char>, i: int) -> bool {
    i == 0 || (0 < i <= t.len() && t[i - 1] == '\n')
}

/// Whether index `p` of `t` is the end of a line (`$` in multi-line mode).
pub open spec fn at_line_end(t: Seq<char>, p: int) -> bool {
    p == t.len() || (0 <= p < t.len() && t[p] == '\n')
}

/// The largest `l' <= l` such that `p + l'` is the end of a line.
pub open spec fn last_line_end(t: Seq<char>, p: int, l: int) -> Option<int>
    decreases l + 1,
{
    if l < 0 {
        None
    } else if at_line_end(t, p + l) {
        Some(l)
    } else {
        last_line_end(t, p, l - 1)
    }
}

/// Where a match of the package name pattern that starts at `i` ends, if
/// one starts there.
pub open spec fn name_line_end(t: Seq<char>, i: int) -> Option<int> {
    let p1 = i + 4 + ws_run(t, i + 4);
    let p2 = p1 + 1 + ws_run(t, p1 + 1);
    let c = unquoted_run(t, p2 + 1) as int;
    let p4 = p2 + 1 + c + 1;
    if !at_line_start(t, i) || !occurs_at(t, "name"@, i) {
        None
    } else if !(p1 < t.len() && t[p1] == '=') {
        None
    } else if !(p2 < t.len() && t[p2] == '"') {
        None
    } else if c == 0 || p4 > t.len() {
        None
    } else {
        match last_line_end(t, p4, ws_run(t, p4) as int) {
            None => None,
            Some(l) => Some(p4 + l),
        }
    }
}

/// The leftmost match of the package name pattern at or after `i`, as a
/// start and an end index.
pub open spec fn first_name_line(t: Seq<char>, i: int) -> Option<(int, int)>
    decreases t.len() + 1 - i,
{
    if i < 0 || i > t.len() {
        None
    } else {
        match name_line_end(t, i) {
            Some(e) => Some((i, e)),
            None => first_name_line(t, i + 1),
        }
    }
}

/// The template with its first package name line replaced by
/// `name = "<package>"` (the template itself when there is none).
pub open spec fn replace_name_line(t: Seq<char>, package: Seq<char>) -> Seq<char> {
    match first_name_line(t, 0) {
        None => t,
        Some((s, e)) => t.take(s) + "name = \""@ + package + "\""@ + t.skip(e),
    }
}

/// The manifest of the example at a path whose extension-less text is
/// `stem`, or `ManifestRewriteFailed` when rewriting leaves the template
/// unchanged.
pub open spec fn manifest_for(template: Seq<char>, stem: Seq<char>) -> Result<Seq<char>, Failure> {
    let r = replace_name_line(template, package_name(stem));
    if r == template {
        Err(Failure::ManifestRewriteFailed)
    } else {
        Ok(r)
    }
}

pub proof fn lemma_name_line_end(t: Seq<char>, i: int)
    requires
        0 <= i <= t.len(),
    ensures
        name_line_end(t, i) matches Some(e) ==> i < e <= t.len(),
{
    if name_line_end(t, i) is Some {
        let p1 = i + 4 + ws_run(t, i + 4);
        lemma_ws_run_bound(t, i + 4);
        let p2 = p1 + 1 + ws_run(t, p1 + 1);
        lemma_ws_run_bound(t, p1 + 1);
        let c = unquoted_run(t, p2 + 1) as int;
        lemma_unquoted_run_bound(t, p2 + 1);
        let p4 = p2 + 1 + c + 1;
        lemma_ws_run_bound(t, p4);
        lemma_last_line_end(t, p4, ws_run(t, p4) as int);
    }
}

pub proof fn lemma_last_line_end(t: Seq<char>, p: int, l: int)
    ensures
        last_line_end(t, p, l) matches Some(k) ==> 0 <= k <= l && at_line_end(t, p + k),
    decreases l + 1,
{
    if l >= 0 && !at_line_end(t, p + l) {
        lemma_last_line_end(t, p, l - 1);
    }
}

pub proof fn lemma_first_name_line(t: Seq<char>, i: int)
    requires
        0 <= i,
    ensures
        first_name_line(t, i) matches Some((s, e)) ==> i <= s < e <= t.len(),
    decreases t.len() + 1 - i,
{
    if i <= t.len() {
        lemma_name_line_end(t, i);
        if name_line_end(t, i) is None {
            lemma_first_name_line(t, i + 1);
        }
    }
}

fn last_line_end_exec(t: &[char], p: usize, l: usize) -> (r: Option<usize>)
    requires
        p + l <= t@.len(),
    ensures
        r matches Some(k) ==> last_line_end(t@, p as int, l as int) == Some(k as int),
        r is None ==> last_line_end(t@, p as int, l as int) is None,
{
    let mut k = l;
    assert(t@.len() == t.len());
    loop
        invariant
            t@.len() == t.len(),
            k <= l,
            p + l <= t@.len(),
            last_line_end(t@, p as int, l as int) == last_line_end(t@, p as int, k as int),
        decreases k,
    {
        if p + k == t.len() || t[p + k] == '\n' {
            return Some(k);
        }
        if k == 0 {
            assert(last_line_end(t@, p as int, -1) is None);
            return None;
        }
        k = k - 1;
    }
}

fn name_line_end_exec(t: &[char], i: usize) -> (r: Option<usize>)
    requires
        i <= t@.len(),
    ensures
        r matches Some(e) ==> name_line_end(t@, i as int) == Some(e as int),
        r is None ==> name_line_end(t@, i as int) is None,
{
    proof {
        reveal_strlit("name");
    }
    let key = str_to_chars("name");
    if !(i == 0 || t[i - 1] == '\n') || !chars_occur_at(t, key.as_slice(), i) {
        return None;
    }
    assert(t@.len() == t.len());
    proof {
        lemma_ws_run_bound(t@, i + 4);
    }
    let p1 = i + 4 + ws_run_exec(t, i + 4);
    if !(p1 < t.len() && t[p1] == '=') {
        return None;
    }
    proof {
        lemma_ws_run_bound(t@, p1 + 1);
    }
    let p2 = p1 + 1 + ws_run_exec(t, p1 + 1);
    if !(p2 < t.len() && t[p2] == '"') {
        return None;
    }
    proof {
        lemma_unquoted_run_bound(t@, p2 + 1);
    }
    let c = crate::note::unquoted_run_exec(t, p2 + 1);
    if c == 0 || p2 + 1 + c >= t.len() {
        return None;
    }
    let p4 = p2 + 1 + c + 1;
    proof {
        lemma_ws_run_bound(t@, p4 as int);
    }
    let l = ws_run_exec(t, p4);
    proof {
        lemma_last_line_end(t@, p4 as int, l as int);
    }
    match last_line_end_exec(t, p4, l) {
        None => None,
        Some(k) => Some(p4 + k),
    }
}

/// The template with its first package name line replaced by
/// `name = "<package>"`; the template itself when it has none.
pub fn replace_package_name(template: &str, package: &str) -> (r: String)
    ensures
        r@ == replace_name_line(template@, package@),
{
    let t = str_to_chars(template);
    let mut i: usize = 0;
    let mut found: Option<(usize, usize)> = None;
    loop
        invariant_except_break
            found is None,
            first_name_line(t@, 0) == first_name_line(t@, i as int),
        invariant
            i <= t@.len(),
            t@ == template@,
        ensures
            found is None ==> first_name_line(t@, 0) is None,
            found matches Some((s, e)) ==> first_name_line(t@, 0) == Some((s as int, e as int)),
        decreases t@.len() + 1 - i,
    {
        if i >= t.len() {
            proof {
                reveal_strlit("name");
                assert(name_line_end(t@, i as int) is None);
                assert(first_name_line(t@, i + 1) is None);
            }
            break;
        }
        match name_line_end_exec(t.as_slice(), i) {
            Some(e) => {
                found = Some((i, e));
                break;
            },
            None => {
                i = i + 1;
            },
        }
    }
    match found {
        None => chars_to_string(t.as_slice()),
        Some((s, e)) => {
            proof {
                lemma_first_name_line(t@, 0);
            }
            let mut out = sub_chars(t.as_slice(), 0, s);
            push_str(&mut out, "name = \"");
            push_str(&mut out, package);
            push_str(&mut out, "\"");
            let tail = sub_chars(t.as_slice(), e, t.len());
            push_all(&mut out, tail.as_slice());
            assert(tail@ == t@.skip(e as int));
            assert(out@.take(0) == Seq::<char>::empty());
            chars_to_string(out.as_slice())
        },
    }
}

/// The manifest under which the example at `rel_path` is built: the
/// template with its first package name line set to the example's package
/// name; `ManifestRewriteFailed` when that leaves the template unchanged.
pub fn render_manifest_for_example(manifest_template: &str, rel_path: &str) -> (r: Result<
    String,
    PreprocessError,
>)
    ensures
        match r {
            Ok(s) => manifest_for(
                manifest_template@,
                with_extension(rel_path@, Seq::empty()),
            ) == Ok::<Seq<char>, Failure>(s@),
            Err(e) => manifest_for(
                manifest_template@,
                with_extension(rel_path@, Seq::empty()),
            ) == Err::<Seq<char>, Failure>(e@),
        },
{
    let package = example_package_name(rel_path);
    let replaced = replace_package_name(manifest_template, package.as_str());
    let a = str_to_chars(replaced.as_str());
    let b = str_to_chars(manifest_template);
    if crate::text::chars_eq(a.as_slice(), b.as_slice()) {
        Err(PreprocessError::ManifestRewriteFailed)
    } else {
        Ok(replaced)
    }
}

} // verus!
