//! Note directive headers: `<type>` optionally followed by
//! `title="<title>"`.
//!
//! The header grammar is `^([a-z]+)(?:\s+title="([^"]+)")?\s*$`: a type word
//! of lowercase ASCII letters, then either only whitespace, or whitespace,
//! `title="`, a non-empty title without `"`, a closing `"` and only
//! whitespace.

use vstd::prelude::*;
use crate::error::{Failure, PreprocessError, result_view};
use crate::mode::{NoteType, note_default_title, parse_note_type_chars, parse_note_type_spec};
use crate::text::{
    all_ws, chars_occur_at, chars_to_string, is_whitespace, occurs_at, str_to_chars, sub_chars,
    ws_run, ws_run_exec, lemma_ws_run_bound,
};

verus! {

broadcast use vstd::slice::group_slice_axioms;

/// A note block: its type, its title and its (Markdown) body.
#[derive(Debug, Clone)]
pub struct NoteDirective {
    pub note_type: NoteType,
    pub title: String,
    pub body: String,
}

/// The mathematical value of a [`NoteDirective`].
pub struct NoteView {
    pub note_type: NoteType,
    pub title: Seq<char>,
    pub body: Seq<char>,
}

impl View for NoteDirective {
    type V = NoteView;

    open spec fn view(&self) -> NoteView {
        NoteView { note_type: self.note_type, title: self.title@, body: self.body@ }
    }
}

/// Whether `c` is a lowercase ASCII letter.
pub open spec fn is_lower(c: char) -> bool {
    'a' <= c && c <= 'z'
}

/// Number of consecutive lowercase ASCII letters of `s` starting at `i`.
pub open spec fn lower_run(s: Seq<char>, i: int) -> nat
    decreases s.len() - i,
{
    if i < 0 || i >= s.len() || !is_lower(s[i]) {
        0
    } else {
        1 + lower_run(s, i + 1)
    }
}

/// Number of consecutive characters other than `"` of `s` starting at `i`.
pub open spec fn unquoted_run(s: Seq<char>, i: int) -> nat
    decreases s.len() - i,
{
    if i < 0 || i >= s.len() || s[i] == '"' {
        0
    } else {
        1 + unquoted_run(s, i + 1)
    }
}

pub proof fn lemma_lower_run_bound(s: Seq<char>, i: int)
    requires
        0 <= i <= s.len(),
    ensures
        i + lower_run(s, i) <= s.len(),
        forall|j: int| i <= j < i + lower_run(s, i) ==> is_lower(#[trigger] s[j]),
        i + lower_run(s, i) < s.len() ==> !is_lower(s[i + lower_run(s, i)]),
    decreases s.len() - i,
{
    if i < s.len() && is_lower(s[i]) {
        lemma_lower_run_bound(s, i + 1);
    }
}

pub proof fn lemma_unquoted_run_bound(s: Seq<char>, i: int)
    requires
        0 <= i <= s.len(),
    ensures
        i + unquoted_run(s, i) <= s.len(),
        forall|j: int| i <= j < i + unquoted_run(s, i) ==> #[trigger] s[j] != '"',
        i + unquoted_run(s, i) < s.len() ==> s[i + unquoted_run(s, i)] == '"',
    decreases s.len() - i,
{
    if i < s.len() && s[i] != '"' {
        lemma_unquoted_run_bound(s, i + 1);
    }
}

/// The title given by `rest`, the part of a header after its type word,
/// when `rest` is whitespace, `title="`, a non-empty title without `"`, a
/// closing `"` and only whitespace.
pub open spec fn header_title(rest: Seq<char>) -> Option<Seq<char>> {
    let w = ws_run(rest, 0) as int;
    let a = w + 7;
    let c = unquoted_run(rest, a) as int;
    if w >= 1 && occurs_at(rest, "title=\""@, w) && c >= 1 && a + c < rest.len()
        && all_ws(rest.skip(a + c + 1)) {
        Some(rest.subrange(a, a + c))
    } else {
        None
    }
}

/// The type word and the optional title that a note header holds, if it
/// has the header form.
pub open spec fn header_parts(s: Seq<char>) -> Option<(Seq<char>, Option<Seq<char>>)> {
    let k = lower_run(s, 0);
    let rest = s.skip(k as int);
    if k == 0 {
        None
    } else {
        match header_title(rest) {
            Some(t) => Some((s.take(k as int), Some(t))),
            None => if all_ws(rest) {
                Some((s.take(k as int), None))
            } else {
                None
            },
        }
    }
}

/// The note directive that the header `s` denotes, with an empty body. A
/// header without the header form is `InvalidNoteDirective(s)`; an unknown
/// type is `UnsupportedNoteType`; without a title the type's default title
/// is used.
pub open spec fn parse_note_header_spec(s: Seq<char>) -> Result<NoteView, Failure> {
    match header_parts(s) {
        None => Err(Failure::InvalidNoteDirective(s)),
        Some((word, title)) => match parse_note_type_spec(word) {
            Err(e) => Err(e),
            Ok(n) => Ok(
                NoteView {
                    note_type: n,
                    title: match title {
                        Some(t) => t,
                        None => note_default_title(n),
                    },
                    body: Seq::empty(),
                },
            ),
        },
    }
}

fn lower_run_exec(s: &[char], i: usize) -> (n: usize)
    requires
        i <= s@.len(),
    ensures
        n == lower_run(s@, i as int),
{
    let mut j = i;
    while j < s.len() && 'a' <= s[j] && s[j] <= 'z'
        invariant
            i <= j <= s@.len(),
            lower_run(s@, i as int) == (j - i) + lower_run(s@, j as int),
        decreases s@.len() - j,
    {
        j = j + 1;
    }
    j - i
}

pub fn unquoted_run_exec(s: &[char], i: usize) -> (n: usize)
    requires
        i <= s@.len(),
    ensures
        n == unquoted_run(s@, i as int),
{
    let mut j = i;
    while j < s.len() && s[j] != '"'
        invariant
            i <= j <= s@.len(),
            unquoted_run(s@, i as int) == (j - i) + unquoted_run(s@, j as int),
        decreases s@.len() - j,
    {
        j = j + 1;
    }
    j - i
}

/// Whether `s` holds only whitespace from index `i` on.
pub fn all_ws_from(s: &[char], i: usize) -> (r: bool)
    requires
        i <= s@.len(),
    ensures
        r == all_ws(s@.skip(i as int)),
{
    let mut j = i;
    while j < s.len()
        invariant
            i <= j <= s@.len(),
            forall|k: int| i <= k < j ==> crate::text::is_ws(#[trigger] s@[k]),
        decreases s@.len() - j,
    {
        if !is_whitespace(s[j]) {
            assert(s@.skip(i as int)[j - i] == s@[j as int]);
            return false;
        }
        j = j + 1;
    }
    assert forall|k: int| 0 <= k < s@.skip(i as int).len() implies crate::text::is_ws(
        #[trigger] s@.skip(i as int)[k],
    ) by {
        assert(s@.skip(i as int)[k] == s@[i + k]);
    }
    true
}

fn header_title_chars(rest: &[char]) -> (r: Option<Vec<char>>)
    ensures
        r matches Some(t) ==> header_title(rest@) == Some(t@),
        r is None ==> header_title(rest@) is None,
{
    proof {
        lemma_ws_run_bound(rest@, 0);
        reveal_strlit("title=\"");
    }
    let w = ws_run_exec(rest, 0);
    let key = str_to_chars("title=\"");
    if w < 1 || !chars_occur_at(rest, key.as_slice(), w) {
        return None;
    }
    assert(key@.len() == 7);
    assert(rest@.len() == rest.len());
    let a = w + 7;
    proof {
        lemma_unquoted_run_bound(rest@, a as int);
    }
    let c = unquoted_run_exec(rest, a);
    if c < 1 || a + c >= rest.len() {
        return None;
    }
    if !all_ws_from(rest, a + c + 1) {
        return None;
    }
    Some(sub_chars(rest, a, a + c))
}

/// The note directive denoted by the header `s`, given as characters.
pub fn parse_note_header_chars(s: &[char]) -> (r: Result<NoteDirective, PreprocessError>)
    ensures
        result_view(r) == parse_note_header_spec(s@),
{
    proof {
        lemma_lower_run_bound(s@, 0);
    }
    let k = lower_run_exec(s, 0);
    if k == 0 {
        return Err(PreprocessError::InvalidNoteDirective(chars_to_string(s)));
    }
    let rest = sub_chars(s, k, s.len());
    assert(rest@ == s@.skip(k as int));
    let title = match header_title_chars(rest.as_slice()) {
        Some(t) => Some(t),
        None => {
            if all_ws_from(rest.as_slice(), 0) {
                assert(rest@.skip(0) == rest@);
                None
            } else {
                assert(rest@.skip(0) == rest@);
                return Err(PreprocessError::InvalidNoteDirective(chars_to_string(s)));
            }
        },
    };
    let word = sub_chars(s, 0, k);
    assert(word@ == s@.take(k as int));
    let note_type = match parse_note_type_chars(word.as_slice()) {
        Ok(n) => n,
        Err(e) => {
            return Err(e);
        },
    };
    let title_text = match title {
        Some(t) => chars_to_string(t.as_slice()),
        None => {
            let d = note_type.default_title();
            let v = str_to_chars(d);
            chars_to_string(v.as_slice())
        },
    };
    Ok(NoteDirective { note_type, title: title_text, body: String::new() })
}

/// Parses a note directive header `<type>` or `<type> title="<title>"`; the
/// body of the result is empty.
pub fn parse_note_directive_header(body: &str) -> (r: Result<NoteDirective, PreprocessError>)
    ensures
        result_view(r) == parse_note_header_spec(body@),
{
    let s = str_to_chars(body);
    parse_note_header_chars(s.as_slice())
}

} // verus!
