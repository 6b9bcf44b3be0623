//! Recognising directive lines and parsing their bodies.
//!
//! A runnable directive is a line `{{#runnable <path> [options]}}`; a note
//! block starts with a line `{{#note <type> [title="..."]}}`. Lines inside
//! fenced code blocks (opened by three or more backticks or tildes) are never
//! directives.

use vstd::prelude::*;
use crate::error::{Failure, PreprocessError};
use crate::error::result_view;
use crate::mode::{ExampleMode, parse_mode_chars, parse_mode_spec};
use crate::text::{
    chars_ends_with, chars_eq, chars_starts_with, chars_to_string, split_words, str_to_chars,
    sub_chars, trim, trim_chars, views, words,
};

verus! {

broadcast use vstd::slice::group_slice_axioms;

/// The opening of a fenced code block: its character and how many times it
/// is repeated.
#[derive(Debug, Clone, Copy, PartialEq, Eq, Structural)]
pub struct FenceDelimiter {
    pub ch: char,
    pub len: usize,
}

/// Number of consecutive characters equal to `c` in `s` starting at `i`.
pub open spec fn char_run(s: Seq<char>, i: int, c: char) -> nat
    decreases s.len() - i,
{
    if i < 0 || i >= s.len() || s[i] != c {
        0
    } else {
        1 + char_run(s, i + 1, c)
    }
}

/// The fence that the (trimmed) line `t` opens or closes, if it is a fence
/// line: it starts with at least three backticks or three tildes.
pub open spec fn fence_of(t: Seq<char>) -> Option<FenceDelimiter> {
    if t.len() == 0 || (t[0] != '`' && t[0] != '~') {
        None
    } else if char_run(t, 0, t[0]) < 3 {
        None
    } else {
        Some(FenceDelimiter { ch: t[0], len: char_run(t, 0, t[0]) as usize })
    }
}

/// Whether the (trimmed) line `t` closes the block opened by `f`: a fence of
/// the same character that is at least as long.
pub open spec fn closes_fence(t: Seq<char>, f: FenceDelimiter) -> bool {
    match fence_of(t) {
        Some(c) => c.ch == f.ch && c.len >= f.len,
        None => false,
    }
}

fn char_run_exec(s: &[char], i: usize, c: char) -> (n: usize)
    requires
        i <= s@.len(),
    ensures
        n == char_run(s@, i as int, c),
{
    let mut j = i;
    while j < s.len() && s[j] == c
        invariant
            i <= j <= s@.len(),
            char_run(s@, i as int, c) == (j - i) + char_run(s@, j as int, c),
        decreases s@.len() - j,
    {
        j = j + 1;
    }
    j - i
}

/// The fence that the characters `t` open or close, if any.
pub fn fence_of_chars(t: &[char]) -> (r: Option<FenceDelimiter>)
    ensures
        r == fence_of(t@),
{
    if t.len() == 0 {
        return None;
    }
    let ch = t[0];
    if ch != '`' && ch != '~' {
        return None;
    }
    let len = char_run_exec(t, 0, ch);
    if len < 3 {
        return None;
    }
    Some(FenceDelimiter { ch, len })
}

/// The fence that the trimmed line `line` opens or closes, if it is a fence
/// line.
pub fn parse_fence_delimiter(line: &str) -> (r: Option<FenceDelimiter>)
    ensures
        r == fence_of(line@),
{
    let t = str_to_chars(line);
    fence_of_chars(t.as_slice())
}

/// Whether the trimmed line `line` closes the block opened by `fence`.
pub fn is_matching_fence_close(line: &str, fence: FenceDelimiter) -> (r: bool)
    ensures
        r == closes_fence(line@, fence),
{
    match parse_fence_delimiter(line) {
        Some(candidate) => candidate.ch == fence.ch && candidate.len >= fence.len,
        None => false,
    }
}

/// A line that opens a block also closes a block opened by itself.
pub proof fn lemma_fence_closes_itself(t: Seq<char>)
    ensures
        fence_of(t) matches Some(f) ==> closes_fence(t, f),
{
}

/// The body of a directive line `t` of the form `prefix` + body + `}}`,
/// trimmed.
pub open spec fn directive_body(t: Seq<char>, prefix: Seq<char>) -> Option<Seq<char>> {
    if prefix.len() <= t.len() && t.take(prefix.len() as int) == prefix {
        let rest = t.skip(prefix.len() as int);
        if 2 <= rest.len() && rest.skip(rest.len() - 2) == "}}"@ {
            Some(trim(rest.take(rest.len() - 2)))
        } else {
            None
        }
    } else {
        None
    }
}

/// The body of a runnable directive line.
pub open spec fn runnable_body(t: Seq<char>) -> Option<Seq<char>> {
    directive_body(t, "{{#runnable "@)
}

/// The header of a note start line.
pub open spec fn note_start_body(t: Seq<char>) -> Option<Seq<char>> {
    directive_body(t, "{{#note "@)
}

fn directive_body_chars(t: &[char], prefix: &str) -> (r: Option<Vec<char>>)
    ensures
        r matches Some(b) ==> directive_body(t@, prefix@) == Some(b@),
        r is None ==> directive_body(t@, prefix@) is None,
{
    let p = str_to_chars(prefix);
    proof {
        reveal_strlit("}}");
    }
    if !chars_starts_with(t, p.as_slice()) {
        return None;
    }
    let rest = sub_chars(t, p.len(), t.len());
    assert(rest@ == t@.skip(p@.len() as int));
    let close = str_to_chars("}}");
    if !chars_ends_with(rest.as_slice(), close.as_slice()) {
        return None;
    }
    let inner = sub_chars(rest.as_slice(), 0, rest.len() - 2);
    assert(inner@ == rest@.take(rest@.len() - 2));
    Some(trim_chars(inner.as_slice()))
}

/// The trimmed body of the runnable directive line `t`, if it is one.
pub fn runnable_body_chars(t: &[char]) -> (r: Option<Vec<char>>)
    ensures
        r matches Some(b) ==> runnable_body(t@) == Some(b@),
        r is None ==> runnable_body(t@) is None,
{
    directive_body_chars(t, "{{#runnable ")
}

/// The trimmed header of the note start line `t`, if it is one.
pub fn note_start_body_chars(t: &[char]) -> (r: Option<Vec<char>>)
    ensures
        r matches Some(b) ==> note_start_body(t@) == Some(b@),
        r is None ==> note_start_body(t@) is None,
{
    directive_body_chars(t, "{{#note ")
}

/// The trimmed body of the runnable directive line `line`
/// (`{{#runnable <body>}}`), if it is one.
pub fn parse_runnable_line(line: &str) -> (r: Option<String>)
    ensures
        r matches Some(b) ==> runnable_body(line@) == Some(b@),
        r is None ==> runnable_body(line@) is None,
{
    let t = str_to_chars(line);
    match runnable_body_chars(t.as_slice()) {
        Some(b) => Some(chars_to_string(b.as_slice())),
        None => None,
    }
}

/// The trimmed header of the note start line `line` (`{{#note <header>}}`),
/// if it is one.
pub fn parse_note_start_line(line: &str) -> (r: Option<String>)
    ensures
        r matches Some(b) ==> note_start_body(line@) == Some(b@),
        r is None ==> note_start_body(line@) is None,
{
    let t = str_to_chars(line);
    match note_start_body_chars(t.as_slice()) {
        Some(b) => Some(chars_to_string(b.as_slice())),
        None => None,
    }
}

/// A reference to a runnable example: its path, as written, and the mode in
/// which its outputs are recorded.
#[derive(Debug, Clone)]
pub struct RunnableDirective {
    pub rel_path: String,
    pub mode: ExampleMode,
}

/// The mathematical value of a [`RunnableDirective`].
pub struct DirectiveView {
    pub rel_path: Seq<char>,
    pub mode: ExampleMode,
}

impl View for RunnableDirective {
    type V = DirectiveView;

    open spec fn view(&self) -> DirectiveView {
        DirectiveView { rel_path: self.rel_path@, mode: self.mode }
    }
}

/// The mode set by the options `ws[i..]`, starting from `mode`: each
/// option is `mode=<name>` or a bare mode name, and the last one wins.
pub open spec fn apply_options(ws: Seq<Seq<char>>, i: int, mode: ExampleMode) -> Result<
    ExampleMode,
    Failure,
>
    decreases ws.len() - i,
{
    if i < 0 || i >= ws.len() {
        Ok(mode)
    } else {
        let tok = ws[i];
        if 5 <= tok.len() && tok.take(5) == "mode="@ {
            match parse_mode_spec(tok.skip(5)) {
                Ok(m) => apply_options(ws, i + 1, m),
                Err(e) => Err(e),
            }
        } else if tok == "auto"@ {
            apply_options(ws, i + 1, ExampleMode::Auto)
        } else if tok == "nondeterministic"@ {
            apply_options(ws, i + 1, ExampleMode::Nondeterministic)
        } else if tok == "deterministic"@ {
            apply_options(ws, i + 1, ExampleMode::Deterministic)
        } else {
            Err(Failure::UnsupportedOption(tok))
        }
    }
}

/// The directive that a runnable directive body denotes: the first word is
/// the path, the other words are options; the mode defaults to `Auto`.
pub open spec fn parse_runnable_spec(body: Seq<char>) -> Result<DirectiveView, Failure> {
    let ws = words(body);
    if ws.len() == 0 {
        Err(Failure::MissingRunnablePath)
    } else {
        match apply_options(ws, 1, ExampleMode::Auto) {
            Ok(m) => Ok(DirectiveView { rel_path: ws[0], mode: m }),
            Err(e) => Err(e),
        }
    }
}

/// Parses a runnable directive body, given as characters.
pub fn parse_runnable_chars(body: &[char]) -> (r: Result<RunnableDirective, PreprocessError>)
    ensures
        result_view(r) == parse_runnable_spec(body@),
{
    let ws = split_words(body);
    if ws.len() == 0 {
        return Err(PreprocessError::MissingRunnablePath);
    }
    let rel_path = chars_to_string(ws[0].as_slice());
    let ghost wv = views(ws@);
    assert(wv[0] == ws@[0]@);
    let mut mode = ExampleMode::Auto;
    let mut i: usize = 1;
    let prefix = str_to_chars("mode=");
    proof {
        reveal_strlit("mode=");
    }
    let auto_name = str_to_chars("auto");
    let nondet_name = str_to_chars("nondeterministic");
    let det_name = str_to_chars("deterministic");
    while i < ws.len()
        invariant
            1 <= i <= ws@.len(),
            wv == views(ws@),
            wv == words(body@),
            prefix@ == "mode="@,
            prefix@.len() == 5,
            auto_name@ == "auto"@,
            nondet_name@ == "nondeterministic"@,
            det_name@ == "deterministic"@,
            apply_options(wv, 1, ExampleMode::Auto) == apply_options(wv, i as int, mode),
        decreases ws@.len() - i,
    {
        let tok = &ws[i];
        assert(wv[i as int] == tok@);
        if chars_starts_with(tok.as_slice(), prefix.as_slice()) {
            let value = sub_chars(tok.as_slice(), 5, tok.len());
            assert(value@ == tok@.skip(5));
            match parse_mode_chars(value.as_slice()) {
                Ok(m) => {
                    mode = m;
                },
                Err(e) => {
                    return Err(e);
                },
            }
        } else if chars_eq(tok.as_slice(), auto_name.as_slice()) {
            mode = ExampleMode::Auto;
        } else if chars_eq(tok.as_slice(), nondet_name.as_slice()) {
            mode = ExampleMode::Nondeterministic;
        } else if chars_eq(tok.as_slice(), det_name.as_slice()) {
            mode = ExampleMode::Deterministic;
        } else {
            return Err(PreprocessError::UnsupportedOption(chars_to_string(tok.as_slice())));
        }
        i = i + 1;
    }
    Ok(RunnableDirective { rel_path, mode })
}

/// Parses the body of a runnable directive: a path followed by options
/// `mode=<name>` or bare mode names; the mode defaults to `Auto`.
pub fn parse_runnable_directive_body(body: &str) -> (r: Result<
    RunnableDirective,
    PreprocessError,
>)
    ensures
        result_view(r) == parse_runnable_spec(body@),
{
    let b = str_to_chars(body);
    parse_runnable_chars(b.as_slice())
}

} // verus!
