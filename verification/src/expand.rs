//! Walking a chapter line by line: finding the runnable directives it
//! references and expanding its directives into rendered blocks.
//!
//! Lines are taken with their line breaks. A line is classified by its
//! trimmed text: inside a fenced code block every line is copied until a
//! closing fence; a fence line opens a block; a runnable directive line is
//! replaced by the example's block; a note start line, the note body and its
//! `{{/note}}` line are replaced by the note's block; any other line is
//! copied.

use vstd::prelude::*;
use crate::artifact::Settings;
use crate::directive::{
    DirectiveView, FenceDelimiter, RunnableDirective, closes_fence, fence_of, fence_of_chars,
    note_start_body, note_start_body_chars, parse_runnable_chars, parse_runnable_spec,
    runnable_body, runnable_body_chars,
};
use crate::error::{Failure, PreprocessError, result_view};
use crate::note::{NoteDirective, NoteView, parse_note_header_chars, parse_note_header_spec};
use crate::render::{
    ExampleFile, ExampleFileView, file_views, note_block, render_note_block,
    render_runnable_block, runnable_block,
};
use crate::text::{
    chars_eq, chars_to_string, concat, lemma_concat_push, lines, push_all, split_lines,
    str_to_chars, trim, trim_chars, views,
};

verus! {

/// Index of the first line at or after `i` whose trimmed text is
/// `{{/note}}`.
pub open spec fn note_close(ls: Seq<Seq<char>>, i: int) -> Option<int>
    decreases ls.len() - i,
{
    if i < 0 || i >= ls.len() {
        None
    } else if trim(ls[i]) == "{{/note}}"@ {
        Some(i)
    } else {
        note_close(ls, i + 1)
    }
}

pub proof fn lemma_note_close(ls: Seq<Seq<char>>, i: int)
    requires
        0 <= i,
    ensures
        note_close(ls, i) matches Some(j) ==> i <= j < ls.len() && trim(ls[j]) == "{{/note}}"@,
    decreases ls.len() - i,
{
    if i < ls.len() && trim(ls[i]) != "{{/note}}"@ {
        lemma_note_close(ls, i + 1);
    }
}

/// A note block ends at its first closing line: the line found from `i` on
/// trims to `{{/note}}` and no line between `i` and it does; when none is
/// found, no line from `i` on trims to `{{/note}}`.
pub proof fn lemma_note_close_is_first(ls: Seq<Seq<char>>, i: int)
    requires
        0 <= i,
    ensures
        match note_close(ls, i) {
            Some(j) => i <= j < ls.len() && trim(ls[j]) == "{{/note}}"@ && forall|k: int|
                i <= k < j ==> trim(#[trigger] ls[k]) != "{{/note}}"@,
            None => forall|k: int| i <= k < ls.len() ==> trim(#[trigger] ls[k]) != "{{/note}}"@,
        },
    decreases ls.len() - i,
{
    if i < ls.len() {
        lemma_note_close_is_first(ls, i + 1);
    }
}

/// `x` followed by the text of `r`, or the error of `r`.
pub open spec fn then_prefix(x: Seq<char>, r: Result<Seq<char>, Failure>) -> Result<
    Seq<char>,
    Failure,
> {
    match r {
        Ok(s) => Ok(x + s),
        Err(e) => Err(e),
    }
}

/// The state after the next line: what it contributes to the output, the
/// index of the next line to look at and the fenced block then open.
pub type Step = (Seq<char>, int, Option<FenceDelimiter>);

/// What the line `ls[i]` (and, for a note, the lines up to its closing
/// line) turns into, with the fenced block `fence` open (if any), in a book
/// where examples are `enabled`, outputs are replayed after `delay_ms` and
/// the example files `files` were loaded.
pub open spec fn expand_step(
    ls: Seq<Seq<char>>,
    i: int,
    fence: Option<FenceDelimiter>,
    enabled: bool,
    delay_ms: u64,
    files: Seq<ExampleFileView>,
) -> Result<Step, Failure> {
    let line = ls[i];
    let t = trim(line);
    match fence {
        Some(f) => Ok(
            (
                line,
                i + 1,
                if closes_fence(t, f) {
                    None
                } else {
                    Some(f)
                },
            ),
        ),
        None => match fence_of(t) {
            Some(f) => Ok((line, i + 1, Some(f))),
            None => match runnable_body(t) {
                Some(b) => match parse_runnable_spec(b) {
                    Err(e) => Err(e),
                    Ok(d) => match runnable_block(enabled, delay_ms, files, d) {
                        Err(e) => Err(e),
                        Ok(block) => Ok((block, i + 1, None)),
                    },
                },
                None => match note_start_body(t) {
                    Some(h) => match parse_note_header_spec(h) {
                        Err(e) => Err(e),
                        Ok(n) => match note_close(ls, i + 1) {
                            None => Err(Failure::UnterminatedNote),
                            Some(j) => match note_block(
                                NoteView {
                                    note_type: n.note_type,
                                    title: n.title,
                                    body: concat(ls.subrange(i + 1, j)),
                                },
                            ) {
                                Err(e) => Err(e),
                                Ok(block) => Ok((block, j + 1, None)),
                            },
                        },
                    },
                    None => Ok((line, i + 1, None)),
                },
            },
        },
    }
}

/// The expansion of the lines `ls[i..]`, with the fenced block `fence` open
/// (if any): the text of each step in turn, or the first error. (A step
/// always moves forward within the lines; the other case only makes
/// termination evident.)
pub open spec fn expand_from(
    ls: Seq<Seq<char>>,
    i: int,
    fence: Option<FenceDelimiter>,
    enabled: bool,
    delay_ms: u64,
    files: Seq<ExampleFileView>,
) -> Result<Seq<char>, Failure>
    decreases ls.len() - i,
{
    if i < 0 || i >= ls.len() {
        Ok(Seq::empty())
    } else {
        match expand_step(ls, i, fence, enabled, delay_ms, files) {
            Err(e) => Err(e),
            Ok((text, j, f)) => if j <= i || j > ls.len() {
                Ok(text)
            } else {
                then_prefix(text, expand_from(ls, j, f, enabled, delay_ms, files))
            },
        }
    }
}

/// The expansion of a chapter's text.
pub open spec fn expand_spec(
    content: Seq<char>,
    enabled: bool,
    delay_ms: u64,
    files: Seq<ExampleFileView>,
) -> Result<Seq<char>, Failure> {
    expand_from(lines(content), 0, None, enabled, delay_ms, files)
}

/// The state after the next line when only runnable directives are looked
/// for: the directive the line holds (if any), the index of the next line
/// and the fenced block then open. Note blocks are skipped without being
/// parsed.
pub open spec fn find_step(ls: Seq<Seq<char>>, i: int, fence: Option<FenceDelimiter>) -> Result<
    (Option<DirectiveView>, int, Option<FenceDelimiter>),
    Failure,
> {
    let t = trim(ls[i]);
    match fence {
        Some(f) => Ok(
            (
                None,
                i + 1,
                if closes_fence(t, f) {
                    None
                } else {
                    Some(f)
                },
            ),
        ),
        None => match fence_of(t) {
            Some(f) => Ok((None, i + 1, Some(f))),
            None => match runnable_body(t) {
                Some(b) => match parse_runnable_spec(b) {
                    Err(e) => Err(e),
                    Ok(d) => Ok((Some(d), i + 1, None)),
                },
                None => match note_start_body(t) {
                    Some(h) => match note_close(ls, i + 1) {
                        None => Err(Failure::UnterminatedNote),
                        Some(j) => Ok((None, j + 1, None)),
                    },
                    None => Ok((None, i + 1, None)),
                },
            },
        },
    }
}

/// The directive `d` (if any) followed by the directives of `r`, or the
/// error of `r`.
pub open spec fn then_directive(
    d: Option<DirectiveView>,
    r: Result<Seq<DirectiveView>, Failure>,
) -> Result<Seq<DirectiveView>, Failure> {
    match r {
        Ok(s) => Ok(
            match d {
                Some(x) => seq![x] + s,
                None => s,
            },
        ),
        Err(e) => Err(e),
    }
}

/// The runnable directives of the lines `ls[i..]`, with the fenced block
/// `fence` open (if any), in order, or the first error.
pub open spec fn find_from(ls: Seq<Seq<char>>, i: int, fence: Option<FenceDelimiter>) -> Result<
    Seq<DirectiveView>,
    Failure,
>
    decreases ls.len() - i,
{
    if i < 0 || i >= ls.len() {
        Ok(Seq::empty())
    } else {
        match find_step(ls, i, fence) {
            Err(e) => Err(e),
            Ok((d, j, f)) => if j <= i || j > ls.len() {
                then_directive(d, Ok(Seq::empty()))
            } else {
                then_directive(d, find_from(ls, j, f))
            },
        }
    }
}

/// The runnable directives of a chapter's text, in order.
pub open spec fn find_spec(content: Seq<char>) -> Result<Seq<DirectiveView>, Failure> {
    find_from(lines(content), 0, None)
}

/// Inside a fenced block, a line is copied and never read as a directive;
/// the block closes exactly at a fence line of the same character that is
/// at least as long as the opening one. A shorter fence line, or one of the
/// other character, keeps the block open.
pub proof fn lemma_fence_closes_only_on_long_enough_fence(
    ls: Seq<Seq<char>>,
    i: int,
    f: FenceDelimiter,
    enabled: bool,
    delay_ms: u64,
    files: Seq<ExampleFileView>,
)
    requires
        0 <= i < ls.len(),
    ensures
        find_step(ls, i, Some(f)) == Ok::<(Option<DirectiveView>, int, Option<FenceDelimiter>), Failure>(
            (
                None,
                i + 1,
                if (fence_of(trim(ls[i])) matches Some(c) && c.ch == f.ch && c.len >= f.len) {
                    None
                } else {
                    Some(f)
                },
            ),
        ),
        expand_step(ls, i, Some(f), enabled, delay_ms, files) == Ok::<Step, Failure>(
            (
                ls[i],
                i + 1,
                if (fence_of(trim(ls[i])) matches Some(c) && c.ch == f.ch && c.len >= f.len) {
                    None
                } else {
                    Some(f)
                },
            ),
        ),
{
}

/// After a note start line (outside any fenced block), both the search for
/// directives and the expansion go on right after the first closing
/// `{{/note}}` line that follows it; without one the chapter is an
/// `UnterminatedNote` for the search.
pub proof fn lemma_note_ends_at_first_close(
    ls: Seq<Seq<char>>,
    i: int,
    enabled: bool,
    delay_ms: u64,
    files: Seq<ExampleFileView>,
)
    requires
        0 <= i < ls.len(),
        fence_of(trim(ls[i])) is None,
        runnable_body(trim(ls[i])) is None,
        note_start_body(trim(ls[i])) is Some,
    ensures
        find_step(ls, i, None) matches Ok((d, j, f)) ==> d is None && f is None && i + 1 < j
            <= ls.len() && trim(ls[j - 1]) == "{{/note}}"@ && forall|k: int|
            i < k < j - 1 ==> trim(#[trigger] ls[k]) != "{{/note}}"@,
        find_step(ls, i, None) is Err <==> forall|k: int|
            i < k < ls.len() ==> trim(#[trigger] ls[k]) != "{{/note}}"@,
        expand_step(ls, i, None, enabled, delay_ms, files) matches Ok((_, j, f)) ==> f is None
            && i + 1 < j <= ls.len() && trim(ls[j - 1]) == "{{/note}}"@ && forall|k: int|
            i < k < j - 1 ==> trim(#[trigger] ls[k]) != "{{/note}}"@,
{
    lemma_note_close_is_first(ls, i + 1);
    if let Some(j) = note_close(ls, i + 1) {
        assert(trim(ls[j]) == "{{/note}}"@);
    } else {
        assert(find_step(ls, i, None) is Err);
    }
}

/// Whether `line` trims to `{{/note}}`.
fn is_note_close(line: &Vec<char>) -> (r: bool)
    ensures
        r == (trim(line@) == "{{/note}}"@),
{
    let t = trim_chars(line.as_slice());
    let close = str_to_chars("{{/note}}");
    chars_eq(t.as_slice(), close.as_slice())
}

/// Index of the closing `{{/note}}` line at or after `start`.
fn find_note_close(lines: &Vec<Vec<char>>, start: usize) -> (r: Option<usize>)
    ensures
        r matches Some(j) ==> note_close(views(lines@), start as int) == Some(j as int) && start
            <= j < lines@.len(),
        r is None ==> note_close(views(lines@), start as int) is None,
{
    let ghost lv = views(lines@);
    let mut k = start;
    proof {
        lemma_note_close(lv, start as int);
    }
    while k < lines.len()
        invariant
            start <= k,
            lv == views(lines@),
            note_close(lv, start as int) == note_close(lv, k as int),
        decreases lines@.len() - k,
    {
        assert(lv[k as int] == lines@[k as int]@);
        if is_note_close(&lines[k]) {
            return Some(k);
        }
        k = k + 1;
    }
    None
}

/// The text of the lines from `start` up to the closing `{{/note}}` line,
/// and the index of the line after it; a note without a closing line is
/// `UnterminatedNote`.
pub fn collect_note_body(lines: &Vec<Vec<char>>, start: usize) -> (r: Result<
    (String, usize),
    PreprocessError,
>)
    ensures
        match note_close(views(lines@), start as int) {
            None => r matches Err(e) && e@ == Failure::UnterminatedNote,
            Some(j) => r matches Ok((body, next)) && body@ == concat(
                views(lines@).subrange(start as int, j),
            ) && next == j + 1,
        },
        r matches Ok((_, next)) ==> start < next <= lines@.len() && trim(lines@[next - 1]@)
            == "{{/note}}"@ && forall|k: int|
            start <= k < next - 1 ==> trim(#[trigger] lines@[k]@) != "{{/note}}"@,
{
    let ghost lv = views(lines@);
    proof {
        lemma_note_close_is_first(lv, start as int);
        assert forall|k: int| 0 <= k < lines@.len() implies #[trigger] lines@[k]@ == lv[k] by {}
    }
    let j = match find_note_close(lines, start) {
        None => {
            return Err(PreprocessError::UnterminatedNote);
        },
        Some(j) => j,
    };
    let mut body: Vec<char> = Vec::new();
    let mut k = start;
    while k < j
        invariant
            start <= k <= j,
            j < lines@.len(),
            lv == views(lines@),
            body@ == concat(lv.subrange(start as int, k as int)),
        decreases j - k,
    {
        assert(lv[k as int] == lines@[k as int]@);
        push_all(&mut body, lines[k].as_slice());
        proof {
            lemma_concat_push(lv.subrange(start as int, k as int), lv[k as int]);
            assert(lv.subrange(start as int, k + 1) =~= lv.subrange(start as int, k as int).push(
                lv[k as int],
            ));
        }
        k = k + 1;
    }
    assert(j < lines.len());
    Ok((chars_to_string(body.as_slice()), j + 1))
}

/// The index of the line after the closing `{{/note}}` line at or after
/// `start`; a note without a closing line is `UnterminatedNote`.
pub fn consume_note_body(lines: &Vec<Vec<char>>, start: usize) -> (r: Result<
    usize,
    PreprocessError,
>)
    ensures
        match note_close(views(lines@), start as int) {
            None => r matches Err(e) && e@ == Failure::UnterminatedNote,
            Some(j) => r matches Ok(next) && next == j + 1,
        },
        r matches Ok(next) ==> start < next <= lines@.len() && trim(lines@[next - 1]@)
            == "{{/note}}"@ && forall|k: int|
            start <= k < next - 1 ==> trim(#[trigger] lines@[k]@) != "{{/note}}"@,
{
    proof {
        let lv = views(lines@);
        lemma_note_close_is_first(lv, start as int);
        assert forall|k: int| 0 <= k < lines@.len() implies #[trigger] lines@[k]@ == lv[k] by {}
    }
    match find_note_close(lines, start) {
        None => Err(PreprocessError::UnterminatedNote),
        Some(j) => {
            assert(j < lines.len());
            Ok(j + 1)
        },
    }
}

/// One step of the expansion, on lines given as characters.
fn expand_step_exec(
    ls: &Vec<Vec<char>>,
    i: usize,
    fence: Option<FenceDelimiter>,
    settings: &Settings,
    files: &Vec<ExampleFile>,
) -> (r: Result<(Vec<char>, usize, Option<FenceDelimiter>), PreprocessError>)
    requires
        i < ls@.len(),
    ensures
        match r {
            Ok((text, j, f)) => expand_step(
                views(ls@),
                i as int,
                fence,
                settings.enabled,
                settings.fake_running_ms,
                file_views(files@),
            ) == Ok::<Step, Failure>((text@, j as int, f)) && i < j <= ls@.len(),
            Err(e) => expand_step(
                views(ls@),
                i as int,
                fence,
                settings.enabled,
                settings.fake_running_ms,
                file_views(files@),
            ) == Err::<Step, Failure>(e@),
        },
{
    let ghost lv = views(ls@);
    assert(i < ls.len());
    let line = &ls[i];
    assert(lv[i as int] == line@);
    let t = trim_chars(line.as_slice());
    let copy = crate::render::clone_chars(line);
    match fence {
        Some(f) => {
            let next = match fence_of_chars(t.as_slice()) {
                Some(c) => if c.ch == f.ch && c.len >= f.len {
                    None
                } else {
                    Some(f)
                },
                None => Some(f),
            };
            return Ok((copy, i + 1, next));
        },
        None => {},
    }
    match fence_of_chars(t.as_slice()) {
        Some(f) => {
            return Ok((copy, i + 1, Some(f)));
        },
        None => {},
    }
    match runnable_body_chars(t.as_slice()) {
        Some(b) => {
            let d = match parse_runnable_chars(b.as_slice()) {
                Ok(d) => d,
                Err(e) => {
                    return Err(e);
                },
            };
            let block = match render_runnable_block(settings, &d, files) {
                Ok(block) => block,
                Err(e) => {
                    return Err(e);
                },
            };
            return Ok((str_to_chars(block.as_str()), i + 1, None));
        },
        None => {},
    }
    match note_start_body_chars(t.as_slice()) {
        Some(h) => {
            let n = match parse_note_header_chars(h.as_slice()) {
                Ok(n) => n,
                Err(e) => {
                    return Err(e);
                },
            };
            let (body, next) = match collect_note_body(ls, i + 1) {
                Ok(p) => p,
                Err(e) => {
                    return Err(e);
                },
            };
            proof {
                lemma_note_close(lv, i + 1);
            }
            let note = NoteDirective { note_type: n.note_type, title: n.title, body };
            let block = match render_note_block(&note) {
                Ok(block) => block,
                Err(e) => {
                    return Err(e);
                },
            };
            Ok((str_to_chars(block.as_str()), next, None))
        },
        None => Ok((copy, i + 1, None)),
    }
}

/// Expands the directives of a chapter's text: runnable directives become
/// example blocks, note blocks become styled HTML, fenced code blocks and
/// other lines are kept.
pub fn expand_directives(
    content: &str,
    settings: &Settings,
    files: &Vec<ExampleFile>,
) -> (r: Result<String, PreprocessError>)
    ensures
        result_view(r) == expand_spec(
            content@,
            settings.enabled,
            settings.fake_running_ms,
            file_views(files@),
        ),
{
    let s = str_to_chars(content);
    let ls = split_lines(s.as_slice());
    let ghost lv = views(ls@);
    let ghost en = settings.enabled;
    let ghost delay = settings.fake_running_ms;
    let ghost fv = file_views(files@);
    let ghost total = expand_from(lv, 0, None, en, delay, fv);
    let mut out: Vec<char> = Vec::new();
    let mut fence: Option<FenceDelimiter> = None;
    let mut i: usize = 0;
    while i < ls.len()
        invariant
            i <= ls@.len(),
            lv == views(ls@),
            lv == lines(content@),
            en == settings.enabled,
            delay == settings.fake_running_ms,
            fv == file_views(files@),
            total == expand_from(lv, 0, None, en, delay, fv),
            match expand_from(lv, i as int, fence, en, delay, fv) {
                Ok(rest) => total == Ok::<Seq<char>, Failure>(out@ + rest),
                Err(e) => total == Err::<Seq<char>, Failure>(e),
            },
        decreases ls@.len() - i,
    {
        let (text, next, f) = match expand_step_exec(&ls, i, fence, settings, files) {
            Ok(step) => step,
            Err(e) => {
                return Err(e);
            },
        };
        let ghost before = out@;
        push_all(&mut out, text.as_slice());
        proof {
            match expand_from(lv, next as int, f, en, delay, fv) {
                Ok(rest) => {
                    assert(before + (text@ + rest) =~= out@ + rest);
                },
                Err(e) => {},
            }
        }
        fence = f;
        i = next;
    }
    assert(out@ + Seq::<char>::empty() =~= out@);
    Ok(chars_to_string(out.as_slice()))
}

/// The views of a sequence of directives.
pub open spec fn directive_views(v: Seq<RunnableDirective>) -> Seq<DirectiveView> {
    v.map_values(|d: RunnableDirective| d@)
}

/// One step of the search for runnable directives.
fn find_step_exec(ls: &Vec<Vec<char>>, i: usize, fence: Option<FenceDelimiter>) -> (r: Result<
    (Option<RunnableDirective>, usize, Option<FenceDelimiter>),
    PreprocessError,
>)
    requires
        i < ls@.len(),
    ensures
        match r {
            Ok((d, j, f)) => find_step(views(ls@), i as int, fence) == Ok::<
                (Option<DirectiveView>, int, Option<FenceDelimiter>),
                Failure,
            >(
                (
                    match d {
                        Some(x) => Some(x@),
                        None => None,
                    },
                    j as int,
                    f,
                ),
            ) && i < j <= ls@.len(),
            Err(e) => find_step(views(ls@), i as int, fence) == Err::<
                (Option<DirectiveView>, int, Option<FenceDelimiter>),
                Failure,
            >(e@),
        },
{
    let ghost lv = views(ls@);
    assert(i < ls.len());
    let line = &ls[i];
    assert(lv[i as int] == line@);
    let t = trim_chars(line.as_slice());
    match fence {
        Some(f) => {
            let next = match fence_of_chars(t.as_slice()) {
                Some(c) => if c.ch == f.ch && c.len >= f.len {
                    None
                } else {
                    Some(f)
                },
                None => Some(f),
            };
            return Ok((None, i + 1, next));
        },
        None => {},
    }
    match fence_of_chars(t.as_slice()) {
        Some(f) => {
            return Ok((None, i + 1, Some(f)));
        },
        None => {},
    }
    match runnable_body_chars(t.as_slice()) {
        Some(b) => {
            return match parse_runnable_chars(b.as_slice()) {
                Ok(d) => Ok((Some(d), i + 1, None)),
                Err(e) => Err(e),
            };
        },
        None => {},
    }
    match note_start_body_chars(t.as_slice()) {
        Some(_) => {
            let next = match consume_note_body(ls, i + 1) {
                Ok(n) => n,
                Err(e) => {
                    return Err(e);
                },
            };
            proof {
                lemma_note_close(lv, i + 1);
            }
            Ok((None, next, None))
        },
        None => Ok((None, i + 1, None)),
    }
}

/// The runnable directives of a chapter's text, in order; fenced code
/// blocks and note blocks are skipped.
pub fn find_runnable_directives(content: &str) -> (r: Result<
    Vec<RunnableDirective>,
    PreprocessError,
>)
    ensures
        match r {
            Ok(v) => find_spec(content@) == Ok::<Seq<DirectiveView>, Failure>(
                directive_views(v@),
            ),
            Err(e) => find_spec(content@) == Err::<Seq<DirectiveView>, Failure>(e@),
        },
{
    let s = str_to_chars(content);
    let ls = split_lines(s.as_slice());
    let ghost lv = views(ls@);
    let ghost total = find_from(lv, 0, None);
    let mut out: Vec<RunnableDirective> = Vec::new();
    let mut fence: Option<FenceDelimiter> = None;
    let mut i: usize = 0;
    while i < ls.len()
        invariant
            i <= ls@.len(),
            lv == views(ls@),
            lv == lines(content@),
            total == find_from(lv, 0, None),
            match find_from(lv, i as int, fence) {
                Ok(rest) => total == Ok::<Seq<DirectiveView>, Failure>(
                    directive_views(out@) + rest,
                ),
                Err(e) => total == Err::<Seq<DirectiveView>, Failure>(e),
            },
        decreases ls@.len() - i,
    {
        let (d, next, f) = match find_step_exec(&ls, i, fence) {
            Ok(step) => step,
            Err(e) => {
                return Err(e);
            },
        };
        let ghost before = directive_views(out@);
        match d {
            Some(x) => {
                let ghost xv = x@;
                out.push(x);
                proof {
                    assert(directive_views(out@) =~= before.push(xv));
                    match find_from(lv, next as int, f) {
                        Ok(rest) => {
                            assert(before + (seq![xv] + rest) =~= before.push(xv) + rest);
                        },
                        Err(e) => {},
                    }
                }
            },
            None => {},
        }
        fence = f;
        i = next;
    }
    assert(directive_views(out@) + Seq::<DirectiveView>::empty() =~= directive_views(out@));
    Ok(out)
}

/// A chapter that expands without error also yields its runnable
/// directives without error: collecting the examples of a book never fails
/// on a chapter that can be rendered.
pub proof fn lemma_expand_ok_implies_find_ok(
    ls: Seq<Seq<char>>,
    i: int,
    fence: Option<FenceDelimiter>,
    enabled: bool,
    delay_ms: u64,
    files: Seq<ExampleFileView>,
)
    requires
        0 <= i,
        expand_from(ls, i, fence, enabled, delay_ms, files) is Ok,
    ensures
        find_from(ls, i, fence) is Ok,
    decreases ls.len() - i,
{
    if i < ls.len() {
        let t = trim(ls[i]);
        match expand_step(ls, i, fence, enabled, delay_ms, files) {
            Ok((text, j, f)) => {
                if fence is None && fence_of(t) is None && runnable_body(t) is None
                    && note_start_body(t) is Some {
                    lemma_note_close(ls, i + 1);
                }
                assert(find_step(ls, i, fence) matches Ok((_, j2, f2)) && j2 == j && f2 == f);
                if j > i && j <= ls.len() {
                    lemma_expand_ok_implies_find_ok(ls, j, f, enabled, delay_ms, files);
                }
            },
            Err(_) => {},
        }
    }
}

/// Whether no line of `ls[i..]` is a fence line, a runnable directive or a
/// note start.
pub open spec fn plain_lines(ls: Seq<Seq<char>>, i: int) -> bool {
    forall|k: int|
        i <= k < ls.len() ==> fence_of(trim(#[trigger] ls[k])) is None && runnable_body(
            trim(ls[k]),
        ) is None && note_start_body(trim(ls[k])) is None
}

pub proof fn lemma_plain_lines_unchanged(
    ls: Seq<Seq<char>>,
    i: int,
    enabled: bool,
    delay_ms: u64,
    files: Seq<ExampleFileView>,
)
    requires
        0 <= i <= ls.len(),
        plain_lines(ls, i),
    ensures
        expand_from(ls, i, None, enabled, delay_ms, files) == Ok::<Seq<char>, Failure>(
            concat(ls.skip(i)),
        ),
        find_from(ls, i, None) == Ok::<Seq<DirectiveView>, Failure>(Seq::empty()),
    decreases ls.len() - i,
{
    if i < ls.len() {
        lemma_plain_lines_unchanged(ls, i + 1, enabled, delay_ms, files);
        crate::text::lemma_concat_append(seq![ls[i]], ls.skip(i + 1));
        crate::text::lemma_concat_single(ls[i]);
        assert(seq![ls[i]] + ls.skip(i + 1) =~= ls.skip(i));
    } else {
        assert(ls.skip(i) =~= Seq::<Seq<char>>::empty());
    }
}

/// Text without fence lines, runnable directives and note starts is left
/// exactly as it is, and references no examples.
pub proof fn lemma_plain_text_unchanged(
    content: Seq<char>,
    enabled: bool,
    delay_ms: u64,
    files: Seq<ExampleFileView>,
)
    requires
        plain_lines(lines(content), 0),
    ensures
        expand_spec(content, enabled, delay_ms, files) == Ok::<Seq<char>, Failure>(content),
        find_spec(content) == Ok::<Seq<DirectiveView>, Failure>(Seq::empty()),
{
    lemma_plain_lines_unchanged(lines(content), 0, enabled, delay_ms, files);
    assert(lines(content).skip(0) =~= lines(content));
    crate::text::lemma_lines_concat(content);
}

} // verus!
