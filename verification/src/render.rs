//! Rendering of note blocks, runnable example blocks and example sources.

use base64::Engine;
use vstd::prelude::*;
use vstd::utf8::encode_utf8;
use vstd::string::StringSliceAdditionalSpecFns;
use crate::artifact::{ArtifactView, RunnableArtifact, Settings, lemma_string_views_push, string_views};
use crate::directive::{DirectiveView, RunnableDirective};
use crate::error::{Failure, PreprocessError, result_view};
use crate::mode::{ExampleMode, NoteType, mode_name, note_type_name};
use crate::note::{NoteDirective, NoteView};
use crate::text::{
    chars_ends_with, chars_eq, chars_starts_with, chars_to_string, lines, push_all, push_str,
    split_lines, str_to_chars, sub_chars, trim, trim_chars, views,
};

verus! {

broadcast use vstd::slice::group_slice_axioms;

// ---------------------------------------------------------------------------
// HTML escaping
// ---------------------------------------------------------------------------

/// The HTML text for one character: `&`, `<`, `>`, `"` and `'` become
/// entities, every other character stands for itself.
pub open spec fn escape_char(c: char) -> Seq<char> {
    if c == '&' {
        "&amp;"@
    } else if c == '<' {
        "&lt;"@
    } else if c == '>' {
        "&gt;"@
    } else if c == '"' {
        "&quot;"@
    } else if c == '\'' {
        "&#39;"@
    } else {
        seq![c]
    }
}

/// `s` with every character replaced by its HTML text.
pub open spec fn escape(s: Seq<char>) -> Seq<char>
    decreases s.len(),
{
    if s.len() == 0 {
        Seq::empty()
    } else {
        escape(s.drop_last()) + escape_char(s.last())
    }
}

/// `text` made safe for HTML: `&`, `<`, `>`, `"` and `'` become entities.
pub fn escape_html(text: &str) -> (r: String)
    ensures
        r@ == escape(text@),
{
    let s = str_to_chars(text);
    let mut out: Vec<char> = Vec::new();
    let mut i: usize = 0;
    while i < s.len()
        invariant
            i <= s@.len(),
            s@ == text@,
            out@ == escape(s@.take(i as int)),
        decreases s@.len() - i,
    {
        let c = s[i];
        if c == '&' {
            push_str(&mut out, "&amp;");
        } else if c == '<' {
            push_str(&mut out, "&lt;");
        } else if c == '>' {
            push_str(&mut out, "&gt;");
        } else if c == '"' {
            push_str(&mut out, "&quot;");
        } else if c == '\'' {
            push_str(&mut out, "&#39;");
        } else {
            out.push(c);
        }
        proof {
            assert(s@.take(i + 1).drop_last() == s@.take(i as int));
            assert(s@.take(i + 1).last() == c);
        }
        i = i + 1;
    }
    assert(s@.take(s@.len() as int) == s@);
    chars_to_string(out.as_slice())
}

/// Whether `c` has a meaning of its own in HTML markup or attributes.
pub open spec fn is_markup_char(c: char) -> bool {
    c == '<' || c == '>' || c == '"' || c == '\''
}

pub proof fn lemma_escape_char_plain(c: char)
    ensures
        forall|i: int|
            0 <= i < escape_char(c).len() ==> !is_markup_char(#[trigger] escape_char(c)[i]),
{
    reveal_strlit("&amp;");
    reveal_strlit("&lt;");
    reveal_strlit("&gt;");
    reveal_strlit("&quot;");
    reveal_strlit("&#39;");
}

/// Escaped text holds no `<`, `>`, `"` or `'`, so it can stand in element
/// content and in quoted attribute values.
pub proof fn lemma_escape_plain(s: Seq<char>)
    ensures
        forall|i: int| 0 <= i < escape(s).len() ==> !is_markup_char(#[trigger] escape(s)[i]),
    decreases s.len(),
{
    if s.len() > 0 {
        lemma_escape_plain(s.drop_last());
        lemma_escape_char_plain(s.last());
        let a = escape(s.drop_last());
        let b = escape_char(s.last());
        assert forall|i: int| 0 <= i < escape(s).len() implies !is_markup_char(
            #[trigger] escape(s)[i],
        ) by {
            if i < a.len() {
                assert(escape(s)[i] == a[i]);
            } else {
                assert(escape(s)[i] == b[i - a.len()]);
            }
        }
    }
}

/// Text without special characters is left as it is.
pub proof fn lemma_escape_identity(s: Seq<char>)
    requires
        forall|i: int|
            0 <= i < s.len() ==> !is_markup_char(#[trigger] s[i]) && s[i] != '&',
    ensures
        escape(s) == s,
    decreases s.len(),
{
    if s.len() > 0 {
        assert forall|i: int| 0 <= i < s.drop_last().len() implies !is_markup_char(
            #[trigger] s.drop_last()[i],
        ) && s.drop_last()[i] != '&' by {
            assert(s.drop_last()[i] == s[i]);
        }
        lemma_escape_identity(s.drop_last());
        assert(s.last() == s[s.len() - 1]);
        assert(escape_char(s.last()) == seq![s.last()]);
        assert(s.drop_last() + seq![s.last()] =~= s);
    }
}

// ---------------------------------------------------------------------------
// Example sources: hidden lines
// ---------------------------------------------------------------------------

/// A chunk of text without its final `'\n'`, if it has one.
pub open spec fn strip_newline(c: Seq<char>) -> Seq<char> {
    if c.len() > 0 && c.last() == '\n' {
        c.drop_last()
    } else {
        c
    }
}

/// Whether `c` ends with `'\n'`.
pub open spec fn ends_with_newline(c: Seq<char>) -> bool {
    c.len() > 0 && c.last() == '\n'
}

/// A hidden source line: `#` alone, or starting with `# `.
pub open spec fn is_hidden_line(l: Seq<char>) -> bool {
    l == "#"@ || (l.len() >= 2 && l.take(2) == "# "@)
}

/// The displayed text of one line: nothing for a hidden line, the line
/// itself otherwise.
pub open spec fn display_line(c: Seq<char>) -> Seq<char> {
    if is_hidden_line(strip_newline(c)) {
        Seq::empty()
    } else {
        c
    }
}

/// The text that is run for one line: nothing for `#` alone, the line
/// without its `# ` for other hidden lines, the line itself otherwise.
pub open spec fn execution_line(c: Seq<char>) -> Seq<char> {
    let l = strip_newline(c);
    if l == "#"@ {
        Seq::empty()
    } else {
        let body = if l.len() >= 2 && l.take(2) == "# "@ {
            l.skip(2)
        } else {
            l
        };
        if ends_with_newline(c) {
            body.push('\n')
        } else {
            body
        }
    }
}

/// The concatenation of the displayed lines.
pub open spec fn display_lines(ls: Seq<Seq<char>>) -> Seq<char>
    decreases ls.len(),
{
    if ls.len() == 0 {
        Seq::empty()
    } else {
        display_lines(ls.drop_last()) + display_line(ls.last())
    }
}

/// The concatenation of the lines that are run.
pub open spec fn execution_lines(ls: Seq<Seq<char>>) -> Seq<char>
    decreases ls.len(),
{
    if ls.len() == 0 {
        Seq::empty()
    } else {
        execution_lines(ls.drop_last()) + execution_line(ls.last())
    }
}

/// Drops a final `'\n'` of `rendered` that the source `source` did not end
/// with.
pub open spec fn match_final_newline(source: Seq<char>, rendered: Seq<char>) -> Seq<char> {
    if !ends_with_newline(source) && ends_with_newline(rendered) {
        rendered.drop_last()
    } else {
        rendered
    }
}

/// The source as shown in the book: hidden lines left out.
pub open spec fn display_source(source: Seq<char>) -> Seq<char> {
    match_final_newline(source, display_lines(lines(source)))
}

/// The source as it is run: hidden lines uncovered.
pub open spec fn execution_source(source: Seq<char>) -> Seq<char> {
    match_final_newline(source, execution_lines(lines(source)))
}

/// Whether no line of `ls` is hidden.
pub open spec fn no_hidden_lines(ls: Seq<Seq<char>>) -> bool {
    forall|k: int| 0 <= k < ls.len() ==> !is_hidden_line(strip_newline(#[trigger] ls[k]))
}

pub proof fn lemma_plain_source_lines(ls: Seq<Seq<char>>)
    requires
        no_hidden_lines(ls),
    ensures
        display_lines(ls) == crate::text::concat(ls),
        execution_lines(ls) == crate::text::concat(ls),
    decreases ls.len(),
{
    if ls.len() > 0 {
        assert(no_hidden_lines(ls.drop_last())) by {
            assert forall|k: int| 0 <= k < ls.drop_last().len() implies !is_hidden_line(
                strip_newline(#[trigger] ls.drop_last()[k]),
            ) by {
                assert(ls.drop_last()[k] == ls[k]);
            }
        }
        lemma_plain_source_lines(ls.drop_last());
        let c = ls.last();
        assert(!is_hidden_line(strip_newline(ls[ls.len() - 1])));
        let l = strip_newline(c);
        assert(l != "#"@);
        if ends_with_newline(c) {
            assert(l.push('\n') =~= c);
        }
        assert(execution_line(c) == c);
    }
}

/// A source without hidden lines is shown and run exactly as written.
pub proof fn lemma_plain_source_unchanged(source: Seq<char>)
    requires
        no_hidden_lines(lines(source)),
    ensures
        display_source(source) == source,
        execution_source(source) == source,
{
    lemma_plain_source_lines(lines(source));
    crate::text::lemma_lines_concat(source);
}

fn ends_with_newline_exec(v: &[char]) -> (r: bool)
    ensures
        r == ends_with_newline(v@),
{
    v.len() > 0 && v[v.len() - 1] == '\n'
}

fn hidden_kind(line: &[char]) -> (r: (bool, bool))
    ensures
        r.0 == (line@ == "#"@),
        r.1 == (line@.len() >= 2 && line@.take(2) == "# "@),
{
    let hash = str_to_chars("#");
    let hash_space = str_to_chars("# ");
    proof {
        reveal_strlit("# ");
    }
    (chars_eq(line, hash.as_slice()), chars_starts_with(line, hash_space.as_slice()))
}

/// The source as shown in the book: lines `#` and `# ...` are left out.
pub fn render_display_source(source: &str) -> (r: String)
    ensures
        r@ == display_source(source@),
{
    let s = str_to_chars(source);
    let ls = split_lines(s.as_slice());
    let ghost lv = views(ls@);
    let mut out: Vec<char> = Vec::new();
    let mut i: usize = 0;
    while i < ls.len()
        invariant
            i <= ls@.len(),
            lv == views(ls@),
            lv == lines(source@),
            out@ == display_lines(lv.take(i as int)),
        decreases ls@.len() - i,
    {
        let chunk = &ls[i];
        assert(lv[i as int] == chunk@);
        let has_newline = ends_with_newline_exec(chunk.as_slice());
        let line = if has_newline {
            sub_chars(chunk.as_slice(), 0, chunk.len() - 1)
        } else {
            sub_chars(chunk.as_slice(), 0, chunk.len())
        };
        assert(line@ == strip_newline(chunk@));
        let (alone, prefixed) = hidden_kind(line.as_slice());
        if !(alone || prefixed) {
            push_all(&mut out, chunk.as_slice());
        }
        proof {
            assert(lv.take(i + 1).drop_last() == lv.take(i as int));
            assert(lv.take(i + 1).last() == chunk@);
        }
        i = i + 1;
    }
    assert(lv.take(ls@.len() as int) == lv);
    if !ends_with_newline_exec(s.as_slice()) && ends_with_newline_exec(out.as_slice()) {
        out.pop();
    }
    chars_to_string(out.as_slice())
}

/// The source as it is run: `#` lines are dropped and the `# ` of other
/// hidden lines is removed.
pub fn render_execution_source(source: &str) -> (r: String)
    ensures
        r@ == execution_source(source@),
{
    let s = str_to_chars(source);
    let ls = split_lines(s.as_slice());
    let ghost lv = views(ls@);
    let mut out: Vec<char> = Vec::new();
    let mut i: usize = 0;
    while i < ls.len()
        invariant
            i <= ls@.len(),
            lv == views(ls@),
            lv == lines(source@),
            out@ == execution_lines(lv.take(i as int)),
        decreases ls@.len() - i,
    {
        let chunk = &ls[i];
        assert(lv[i as int] == chunk@);
        let has_newline = ends_with_newline_exec(chunk.as_slice());
        let line = if has_newline {
            sub_chars(chunk.as_slice(), 0, chunk.len() - 1)
        } else {
            sub_chars(chunk.as_slice(), 0, chunk.len())
        };
        assert(line@ == strip_newline(chunk@));
        let (alone, prefixed) = hidden_kind(line.as_slice());
        let ghost before = out@;
        if !alone {
            if prefixed {
                let rest = sub_chars(line.as_slice(), 2, line.len());
                assert(rest@ == line@.skip(2));
                push_all(&mut out, rest.as_slice());
            } else {
                push_all(&mut out, line.as_slice());
            }
            if has_newline {
                out.push('\n');
            }
            assert(out@ == before + execution_line(chunk@));
        } else {
            assert(out@ == before + execution_line(chunk@));
        }
        proof {
            assert(lv.take(i + 1).drop_last() == lv.take(i as int));
            assert(lv.take(i + 1).last() == chunk@);
        }
        i = i + 1;
    }
    assert(lv.take(ls@.len() as int) == lv);
    if !ends_with_newline_exec(s.as_slice()) && ends_with_newline_exec(out.as_slice()) {
        out.pop();
    }
    chars_to_string(out.as_slice())
}

// ---------------------------------------------------------------------------
// Note blocks
// ---------------------------------------------------------------------------

/// The HTML that pulldown-cmark renders for `markdown` with tables,
/// footnotes, strikethrough, task lists and smart punctuation enabled.
pub uninterp spec fn markdown_html(markdown: Seq<char>) -> Seq<char>;

/// Renders Markdown to HTML with `pulldown_cmark::Parser::new_ext` and
/// `pulldown_cmark::html::push_html`, enabling tables, footnotes,
/// strikethrough, task lists and smart punctuation. The contract only names
/// the result: it is `markdown_html` of the input.
#[verifier::external_body]
fn render_markdown_fragment(markdown: &str) -> (html: String)
    ensures
        html@ == markdown_html(markdown@),
{
    let mut options = pulldown_cmark::Options::empty();
    options.insert(pulldown_cmark::Options::ENABLE_TABLES);
    options.insert(pulldown_cmark::Options::ENABLE_FOOTNOTES);
    options.insert(pulldown_cmark::Options::ENABLE_STRIKETHROUGH);
    options.insert(pulldown_cmark::Options::ENABLE_TASKLISTS);
    options.insert(pulldown_cmark::Options::ENABLE_SMART_PUNCTUATION);
    let parser = pulldown_cmark::Parser::new_ext(markdown, options);
    let mut rendered = String::new();
    pulldown_cmark::html::push_html(&mut rendered, parser);
    rendered
}

/// The HTML of a note block of type `t` titled `title` whose body renders
/// to `body_html`.
pub open spec fn note_html(t: NoteType, title: Seq<char>, body_html: Seq<char>) -> Seq<char> {
    "<div class=\"book-note book-note-"@ + note_type_name(t) + "\">\n"@
        + "<p class=\"book-note-title\">"@ + escape(title) + "</p>\n"@ + body_html + (
    if ends_with_newline(body_html) {
        Seq::empty()
    } else {
        "\n"@
    }) + "</div>\n"@
}

/// The HTML of a note block, or `EmptyNote` when its trimmed body is empty.
pub open spec fn note_block(n: NoteView) -> Result<Seq<char>, Failure> {
    let md = trim(n.body);
    if md.len() == 0 {
        Err(Failure::EmptyNote(n.title))
    } else {
        Ok(note_html(n.note_type, n.title, markdown_html(md)))
    }
}

/// The HTML of a note block of type `note_type` titled `title` whose body
/// has been rendered to `body_html`.
pub fn render_note_html(note_type: NoteType, title: &str, body_html: &str) -> (r: String)
    ensures
        r@ == note_html(note_type, title@, body_html@),
{
    let mut out: Vec<char> = Vec::new();
    push_str(&mut out, "<div class=\"book-note book-note-");
    push_str(&mut out, note_type.as_class_suffix());
    push_str(&mut out, "\">\n");
    push_str(&mut out, "<p class=\"book-note-title\">");
    let escaped = escape_html(title);
    push_str(&mut out, escaped.as_str());
    push_str(&mut out, "</p>\n");
    push_str(&mut out, body_html);
    let html = str_to_chars(body_html);
    if !ends_with_newline_exec(html.as_slice()) {
        push_str(&mut out, "\n");
    }
    push_str(&mut out, "</div>\n");
    proof {
        let head = "<div class=\"book-note book-note-"@ + note_type_name(note_type) + "\">\n"@
            + "<p class=\"book-note-title\">"@ + escape(title@) + "</p>\n"@ + body_html@;
        if ends_with_newline(body_html@) {
            assert(head + Seq::<char>::empty() =~= head);
        }
    }
    chars_to_string(out.as_slice())
}

/// Renders a note block: its trimmed body as Markdown inside a titled
/// `div`; an empty body is `EmptyNote(title)`.
pub fn render_note_block(directive: &NoteDirective) -> (r: Result<String, PreprocessError>)
    ensures
        result_view(r) == note_block(directive@),
{
    let body = str_to_chars(directive.body.as_str());
    let md = trim_chars(body.as_slice());
    if md.len() == 0 {
        let title = str_to_chars(directive.title.as_str());
        return Err(PreprocessError::EmptyNote(chars_to_string(title.as_slice())));
    }
    let md_text = chars_to_string(md.as_slice());
    let html = render_markdown_fragment(md_text.as_str());
    Ok(render_note_html(directive.note_type, directive.title.as_str(), html.as_str()))
}

// ---------------------------------------------------------------------------
// Runnable example blocks
// ---------------------------------------------------------------------------

/// The character of the standard Base64 alphabet (RFC 4648) for the
/// six-bit value `v`: `A`-`Z`, `a`-`z`, `0`-`9`, `+`, `/`.
pub open spec fn base64_digit(v: int) -> char {
    if v < 26 {
        ((v + 65) as u32) as char
    } else if v < 52 {
        ((v + 71) as u32) as char
    } else if v < 62 {
        ((v - 4) as u32) as char
    } else if v == 62 {
        '+'
    } else {
        '/'
    }
}

/// The standard Base64 encoding (RFC 4648, with `=` padding) of `b`: each
/// group of three bytes becomes four characters of six bits each; a final
/// group of one or two bytes is padded with `=` to four characters.
pub open spec fn base64_standard(b: Seq<u8>) -> Seq<char>
    decreases b.len(),
{
    if b.len() == 0 {
        Seq::empty()
    } else if b.len() == 1 {
        seq![base64_digit((b[0] as int) / 4), base64_digit(((b[0] as int) % 4) * 16), '=', '=']
    } else if b.len() == 2 {
        seq![
            base64_digit((b[0] as int) / 4),
            base64_digit(((b[0] as int) % 4) * 16 + (b[1] as int) / 16),
            base64_digit(((b[1] as int) % 16) * 4),
            '=',
        ]
    } else {
        seq![
            base64_digit((b[0] as int) / 4),
            base64_digit(((b[0] as int) % 4) * 16 + (b[1] as int) / 16),
            base64_digit(((b[1] as int) % 16) * 4 + (b[2] as int) / 64),
            base64_digit((b[2] as int) % 64),
        ] + base64_standard(b.skip(3))
    }
}

/// Encodes bytes with `base64::engine::general_purpose::STANDARD`
/// (`Engine::encode`): the standard alphabet with `=` padding, as the
/// crate's `STANDARD` engine is built (`alphabet::STANDARD` and the padding
/// configuration `PAD`).
#[verifier::external_body]
fn base64_encode(bytes: &[u8]) -> (r: String)
    ensures
        r@ == base64_standard(bytes@),
{
    base64::engine::general_purpose::STANDARD.encode(bytes)
}

/// The digits of `n` in base ten.
pub open spec fn decimal(n: nat) -> Seq<char>
    decreases n,
{
    if n < 10 {
        seq![digit_char(n)]
    } else {
        decimal(n / 10).push(digit_char(n % 10))
    }
}

/// The character of a decimal digit.
pub open spec fn digit_char(d: nat) -> char {
    if d == 0 {
        '0'
    } else if d == 1 {
        '1'
    } else if d == 2 {
        '2'
    } else if d == 3 {
        '3'
    } else if d == 4 {
        '4'
    } else if d == 5 {
        '5'
    } else if d == 6 {
        '6'
    } else if d == 7 {
        '7'
    } else if d == 8 {
        '8'
    } else {
        '9'
    }
}

fn digit_exec(d: u64) -> (c: char)
    requires
        d < 10,
    ensures
        c == digit_char(d as nat),
{
    if d == 0 {
        '0'
    } else if d == 1 {
        '1'
    } else if d == 2 {
        '2'
    } else if d == 3 {
        '3'
    } else if d == 4 {
        '4'
    } else if d == 5 {
        '5'
    } else if d == 6 {
        '6'
    } else if d == 7 {
        '7'
    } else if d == 8 {
        '8'
    } else {
        '9'
    }
}

/// Appends the decimal digits of `n` to `out`.
pub fn push_decimal(out: &mut Vec<char>, n: u64)
    ensures
        final(out)@ == old(out)@ + decimal(n as nat),
    decreases n,
{
    if n >= 10 {
        push_decimal(out, n / 10);
    }
    out.push(digit_exec(n % 10));
    proof {
        if n >= 10 {
            assert(decimal(n as nat) == decimal((n / 10) as nat).push(digit_char((n % 10) as nat)));
        } else {
            assert(decimal(n as nat) == seq![digit_char(n as nat)]);
        }
    }
}

/// `s` in double quotes.
pub open spec fn quoted(s: Seq<char>) -> Seq<char> {
    seq!['"'] + s + seq!['"']
}

/// The quoted items, separated by commas.
pub open spec fn quoted_list(items: Seq<Seq<char>>) -> Seq<char>
    decreases items.len(),
{
    if items.len() == 0 {
        Seq::empty()
    } else if items.len() == 1 {
        quoted(items[0])
    } else {
        quoted_list(items.drop_last()) + seq![','] + quoted(items.last())
    }
}

/// The JSON object that tells the page how to replay an example: the delay,
/// the mode and the Base64-encoded outputs, keys in sorted order and no
/// spaces.
pub open spec fn output_payload(outputs_base64: Seq<Seq<char>>, delay_ms: u64, mode: ExampleMode) -> Seq<
    char,
> {
    "{\"delay_ms\":"@ + decimal(delay_ms as nat) + ",\"mode\":\""@ + mode_name(mode)
        + "\",\"outputs_base64\":["@ + quoted_list(outputs_base64) + "]}"@
}

/// The script element that carries the replay payload.
pub open spec fn output_script(outputs_base64: Seq<Seq<char>>, delay_ms: u64, mode: ExampleMode) -> Seq<
    char,
> {
    "<script type=\"application/json\" class=\"runnable-example-output\">\n"@ + output_payload(
        outputs_base64,
        delay_ms,
        mode,
    ) + "\n</script>"@
}

/// The Markdown code block that shows an example whose displayed source is
/// `display`; it is marked runnable when examples are enabled.
pub open spec fn code_block(enabled: bool, display: Seq<char>) -> Seq<char> {
    "```rust"@ + (if enabled {
        ",runnable-example"@
    } else {
        Seq::empty()
    }) + "\n"@ + display + (if ends_with_newline(display) {
        Seq::empty()
    } else {
        "\n"@
    }) + "```\n"@
}

/// The Base64 encodings of the UTF-8 bytes of each output.
pub open spec fn encoded_outputs(outputs: Seq<Seq<char>>) -> Seq<Seq<char>> {
    outputs.map_values(|o: Seq<char>| base64_standard(encode_utf8(o)))
}

/// Renders the code block that shows an example's source with hidden lines
/// left out.
pub fn render_code_block(enabled: bool, source: &str) -> (r: String)
    ensures
        r@ == code_block(enabled, display_source(source@)),
{
    let display = render_display_source(source);
    let d = str_to_chars(display.as_str());
    let mut out: Vec<char> = Vec::new();
    push_str(&mut out, "```rust");
    if enabled {
        push_str(&mut out, ",runnable-example");
    }
    push_str(&mut out, "\n");
    push_all(&mut out, d.as_slice());
    if !ends_with_newline_exec(d.as_slice()) {
        push_str(&mut out, "\n");
    }
    push_str(&mut out, "```\n");
    proof {
        let a = "```rust"@;
        if !enabled {
            assert(a + Seq::<char>::empty() =~= a);
        }
        let b = "```rust"@ + (if enabled {
            ",runnable-example"@
        } else {
            Seq::empty()
        }) + "\n"@ + d@;
        if ends_with_newline(d@) {
            assert(b + Seq::<char>::empty() =~= b);
        }
    }
    chars_to_string(out.as_slice())
}

/// Renders the script element that carries the Base64-encoded outputs, the
/// delay and the mode of an example.
pub fn render_output_script(outputs_base64: &Vec<String>, delay_ms: u64, mode: ExampleMode) -> (r:
    String)
    ensures
        r@ == output_script(string_views(outputs_base64@), delay_ms, mode),
{
    let ghost ov = string_views(outputs_base64@);
    let mut out: Vec<char> = Vec::new();
    push_str(&mut out, "<script type=\"application/json\" class=\"runnable-example-output\">\n");
    push_str(&mut out, "{\"delay_ms\":");
    push_decimal(&mut out, delay_ms);
    push_str(&mut out, ",\"mode\":\"");
    push_str(&mut out, mode.as_str());
    push_str(&mut out, "\",\"outputs_base64\":[");
    let ghost start = out@;
    let mut i: usize = 0;
    while i < outputs_base64.len()
        invariant
            i <= outputs_base64@.len(),
            ov == string_views(outputs_base64@),
            out@ == start + quoted_list(ov.take(i as int)),
        decreases outputs_base64@.len() - i,
    {
        let item = str_to_chars(outputs_base64[i].as_str());
        assert(ov[i as int] == item@);
        let ghost before = out@;
        if i > 0 {
            out.push(',');
        }
        out.push('"');
        push_all(&mut out, item.as_slice());
        out.push('"');
        proof {
            let t = ov.take(i + 1);
            assert(t.drop_last() == ov.take(i as int));
            assert(t.last() == item@);
            if i == 0 {
                assert(ov.take(0) =~= Seq::<Seq<char>>::empty());
                assert(t[0] == item@);
                assert(out@ =~= start + quoted(item@));
            } else {
                assert(out@ =~= before + (seq![','] + quoted(item@)));
            }
        }
        i = i + 1;
    }
    assert(ov.take(outputs_base64@.len() as int) == ov);
    push_str(&mut out, "]}");
    push_str(&mut out, "\n</script>");
    chars_to_string(out.as_slice())
}

/// Renders a runnable example from its source and, when examples are
/// enabled, its recorded artifact.
pub open spec fn runnable_html(
    enabled: bool,
    delay_ms: u64,
    source: Seq<char>,
    artifact: ArtifactView,
) -> Seq<char> {
    code_block(enabled, display_source(source)) + if enabled {
        output_script(encoded_outputs(artifact.outputs), delay_ms, artifact.mode)
    } else {
        Seq::empty()
    }
}

/// The items, each in double quotes, separated by commas, read from the
/// front.
pub open spec fn json_string_list(items: Seq<Seq<char>>) -> Seq<char>
    decreases items.len(),
{
    if items.len() == 0 {
        Seq::empty()
    } else if items.len() == 1 {
        seq!['"'] + items[0] + seq!['"']
    } else {
        seq!['"'] + items[0] + seq!['"', ','] + json_string_list(items.skip(1))
    }
}

proof fn lemma_json_string_list_push(xs: Seq<Seq<char>>, x: Seq<char>)
    requires
        xs.len() >= 1,
    ensures
        json_string_list(xs.push(x)) == json_string_list(xs) + seq![','] + seq!['"'] + x + seq!['"'],
    decreases xs.len(),
{
    let ys = xs.push(x);
    if xs.len() == 1 {
        assert(ys.skip(1) =~= seq![x]);
        assert(json_string_list(seq![x]) == seq!['"'] + x + seq!['"']);
    } else {
        lemma_json_string_list_push(xs.skip(1), x);
        assert(ys.skip(1) =~= xs.skip(1).push(x));
    }
}

proof fn lemma_quoted_list_from_front(xs: Seq<Seq<char>>)
    ensures
        quoted_list(xs) == json_string_list(xs),
    decreases xs.len(),
{
    if xs.len() >= 2 {
        lemma_quoted_list_from_front(xs.drop_last());
        lemma_json_string_list_push(xs.drop_last(), xs.last());
        assert(xs.drop_last().push(xs.last()) =~= xs);
    } else if xs.len() == 1 {
        assert(xs[0] == xs.last());
    }
}

/// A rendered runnable example shows its source in a Rust code block and,
/// when examples are enabled, a script whose JSON payload holds the delay,
/// the mode and the Base64 of the UTF-8 bytes of every recorded output, one
/// quoted item per output, in the order the outputs were recorded.
pub proof fn lemma_runnable_html_replays_every_output(
    delay_ms: u64,
    source: Seq<char>,
    artifact: ArtifactView,
)
    ensures
        runnable_html(false, delay_ms, source, artifact) == code_block(false, display_source(source)),
        runnable_html(true, delay_ms, source, artifact) == code_block(true, display_source(source))
            + "<script type=\"application/json\" class=\"runnable-example-output\">\n{\"delay_ms\":"@
            + decimal(delay_ms as nat) + ",\"mode\":\""@ + mode_name(artifact.mode)
            + "\",\"outputs_base64\":["@ + json_string_list(
            Seq::new(
                artifact.outputs.len(),
                |i: int| base64_standard(encode_utf8(artifact.outputs[i])),
            ),
        ) + "]}\n</script>"@,
{
    let items = Seq::new(
        artifact.outputs.len(),
        |i: int| base64_standard(encode_utf8(artifact.outputs[i])),
    );
    assert(encoded_outputs(artifact.outputs) =~= items);
    lemma_quoted_list_from_front(items);
    assert(code_block(false, display_source(source)) + Seq::<char>::empty() =~= code_block(
        false,
        display_source(source),
    ));
    let open = "<script type=\"application/json\" class=\"runnable-example-output\">\n"@;
    let head = "{\"delay_ms\":"@;
    reveal_strlit("<script type=\"application/json\" class=\"runnable-example-output\">\n{\"delay_ms\":");
    reveal_strlit("<script type=\"application/json\" class=\"runnable-example-output\">\n");
    reveal_strlit("{\"delay_ms\":");
    assert(open + head =~= "<script type=\"application/json\" class=\"runnable-example-output\">\n{\"delay_ms\":"@);
    reveal_strlit("]}");
    reveal_strlit("\n</script>");
    reveal_strlit("]}\n</script>");
    assert("]}"@ + "\n</script>"@ =~= "]}\n</script>"@);
    let dec = decimal(delay_ms as nat);
    let m1 = ",\"mode\":\""@;
    let nm = mode_name(artifact.mode);
    let m2 = "\",\"outputs_base64\":["@;
    let list = json_string_list(items);
    let code = code_block(true, display_source(source));
    assert(runnable_html(true, delay_ms, source, artifact) == code + (open + (head + dec + m1 + nm
        + m2 + list + "]}"@) + "\n</script>"@));
    assert(code + (open + (head + dec + m1 + nm + m2 + list + "]}"@) + "\n</script>"@) =~= code + (
    open + head) + dec + m1 + nm + m2 + list + ("]}"@ + "\n</script>"@));
}

/// The loaded files of one runnable example: its source and, when examples
/// are enabled, its recorded artifact, each with the path it was read from
/// and, when reading failed, why.
#[derive(Debug)]
pub struct ExampleFile {
    /// The path as written in the directive.
    pub rel_path: String,
    pub source_path: String,
    pub source: Result<String, String>,
    pub artifact_path: String,
    pub artifact: Result<RunnableArtifact, String>,
}

/// The mathematical value of an [`ExampleFile`].
pub struct ExampleFileView {
    pub rel_path: Seq<char>,
    pub source_path: Seq<char>,
    pub source: Result<Seq<char>, Seq<char>>,
    pub artifact_path: Seq<char>,
    pub artifact: Result<ArtifactView, Seq<char>>,
}

impl View for ExampleFile {
    type V = ExampleFileView;

    open spec fn view(&self) -> ExampleFileView {
        ExampleFileView {
            rel_path: self.rel_path@,
            source_path: self.source_path@,
            source: match self.source {
                Ok(s) => Ok(s@),
                Err(e) => Err(e@),
            },
            artifact_path: self.artifact_path@,
            artifact: match self.artifact {
                Ok(a) => Ok(a@),
                Err(e) => Err(e@),
            },
        }
    }
}

/// The views of a sequence of example files.
pub open spec fn file_views(files: Seq<ExampleFile>) -> Seq<ExampleFileView> {
    files.map_values(|f: ExampleFile| f@)
}

/// Index of the first file at or after `i` loaded for the path `p`.
pub open spec fn find_file(files: Seq<ExampleFileView>, p: Seq<char>, i: int) -> Option<int>
    decreases files.len() - i,
{
    if i < 0 || i >= files.len() {
        None
    } else if files[i].rel_path == p {
        Some(i)
    } else {
        find_file(files, p, i + 1)
    }
}

/// The artifact that was loaded for the directive, or the error that
/// reading it gave.
pub open spec fn artifact_for(files: Seq<ExampleFileView>, d: DirectiveView) -> Result<
    ArtifactView,
    Failure,
> {
    match find_file(files, d.rel_path, 0) {
        None => Err(Failure::ExampleNotLoaded(d.rel_path)),
        Some(k) => match files[k].artifact {
            Ok(a) => Ok(a),
            Err(cause) => Err(Failure::ArtifactUnreadable(files[k].artifact_path, cause)),
        },
    }
}

/// The rendered block for a runnable directive, or why it cannot be
/// rendered: the example was not loaded, its source could not be read, or
/// (when examples are enabled) its artifact could not be read.
pub open spec fn runnable_block(
    enabled: bool,
    delay_ms: u64,
    files: Seq<ExampleFileView>,
    d: DirectiveView,
) -> Result<Seq<char>, Failure> {
    match find_file(files, d.rel_path, 0) {
        None => Err(Failure::ExampleNotLoaded(d.rel_path)),
        Some(k) => match files[k].source {
            Err(cause) => Err(Failure::ExampleUnreadable(files[k].source_path, cause)),
            Ok(src) => if !enabled {
                Ok(code_block(false, display_source(src)))
            } else {
                match artifact_for(files, d) {
                    Err(e) => Err(e),
                    Ok(a) => Ok(runnable_html(true, delay_ms, src, a)),
                }
            },
        },
    }
}

fn find_file_exec(files: &Vec<ExampleFile>, p: &str) -> (r: Option<usize>)
    ensures
        r matches Some(k) ==> find_file(file_views(files@), p@, 0) == Some(k as int) && k
            < files@.len(),
        r is None ==> find_file(file_views(files@), p@, 0) is None,
{
    let ghost fv = file_views(files@);
    let want = str_to_chars(p);
    let mut i: usize = 0;
    while i < files.len()
        invariant
            i <= files@.len(),
            fv == file_views(files@),
            want@ == p@,
            find_file(fv, p@, 0) == find_file(fv, p@, i as int),
        decreases files@.len() - i,
    {
        let have = str_to_chars(files[i].rel_path.as_str());
        assert(fv[i as int].rel_path == have@);
        if chars_eq(have.as_slice(), want.as_slice()) {
            return Some(i);
        }
        i = i + 1;
    }
    None
}

/// A copy of a character vector.
pub fn clone_chars(v: &Vec<char>) -> (r: Vec<char>)
    ensures
        r@ == v@,
{
    let mut r: Vec<char> = Vec::new();
    push_all(&mut r, v.as_slice());
    r
}

/// A copy of a list of strings.
pub fn clone_strings(v: &Vec<String>) -> (r: Vec<String>)
    ensures
        string_views(r@) == string_views(v@),
{
    let mut r: Vec<String> = Vec::new();
    let mut i: usize = 0;
    while i < v.len()
        invariant
            i <= v@.len(),
            string_views(r@) == string_views(v@).take(i as int),
        decreases v@.len() - i,
    {
        let s = v[i].clone();
        assert(s@ == string_views(v@)[i as int]);
        proof {
            lemma_string_views_push(r@, s);
            assert(string_views(v@).take(i + 1) =~= string_views(v@).take(i as int).push(s@));
        }
        r.push(s);
        i = i + 1;
    }
    assert(string_views(v@).take(v@.len() as int) =~= string_views(v@));
    r
}

/// A copy of an artifact.
pub fn clone_artifact(a: &RunnableArtifact) -> (r: RunnableArtifact)
    ensures
        r@ == a@,
{
    RunnableArtifact {
        mode: a.mode,
        source_hash: a.source_hash.clone(),
        outputs: clone_strings(&a.outputs),
    }
}

/// The artifact loaded for the directive; an example that was not loaded is
/// `ExampleNotLoaded`, an artifact that could not be read is
/// `ArtifactUnreadable`.
pub fn read_artifact_for_directive(files: &Vec<ExampleFile>, directive: &RunnableDirective) -> (r:
    Result<RunnableArtifact, PreprocessError>)
    ensures
        result_view(r) == artifact_for(file_views(files@), directive@),
{
    match find_file_exec(files, directive.rel_path.as_str()) {
        None => Err(PreprocessError::ExampleNotLoaded(directive.rel_path.clone())),
        Some(k) => {
            let f = &files[k];
            assert(file_views(files@)[k as int] == f@);
            match &f.artifact {
                Ok(a) => Ok(clone_artifact(a)),
                Err(cause) => Err(
                    PreprocessError::ArtifactUnreadable {
                        path: f.artifact_path.clone(),
                        cause: cause.clone(),
                    },
                ),
            }
        },
    }
}

/// The Base64 encodings of the UTF-8 bytes of each output.
pub fn encode_outputs(outputs: &Vec<String>) -> (r: Vec<String>)
    ensures
        string_views(r@) == encoded_outputs(string_views(outputs@)),
{
    let mut r: Vec<String> = Vec::new();
    let mut i: usize = 0;
    while i < outputs.len()
        invariant
            i <= outputs@.len(),
            string_views(r@) == encoded_outputs(string_views(outputs@)).take(i as int),
        decreases outputs@.len() - i,
    {
        let bytes = outputs[i].as_str().as_bytes();
        let e = base64_encode(bytes);
        proof {
            assert(string_views(outputs@)[i as int] == outputs@[i as int]@);
            assert(e@ == encoded_outputs(string_views(outputs@))[i as int]);
            lemma_string_views_push(r@, e);
            assert(encoded_outputs(string_views(outputs@)).take(i + 1) =~= encoded_outputs(
                string_views(outputs@),
            ).take(i as int).push(e@));
        }
        r.push(e);
        i = i + 1;
    }
    assert(encoded_outputs(string_views(outputs@)).take(outputs@.len() as int)
        =~= encoded_outputs(string_views(outputs@)));
    r
}

/// Renders a runnable directive: the example's source in a Rust code block
/// with hidden lines left out and, when examples are enabled, a script
/// element carrying its recorded outputs.
pub fn render_runnable_block(
    settings: &Settings,
    directive: &RunnableDirective,
    files: &Vec<ExampleFile>,
) -> (r: Result<String, PreprocessError>)
    ensures
        result_view(r) == runnable_block(
            settings.enabled,
            settings.fake_running_ms,
            file_views(files@),
            directive@,
        ),
{
    let k = match find_file_exec(files, directive.rel_path.as_str()) {
        None => {
            return Err(PreprocessError::ExampleNotLoaded(directive.rel_path.clone()));
        },
        Some(k) => k,
    };
    let f = &files[k];
    assert(file_views(files@)[k as int] == f@);
    let source = match &f.source {
        Ok(s) => s,
        Err(cause) => {
            return Err(
                PreprocessError::ExampleUnreadable {
                    path: f.source_path.clone(),
                    cause: cause.clone(),
                },
            );
        },
    };
    let block = render_code_block(settings.enabled, source.as_str());
    if !settings.enabled {
        return Ok(block);
    }
    let artifact = match read_artifact_for_directive(files, directive) {
        Ok(a) => a,
        Err(e) => {
            return Err(e);
        },
    };
    let encoded = encode_outputs(&artifact.outputs);
    let script = render_output_script(&encoded, settings.fake_running_ms, artifact.mode);
    let mut out = str_to_chars(block.as_str());
    let s = str_to_chars(script.as_str());
    push_all(&mut out, s.as_slice());
    Ok(chars_to_string(out.as_slice()))
}

} // verus!
