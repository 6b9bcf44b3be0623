use mdbook_runnable_examples::artifact::{RunnableArtifact, Settings};
use mdbook_runnable_examples::directive::RunnableDirective;
use mdbook_runnable_examples::error::PreprocessError;
use mdbook_runnable_examples::expand::{expand_directives, find_runnable_directives};
use mdbook_runnable_examples::mode::{ExampleMode, NoteType};
use mdbook_runnable_examples::note::NoteDirective;
use mdbook_runnable_examples::render::{
    escape_html, read_artifact_for_directive, render_code_block, render_display_source,
    render_execution_source, render_note_block, render_note_html, render_output_script,
    render_runnable_block, ExampleFile,
};

fn settings(enabled: bool) -> Settings {
    Settings::from_config(Some(enabled), None, None, None, None, None, None)
}

fn file(rel: &str, source: &str, artifact: Option<RunnableArtifact>) -> ExampleFile {
    ExampleFile {
        rel_path: rel.to_string(),
        source_path: format!("/book/{rel}"),
        source: Ok(source.to_string()),
        artifact_path: format!("/book/out/{rel}.samples.json"),
        artifact: artifact.ok_or_else(|| "missing".to_string()),
    }
}

#[test]
fn escaping_html() {
    assert_eq!(escape_html("a & b < c > d \" e ' f"), "a &amp; b &lt; c &gt; d &quot; e &#39; f");
    assert_eq!(escape_html("plain"), "plain");
    assert_eq!(escape_html("&amp;"), "&amp;amp;");
    assert_eq!(escape_html(""), "");
}

#[test]
fn display_source_hides_hash_lines() {
    let src = "# use std::io;\n#\nfn main() {\n    # hidden\n    println!(\"hi\");\n}\n";
    assert_eq!(render_display_source(src), "fn main() {\n    # hidden\n    println!(\"hi\");\n}\n");
    assert_eq!(render_display_source("a\n# b"), "a");
    assert_eq!(render_display_source("# a\nb"), "b");
    assert_eq!(render_display_source("#x\n"), "#x\n");
    assert_eq!(render_display_source(""), "");
}

#[test]
fn execution_source_uncovers_hash_lines() {
    let src = "# use std::io;\n#\nfn main() {}\n";
    assert_eq!(render_execution_source(src), "use std::io;\nfn main() {}\n");
    assert_eq!(render_execution_source("a\n# b"), "a\nb");
    assert_eq!(render_execution_source("a\n#"), "a");
    assert_eq!(render_execution_source("#x\n#  y\n"), "#x\n y\n");
}

#[test]
fn sources_without_hidden_lines_are_unchanged() {
    let src = "use bitcoin::Network;\n\nfn main() {\n    println!(\"{}\", Network::Bitcoin);\n}\n";
    assert_eq!(render_display_source(src), src);
    assert_eq!(render_execution_source(src), src);
}

#[test]
fn note_html_layout() {
    assert_eq!(
        render_note_html(NoteType::Tip, "A <b>", "<p>x</p>\n"),
        "<div class=\"book-note book-note-tip\">\n<p class=\"book-note-title\">A &lt;b&gt;</p>\n<p>x</p>\n</div>\n"
    );
    assert_eq!(
        render_note_html(NoteType::Caution, "C", "x"),
        "<div class=\"book-note book-note-caution\">\n<p class=\"book-note-title\">C</p>\nx\n</div>\n"
    );
}

#[test]
fn note_block_renders_markdown() {
    let n = NoteDirective {
        note_type: NoteType::Note,
        title: "Note".to_string(),
        body: "\n  Use `cargo` *now*.\n\n".to_string(),
    };
    assert_eq!(
        render_note_block(&n).unwrap(),
        "<div class=\"book-note book-note-note\">\n<p class=\"book-note-title\">Note</p>\n<p>Use <code>cargo</code> <em>now</em>.</p>\n</div>\n"
    );
}

#[test]
fn empty_note_block_is_an_error() {
    let n = NoteDirective { note_type: NoteType::Tip, title: "T".to_string(), body: " \n\t\n".to_string() };
    match render_note_block(&n) {
        Err(PreprocessError::EmptyNote(t)) => assert_eq!(t, "T"),
        other => panic!("unexpected {other:?}"),
    }
}

#[test]
fn code_block_marks_runnable() {
    assert_eq!(render_code_block(false, "fn main() {}"), "```rust\nfn main() {}\n```\n");
    assert_eq!(render_code_block(true, "fn main() {}\n"), "```rust,runnable-example\nfn main() {}\n```\n");
}

#[test]
fn output_script_payload() {
    let outs = vec!["aGk=".to_string(), "eW8K".to_string()];
    assert_eq!(
        render_output_script(&outs, 180, ExampleMode::Nondeterministic),
        "<script type=\"application/json\" class=\"runnable-example-output\">\n{\"delay_ms\":180,\"mode\":\"nondeterministic\",\"outputs_base64\":[\"aGk=\",\"eW8K\"]}\n</script>"
    );
    assert_eq!(
        render_output_script(&vec![], 0, ExampleMode::Deterministic),
        "<script type=\"application/json\" class=\"runnable-example-output\">\n{\"delay_ms\":0,\"mode\":\"deterministic\",\"outputs_base64\":[]}\n</script>"
    );
}

#[test]
fn runnable_block_with_outputs() {
    let artifact = RunnableArtifact {
        mode: ExampleMode::Deterministic,
        source_hash: "h".to_string(),
        outputs: vec!["hi".to_string()],
    };
    let files = vec![file("ex.rs", "# use x;\nfn main() {}\n", Some(artifact))];
    let d = RunnableDirective { rel_path: "ex.rs".to_string(), mode: ExampleMode::Auto };
    let s = Settings::from_config(Some(true), None, None, None, None, Some(25), None);
    let block = render_runnable_block(&s, &d, &files).unwrap();
    assert_eq!(
        block,
        "```rust,runnable-example\nfn main() {}\n```\n<script type=\"application/json\" class=\"runnable-example-output\">\n{\"delay_ms\":25,\"mode\":\"deterministic\",\"outputs_base64\":[\"aGk=\"]}\n</script>"
    );
    let plain = render_runnable_block(&settings(false), &d, &files).unwrap();
    assert_eq!(plain, "```rust\nfn main() {}\n```\n");
}

#[test]
fn runnable_block_errors() {
    let d = RunnableDirective { rel_path: "ex.rs".to_string(), mode: ExampleMode::Auto };
    assert!(matches!(
        render_runnable_block(&settings(false), &d, &vec![]),
        Err(PreprocessError::ExampleNotLoaded(_))
    ));
    let missing = vec![ExampleFile {
        rel_path: "ex.rs".to_string(),
        source_path: "/book/ex.rs".to_string(),
        source: Err("No such file".to_string()),
        artifact_path: String::new(),
        artifact: Err(String::new()),
    }];
    match render_runnable_block(&settings(false), &d, &missing) {
        Err(PreprocessError::ExampleUnreadable { path, cause }) => {
            assert_eq!(path, "/book/ex.rs");
            assert_eq!(cause, "No such file");
        }
        other => panic!("unexpected {other:?}"),
    }
    let no_artifact = vec![file("ex.rs", "fn main() {}\n", None)];
    assert!(render_runnable_block(&settings(false), &d, &no_artifact).is_ok());
    match render_runnable_block(&settings(true), &d, &no_artifact) {
        Err(PreprocessError::ArtifactUnreadable { path, cause }) => {
            assert_eq!(path, "/book/out/ex.rs.samples.json");
            assert_eq!(cause, "missing");
        }
        other => panic!("unexpected {other:?}"),
    }
    assert!(read_artifact_for_directive(&no_artifact, &d).is_err());
}

#[test]
fn find_directives_skips_fences_and_notes() {
    let content = "# Title\n\n{{#runnable a.rs mode=deterministic}}\n```md\n{{#runnable hidden.rs}}\n```\n{{#note tip}}\n{{#runnable in_note.rs}}\n{{/note}}\n  {{#runnable b.rs}}  \n";
    let ds = find_runnable_directives(content).unwrap();
    assert_eq!(ds.len(), 2);
    assert_eq!(ds[0].rel_path, "a.rs");
    assert_eq!(ds[0].mode, ExampleMode::Deterministic);
    assert_eq!(ds[1].rel_path, "b.rs");
    assert_eq!(ds[1].mode, ExampleMode::Auto);
}

#[test]
fn find_directives_errors() {
    assert!(matches!(
        find_runnable_directives("{{#note tip}}\nbody\n"),
        Err(PreprocessError::UnterminatedNote)
    ));
    assert!(matches!(
        find_runnable_directives("{{#runnable a.rs sometimes}}\n"),
        Err(PreprocessError::UnsupportedOption(_))
    ));
    // a note header is not checked when only looking for examples
    assert_eq!(find_runnable_directives("{{#note bogus}}\n{{/note}}\n").unwrap().len(), 0);
}

#[test]
fn expanding_notes_and_fences() {
    let content = "Intro\n```md\n{{#note tip}}\n```\n{{#note note title=\"Runnable Examples\"}}\nThis note uses a custom title.\n{{/note}}\nAfter\n";
    let out = expand_directives(content, &settings(false), &vec![]).unwrap();
    assert_eq!(
        out,
        "Intro\n```md\n{{#note tip}}\n```\n<div class=\"book-note book-note-note\">\n<p class=\"book-note-title\">Runnable Examples</p>\n<p>This note uses a custom title.</p>\n</div>\nAfter\n"
    );
}

#[test]
fn expanding_runnable_directive() {
    let files = vec![file("ex.rs", "fn main() {}", None)];
    let out = expand_directives("Before\n{{#runnable ex.rs}}\nAfter", &settings(false), &files).unwrap();
    assert_eq!(out, "Before\n```rust\nfn main() {}\n```\nAfter");
}

#[test]
fn expanding_plain_text_is_identity() {
    let content = "# Heading\n\nSome *text* with {{#include x}} and ~~ and ``.\r\nLast line";
    assert_eq!(expand_directives(content, &settings(true), &vec![]).unwrap(), content);
    assert_eq!(expand_directives("", &settings(true), &vec![]).unwrap(), "");
}

#[test]
fn expanding_errors() {
    assert!(matches!(
        expand_directives("{{#note tip}}\nx\n", &settings(false), &vec![]),
        Err(PreprocessError::UnterminatedNote)
    ));
    assert!(matches!(
        expand_directives("{{#note tip}}\n\n{{/note}}\n", &settings(false), &vec![]),
        Err(PreprocessError::EmptyNote(_))
    ));
    assert!(matches!(
        expand_directives("{{#note bogus}}\nx\n{{/note}}\n", &settings(false), &vec![]),
        Err(PreprocessError::UnsupportedNoteType(_))
    ));
    assert!(matches!(
        expand_directives("{{#runnable missing.rs}}\n", &settings(false), &vec![]),
        Err(PreprocessError::ExampleNotLoaded(_))
    ));
}
