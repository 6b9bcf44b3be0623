use mdbook_runnable_examples::directive::{
    is_matching_fence_close, parse_fence_delimiter, parse_runnable_directive_body,
    parse_runnable_line, parse_note_start_line, FenceDelimiter,
};
use mdbook_runnable_examples::error::PreprocessError;
use mdbook_runnable_examples::mode::{merge_example_modes, ExampleMode, NoteType};
use mdbook_runnable_examples::note::parse_note_directive_header;

#[test]
fn example_mode_tokens_round_trip() {
    for mode in [ExampleMode::Auto, ExampleMode::Deterministic, ExampleMode::Nondeterministic] {
        assert_eq!(ExampleMode::from_token(mode.as_str()).unwrap(), mode);
    }
    assert_eq!(ExampleMode::Auto.as_str(), "auto");
    assert_eq!(ExampleMode::Deterministic.as_str(), "deterministic");
    assert_eq!(ExampleMode::Nondeterministic.as_str(), "nondeterministic");
}

#[test]
fn example_mode_rejects_unknown_token() {
    match ExampleMode::from_token("sometimes") {
        Err(PreprocessError::UnsupportedMode(t)) => assert_eq!(t, "sometimes"),
        other => panic!("unexpected {other:?}"),
    }
    assert!(ExampleMode::from_token("Auto").is_err());
    assert!(ExampleMode::from_token("").is_err());
}

#[test]
fn note_type_tokens_and_titles() {
    let cases = [
        ("note", NoteType::Note, "Note"),
        ("tip", NoteType::Tip, "Tip"),
        ("important", NoteType::Important, "Important"),
        ("warning", NoteType::Warning, "Warning"),
        ("caution", NoteType::Caution, "Caution"),
    ];
    for (token, ty, title) in cases {
        assert_eq!(NoteType::from_token(token).unwrap(), ty);
        assert_eq!(ty.as_class_suffix(), token);
        assert_eq!(ty.default_title(), title);
    }
    match NoteType::from_token("danger") {
        Err(PreprocessError::UnsupportedNoteType(t)) => assert_eq!(t, "danger"),
        other => panic!("unexpected {other:?}"),
    }
}

#[test]
fn merging_modes() {
    assert_eq!(merge_example_modes(ExampleMode::Auto, ExampleMode::Auto).unwrap(), ExampleMode::Auto);
    assert_eq!(merge_example_modes(ExampleMode::Auto, ExampleMode::Deterministic).unwrap(), ExampleMode::Deterministic);
    assert_eq!(merge_example_modes(ExampleMode::Nondeterministic, ExampleMode::Auto).unwrap(), ExampleMode::Nondeterministic);
    assert_eq!(merge_example_modes(ExampleMode::Deterministic, ExampleMode::Deterministic).unwrap(), ExampleMode::Deterministic);
    assert!(matches!(
        merge_example_modes(ExampleMode::Deterministic, ExampleMode::Nondeterministic),
        Err(PreprocessError::ConflictingModes)
    ));
    assert!(matches!(
        merge_example_modes(ExampleMode::Nondeterministic, ExampleMode::Deterministic),
        Err(PreprocessError::ConflictingModes)
    ));
}

#[test]
fn runnable_body_with_mode_option() {
    let d = parse_runnable_directive_body(
        "runnable_examples/examples/getting_started/first_tiny_program.rs mode=nondeterministic",
    )
    .unwrap();
    assert_eq!(d.rel_path, "runnable_examples/examples/getting_started/first_tiny_program.rs");
    assert_eq!(d.mode, ExampleMode::Nondeterministic);
}

#[test]
fn runnable_body_defaults_to_auto_and_last_option_wins() {
    let d = parse_runnable_directive_body("a.rs").unwrap();
    assert_eq!(d.rel_path, "a.rs");
    assert_eq!(d.mode, ExampleMode::Auto);
    let d = parse_runnable_directive_body("  a.rs\tdeterministic  nondeterministic mode=auto ")
        .unwrap();
    assert_eq!(d.mode, ExampleMode::Auto);
    let d = parse_runnable_directive_body("a.rs auto deterministic").unwrap();
    assert_eq!(d.mode, ExampleMode::Deterministic);
}

#[test]
fn runnable_body_errors() {
    assert!(matches!(
        parse_runnable_directive_body("   "),
        Err(PreprocessError::MissingRunnablePath)
    ));
    match parse_runnable_directive_body("a.rs mode=fast") {
        Err(PreprocessError::UnsupportedMode(t)) => assert_eq!(t, "fast"),
        other => panic!("unexpected {other:?}"),
    }
    match parse_runnable_directive_body("a.rs mode=") {
        Err(PreprocessError::UnsupportedMode(t)) => assert_eq!(t, ""),
        other => panic!("unexpected {other:?}"),
    }
    match parse_runnable_directive_body("a.rs quick mode=bogus") {
        Err(PreprocessError::UnsupportedOption(t)) => assert_eq!(t, "quick"),
        other => panic!("unexpected {other:?}"),
    }
}

#[test]
fn runnable_and_note_lines() {
    assert_eq!(
        parse_runnable_line("{{#runnable  a/b.rs mode=auto }}").as_deref(),
        Some("a/b.rs mode=auto")
    );
    assert_eq!(parse_runnable_line("{{#runnable }}").as_deref(), Some(""));
    assert_eq!(parse_runnable_line("{{#runnable a.rs}"), None);
    assert_eq!(parse_runnable_line("{{#runnablea.rs}}"), None);
    assert_eq!(parse_runnable_line("x {{#runnable a.rs}}"), None);
    assert_eq!(parse_note_start_line("{{#note tip}}").as_deref(), Some("tip"));
    assert_eq!(
        parse_note_start_line("{{#note note title=\"A B\"   }}").as_deref(),
        Some("note title=\"A B\"")
    );
    assert_eq!(parse_note_start_line("{{/note}}"), None);
}

#[test]
fn note_headers() {
    let n = parse_note_directive_header("note").unwrap();
    assert_eq!(n.note_type, NoteType::Note);
    assert_eq!(n.title, "Note");
    assert_eq!(n.body, "");
    let n = parse_note_directive_header("note title=\"Runnable Examples\"").unwrap();
    assert_eq!(n.note_type, NoteType::Note);
    assert_eq!(n.title, "Runnable Examples");
    let n = parse_note_directive_header("warning \t title=\"Careful: \u{00e9}t\u{00e9}\"  ").unwrap();
    assert_eq!(n.note_type, NoteType::Warning);
    assert_eq!(n.title, "Careful: \u{00e9}t\u{00e9}");
    let n = parse_note_directive_header("tip  ").unwrap();
    assert_eq!(n.title, "Tip");
}

#[test]
fn note_header_errors() {
    for bad in ["", "Note", "note title=\"\"", "note title=x", "note title=\"a\" b", "note2", "notetitle=\"a\""] {
        match parse_note_directive_header(bad) {
            Err(PreprocessError::InvalidNoteDirective(t)) => assert_eq!(t, bad),
            other => panic!("unexpected for {bad:?}: {other:?}"),
        }
    }
    match parse_note_directive_header("danger title=\"x\"") {
        Err(PreprocessError::UnsupportedNoteType(t)) => assert_eq!(t, "danger"),
        other => panic!("unexpected {other:?}"),
    }
}

#[test]
fn fences() {
    assert_eq!(parse_fence_delimiter("```"), Some(FenceDelimiter { ch: '`', len: 3 }));
    assert_eq!(parse_fence_delimiter("````rust"), Some(FenceDelimiter { ch: '`', len: 4 }));
    assert_eq!(parse_fence_delimiter("~~~~~"), Some(FenceDelimiter { ch: '~', len: 5 }));
    assert_eq!(parse_fence_delimiter("``"), None);
    assert_eq!(parse_fence_delimiter("~`~"), None);
    assert_eq!(parse_fence_delimiter(""), None);
    assert_eq!(parse_fence_delimiter("text"), None);
    let f = FenceDelimiter { ch: '`', len: 4 };
    assert!(is_matching_fence_close("````", f));
    assert!(is_matching_fence_close("`````", f));
    assert!(!is_matching_fence_close("```", f));
    assert!(!is_matching_fence_close("~~~~", f));
    assert!(!is_matching_fence_close("text", f));
}
