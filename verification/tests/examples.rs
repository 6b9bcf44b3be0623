use mdbook_runnable_examples::artifact::{
    artifact_has_valid_shape, artifact_is_current, example_run_count, generate_artifact,
    generate_auto_artifact, requested_mode_accepts_artifact_mode, RunnableArtifact, Settings,
};
use mdbook_runnable_examples::collect::collect_referenced_examples;
use mdbook_runnable_examples::directive::RunnableDirective;
use mdbook_runnable_examples::error::PreprocessError;
use mdbook_runnable_examples::hash::{check_run_output, hex_encode, source_hash, RunFailure};
use mdbook_runnable_examples::mode::ExampleMode;
use mdbook_runnable_examples::path::{artifact_output_path_for, compare_paths, resolve_path};
use mdbook_runnable_examples::preprocessor::RunnableExamples;
use mdbook_runnable_examples::text::is_whitespace;

fn settings() -> Settings {
    Settings::from_config(Some(true), None, None, None, None, None, None)
}

fn artifact(mode: ExampleMode, hash: &str, outputs: &[&str]) -> RunnableArtifact {
    RunnableArtifact {
        mode,
        source_hash: hash.to_string(),
        outputs: outputs.iter().map(|s| s.to_string()).collect(),
    }
}

#[test]
fn settings_defaults() {
    let s = Settings::from_config(None, None, None, None, None, None, None);
    assert!(!s.enabled);
    assert_eq!(s.examples_dir, "runnable_examples/examples");
    assert_eq!(s.output_dir, "runnable_examples/output");
    assert_eq!(s.manifest_path, "runnable_examples/Cargo.toml");
    assert_eq!(s.target_dir, "/tmp/rust-bitcoin-cookbook-runnable-target");
    assert_eq!(s.fake_running_ms, 180);
    assert_eq!(s.nondeterministic_sample_count, 10);
    let s = Settings::from_config(Some(true), Some("ex".into()), None, None, None, Some(5), Some(0));
    assert!(s.enabled);
    assert_eq!(s.examples_dir, "ex");
    assert_eq!(s.fake_running_ms, 5);
    assert_eq!(s.nondeterministic_sample_count, 1);
}

#[test]
fn preprocessor_identity() {
    let p = RunnableExamples::new();
    assert_eq!(p.name(), "runnable-examples");
    assert!(p.supports_renderer("html"));
    assert!(!p.supports_renderer("markdown"));
    assert!(!p.supports_renderer("HTML"));
}

#[test]
fn collecting_merges_and_sorts() {
    let chapters = vec![
        "{{#runnable a-b.rs}}\n{{#runnable z.rs mode=nondeterministic}}\n".to_string(),
        "{{#runnable a/b.rs deterministic}}\n{{#runnable ./z.rs}}\n{{#runnable a-b.rs mode=deterministic}}\n".to_string(),
    ];
    let v = collect_referenced_examples(&chapters).unwrap();
    let got: Vec<(&str, ExampleMode)> = v.iter().map(|d| (d.rel_path.as_str(), d.mode)).collect();
    // path order compares components: "a" comes before "a-b.rs"
    assert_eq!(
        got,
        vec![
            ("./z.rs", ExampleMode::Auto),
            ("a/b.rs", ExampleMode::Deterministic),
            ("a-b.rs", ExampleMode::Deterministic),
            ("z.rs", ExampleMode::Nondeterministic),
        ]
    );
}

#[test]
fn collecting_same_path_written_differently() {
    let chapters = vec!["{{#runnable a//b.rs}}\n{{#runnable a/./b.rs/ nondeterministic}}\n".to_string()];
    let v = collect_referenced_examples(&chapters).unwrap();
    assert_eq!(v.len(), 1);
    assert_eq!(v[0].rel_path, "a//b.rs");
    assert_eq!(v[0].mode, ExampleMode::Nondeterministic);
}

#[test]
fn collecting_conflicting_modes() {
    let chapters = vec![
        "{{#runnable a.rs deterministic}}\n".to_string(),
        "{{#runnable a.rs nondeterministic}}\n".to_string(),
    ];
    match collect_referenced_examples(&chapters) {
        Err(PreprocessError::ConflictingReferences(p)) => assert_eq!(p, "a.rs"),
        other => panic!("unexpected {other:?}"),
    }
    let bad = vec!["{{#note tip}}\n".to_string()];
    assert!(matches!(collect_referenced_examples(&bad), Err(PreprocessError::UnterminatedNote)));
}

#[test]
fn path_order_matches_std() {
    let paths = [
        "", "/", "a", "a/", "a/b", "a//b", "a/./b", "./a", ".", "..", "../a", "a-b", "a/b/c",
        "/a", "//a", "a.rs", "A", "é", "a/..", "a/b/", "./", ".a", "a/.b", "b", "ab",
    ];
    for x in paths {
        for y in paths {
            let expected = match std::path::Path::new(x).cmp(std::path::Path::new(y)) {
                std::cmp::Ordering::Less => -1,
                std::cmp::Ordering::Equal => 0,
                std::cmp::Ordering::Greater => 1,
            };
            assert_eq!(compare_paths(x, y), expected, "{x:?} vs {y:?}");
        }
    }
}

#[test]
fn resolving_paths() {
    assert_eq!(resolve_path("/book", "/tmp/target"), "/tmp/target");
    assert_eq!(resolve_path("/book", "out"), "/book/out");
    assert_eq!(resolve_path("/book/", "out/x"), "/book/out/x");
}

#[test]
fn artifact_paths() {
    let s = settings();
    assert_eq!(
        artifact_output_path_for(&s, "runnable_examples/examples/network/wif_across_networks.rs"),
        "runnable_examples/output/network/wif_across_networks.samples.json"
    );
    assert_eq!(
        artifact_output_path_for(&s, "elsewhere/x.rs"),
        "runnable_examples/output/elsewhere/x.samples.json"
    );
    assert_eq!(artifact_output_path_for(&s, "/abs/x.rs"), "/abs/x.samples.json");
}

#[test]
fn artifact_shape_and_modes() {
    let s = settings();
    assert!(!artifact_has_valid_shape(&artifact(ExampleMode::Auto, "h", &["x"]), &s));
    assert!(artifact_has_valid_shape(&artifact(ExampleMode::Deterministic, "h", &["x"]), &s));
    assert!(!artifact_has_valid_shape(&artifact(ExampleMode::Deterministic, "h", &["x", "y"]), &s));
    let ten: Vec<&str> = vec!["o"; 10];
    assert!(artifact_has_valid_shape(&artifact(ExampleMode::Nondeterministic, "h", &ten), &s));
    assert!(!artifact_has_valid_shape(&artifact(ExampleMode::Nondeterministic, "h", &["o"]), &s));
    assert!(requested_mode_accepts_artifact_mode(ExampleMode::Auto, ExampleMode::Deterministic));
    assert!(requested_mode_accepts_artifact_mode(ExampleMode::Auto, ExampleMode::Nondeterministic));
    assert!(!requested_mode_accepts_artifact_mode(ExampleMode::Auto, ExampleMode::Auto));
    assert!(requested_mode_accepts_artifact_mode(ExampleMode::Deterministic, ExampleMode::Deterministic));
    assert!(!requested_mode_accepts_artifact_mode(ExampleMode::Deterministic, ExampleMode::Nondeterministic));
    assert!(!requested_mode_accepts_artifact_mode(ExampleMode::Nondeterministic, ExampleMode::Deterministic));
}

#[test]
fn artifact_currency() {
    let s = settings();
    let d = RunnableDirective { rel_path: "a.rs".to_string(), mode: ExampleMode::Auto };
    let a = artifact(ExampleMode::Deterministic, "abc", &["out"]);
    assert!(artifact_is_current(&a, &d, "abc", &s));
    assert!(!artifact_is_current(&a, &d, "abd", &s));
    let nd = RunnableDirective { rel_path: "a.rs".to_string(), mode: ExampleMode::Nondeterministic };
    assert!(!artifact_is_current(&a, &nd, "abc", &s));
}

#[test]
fn auto_artifact_inference() {
    let same = generate_auto_artifact("h".to_string(), vec!["x".to_string(); 3]);
    assert_eq!(same.mode, ExampleMode::Deterministic);
    assert_eq!(same.outputs, vec!["x".to_string()]);
    let differ = generate_auto_artifact("h".to_string(), vec!["x".to_string(), "y".to_string(), "x".to_string()]);
    assert_eq!(differ.mode, ExampleMode::Nondeterministic);
    assert_eq!(differ.outputs.len(), 3);
    let explicit = generate_artifact(ExampleMode::Nondeterministic, "h".to_string(), vec!["x".to_string(); 2]);
    assert_eq!(explicit.mode, ExampleMode::Nondeterministic);
    assert_eq!(explicit.outputs.len(), 2);
}

#[test]
fn built_artifacts_are_current() {
    let s = settings();
    for mode in [ExampleMode::Auto, ExampleMode::Deterministic, ExampleMode::Nondeterministic] {
        let n = example_run_count(mode, s.nondeterministic_sample_count);
        for outputs in [vec!["same".to_string(); n], (0..n).map(|i| i.to_string()).collect()] {
            let a = generate_artifact(mode, "hash".to_string(), outputs);
            let d = RunnableDirective { rel_path: "x.rs".to_string(), mode };
            assert!(artifact_is_current(&a, &d, "hash", &s));
        }
    }
    assert_eq!(example_run_count(ExampleMode::Deterministic, s.nondeterministic_sample_count), 1);
    assert_eq!(example_run_count(ExampleMode::Auto, s.nondeterministic_sample_count), 10);
}

#[test]
fn source_hashes() {
    assert_eq!(source_hash(""), "e3b0c44298fc1c149afbf4c8996fb92427ae41e4649b934ca495991b7852b855");
    assert_eq!(source_hash("abc"), "ba7816bf8f01cfea414140de5dae2223b00361a396177a9cb410ff61f20015ad");
    assert_eq!(hex_encode(&[0x00, 0x0f, 0xa0, 0xff]), "000fa0ff");
}

#[test]
fn run_output_checks() {
    assert_eq!(check_run_output(true, b"hello\n".to_vec(), &vec![]).unwrap(), "hello\n");
    assert_eq!(check_run_output(false, b"hello\n".to_vec(), &vec![]), Err(RunFailure::Failed));
    assert_eq!(check_run_output(true, b"hello\n".to_vec(), &b"warn".to_vec()), Err(RunFailure::WroteStderr));
    assert_eq!(check_run_output(true, vec![0xff, 0xfe], &vec![]), Err(RunFailure::NonUtf8Stdout));
}

#[test]
fn whitespace_matches_std() {
    for u in 0u32..=0x10ffff {
        if let Some(c) = char::from_u32(u) {
            assert_eq!(is_whitespace(c), c.is_whitespace(), "U+{u:04X}");
        }
    }
}

#[test]
fn joining_matches_std() {
    let bases = ["", "/", "book", "book/", "/book", "a//"];
    let paths = ["", "x", "x/y", "/abs", "./x", "x/"];
    for b in bases {
        for p in paths {
            let expected = std::path::Path::new(b).join(p).to_string_lossy().into_owned();
            assert_eq!(resolve_path(b, p), expected, "{b:?} + {p:?}");
        }
    }
}

#[test]
fn collecting_fails_only_on_explicit_conflict_or_bad_chapter() {
    let auto_then_explicit = vec![
        "{{#runnable a.rs}}\n".to_string(),
        "{{#runnable a.rs deterministic}}\n{{#runnable a.rs}}\n".to_string(),
    ];
    let v = collect_referenced_examples(&auto_then_explicit).unwrap();
    assert_eq!(v.len(), 1);
    assert_eq!(v[0].mode, ExampleMode::Deterministic);
    let all_auto = vec!["{{#runnable a.rs}}\n{{#runnable a.rs auto}}\n".to_string()];
    assert_eq!(collect_referenced_examples(&all_auto).unwrap()[0].mode, ExampleMode::Auto);
    let spread_conflict = vec![
        "{{#runnable a.rs nondeterministic}}\n".to_string(),
        "{{#runnable b.rs}}\n".to_string(),
        "{{#runnable a.rs/ mode=deterministic}}\n".to_string(),
    ];
    assert!(matches!(
        collect_referenced_examples(&spread_conflict),
        Err(PreprocessError::ConflictingReferences(_))
    ));
    let bad_late_chapter = vec![
        "{{#runnable a.rs}}\n".to_string(),
        "{{#runnable a.rs mode=sometimes}}\n".to_string(),
    ];
    assert!(matches!(
        collect_referenced_examples(&bad_late_chapter),
        Err(PreprocessError::UnsupportedMode(_))
    ));
}
