use mdbook_runnable_examples::artifact::{RunnableArtifact, Settings};
use mdbook_runnable_examples::directive::RunnableDirective;
use mdbook_runnable_examples::hash::RunFailure;
use mdbook_runnable_examples::mode::ExampleMode;
use mdbook_runnable_examples::refresh::{ArtifactRefresh, RefreshAction, RefreshEvent};

fn settings(samples: usize) -> Settings {
    Settings::from_config(Some(true), None, None, None, None, None, Some(samples))
}

fn directive(mode: ExampleMode) -> RunnableDirective {
    RunnableDirective { rel_path: "ex/a.rs".to_string(), mode }
}

fn ran(stdout: &str) -> RefreshEvent {
    RefreshEvent::Ran { success: true, stdout: stdout.as_bytes().to_vec(), stderr: Vec::new() }
}

fn written(action: RefreshAction) -> RunnableArtifact {
    match action {
        RefreshAction::Write(a) => a,
        other => panic!("expected a write, got {other:?}"),
    }
}

#[test]
fn current_artifact_is_kept() {
    let s = settings(3);
    let mut r = ArtifactRefresh::new(&s, &directive(ExampleMode::Auto), "h".to_string());
    let existing = RunnableArtifact {
        mode: ExampleMode::Deterministic,
        source_hash: "h".to_string(),
        outputs: vec!["out".to_string()],
    };
    assert!(matches!(r.step(RefreshEvent::Existing(Some(existing))), RefreshAction::Keep));
}

#[test]
fn stale_artifact_is_rebuilt() {
    let s = settings(3);
    let mut r = ArtifactRefresh::new(&s, &directive(ExampleMode::Deterministic), "new".to_string());
    let stale = RunnableArtifact {
        mode: ExampleMode::Deterministic,
        source_hash: "old".to_string(),
        outputs: vec!["out".to_string()],
    };
    assert!(matches!(r.step(RefreshEvent::Existing(Some(stale))), RefreshAction::Run));
    let a = written(r.step(ran("fresh\n")));
    assert_eq!(a.mode, ExampleMode::Deterministic);
    assert_eq!(a.source_hash, "new");
    assert_eq!(a.outputs, vec!["fresh\n".to_string()]);
}

#[test]
fn auto_example_runs_every_sample() {
    let s = settings(3);
    let mut r = ArtifactRefresh::new(&s, &directive(ExampleMode::Auto), "h".to_string());
    assert!(matches!(r.step(RefreshEvent::Existing(None)), RefreshAction::Run));
    assert!(matches!(r.step(ran("1")), RefreshAction::Run));
    assert!(matches!(r.step(ran("2")), RefreshAction::Run));
    let a = written(r.step(ran("1")));
    assert_eq!(a.mode, ExampleMode::Nondeterministic);
    assert_eq!(a.outputs, vec!["1".to_string(), "2".to_string(), "1".to_string()]);
}

#[test]
fn auto_example_with_equal_outputs_is_deterministic() {
    let s = settings(2);
    let mut r = ArtifactRefresh::new(&s, &directive(ExampleMode::Auto), "h".to_string());
    assert!(matches!(r.step(RefreshEvent::Existing(None)), RefreshAction::Run));
    assert!(matches!(r.step(ran("same")), RefreshAction::Run));
    let a = written(r.step(ran("same")));
    assert_eq!(a.mode, ExampleMode::Deterministic);
    assert_eq!(a.outputs, vec!["same".to_string()]);
}

#[test]
fn failing_run_stops_the_refresh() {
    let s = settings(2);
    let mut r = ArtifactRefresh::new(&s, &directive(ExampleMode::Nondeterministic), "h".to_string());
    assert!(matches!(r.step(RefreshEvent::Existing(None)), RefreshAction::Run));
    let failed = RefreshEvent::Ran { success: true, stdout: Vec::new(), stderr: b"oops".to_vec() };
    assert!(matches!(r.step(failed), RefreshAction::Fail(RunFailure::WroteStderr)));
    assert!(r.outputs().is_empty());
    let failed = RefreshEvent::Ran { success: false, stdout: Vec::new(), stderr: Vec::new() };
    assert!(matches!(r.step(failed), RefreshAction::Fail(RunFailure::Failed)));
}

#[test]
fn written_artifact_is_kept_next_time() {
    let s = settings(2);
    let d = directive(ExampleMode::Nondeterministic);
    let mut r = ArtifactRefresh::new(&s, &d, "h".to_string());
    assert!(matches!(r.step(RefreshEvent::Existing(None)), RefreshAction::Run));
    assert!(matches!(r.step(ran("a")), RefreshAction::Run));
    let a = written(r.step(ran("b")));
    let mut again = ArtifactRefresh::new(&s, &d, "h".to_string());
    assert!(matches!(again.step(RefreshEvent::Existing(Some(a))), RefreshAction::Keep));
}
