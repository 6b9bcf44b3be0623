//! Keeping the recorded outputs of one example current.
//!
//! Reading files and running the example happen outside the library; the
//! decisions between them are the steps of an [`ArtifactRefresh`]: it is
//! told what was found on disk and what each run printed, and answers with
//! the next thing to do: keep the recorded artifact, run the example once
//! more, write a new artifact, or give up because a run failed.

use vstd::prelude::*;
use crate::artifact::{
    ArtifactView, RunnableArtifact, Settings, artifact_is_current_for, built_artifact,
    example_run_count, generate_artifact, is_current, lemma_built_artifact_is_current,
    lemma_string_views_push, run_count, string_views,
};
use crate::directive::RunnableDirective;
use crate::hash::{RunFailure, check_run_output, run_output};
use crate::render::clone_strings;

verus! {

/// The refresh of one example's artifact: what was requested and the
/// outputs of the runs made so far. It never holds more outputs than the
/// runs it needs.
#[derive(Debug)]
pub struct ArtifactRefresh {
    mode: crate::mode::ExampleMode,
    source_hash: String,
    sample_count: usize,
    outputs: Vec<String>,
}

/// The mathematical value of an [`ArtifactRefresh`].
pub struct RefreshView {
    pub mode: crate::mode::ExampleMode,
    pub source_hash: Seq<char>,
    pub sample_count: usize,
    pub outputs: Seq<Seq<char>>,
}

impl View for ArtifactRefresh {
    type V = RefreshView;

    closed spec fn view(&self) -> RefreshView {
        RefreshView {
            mode: self.mode,
            source_hash: self.source_hash@,
            sample_count: self.sample_count,
            outputs: string_views(self.outputs@),
        }
    }
}

/// What happened outside the library.
#[derive(Debug)]
pub enum RefreshEvent {
    /// The artifact at the output path, if one could be read.
    Existing(Option<RunnableArtifact>),
    /// A run of the example finished with this status and output.
    Ran { success: bool, stdout: Vec<u8>, stderr: Vec<u8> },
}

/// The mathematical value of a [`RefreshEvent`].
pub enum EventView {
    Existing(Option<ArtifactView>),
    Ran(bool, Seq<u8>, Seq<u8>),
}

impl View for RefreshEvent {
    type V = EventView;

    open spec fn view(&self) -> EventView {
        match self {
            RefreshEvent::Existing(a) => EventView::Existing(
                match a {
                    Some(x) => Some(x@),
                    None => None,
                },
            ),
            RefreshEvent::Ran { success, stdout, stderr } => EventView::Ran(
                *success,
                stdout@,
                stderr@,
            ),
        }
    }
}

/// What to do next.
#[derive(Debug)]
pub enum RefreshAction {
    /// The recorded artifact is current: nothing is to be done.
    Keep,
    /// Run the example once more and report the run.
    Run,
    /// Write this artifact to the output path.
    Write(RunnableArtifact),
    /// Stop: a run's output cannot be recorded.
    Fail(RunFailure),
}

/// The mathematical value of a [`RefreshAction`].
pub enum ActionView {
    Keep,
    Run,
    Write(ArtifactView),
    Fail(RunFailure),
}

impl View for RefreshAction {
    type V = ActionView;

    open spec fn view(&self) -> ActionView {
        match self {
            RefreshAction::Keep => ActionView::Keep,
            RefreshAction::Run => ActionView::Run,
            RefreshAction::Write(a) => ActionView::Write(a@),
            RefreshAction::Fail(f) => ActionView::Fail(*f),
        }
    }
}

/// How many runs the refresh makes in all.
pub open spec fn runs_needed(s: RefreshView) -> nat {
    run_count(s.mode, s.sample_count)
}

/// Once the runs recorded so far are known: run again while fewer than
/// needed were made, otherwise write the artifact built from them.
pub open spec fn continue_or_write(s: RefreshView) -> ActionView {
    if s.outputs.len() < runs_needed(s) {
        ActionView::Run
    } else {
        ActionView::Write(built_artifact(s.mode, s.source_hash, s.outputs))
    }
}

/// One step of a refresh: the state after the event and the action it
/// calls for.
///
/// A current artifact found on disk is kept; any other is replaced by
/// running the example as often as its mode asks. A run that fails, writes
/// to standard error or prints text that is not UTF-8 stops the refresh;
/// the output of any other run is recorded.
pub open spec fn refresh_step(s: RefreshView, e: EventView) -> (RefreshView, ActionView) {
    match e {
        EventView::Existing(found) => if found matches Some(a) && is_current(
            a,
            s.mode,
            s.source_hash,
            s.sample_count,
        ) {
            (s, ActionView::Keep)
        } else {
            (s, continue_or_write(s))
        },
        EventView::Ran(success, stdout, stderr) => if s.outputs.len() >= runs_needed(s) {
            (s, continue_or_write(s))
        } else {
            match run_output(success, stdout, stderr) {
                Err(f) => (s, ActionView::Fail(f)),
                Ok(text) => {
                    let next = RefreshView { outputs: s.outputs.push(text), ..s };
                    (next, continue_or_write(next))
                },
            }
        },
    }
}

/// The runs recorded by a refresh never exceed the runs it needs.
pub open spec fn within_runs(s: RefreshView) -> bool {
    s.outputs.len() <= runs_needed(s)
}

/// Every step keeps a refresh within the runs it needs, and never changes
/// what was requested.
pub proof fn lemma_refresh_stays_within_runs(s: RefreshView, e: EventView)
    requires
        within_runs(s),
    ensures
        within_runs(refresh_step(s, e).0),
        refresh_step(s, e).0.mode == s.mode,
        refresh_step(s, e).0.source_hash == s.source_hash,
        refresh_step(s, e).0.sample_count == s.sample_count,
{
}

/// An artifact that a refresh writes is current for the request it was
/// made for: the next refresh of the unchanged source keeps it.
pub proof fn lemma_refresh_writes_current(s: RefreshView, e: EventView)
    requires
        within_runs(s),
        s.sample_count >= 1,
    ensures
        refresh_step(s, e).1 matches ActionView::Write(a) ==> is_current(
            a,
            s.mode,
            s.source_hash,
            s.sample_count,
        ),
{
    let (next, action) = refresh_step(s, e);
    if action is Write {
        lemma_refresh_stays_within_runs(s, e);
        lemma_built_artifact_is_current(s.mode, s.source_hash, next.outputs, s.sample_count);
    }
}

/// A refresh keeps only an artifact that is current, and replaces any
/// other.
pub proof fn lemma_refresh_keeps_only_current(s: RefreshView, e: EventView)
    ensures
        refresh_step(s, e).1 is Keep <==> (e matches EventView::Existing(Some(a)) && is_current(
            a,
            s.mode,
            s.source_hash,
            s.sample_count,
        )),
{
}

/// A run that cannot be recorded stops a refresh that still needs runs,
/// with the reason for it, and records nothing.
pub proof fn lemma_refresh_fails_on_bad_run(
    s: RefreshView,
    success: bool,
    stdout: Seq<u8>,
    stderr: Seq<u8>,
)
    requires
        s.outputs.len() < runs_needed(s),
        run_output(success, stdout, stderr) is Err,
    ensures
        refresh_step(s, EventView::Ran(success, stdout, stderr)) == (
            s,
            ActionView::Fail(run_output(success, stdout, stderr)->Err_0),
        ),
{
}

/// The text that a successful run printed.
pub open spec fn run_text(run: (bool, Seq<u8>, Seq<u8>)) -> Seq<char> {
    run_output(run.0, run.1, run.2)->Ok_0
}

/// The state and the action after the runs `runs` are reported one after
/// another, stopping at the first action that is not `Run`.
pub open spec fn after_runs(s: RefreshView, runs: Seq<(bool, Seq<u8>, Seq<u8>)>) -> (
    RefreshView,
    ActionView,
)
    decreases runs.len(),
{
    if runs.len() == 0 {
        (s, continue_or_write(s))
    } else {
        let (next, action) = refresh_step(s, EventView::Ran(runs[0].0, runs[0].1, runs[0].2));
        if action is Run {
            after_runs(next, runs.skip(1))
        } else {
            (next, action)
        }
    }
}

/// When every one of the runs still needed succeeds, the refresh writes
/// the artifact built from all recorded outputs, in the order of the runs.
pub proof fn lemma_refresh_records_every_run(s: RefreshView, runs: Seq<(bool, Seq<u8>, Seq<u8>)>)
    requires
        runs.len() >= 1,
        s.outputs.len() + runs.len() == runs_needed(s),
        forall|i: int| 0 <= i < runs.len() ==> #[trigger] run_output(runs[i].0, runs[i].1, runs[i].2) is Ok,
    ensures
        after_runs(s, runs).1 == ActionView::Write(
            built_artifact(s.mode, s.source_hash, s.outputs + runs.map_values(|r: (bool, Seq<u8>, Seq<u8>)| run_text(r))),
        ),
    decreases runs.len(),
{
    let texts = runs.map_values(|r: (bool, Seq<u8>, Seq<u8>)| run_text(r));
    assert(run_output(runs[0].0, runs[0].1, runs[0].2) is Ok);
    let t = run_text(runs[0]);
    let next = RefreshView { outputs: s.outputs.push(t), ..s };
    assert(refresh_step(s, EventView::Ran(runs[0].0, runs[0].1, runs[0].2)) == (next, continue_or_write(next)));
    if runs.len() == 1 {
        assert(s.outputs + texts =~= s.outputs.push(t));
    } else {
        let rest = runs.skip(1);
        assert forall|i: int| 0 <= i < rest.len() implies #[trigger] run_output(rest[i].0, rest[i].1, rest[i].2) is Ok by {
            assert(rest[i] == runs[i + 1]);
        }
        lemma_refresh_records_every_run(next, rest);
        assert(next.outputs + rest.map_values(|r: (bool, Seq<u8>, Seq<u8>)| run_text(r)) =~= s.outputs + texts);
    }
}

/// When the runs still needed succeed up to the run at index `k`, which
/// cannot be recorded, the refresh stops there with that run's reason: it
/// asks for no further run and writes nothing.
pub proof fn lemma_refresh_stops_at_first_failure(
    s: RefreshView,
    runs: Seq<(bool, Seq<u8>, Seq<u8>)>,
    k: int,
)
    requires
        0 <= k < runs.len(),
        s.outputs.len() + k < runs_needed(s),
        forall|i: int| 0 <= i < k ==> #[trigger] run_output(runs[i].0, runs[i].1, runs[i].2) is Ok,
        run_output(runs[k].0, runs[k].1, runs[k].2) is Err,
    ensures
        after_runs(s, runs).1 == ActionView::Fail(run_output(runs[k].0, runs[k].1, runs[k].2)->Err_0),
    decreases k,
{
    if k > 0 {
        assert(run_output(runs[0].0, runs[0].1, runs[0].2) is Ok);
        let t = run_text(runs[0]);
        let next = RefreshView { outputs: s.outputs.push(t), ..s };
        assert(refresh_step(s, EventView::Ran(runs[0].0, runs[0].1, runs[0].2)) == (next, continue_or_write(next)));
        let rest = runs.skip(1);
        assert forall|i: int| 0 <= i < k - 1 implies #[trigger] run_output(rest[i].0, rest[i].1, rest[i].2) is Ok by {
            assert(rest[i] == runs[i + 1]);
        }
        assert(rest[k - 1] == runs[k]);
        lemma_refresh_stops_at_first_failure(next, rest, k - 1);
    }
}

impl ArtifactRefresh {
    /// A refresh never records more runs than it needs.
    #[verifier::type_invariant]
    spec fn within_needed_runs(self) -> bool {
        within_runs(self@)
    }

    /// The outputs of the runs recorded so far, in order.
    pub fn outputs(&self) -> (r: &Vec<String>)
        ensures
            string_views(r@) == self@.outputs,
    {
        &self.outputs
    }

    /// A refresh of the example referenced by `directive`, whose source has
    /// the fingerprint `source_hash`; no run has been made yet.
    pub fn new(settings: &Settings, directive: &RunnableDirective, source_hash: String) -> (r:
        ArtifactRefresh)
        ensures
            r@ == (RefreshView {
                mode: directive.mode,
                source_hash: source_hash@,
                sample_count: settings.nondeterministic_sample_count,
                outputs: Seq::empty(),
            }),
            within_runs(r@),
    {
        let r = ArtifactRefresh {
            mode: directive.mode,
            source_hash,
            sample_count: settings.nondeterministic_sample_count,
            outputs: Vec::new(),
        };
        assert(string_views(r.outputs@) =~= Seq::<Seq<char>>::empty());
        r
    }

    fn next_action(&self) -> (a: RefreshAction)
        ensures
            a@ == continue_or_write(self@),
    {
        let needed = example_run_count(self.mode, self.sample_count);
        if self.outputs.len() < needed {
            RefreshAction::Run
        } else {
            let outputs = clone_strings(&self.outputs);
            RefreshAction::Write(generate_artifact(self.mode, self.source_hash.clone(), outputs))
        }
    }

    /// Takes in what happened outside the library and answers with what to
    /// do next.
    pub fn step(&mut self, event: RefreshEvent) -> (a: RefreshAction)
        ensures
            (final(self)@, a@) == refresh_step(old(self)@, event@),
            within_runs(old(self)@),
            within_runs(final(self)@),
            old(self)@.sample_count >= 1 ==> (a@ matches ActionView::Write(w) ==> is_current(
                w,
                old(self)@.mode,
                old(self)@.source_hash,
                old(self)@.sample_count,
            )),
    {
        proof {
            use_type_invariant(&*self);
            lemma_refresh_stays_within_runs(self@, event@);
            if self@.sample_count >= 1 {
                lemma_refresh_writes_current(self@, event@);
            }
        }
        match event {
            RefreshEvent::Existing(found) => {
                let current = match &found {
                    Some(existing) => artifact_is_current_for(
                        existing,
                        self.mode,
                        self.source_hash.as_str(),
                        self.sample_count,
                    ),
                    None => false,
                };
                if current {
                    RefreshAction::Keep
                } else {
                    self.next_action()
                }
            },
            RefreshEvent::Ran { success, stdout, stderr } => {
                let needed = example_run_count(self.mode, self.sample_count);
                if self.outputs.len() >= needed {
                    return self.next_action();
                }
                match check_run_output(success, stdout, &stderr) {
                    Err(f) => RefreshAction::Fail(f),
                    Ok(text) => {
                        let ghost before = self@;
                        let mut outputs = clone_strings(&self.outputs);
                        proof {
                            lemma_string_views_push(outputs@, text);
                        }
                        outputs.push(text);
                        self.outputs = outputs;
                        assert(self@ == RefreshView { outputs: before.outputs.push(text@), ..before });
                        self.next_action()
                    },
                }
            },
        }
    }
}

} // verus!
