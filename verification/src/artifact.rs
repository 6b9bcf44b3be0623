//! Settings, recorded example outputs ("artifacts") and the decisions about
//! when an artifact can be reused and how a new one is assembled.

use vstd::prelude::*;
use crate::mode::ExampleMode;
use crate::directive::RunnableDirective;
use crate::text::{chars_eq, str_to_chars, chars_to_string};

verus! {

/// The preprocessor's settings, as read from the book's configuration.
#[derive(Debug, Clone)]
pub struct Settings {
    /// Whether examples are run and their outputs embedded.
    pub enabled: bool,
    /// Directory of the example sources, relative to the book root.
    pub examples_dir: String,
    /// Directory where recorded outputs are kept.
    pub output_dir: String,
    /// Manifest used as the template for building an example.
    pub manifest_path: String,
    /// Cargo target directory for building examples.
    pub target_dir: String,
    /// Delay the rendered page waits before showing an output.
    pub fake_running_ms: u64,
    /// How many times an example that is not deterministic is run.
    pub nondeterministic_sample_count: usize,
}

impl Settings {
    /// Settings are well formed when at least one sample is taken.
    pub open spec fn wf(&self) -> bool {
        self.nondeterministic_sample_count >= 1
    }

    /// The settings given by the configured values, each absent value
    /// replaced by its default; the sample count is at least one.
    pub fn from_config(
        enabled: Option<bool>,
        examples_dir: Option<String>,
        output_dir: Option<String>,
        manifest_path: Option<String>,
        target_dir: Option<String>,
        fake_running_ms: Option<u64>,
        nondeterministic_sample_count: Option<usize>,
    ) -> (s: Settings)
        ensures
            s.wf(),
            s.enabled == (match enabled {
                Some(b) => b,
                None => false,
            }),
            s.examples_dir@ == (match examples_dir {
                Some(d) => d@,
                None => "runnable_examples/examples"@,
            }),
            s.output_dir@ == (match output_dir {
                Some(d) => d@,
                None => "runnable_examples/output"@,
            }),
            s.manifest_path@ == (match manifest_path {
                Some(d) => d@,
                None => "runnable_examples/Cargo.toml"@,
            }),
            s.target_dir@ == (match target_dir {
                Some(d) => d@,
                None => "/tmp/rust-bitcoin-cookbook-runnable-target"@,
            }),
            s.fake_running_ms == (match fake_running_ms {
                Some(n) => n,
                None => 180,
            }),
            s.nondeterministic_sample_count == (match nondeterministic_sample_count {
                Some(n) => if n >= 1 {
                    n
                } else {
                    1
                },
                None => 10,
            }),
    {
        let count = match nondeterministic_sample_count {
            Some(n) => if n >= 1 {
                n
            } else {
                1
            },
            None => 10,
        };
        Settings {
            enabled: match enabled {
                Some(b) => b,
                None => false,
            },
            examples_dir: match examples_dir {
                Some(d) => d,
                None => string_of("runnable_examples/examples"),
            },
            output_dir: match output_dir {
                Some(d) => d,
                None => string_of("runnable_examples/output"),
            },
            manifest_path: match manifest_path {
                Some(d) => d,
                None => string_of("runnable_examples/Cargo.toml"),
            },
            target_dir: match target_dir {
                Some(d) => d,
                None => string_of("/tmp/rust-bitcoin-cookbook-runnable-target"),
            },
            fake_running_ms: match fake_running_ms {
                Some(n) => n,
                None => 180,
            },
            nondeterministic_sample_count: count,
        }
    }
}

/// An owned copy of a string slice.
pub fn string_of(s: &str) -> (r: String)
    ensures
        r@ == s@,
{
    s.to_owned()
}

/// The recorded outputs of a runnable example.
#[derive(Debug, Clone)]
pub struct RunnableArtifact {
    /// `Deterministic` or `Nondeterministic` for an artifact that was
    /// produced by running the example.
    pub mode: ExampleMode,
    /// Lowercase hexadecimal SHA-256 of the source the outputs belong to.
    pub source_hash: String,
    /// The captured standard outputs.
    pub outputs: Vec<String>,
}

/// The mathematical value of a [`RunnableArtifact`].
pub struct ArtifactView {
    pub mode: ExampleMode,
    pub source_hash: Seq<char>,
    pub outputs: Seq<Seq<char>>,
}

/// The views of a sequence of strings.
pub open spec fn string_views(v: Seq<String>) -> Seq<Seq<char>> {
    v.map_values(|s: String| s@)
}

pub proof fn lemma_string_views_push(s: Seq<String>, x: String)
    ensures
        string_views(s.push(x)) == string_views(s).push(x@),
{
    assert(string_views(s.push(x)) =~= string_views(s).push(x@));
}

impl View for RunnableArtifact {
    type V = ArtifactView;

    open spec fn view(&self) -> ArtifactView {
        ArtifactView {
            mode: self.mode,
            source_hash: self.source_hash@,
            outputs: string_views(self.outputs@),
        }
    }
}

/// Whether the artifact has as many outputs as its mode calls for: one for
/// `Deterministic`, the configured sample count for `Nondeterministic`;
/// an `Auto` artifact is never valid.
pub open spec fn valid_shape(a: ArtifactView, sample_count: usize) -> bool {
    match a.mode {
        ExampleMode::Auto => false,
        ExampleMode::Deterministic => a.outputs.len() == 1,
        ExampleMode::Nondeterministic => a.outputs.len() == sample_count,
    }
}

/// Whether an artifact recorded in mode `artifact_mode` serves a request
/// for mode `requested`: `Auto` takes either recorded mode, an explicit
/// mode only itself.
pub open spec fn accepts_mode(requested: ExampleMode, artifact_mode: ExampleMode) -> bool {
    match requested {
        ExampleMode::Auto => artifact_mode == ExampleMode::Deterministic || artifact_mode
            == ExampleMode::Nondeterministic,
        ExampleMode::Deterministic => artifact_mode == ExampleMode::Deterministic,
        ExampleMode::Nondeterministic => artifact_mode == ExampleMode::Nondeterministic,
    }
}

/// Whether an existing artifact can be reused for the directive: it was
/// recorded for the same source, has a valid shape, and its mode serves the
/// requested one.
pub open spec fn is_current(
    a: ArtifactView,
    requested: ExampleMode,
    source_hash: Seq<char>,
    sample_count: usize,
) -> bool {
    &&& a.source_hash == source_hash
    &&& valid_shape(a, sample_count)
    &&& accepts_mode(requested, a.mode)
}

fn shape_is_valid(artifact: &RunnableArtifact, sample_count: usize) -> (r: bool)
    ensures
        r == valid_shape(artifact@, sample_count),
{
    match artifact.mode {
        ExampleMode::Auto => false,
        ExampleMode::Deterministic => artifact.outputs.len() == 1,
        ExampleMode::Nondeterministic => artifact.outputs.len() == sample_count,
    }
}

/// Whether the artifact has as many outputs as its mode calls for.
pub fn artifact_has_valid_shape(artifact: &RunnableArtifact, settings: &Settings) -> (r: bool)
    ensures
        r == valid_shape(artifact@, settings.nondeterministic_sample_count),
{
    shape_is_valid(artifact, settings.nondeterministic_sample_count)
}

/// Whether an artifact recorded in `artifact_mode` serves a request for
/// `requested_mode`.
pub fn requested_mode_accepts_artifact_mode(
    requested_mode: ExampleMode,
    artifact_mode: ExampleMode,
) -> (r: bool)
    ensures
        r == accepts_mode(requested_mode, artifact_mode),
{
    match requested_mode {
        ExampleMode::Auto => artifact_mode == ExampleMode::Deterministic || artifact_mode
            == ExampleMode::Nondeterministic,
        ExampleMode::Deterministic => artifact_mode == ExampleMode::Deterministic,
        ExampleMode::Nondeterministic => artifact_mode == ExampleMode::Nondeterministic,
    }
}

/// Whether an existing artifact can be reused for the directive.
pub fn artifact_is_current(
    artifact: &RunnableArtifact,
    directive: &RunnableDirective,
    source_hash: &str,
    settings: &Settings,
) -> (r: bool)
    ensures
        r == is_current(
            artifact@,
            directive.mode,
            source_hash@,
            settings.nondeterministic_sample_count,
        ),
{
    artifact_is_current_for(
        artifact,
        directive.mode,
        source_hash,
        settings.nondeterministic_sample_count,
    )
}

/// Whether an existing artifact can be reused for a request in mode
/// `requested` of a source with fingerprint `source_hash`.
pub fn artifact_is_current_for(
    artifact: &RunnableArtifact,
    requested: ExampleMode,
    source_hash: &str,
    sample_count: usize,
) -> (r: bool)
    ensures
        r == is_current(artifact@, requested, source_hash@, sample_count),
{
    let recorded = str_to_chars(artifact.source_hash.as_str());
    let wanted = str_to_chars(source_hash);
    chars_eq(recorded.as_slice(), wanted.as_slice()) && shape_is_valid(artifact, sample_count)
        && requested_mode_accepts_artifact_mode(requested, artifact.mode)
}

/// How many times an example requested in `mode` is run to build its
/// artifact: once when deterministic, otherwise the sample count (at least
/// once for `Auto`).
pub open spec fn run_count(mode: ExampleMode, sample_count: usize) -> nat {
    match mode {
        ExampleMode::Auto => if sample_count >= 1 {
            sample_count as nat
        } else {
            1
        },
        ExampleMode::Deterministic => 1,
        ExampleMode::Nondeterministic => sample_count as nat,
    }
}

/// How many times an example requested in `mode` is run to build its
/// artifact.
pub fn example_run_count(mode: ExampleMode, sample_count: usize) -> (n: usize)
    ensures
        n == run_count(mode, sample_count),
{
    match mode {
        ExampleMode::Auto => if sample_count >= 1 {
            sample_count
        } else {
            1
        },
        ExampleMode::Deterministic => 1,
        ExampleMode::Nondeterministic => sample_count,
    }
}

/// Whether every output equals the first.
pub open spec fn all_same(outputs: Seq<Seq<char>>) -> bool {
    forall|i: int| 0 <= i < outputs.len() ==> #[trigger] outputs[i] == outputs[0]
}

/// The artifact inferred from the outputs of an `Auto` example: when all
/// outputs agree it is deterministic and keeps the first output only,
/// otherwise it is nondeterministic and keeps them all.
pub open spec fn auto_artifact(source_hash: Seq<char>, outputs: Seq<Seq<char>>) -> ArtifactView {
    if all_same(outputs) {
        ArtifactView {
            mode: ExampleMode::Deterministic,
            source_hash,
            outputs: outputs.take(if outputs.len() >= 1 {
                1
            } else {
                0
            }),
        }
    } else {
        ArtifactView { mode: ExampleMode::Nondeterministic, source_hash, outputs }
    }
}

/// The artifact built from the outputs of the runs of an example requested
/// in `mode`.
pub open spec fn built_artifact(
    mode: ExampleMode,
    source_hash: Seq<char>,
    outputs: Seq<Seq<char>>,
) -> ArtifactView {
    match mode {
        ExampleMode::Auto => auto_artifact(source_hash, outputs),
        ExampleMode::Deterministic => ArtifactView {
            mode: ExampleMode::Deterministic,
            source_hash,
            outputs,
        },
        ExampleMode::Nondeterministic => ArtifactView {
            mode: ExampleMode::Nondeterministic,
            source_hash,
            outputs,
        },
    }
}

/// An artifact has a valid shape exactly when it holds as many outputs as
/// its (recorded, non-`Auto`) mode calls for: one when deterministic, the
/// sample count when nondeterministic. An artifact that is current was
/// recorded for the same source, holds exactly that many outputs, and has
/// a mode that serves the request.
pub proof fn lemma_valid_shape_counts_outputs(
    a: ArtifactView,
    requested: ExampleMode,
    source_hash: Seq<char>,
    sample_count: usize,
)
    ensures
        a.mode == ExampleMode::Auto ==> !valid_shape(a, sample_count),
        a.mode == ExampleMode::Deterministic ==> (valid_shape(a, sample_count) <==> a.outputs.len()
            == 1),
        a.mode == ExampleMode::Nondeterministic ==> (valid_shape(a, sample_count)
            <==> a.outputs.len() == sample_count),
        is_current(a, requested, source_hash, sample_count) ==> {
            &&& a.source_hash == source_hash
            &&& a.mode != ExampleMode::Auto
            &&& a.outputs.len() == (if a.mode == ExampleMode::Deterministic {
                1
            } else {
                sample_count as int
            })
            &&& (requested == ExampleMode::Auto || requested == a.mode)
        },
{
}

/// An `Auto` example's artifact is deterministic exactly when every output
/// (the last one included) equals the first; it then keeps only the first
/// output, and otherwise it is nondeterministic and keeps every output in
/// order. Either way it records the given source fingerprint.
pub proof fn lemma_auto_artifact_infers_mode(source_hash: Seq<char>, outputs: Seq<Seq<char>>)
    ensures
        auto_artifact(source_hash, outputs).source_hash == source_hash,
        auto_artifact(source_hash, outputs).mode == ExampleMode::Deterministic <==> forall|i: int|
            0 <= i < outputs.len() ==> #[trigger] outputs[i] == outputs[0],
        auto_artifact(source_hash, outputs).mode != ExampleMode::Deterministic ==> auto_artifact(
            source_hash,
            outputs,
        ).mode == ExampleMode::Nondeterministic && auto_artifact(source_hash, outputs).outputs
            == outputs,
        auto_artifact(source_hash, outputs).mode == ExampleMode::Deterministic ==> (outputs.len()
            == 0 ==> auto_artifact(source_hash, outputs).outputs.len() == 0) && (outputs.len() > 0
            ==> auto_artifact(source_hash, outputs).outputs == seq![outputs[0]]),
{
    if outputs.len() > 0 {
        assert(outputs.take(1) =~= seq![outputs[0]]);
    }
}

/// Builds the artifact of an `Auto` example from the outputs of its runs.
pub fn generate_auto_artifact(source_hash: String, outputs: Vec<String>) -> (a: RunnableArtifact)
    ensures
        a@ == auto_artifact(source_hash@, string_views(outputs@)),
{
    let ghost ov = string_views(outputs@);
    let mut same = true;
    let mut i: usize = 1;
    let n = outputs.len();
    if n > 0 {
        let first = str_to_chars(outputs[0].as_str());
        assert(ov[0] == first@);
        while i < n
            invariant
                1 <= i <= n,
                n == outputs@.len(),
                ov == string_views(outputs@),
                first@ == ov[0],
                same == (forall|k: int| 0 <= k < i ==> #[trigger] ov[k] == ov[0]),
            decreases n - i,
        {
            let cur = str_to_chars(outputs[i].as_str());
            assert(ov[i as int] == cur@);
            if !chars_eq(cur.as_slice(), first.as_slice()) {
                same = false;
            }
            i = i + 1;
        }
    }
    let mut outputs = outputs;
    if same {
        outputs.truncate(1);
        proof {
            assert(string_views(outputs@) =~= ov.take(if ov.len() >= 1 {
                1
            } else {
                0
            }));
        }
        RunnableArtifact { mode: ExampleMode::Deterministic, source_hash, outputs }
    } else {
        RunnableArtifact { mode: ExampleMode::Nondeterministic, source_hash, outputs }
    }
}

/// Builds the artifact of an example requested in `mode` from the outputs
/// of its runs.
pub fn generate_artifact(mode: ExampleMode, source_hash: String, outputs: Vec<String>) -> (a:
    RunnableArtifact)
    ensures
        a@ == built_artifact(mode, source_hash@, string_views(outputs@)),
{
    match mode {
        ExampleMode::Auto => generate_auto_artifact(source_hash, outputs),
        ExampleMode::Deterministic => RunnableArtifact {
            mode: ExampleMode::Deterministic,
            source_hash,
            outputs,
        },
        ExampleMode::Nondeterministic => RunnableArtifact {
            mode: ExampleMode::Nondeterministic,
            source_hash,
            outputs,
        },
    }
}

/// An artifact built from the runs that `example_run_count` asks for is
/// current for the directive it was built for, so a second pass over an
/// unchanged source reuses it instead of running the example again.
pub proof fn lemma_built_artifact_is_current(
    mode: ExampleMode,
    source_hash: Seq<char>,
    outputs: Seq<Seq<char>>,
    sample_count: usize,
)
    requires
        sample_count >= 1,
        outputs.len() == run_count(mode, sample_count),
    ensures
        is_current(built_artifact(mode, source_hash, outputs), mode, source_hash, sample_count),
{
}

/// An artifact recorded for another source is never reused.
pub proof fn lemma_changed_source_not_current(
    a: ArtifactView,
    requested: ExampleMode,
    source_hash: Seq<char>,
    sample_count: usize,
)
    requires
        a.source_hash != source_hash,
    ensures
        !is_current(a, requested, source_hash, sample_count),
{
}

} // verus!
