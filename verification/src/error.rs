//! Errors reported while collecting and expanding directives.

use vstd::prelude::*;

verus! {

/// Why a chapter, directive or example could not be processed.
#[derive(Debug, Clone)]
pub enum PreprocessError {
    /// `mode=<value>` names no known mode.
    UnsupportedMode(String),
    /// A note directive names no known note type.
    UnsupportedNoteType(String),
    /// A runnable directive holds no path.
    MissingRunnablePath,
    /// A runnable directive holds an option that is not understood.
    UnsupportedOption(String),
    /// A note directive header does not have the form `type [title="..."]`.
    InvalidNoteDirective(String),
    /// A note block has no closing `{{/note}}` line.
    UnterminatedNote,
    /// A note block has an empty body; the payload is the note's title.
    EmptyNote(String),
    /// Two explicit, different modes were requested for one example.
    ConflictingModes,
    /// The example at the given path is referenced with conflicting modes.
    ConflictingReferences(String),
    /// The source of a runnable example could not be read.
    ExampleUnreadable { path: String, cause: String },
    /// The recorded outputs of a runnable example could not be read.
    ArtifactUnreadable { path: String, cause: String },
    /// The manifest template holds no package name that could be rewritten.
    ManifestRewriteFailed,
    /// No files were loaded for the example at the given path.
    ExampleNotLoaded(String),
}

/// The mathematical value of a [`PreprocessError`].
pub enum Failure {
    UnsupportedMode(Seq<char>),
    UnsupportedNoteType(Seq<char>),
    MissingRunnablePath,
    UnsupportedOption(Seq<char>),
    InvalidNoteDirective(Seq<char>),
    UnterminatedNote,
    EmptyNote(Seq<char>),
    ConflictingModes,
    ConflictingReferences(Seq<char>),
    ExampleUnreadable(Seq<char>, Seq<char>),
    ArtifactUnreadable(Seq<char>, Seq<char>),
    ManifestRewriteFailed,
    ExampleNotLoaded(Seq<char>),
}

impl View for PreprocessError {
    type V = Failure;

    open spec fn view(&self) -> Failure {
        match self {
            PreprocessError::UnsupportedMode(s) => Failure::UnsupportedMode(s@),
            PreprocessError::UnsupportedNoteType(s) => Failure::UnsupportedNoteType(s@),
            PreprocessError::MissingRunnablePath => Failure::MissingRunnablePath,
            PreprocessError::UnsupportedOption(s) => Failure::UnsupportedOption(s@),
            PreprocessError::InvalidNoteDirective(s) => Failure::InvalidNoteDirective(s@),
            PreprocessError::UnterminatedNote => Failure::UnterminatedNote,
            PreprocessError::EmptyNote(s) => Failure::EmptyNote(s@),
            PreprocessError::ConflictingModes => Failure::ConflictingModes,
            PreprocessError::ConflictingReferences(s) => Failure::ConflictingReferences(s@),
            PreprocessError::ExampleUnreadable { path, cause } => Failure::ExampleUnreadable(
                path@,
                cause@,
            ),
            PreprocessError::ArtifactUnreadable { path, cause } => Failure::ArtifactUnreadable(
                path@,
                cause@,
            ),
            PreprocessError::ManifestRewriteFailed => Failure::ManifestRewriteFailed,
            PreprocessError::ExampleNotLoaded(s) => Failure::ExampleNotLoaded(s@),
        }
    }
}

/// The mathematical value of a result whose value has a view.
pub open spec fn result_view<T: View>(r: Result<T, PreprocessError>) -> Result<T::V, Failure> {
    match r {
        Ok(v) => Ok(v@),
        Err(e) => Err(e@),
    }
}

} // verus!
