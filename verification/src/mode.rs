//! Example modes and note types, and how modes requested in several places
//! combine.

use vstd::prelude::*;
use crate::error::{Failure, PreprocessError};
use crate::text::{chars_eq, chars_to_string, str_to_chars};

verus! {

/// How the outputs of a runnable example are recorded.
#[derive(Debug, Clone, Copy, PartialEq, Eq, Structural)]
pub enum ExampleMode {
    /// Run several times and decide from the outputs.
    Auto,
    /// Run once; the output is always the same.
    Deterministic,
    /// Run several times and keep every output.
    Nondeterministic,
}

/// The token that names `m` (`auto`, `deterministic`, `nondeterministic`).
pub open spec fn mode_name(m: ExampleMode) -> Seq<char> {
    match m {
        ExampleMode::Auto => "auto"@,
        ExampleMode::Deterministic => "deterministic"@,
        ExampleMode::Nondeterministic => "nondeterministic"@,
    }
}

/// The mode that `t` names, if any.
pub open spec fn mode_of_token(t: Seq<char>) -> Option<ExampleMode> {
    if t == "auto"@ {
        Some(ExampleMode::Auto)
    } else if t == "deterministic"@ {
        Some(ExampleMode::Deterministic)
    } else if t == "nondeterministic"@ {
        Some(ExampleMode::Nondeterministic)
    } else {
        None
    }
}

/// The mode named by `t`, or the error that an unknown mode gives.
pub open spec fn parse_mode_spec(t: Seq<char>) -> Result<ExampleMode, Failure> {
    match mode_of_token(t) {
        Some(m) => Ok(m),
        None => Err(Failure::UnsupportedMode(t)),
    }
}

/// The mode that the characters `t` name, if any.
pub fn mode_of_chars(t: &[char]) -> (r: Option<ExampleMode>)
    ensures
        r == mode_of_token(t@),
{
    if chars_eq(t, str_to_chars("auto").as_slice()) {
        Some(ExampleMode::Auto)
    } else if chars_eq(t, str_to_chars("deterministic").as_slice()) {
        Some(ExampleMode::Deterministic)
    } else if chars_eq(t, str_to_chars("nondeterministic").as_slice()) {
        Some(ExampleMode::Nondeterministic)
    } else {
        None
    }
}

/// The mode named by the characters `t`; an unknown name is an error.
pub fn parse_mode_chars(t: &[char]) -> (r: Result<ExampleMode, PreprocessError>)
    ensures
        match r {
            Ok(m) => parse_mode_spec(t@) == Ok::<ExampleMode, Failure>(m),
            Err(e) => parse_mode_spec(t@) == Err::<ExampleMode, Failure>(e@),
        },
{
    match mode_of_chars(t) {
        Some(m) => Ok(m),
        None => Err(PreprocessError::UnsupportedMode(chars_to_string(t))),
    }
}

impl ExampleMode {
    /// The mode named by `token`; an unknown name is
    /// `UnsupportedMode(token)`.
    pub fn from_token(token: &str) -> (r: Result<ExampleMode, PreprocessError>)
        ensures
            match r {
                Ok(m) => parse_mode_spec(token@) == Ok::<ExampleMode, Failure>(m),
                Err(e) => parse_mode_spec(token@) == Err::<ExampleMode, Failure>(e@),
            },
    {
        let t = str_to_chars(token);
        parse_mode_chars(t.as_slice())
    }

    /// The token that names this mode.
    pub fn as_str(self) -> (r: &'static str)
        ensures
            r@ == mode_name(self),
    {
        match self {
            ExampleMode::Auto => "auto",
            ExampleMode::Deterministic => "deterministic",
            ExampleMode::Nondeterministic => "nondeterministic",
        }
    }
}

/// The kinds of note block, each with its own style.
#[derive(Debug, Clone, Copy, PartialEq, Eq, Structural)]
pub enum NoteType {
    Note,
    Tip,
    Important,
    Warning,
    Caution,
}

/// The token that names `t`; it is also the suffix of its CSS class.
pub open spec fn note_type_name(t: NoteType) -> Seq<char> {
    match t {
        NoteType::Note => "note"@,
        NoteType::Tip => "tip"@,
        NoteType::Important => "important"@,
        NoteType::Warning => "warning"@,
        NoteType::Caution => "caution"@,
    }
}

/// The title a note of type `t` gets when its directive gives none.
pub open spec fn note_default_title(t: NoteType) -> Seq<char> {
    match t {
        NoteType::Note => "Note"@,
        NoteType::Tip => "Tip"@,
        NoteType::Important => "Important"@,
        NoteType::Warning => "Warning"@,
        NoteType::Caution => "Caution"@,
    }
}

/// The note type that `t` names, if any.
pub open spec fn note_type_of_token(t: Seq<char>) -> Option<NoteType> {
    if t == "note"@ {
        Some(NoteType::Note)
    } else if t == "tip"@ {
        Some(NoteType::Tip)
    } else if t == "important"@ {
        Some(NoteType::Important)
    } else if t == "warning"@ {
        Some(NoteType::Warning)
    } else if t == "caution"@ {
        Some(NoteType::Caution)
    } else {
        None
    }
}

/// The note type named by `t`, or the error that an unknown type gives.
pub open spec fn parse_note_type_spec(t: Seq<char>) -> Result<NoteType, Failure> {
    match note_type_of_token(t) {
        Some(n) => Ok(n),
        None => Err(Failure::UnsupportedNoteType(t)),
    }
}

/// The note type named by the characters `t`; an unknown name is an error.
pub fn parse_note_type_chars(t: &[char]) -> (r: Result<NoteType, PreprocessError>)
    ensures
        match r {
            Ok(n) => parse_note_type_spec(t@) == Ok::<NoteType, Failure>(n),
            Err(e) => parse_note_type_spec(t@) == Err::<NoteType, Failure>(e@),
        },
{
    if chars_eq(t, str_to_chars("note").as_slice()) {
        Ok(NoteType::Note)
    } else if chars_eq(t, str_to_chars("tip").as_slice()) {
        Ok(NoteType::Tip)
    } else if chars_eq(t, str_to_chars("important").as_slice()) {
        Ok(NoteType::Important)
    } else if chars_eq(t, str_to_chars("warning").as_slice()) {
        Ok(NoteType::Warning)
    } else if chars_eq(t, str_to_chars("caution").as_slice()) {
        Ok(NoteType::Caution)
    } else {
        Err(PreprocessError::UnsupportedNoteType(chars_to_string(t)))
    }
}

impl NoteType {
    /// The note type named by `token`; an unknown name is
    /// `UnsupportedNoteType(token)`.
    pub fn from_token(token: &str) -> (r: Result<NoteType, PreprocessError>)
        ensures
            match r {
                Ok(n) => parse_note_type_spec(token@) == Ok::<NoteType, Failure>(n),
                Err(e) => parse_note_type_spec(token@) == Err::<NoteType, Failure>(e@),
            },
    {
        let t = str_to_chars(token);
        parse_note_type_chars(t.as_slice())
    }

    /// The suffix of the CSS class of this note type.
    pub fn as_class_suffix(self) -> (r: &'static str)
        ensures
            r@ == note_type_name(self),
    {
        match self {
            NoteType::Note => "note",
            NoteType::Tip => "tip",
            NoteType::Important => "important",
            NoteType::Warning => "warning",
            NoteType::Caution => "caution",
        }
    }

    /// The title of a note of this type whose directive gives none.
    pub fn default_title(self) -> (r: &'static str)
        ensures
            r@ == note_default_title(self),
    {
        match self {
            NoteType::Note => "Note",
            NoteType::Tip => "Tip",
            NoteType::Important => "Important",
            NoteType::Warning => "Warning",
            NoteType::Caution => "Caution",
        }
    }
}

/// How two requested modes for one example combine: equal modes agree,
/// `Auto` yields to the other, and two different explicit modes conflict.
pub open spec fn merge_modes_spec(existing: ExampleMode, incoming: ExampleMode) -> Option<
    ExampleMode,
> {
    if existing == incoming {
        Some(existing)
    } else if existing == ExampleMode::Auto {
        Some(incoming)
    } else if incoming == ExampleMode::Auto {
        Some(existing)
    } else {
        None
    }
}

/// Combines the mode already recorded for an example with a newly requested
/// one; two different explicit modes are `ConflictingModes`.
pub fn merge_example_modes(existing: ExampleMode, incoming: ExampleMode) -> (r: Result<
    ExampleMode,
    PreprocessError,
>)
    ensures
        match r {
            Ok(m) => merge_modes_spec(existing, incoming) == Some(m),
            Err(e) => merge_modes_spec(existing, incoming) is None && e@
                == Failure::ConflictingModes,
        },
{
    if existing == incoming {
        Ok(existing)
    } else if existing == ExampleMode::Auto {
        Ok(incoming)
    } else if incoming == ExampleMode::Auto {
        Ok(existing)
    } else {
        Err(PreprocessError::ConflictingModes)
    }
}

/// Every mode's name parses back to that mode.
pub proof fn lemma_mode_name_roundtrip(m: ExampleMode)
    ensures
        mode_of_token(mode_name(m)) == Some(m),
{
    reveal_strlit("auto");
    reveal_strlit("deterministic");
    reveal_strlit("nondeterministic");
    assert("auto"@.len() == 4);
    assert("deterministic"@.len() == 13);
    assert("nondeterministic"@.len() == 16);
}

/// A token that parses to a mode is that mode's name.
pub proof fn lemma_mode_token_canonical(t: Seq<char>)
    ensures
        mode_of_token(t) matches Some(m) ==> mode_name(m) == t,
{
}

/// Every note type's name parses back to that note type.
pub proof fn lemma_note_type_name_roundtrip(n: NoteType)
    ensures
        note_type_of_token(note_type_name(n)) == Some(n),
{
    reveal_strlit("note");
    reveal_strlit("tip");
    reveal_strlit("important");
    reveal_strlit("warning");
    reveal_strlit("caution");
    assert("note"@.len() == 4);
    assert("tip"@.len() == 3);
    assert("important"@.len() == 9);
    assert("warning"@.len() == 7);
    assert("caution"@.len() == 7);
    assert("warning"@[0] == 'w');
    assert("caution"@[0] == 'c');
}

/// Combining modes does not depend on the order of the two requests.
pub proof fn lemma_merge_commutative(a: ExampleMode, b: ExampleMode)
    ensures
        merge_modes_spec(a, b) == merge_modes_spec(b, a),
{
}

/// `Auto` is neutral: it never changes the other request.
pub proof fn lemma_merge_auto_neutral(m: ExampleMode)
    ensures
        merge_modes_spec(ExampleMode::Auto, m) == Some(m),
        merge_modes_spec(m, ExampleMode::Auto) == Some(m),
{
}

/// Repeating a request changes nothing.
pub proof fn lemma_merge_idempotent(m: ExampleMode)
    ensures
        merge_modes_spec(m, m) == Some(m),
{
}

/// Combining three requests gives the same outcome in either grouping.
pub proof fn lemma_merge_associative(a: ExampleMode, b: ExampleMode, c: ExampleMode)
    ensures
        (match merge_modes_spec(a, b) {
            Some(ab) => merge_modes_spec(ab, c),
            None => None,
        }) == (match merge_modes_spec(b, c) {
            Some(bc) => merge_modes_spec(a, bc),
            None => None,
        }),
{
}

} // verus!
