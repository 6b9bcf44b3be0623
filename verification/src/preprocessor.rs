//! The preprocessor itself: its name and the renderers it supports.

use vstd::prelude::*;
use crate::text::{chars_eq, str_to_chars};

verus! {

/// The name under which the preprocessor is configured.
pub const PREPROCESSOR_NAME: &'static str = "runnable-examples";

/// The preprocessor that expands runnable example and note directives.
#[derive(Debug)]
pub struct RunnableExamples;

impl RunnableExamples {
    /// A new preprocessor.
    pub fn new() -> (r: RunnableExamples) {
        RunnableExamples
    }

    /// The name under which the preprocessor is configured.
    pub fn name(&self) -> (r: &'static str)
        ensures
            r@ == "runnable-examples"@,
    {
        PREPROCESSOR_NAME
    }

    /// Whether the preprocessor works for the renderer `renderer`: only the
    /// HTML renderer is supported.
    pub fn supports_renderer(&self, renderer: &str) -> (r: bool)
        ensures
            r == (renderer@ == "html"@),
    {
        let a = str_to_chars(renderer);
        let b = str_to_chars("html");
        chars_eq(a.as_slice(), b.as_slice())
    }
}

} // verus!
