//! The errors of a whole run.

use vstd::prelude::*;
use crate::collect::PromptError;
use crate::source::SourceError;
use crate::template::TemplateError;

verus! {

/// Why a run failed: at the source, while rendering, or while asking.
#[derive(Debug)]
pub enum KopyeError {
    Source(SourceError),
    Template(TemplateError),
    Prompt(PromptError),
}

} // verus!
