//! The options a run is configured with.

use vstd::prelude::*;

verus! {

/// What a run needs to know: the input context file; optionally a template
/// file to render per record, with the two record fields whose sanitized
/// values name each record's output directory; and the output base path.
/// With no template, the run expands the input's prompt templates instead
/// and writes one aggregate JSON document.
#[derive(Debug, Clone, PartialEq, Eq)]
pub struct Opts {
    /// The input context file: the data source for either mode.
    pub context: String,
    /// A template to render once per record, if the run renders files.
    pub template: Option<String>,
    /// Where output is written; the current directory if absent.
    pub output_path: Option<String>,
    /// The record field whose sanitized value names the first directory
    /// level.
    pub category_subdirectory_key: Option<String>,
    /// The record field whose sanitized value names the second directory
    /// level.
    pub title_subdirectory_key: Option<String>,
}

} // verus!
