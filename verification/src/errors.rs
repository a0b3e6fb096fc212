//! The error taxonomy of the pipeline.
//!
//! Configuration problems surface when the input document is inspected,
//! alignment problems when completions are matched back to prompts or
//! records, and provider problems are wrapped into a single variant by the
//! caller that talks to the network.  Rate-limit pressure is not an error
//! and has no variant here.

use vstd::prelude::*;

verus! {

/// Everything that can go wrong in a run.
#[derive(Debug, PartialEq, Eq)]
pub enum Error {
    /// The input document is not an object.
    DocumentNotObject,
    /// The input document has no `contexts` field.
    MissingContexts,
    /// The `contexts` field is not a list.
    ContextsNotList,
    /// The record at this position in `contexts` is not an object.
    RecordNotObject(usize),
    /// The `prompt_templates` field is present but not an object.
    TemplatesNotObject,
    /// The named prompt template is not an object.
    TemplateNotObject(String),
    /// The named prompt template lacks a `prompt` string.
    TemplateMissingPrompt(String),
    /// The named prompt template lacks a non-negative integer `tokens`.
    TemplateMissingTokens(String),
    /// The named prompt template has a `model` that is not a string.
    TemplateBadModel(String),
    /// The named prompt template has a `temperature` that is not a number.
    TemplateBadTemperature(String),
    /// The input file's extension names no supported format.
    UnsupportedExtension(String),
    /// A referenced record field is absent.
    MissingField(String),
    /// A referenced record field is not a string.
    FieldNotText(String),
    /// A template placeholder is opened with `{{` but never closed.
    UnclosedPlaceholder,
    /// A list of completions does not line up with what it answers.
    Alignment { expected: usize, got: usize },
    /// The provider failed; the message is the provider's.
    Completion(String),
    /// Completions were requested before every chunk had been answered.
    IncompleteBatch { expected: usize, got: usize },
}

} // verus!
