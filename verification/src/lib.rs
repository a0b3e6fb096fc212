//! A rate-limited batch completion pipeline.
//!
//! The library turns a list of structured context records and a set of named
//! prompt templates into concrete prompts, assembles the completions that a
//! remote provider returns for them in fixed-size batches, merges each
//! completion back into the record it came from, and renders the merged
//! records as a JSON document.  A cell-rate limiter bounds the throughput of
//! the whole run.  Everything that computes is specified and verified here;
//! reading files, calling the provider and sleeping between retries belong to
//! the binary built on top of the library.

pub mod batch;
pub mod errors;
pub mod json;
pub mod merge;
pub mod numfmt;
pub mod opts;
pub mod output;
pub mod rate;
pub mod sanitize;
pub mod store;
pub mod template;
pub mod text;
pub mod value;
