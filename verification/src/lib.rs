//! Subtitle generation and translation: SRT handling, transcription output
//! conversion, translation requests and the decisions of the processing pipeline.
use vstd::prelude::*;

pub mod api;
pub mod config;
pub mod error;
pub mod models;
pub mod naming;
pub mod pipeline;
pub mod text;
pub mod watcher;

verus! {
}
