//! Meeting recorder library: transcript chunking, prompt building, export
//! planning, settings and the bookkeeping around recorded meetings.
use vstd::prelude::*;

pub mod chat;
pub mod chunker;
pub mod embeddings;
pub mod export;
pub mod ids;
pub mod library;
pub mod prompt;
pub mod rag;
pub mod recorder;
pub mod settings;
pub mod sse;
pub mod text;
pub mod transcription;

verus! {
}
