//! Orchestration layer of a text-to-speech front end: voice-style blend
//! expressions, mode selection, batch planning, streaming session control and
//! WAV framing of synthesized samples.
pub mod batch;
pub mod invocation;
pub mod stream;
pub mod style;
pub mod text;
pub mod wav;
