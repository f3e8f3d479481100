use vstd::prelude::*;

pub mod args;
pub mod devices;
pub mod filter;
pub mod mixer;
pub mod mono;
pub mod pcm;
pub mod pipeline;
pub mod segment;
pub mod text;
pub mod transcript;
pub mod vad;

verus! {

/// Number of samples per second in every audio buffer handled by the library.
pub const SAMPLE_RATE: usize = 16_000;

} // verus!
