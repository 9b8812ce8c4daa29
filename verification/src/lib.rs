//! Verified core of a small GPT-2 inference engine: greedy token selection,
//! the greedy generation loop's decisions, the decoding of little-endian
//! weight tensors out of a safetensors archive, and the token id plumbing
//! around the BPE tokenizer.

pub mod generation;
pub mod names;
pub mod sampling;
pub mod tokenizer;
pub mod weights;
