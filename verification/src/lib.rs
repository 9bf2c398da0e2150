//! Block quantization of weights into packed signed integer codes: the integer
//! side of the format (bit widths, code ranges, bit packing, block layout,
//! pickle state) and the bookkeeping around the evaluation tools.
pub mod bits;
pub mod packed;
pub mod quantized;
pub mod scale;
pub mod error;
pub mod scheme;
pub mod pickle;
pub mod inner;
pub mod decode;
pub mod perplexity;
pub mod layers;
pub mod weights;
pub mod cache;
pub mod args;
pub mod corpus;
pub mod readme;
pub mod input;
pub mod throughput;
