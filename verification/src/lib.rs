//! Codec for the AWS X-Ray tracing header.
//!
//! Converts between an in-memory trace context (trace id, parent span id,
//! sampling decision, vendor annotations) and the single-line
//! `x-amzn-trace-id` wire header that propagates it across processes.

use vstd::prelude::*;

pub mod ascii;
pub mod codec;
pub mod hex;
pub mod laws;
pub mod model;
pub mod propagator;
pub mod tokenizer;
pub mod vendor;
pub mod xray_id;

verus! {

/// The all-zero trace id, the distinguished invalid sentinel.
pub const INVALID_TRACE_ID: u128 = 0;

/// The all-zero parent span id, the distinguished invalid sentinel.
pub const INVALID_PARENT_ID: u64 = 0;

} // verus!
