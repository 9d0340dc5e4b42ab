//! The in-memory trace context and its mathematical model.

use vstd::prelude::*;
use opentelemetry::trace::TraceState;
use crate::vendor::trace_state_entries;

verus! {

/// The tri-state sampling decision. `Deferred` (a requested decision) is
/// distinct from an explicit `NotSampled`.
#[derive(Clone, Copy, Debug, PartialEq, Eq, Structural)]
pub enum SamplingState {
    NotSampled,
    Sampled,
    Deferred,
}

/// The in-memory trace context: what the wire header carries.
#[derive(Clone, Debug)]
pub struct TraceContext {
    /// 128-bit trace identifier; all-zero is the invalid sentinel.
    pub trace_id: u128,
    /// 64-bit parent span identifier; all-zero is the invalid sentinel.
    pub parent_id: u64,
    /// The sampling decision.
    pub sampling_state: SamplingState,
    /// Ordered vendor key/value annotations, keys lowercased.
    pub vendor_state: TraceState,
}

/// The mathematical value of a trace context: its identifiers, its sampling
/// decision, and the entries of its vendor state.
#[verifier::ext_equal]
pub ghost struct ContextModel {
    pub trace_id: u128,
    pub parent_id: u64,
    pub sampling: SamplingState,
    pub vendor: Seq<(Seq<char>, Seq<char>)>,
}

impl TraceContext {
    pub open spec fn model(&self) -> ContextModel {
        ContextModel {
            trace_id: self.trace_id,
            parent_id: self.parent_id,
            sampling: self.sampling_state,
            vendor: trace_state_entries(self.vendor_state),
        }
    }

    /// A context is valid exactly when its trace id is not the sentinel.
    pub fn is_valid(&self) -> (r: bool)
        ensures
            r == (self.trace_id != crate::INVALID_TRACE_ID),
    {
        self.trace_id != crate::INVALID_TRACE_ID
    }
}

} // verus!
