//! The propagator facade: the owned header field name and the operations a
//! transport needs, delegating entirely to the context codec.

use vstd::prelude::*;
use crate::ascii::{trim, trim_spec};
use crate::codec::{decode_spec, span_context_from_str};
use crate::model::TraceContext;

verus! {

/// The single wire field this propagator owns.
pub const AWS_XRAY_TRACE_HEADER: &'static str = "x-amzn-trace-id";

/// The characters of the owned field name.
pub open spec fn header_name() -> Seq<char> {
    seq!['x', '-', 'a', 'm', 'z', 'n', '-', 't', 'r', 'a', 'c', 'e', '-', 'i', 'd']
}

/// The field names this propagator reads and writes: exactly one.
pub fn trace_context_header_fields() -> (r: Vec<String>)
    ensures
        r.deep_view() =~= seq![header_name()],
{
    let mut fields: Vec<String> = Vec::new();
    let name: String = AWS_XRAY_TRACE_HEADER.to_owned();
    proof {
        reveal_strlit("x-amzn-trace-id");
        assert(name@ =~= header_name());
    }
    fields.push(name);
    proof {
        assert(fields.deep_view() =~= seq![header_name()]);
    }
    fields
}

/// Converts trace context to and from the `x-amzn-trace-id` wire header.
#[derive(Clone, Debug)]
pub struct XrayPropagator {
}

impl XrayPropagator {
    /// Creates a new propagator.
    pub fn new() -> (r: Self) {
        XrayPropagator {  }
    }

    /// Decodes the raw carrier value of the owned field, surrounding white
    /// space ignored; an absent field or an undecodable value carries no
    /// context, which is never fatal to the caller.
    pub fn extract_span_context(&self, header: Option<&str>) -> (r: Option<TraceContext>)
        ensures
            match header {
                None => r is None,
                Some(h) => {
                    &&& r is Some <==> decode_spec(trim_spec(h@)) is Some
                    &&& (r is Some ==> (r->0).model() == decode_spec(trim_spec(h@))->0)
                },
            },
    {
        match header {
            None => None,
            Some(h) => span_context_from_str(trim(h)),
        }
    }
}

impl Default for XrayPropagator {
    /// The default propagator is the same as a new one.
    fn default() -> (r: Self)
        ensures
            r == (XrayPropagator {  }),
    {
        XrayPropagator {  }
    }
}

} // verus!
