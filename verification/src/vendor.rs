//! The vendor-state container: an ordered key/value collection supplied by
//! the `opentelemetry` crate, consumed here only through its documented
//! construction and rendering interface.

use vstd::prelude::*;
use opentelemetry::trace::TraceState;
use crate::tokenizer::{no_char, join_char};

verus! {

#[verifier::external_type_specification]
#[verifier::external_body]
pub struct ExTraceState(TraceState);

/// Relies on `TraceState`'s derived `Clone`: a field-by-field copy, equal to
/// the original.
pub assume_specification[ <TraceState as Clone>::clone ](ts: &TraceState) -> (r: TraceState)
    ensures
        r == *ts,
;

/// The ordered key/value entries a `TraceState` holds.
pub uninterp spec fn trace_state_entries(ts: TraceState) -> Seq<(Seq<char>, Seq<char>)>;

pub open spec fn is_lower_or_digit(c: char) -> bool {
    'a' <= c && c <= 'z' || '0' <= c && c <= '9'
}

pub open spec fn allowed_key_char(c: char) -> bool {
    is_lower_or_digit(c) || c == '_' || c == '-' || c == '*' || c == '/' || c == '@'
}

/// A key the vendor-state container accepts: at most 256 characters, all from
/// the allowed set, starting with a lowercase letter or digit, with at most
/// one `@` that sits no more than 14 characters from the end and is followed
/// by a lowercase letter or digit.
pub open spec fn valid_ts_key(k: Seq<char>) -> bool {
    &&& k.len() <= 256
    &&& forall|i: int| 0 <= i < k.len() ==> allowed_key_char(#[trigger] k[i])
    &&& (k.len() > 0 ==> is_lower_or_digit(k[0]))
    &&& forall|i: int, j: int| 0 <= i < j < k.len() && #[trigger] k[i] == '@' ==> #[trigger] k[j]
        != '@'
    &&& forall|i: int| 0 <= i < k.len() && #[trigger] k[i] == '@' ==> i + 14 >= k.len()
    &&& forall|i: int|
        0 <= i < k.len() && #[trigger] k[i] == '@' && i + 1 < k.len() ==> is_lower_or_digit(
            k[i + 1],
        )
}

/// A value the vendor-state container accepts: at most 256 bytes in its UTF-8
/// form, containing neither `,` nor `=`.
pub open spec fn valid_ts_value(v: Seq<char>) -> bool {
    &&& vstd::utf8::encode_utf8(v).len() <= 256
    &&& no_char(v, ',')
    &&& no_char(v, '=')
}

/// The first 32 pairs of a sequence; the container silently drops the rest.
pub open spec fn keep_head(ps: Seq<(Seq<char>, Seq<char>)>) -> Seq<(Seq<char>, Seq<char>)> {
    if ps.len() <= 32 {
        ps
    } else {
        ps.subrange(0, 32)
    }
}

/// All kept pairs pass the container's key and value validation.
pub open spec fn vendor_pairs_ok(ps: Seq<(Seq<char>, Seq<char>)>) -> bool {
    forall|i: int|
        0 <= i < ps.len() ==> valid_ts_key((#[trigger] ps[i]).0) && valid_ts_value(ps[i].1)
}

/// One entry rendered for the wire.
pub open spec fn entry_str(e: (Seq<char>, Seq<char>)) -> Seq<char> {
    e.0 + seq!['='] + e.1
}

/// The whole vendor state rendered: `key=value` segments joined by `;`.
pub open spec fn render_entries(es: Seq<(Seq<char>, Seq<char>)>) -> Seq<char> {
    join_char(es.map_values(|e: (Seq<char>, Seq<char>)| entry_str(e)), ';')
}

/// Relies on `TraceState::from_key_value`: it keeps at most the first 32
/// pairs, accepts them exactly when each key and value passes the W3C
/// validation mirrored by `valid_ts_key` and `valid_ts_value`, and preserves
/// the kept pairs and their order.
#[verifier::external_body]
pub(crate) fn trace_state_from_pairs(pairs: Vec<(String, String)>) -> (r: Option<TraceState>)
    ensures
        r is Some <==> vendor_pairs_ok(keep_head(pairs.deep_view())),
        r is Some ==> trace_state_entries(r->0) == keep_head(pairs.deep_view()),
{
    match TraceState::from_key_value(pairs) {
        Ok(ts) => Some(ts),
        Err(_) => None,
    }
}

/// Relies on `TraceState::header_delimited`: it renders each entry as
/// `key=value` and joins the entries with the list delimiter, in order.
#[verifier::external_body]
pub(crate) fn trace_state_header(ts: &TraceState) -> (r: String)
    ensures
        r@ == render_entries(trace_state_entries(*ts)),
{
    ts.header_delimited("=", ";")
}

} // verus!
