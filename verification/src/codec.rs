//! The context codec: between the wire header string and the in-memory trace
//! context.

use vstd::prelude::*;
use crate::ascii::{lower_seq, title_seq, ascii_lowercase, title_case, str_eq};
use crate::hex::{
    all_hex, hex_val, render_hex, parse_hex_u128_spec, parse_hex_u128, render_hex_u128,
    lemma_hex_val_bound, lemma_pow16_val,
};
use crate::model::{ContextModel, SamplingState, TraceContext};
use crate::tokenizer::{
    pairs_of, tokenize, split_terminator_spec, split_terminator_str, join_char, join_strings,
};
use crate::vendor::{
    keep_head, render_entries, trace_state_from_pairs, trace_state_header, vendor_pairs_ok,
};
use crate::xray_id::{xray_decode_spec, xray_encode_spec};

verus! {

pub open spec fn root_key() -> Seq<char> {
    seq!['R', 'o', 'o', 't']
}

pub open spec fn parent_key() -> Seq<char> {
    seq!['P', 'a', 'r', 'e', 'n', 't']
}

pub open spec fn sampled_key() -> Seq<char> {
    seq!['S', 'a', 'm', 'p', 'l', 'e', 'd']
}

/// The decoder's starting state: both ids invalid, the sampling decision
/// deferred, no vendor entries.
pub open spec fn init_model() -> ContextModel {
    ContextModel {
        trace_id: crate::INVALID_TRACE_ID,
        parent_id: crate::INVALID_PARENT_ID,
        sampling: SamplingState::Deferred,
        vendor: Seq::empty(),
    }
}

/// A parent value parses as exactly 16 hexadecimal digits; anything else
/// falls back to the invalid parent id without aborting the parse.
pub open spec fn parse_parent_spec(v: Seq<char>) -> u64 {
    if v.len() == 16 && all_hex(v) {
        hex_val(v) as u64
    } else {
        crate::INVALID_PARENT_ID
    }
}

/// The sampling state a wire token denotes: unknown tokens mean the decision
/// is still deferred, never an error.
pub open spec fn sampling_of_token(v: Seq<char>) -> SamplingState {
    if v == seq!['0'] {
        SamplingState::NotSampled
    } else if v == seq!['1'] {
        SamplingState::Sampled
    } else {
        SamplingState::Deferred
    }
}

/// One decoding step: dispatch on the exact key. A malformed `Root` aborts
/// the whole parse; any unrecognized key becomes a vendor entry with its key
/// lowercased.
pub open spec fn apply_pair(st: ContextModel, kv: (Seq<char>, Seq<char>)) -> Option<ContextModel> {
    if kv.0 == root_key() {
        match xray_decode_spec(kv.1) {
            None => None,
            Some(id) => Some(ContextModel { trace_id: id, ..st }),
        }
    } else if kv.0 == parent_key() {
        Some(ContextModel { parent_id: parse_parent_spec(kv.1), ..st })
    } else if kv.0 == sampled_key() {
        Some(ContextModel { sampling: sampling_of_token(kv.1), ..st })
    } else {
        Some(ContextModel { vendor: st.vendor.push((lower_seq(kv.0), kv.1)), ..st })
    }
}

pub open spec fn apply_pairs(st: ContextModel, ps: Seq<(Seq<char>, Seq<char>)>) -> Option<
    ContextModel,
>
    decreases ps.len(),
{
    if ps.len() == 0 {
        Some(st)
    } else {
        match apply_pair(st, ps.first()) {
            None => None,
            Some(st2) => apply_pairs(st2, ps.drop_first()),
        }
    }
}

/// What decoding a wire string yields: the tokenized pairs folded over the
/// starting state; no context at all when a `Root` value is malformed, when
/// the vendor-state container rejects the collected entries, or when no valid
/// `Root` was present.
pub open spec fn decode_spec(s: Seq<char>) -> Option<ContextModel> {
    match apply_pairs(init_model(), pairs_of(s)) {
        None => None,
        Some(st) => {
            let kept = keep_head(st.vendor);
            if !vendor_pairs_ok(kept) {
                None
            } else if st.trace_id == crate::INVALID_TRACE_ID {
                None
            } else {
                Some(ContextModel { vendor: kept, ..st })
            }
        },
    }
}

pub open spec fn root_prefix() -> Seq<char> {
    seq!['R', 'o', 'o', 't', '=']
}

pub open spec fn parent_prefix() -> Seq<char> {
    seq!['P', 'a', 'r', 'e', 'n', 't', '=']
}

pub open spec fn sampled_prefix() -> Seq<char> {
    seq!['S', 'a', 'm', 'p', 'l', 'e', 'd', '=']
}

/// The wire token of a sampling state; the deferred state is authoritative.
pub open spec fn sampling_token(s: SamplingState) -> Seq<char> {
    match s {
        SamplingState::Deferred => seq!['?'],
        SamplingState::Sampled => seq!['1'],
        SamplingState::NotSampled => seq!['0'],
    }
}

/// The vendor entries as they appear on the wire: rendered as `key=value`
/// segments, each segment title-cased for cosmetics, joined by `;`.
pub open spec fn vendor_header_spec(es: Seq<(Seq<char>, Seq<char>)>) -> Seq<char> {
    join_char(
        split_terminator_spec(render_entries(es), ';').map_values(|seg: Seq<char>| title_seq(seg)),
        ';',
    )
}

/// What encoding a context yields: nothing at all for an invalid context,
/// else `Root`, `Parent` (always 16 digits, even when invalid) and `Sampled`
/// in canonical order, then the vendor entries if there are any.
pub open spec fn encode_spec(m: ContextModel) -> Option<Seq<char>> {
    if m.trace_id == crate::INVALID_TRACE_ID {
        None
    } else {
        let head = root_prefix() + xray_encode_spec(m.trace_id) + seq![';'] + parent_prefix()
            + render_hex(m.parent_id as int, 16) + seq![';'] + sampled_prefix() + sampling_token(
            m.sampling,
        );
        let vh = vendor_header_spec(m.vendor);
        Some(
            if vh.len() == 0 {
                head
            } else {
                head + seq![';'] + vh
            },
        )
    }
}

/// Parses a `Parent` value: exactly 16 hexadecimal digits, or the invalid
/// parent id.
fn parse_parent(v: &str) -> (r: u64)
    ensures
        r == parse_parent_spec(v@),
{
    if v.unicode_len() != 16 {
        return 0;
    }
    match parse_hex_u128(v) {
        Some(x) => {
            proof {
                lemma_hex_val_bound(v@);
                lemma_pow16_val();
            }
            x as u64
        },
        None => {
            proof {
                if all_hex(v@) {
                    lemma_hex_val_bound(v@);
                    lemma_pow16_val();
                    assert(parse_hex_u128_spec(v@) is Some);
                }
            }
            0
        },
    }
}

/// Extracts the trace context a wire header string carries, or nothing when
/// the header carries none.
pub fn span_context_from_str(value: &str) -> (r: Option<TraceContext>)
    ensures
        r is Some <==> decode_spec(value@) is Some,
        r is Some ==> (r->0).model() == decode_spec(value@)->0,
{
    let pairs = tokenize(value);
    let ghost dv = pairs.deep_view();
    let mut trace_id: u128 = crate::INVALID_TRACE_ID;
    let mut parent_id: u64 = crate::INVALID_PARENT_ID;
    let mut sampling = SamplingState::Deferred;
    let mut vendor: Vec<(String, String)> = Vec::new();
    let mut i: usize = 0;
    proof {
        assert(vendor.deep_view() =~= Seq::<(Seq<char>, Seq<char>)>::empty());
        assert(dv.subrange(0, dv.len() as int) =~= dv);
        assert(dv =~= pairs_of(value@));
    }
    while i < pairs.len()
        invariant
            dv == pairs.deep_view(),
            dv == pairs_of(value@),
            i <= pairs.len(),
            apply_pairs(init_model(), dv) == apply_pairs(
                ContextModel {
                    trace_id: trace_id,
                    parent_id: parent_id,
                    sampling: sampling,
                    vendor: vendor.deep_view(),
                },
                dv.subrange(i as int, dv.len() as int),
            ),
        decreases pairs.len() - i,
    {
        let ghost cur = ContextModel {
            trace_id: trace_id,
            parent_id: parent_id,
            sampling: sampling,
            vendor: vendor.deep_view(),
        };
        proof {
            let suf = dv.subrange(i as int, dv.len() as int);
            assert(suf.len() > 0);
            assert(suf.first() == dv[i as int]);
            assert(suf.drop_first() =~= dv.subrange(i + 1, dv.len() as int));
            assert(dv[i as int] == (pairs[i as int].0@, pairs[i as int].1@));
        }
        let k = &pairs[i].0;
        let v = &pairs[i].1;
        proof {
            reveal_strlit("Root");
            reveal_strlit("Parent");
            reveal_strlit("Sampled");
            assert("Root"@ =~= root_key());
            assert("Parent"@ =~= parent_key());
            assert("Sampled"@ =~= sampled_key());
        }
        if str_eq(k.as_str(), "Root") {
            match crate::xray_id::decode(v.as_str()) {
                Err(_) => {
                    proof {
                        assert(apply_pair(cur, dv[i as int]) is None);
                        lemma_apply_pairs_none(cur, dv.subrange(i as int, dv.len() as int));
                        assert(apply_pairs(init_model(), dv) is None);
                        assert(dv =~= pairs_of(value@));
                        assert(decode_spec(value@) is None);
                    }
                    return None;
                },
                Ok(id) => {
                    trace_id = id;
                },
            }
        } else if str_eq(k.as_str(), "Parent") {
            parent_id = parse_parent(v.as_str());
        } else if str_eq(k.as_str(), "Sampled") {
            proof {
                reveal_strlit("0");
                reveal_strlit("1");
                assert("0"@ =~= seq!['0']);
                assert("1"@ =~= seq!['1']);
            }
            if str_eq(v.as_str(), "0") {
                sampling = SamplingState::NotSampled;
            } else if str_eq(v.as_str(), "1") {
                sampling = SamplingState::Sampled;
            } else {
                sampling = SamplingState::Deferred;
            }
        } else {
            let lowered = ascii_lowercase(k.as_str());
            let val = v.clone();
            let ghost prev = vendor.deep_view();
            vendor.push((lowered, val));
            proof {
                assert(vendor.deep_view() =~= prev.push((lower_seq(k@), v@)));
            }
        }
        i = i + 1;
    }
    proof {
        assert(dv.subrange(dv.len() as int, dv.len() as int).len() == 0);
    }
    let ghost fin = ContextModel {
        trace_id: trace_id,
        parent_id: parent_id,
        sampling: sampling,
        vendor: vendor.deep_view(),
    };
    proof {
        assert(apply_pairs(init_model(), dv) == Some(fin));
    }
    match trace_state_from_pairs(vendor) {
        None => {
            return None;
        },
        Some(ts) => {
            if trace_id == crate::INVALID_TRACE_ID {
                return None;
            }
            let ctx = TraceContext {
                trace_id: trace_id,
                parent_id: parent_id,
                sampling_state: sampling,
                vendor_state: ts,
            };
            Some(ctx)
        },
    }
}

/// A failed step keeps the whole fold failed.
proof fn lemma_apply_pairs_none(st: ContextModel, ps: Seq<(Seq<char>, Seq<char>)>)
    requires
        ps.len() > 0,
        apply_pair(st, ps.first()) is None,
    ensures
        apply_pairs(st, ps) is None,
{
}

/// Renders a context as its wire header string, or as nothing at all when
/// the context is invalid.
pub fn span_context_to_string(span_context: &TraceContext) -> (r: Option<String>)
    ensures
        r is Some <==> encode_spec(span_context.model()) is Some,
        r is Some ==> (r->0)@ == encode_spec(span_context.model())->0,
{
    if !span_context.is_valid() {
        return None;
    }
    let xray = crate::xray_id::encode(span_context.trace_id);
    let parent_hex = render_hex_u128(span_context.parent_id as u128, 16);
    let token: &'static str = match span_context.sampling_state {
        SamplingState::Deferred => "?",
        SamplingState::Sampled => "1",
        SamplingState::NotSampled => "0",
    };
    proof {
        reveal_strlit("?");
        reveal_strlit("1");
        reveal_strlit("0");
        assert(token@ =~= sampling_token(span_context.sampling_state));
    }
    let raw = trace_state_header(&span_context.vendor_state);
    let segs = split_terminator_str(raw.as_str(), ';');
    let mut titled: Vec<String> = Vec::new();
    let mut i: usize = 0;
    proof {
        assert(titled.deep_view() =~= segs.deep_view().subrange(0, 0).map_values(
            |seg: Seq<char>| title_seq(seg),
        ));
    }
    while i < segs.len()
        invariant
            i <= segs.len(),
            titled.deep_view() =~= segs.deep_view().subrange(0, i as int).map_values(
                |seg: Seq<char>| title_seq(seg),
            ),
        decreases segs.len() - i,
    {
        let t = title_case(segs[i]);
        let ghost prev = titled.deep_view();
        titled.push(t);
        proof {
            let sdv = segs.deep_view();
            assert(titled.deep_view() =~= prev.push(title_seq(sdv[i as int])));
            assert(titled.deep_view() =~= sdv.subrange(0, i + 1).map_values(
                |seg: Seq<char>| title_seq(seg),
            ));
        }
        i = i + 1;
    }
    proof {
        let sdv = segs.deep_view();
        assert(sdv.subrange(0, segs.len() as int) =~= sdv);
    }
    let vendor_hdr = join_strings(&titled, ';');
    proof {
        assert(vendor_hdr@ == vendor_header_spec(
            crate::vendor::trace_state_entries(span_context.vendor_state),
        ));
    }
    let mut out = String::new();
    out.append("Root=");
    out.append(xray.as_str());
    crate::ascii::push_char(&mut out, ';');
    out.append("Parent=");
    out.append(parent_hex.as_str());
    crate::ascii::push_char(&mut out, ';');
    out.append("Sampled=");
    out.append(token);
    proof {
        reveal_strlit("Root=");
        reveal_strlit("Parent=");
        reveal_strlit("Sampled=");
        assert("Root="@ =~= root_prefix());
        assert("Parent="@ =~= parent_prefix());
        assert("Sampled="@ =~= sampled_prefix());
    }
    if vendor_hdr.as_str().unicode_len() > 0 {
        crate::ascii::push_char(&mut out, ';');
        out.append(vendor_hdr.as_str());
    }
    proof {
        assert(out@ =~= encode_spec(span_context.model())->0);
    }
    Some(out)
}

} // verus!
