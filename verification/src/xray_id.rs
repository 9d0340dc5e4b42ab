//! The trace-id sub-codec: between the wire's three-part
//! `version-timestamp-uniquepart` form and the 128-bit internal identifier.

use vstd::prelude::*;
use crate::hex::{
    parse_hex_u128_spec, parse_hex_u128, render_hex, render_hex_u128, lemma_pow16_val,
    lemma_render_hex_inverse, lemma_render_hex_chars,
};
use crate::tokenizer::{split_terminator_spec, split_terminator_str};

verus! {

/// Why a wire trace id was rejected.
#[derive(Clone, Copy, Debug, PartialEq, Eq, Structural)]
pub enum XrayIdError {
    /// Not three hyphen-separated parts, or non-hexadecimal content.
    Malformed,
    /// Well-formed but all-zero: a zero trace id is never a real identifier.
    InvalidIdentifier,
}

/// What decoding a wire trace id yields: split on `-`, exactly three parts,
/// the second and third concatenated and read as hexadecimal, rejecting an
/// all-zero result.
pub open spec fn xray_decode_spec(s: Seq<char>) -> Option<u128> {
    let parts = split_terminator_spec(s, '-');
    if parts.len() != 3 {
        None
    } else {
        match parse_hex_u128_spec(parts[1] + parts[2]) {
            None => None,
            Some(id) => if id == crate::INVALID_TRACE_ID {
                None
            } else {
                Some(id)
            },
        }
    }
}

/// The canonical wire form of a valid trace id: `"1-"`, the first 8 of its 32
/// lowercase hexadecimal digits, `"-"`, and the remaining 24.
pub open spec fn xray_encode_spec(id: u128) -> Seq<char> {
    seq!['1', '-'] + render_hex(id as int, 32).subrange(0, 8) + seq!['-'] + render_hex(
        id as int,
        32,
    ).subrange(8, 32)
}

/// Decodes the wire's three-part trace id into the internal identifier.
pub fn decode(s: &str) -> (r: Result<u128, XrayIdError>)
    ensures
        r is Ok <==> xray_decode_spec(s@) is Some,
        r is Ok ==> r->Ok_0 == xray_decode_spec(s@)->0,
        r == Err::<u128, XrayIdError>(XrayIdError::InvalidIdentifier) <==> ({
            let parts = split_terminator_spec(s@, '-');
            parts.len() == 3 && parse_hex_u128_spec(parts[1] + parts[2]) == Some(
                crate::INVALID_TRACE_ID,
            )
        }),
{
    let parts = split_terminator_str(s, '-');
    if parts.len() != 3 {
        return Err(XrayIdError::Malformed);
    }
    let mut joined: String = parts[1].to_owned();
    joined.append(parts[2]);
    proof {
        assert(joined@ == split_terminator_spec(s@, '-')[1] + split_terminator_spec(s@, '-')[2]);
    }
    match parse_hex_u128(joined.as_str()) {
        None => Err(XrayIdError::Malformed),
        Some(id) => {
            if id == crate::INVALID_TRACE_ID {
                Err(XrayIdError::InvalidIdentifier)
            } else {
                Ok(id)
            }
        },
    }
}

/// Renders a valid internal identifier in the canonical wire form. Total:
/// callers must reject invalid ids before rendering, not here.
pub fn encode(id: u128) -> (r: String)
    ensures
        r@ == xray_encode_spec(id),
{
    let hex = render_hex_u128(id, 32);
    proof {
        lemma_render_hex_chars(id as int, 32);
    }
    let timestamp = hex.as_str().substring_char(0, 8);
    let unique = hex.as_str().substring_char(8, 32);
    let mut out: String = "1-".to_owned();
    proof {
        reveal_strlit("1-");
        assert(out@ =~= seq!['1', '-']);
    }
    out.append(timestamp);
    crate::ascii::push_char(&mut out, '-');
    out.append(unique);
    proof {
        assert(out@ =~= xray_encode_spec(id));
    }
    out
}

/// Decoding inverts encoding on every valid identifier.
pub proof fn lemma_xray_round_trip(id: u128)
    requires
        id != crate::INVALID_TRACE_ID,
    ensures
        xray_decode_spec(xray_encode_spec(id)) == Some(id),
{
    let digits = render_hex(id as int, 32);
    lemma_pow16_val();
    lemma_render_hex_inverse(id as int, 32);
    lemma_render_hex_chars(id as int, 32);
    let p0 = seq!['1'];
    let p1 = digits.subrange(0, 8);
    let p2 = digits.subrange(8, 32);
    let segs = seq![p0, p1, p2];
    assert(join_3(p0, p1, p2) =~= xray_encode_spec(id));
    assert(crate::tokenizer::no_char(p0, '-')) by {
        assert(p0[0] == '1');
    }
    assert(crate::tokenizer::no_char(p1, '-')) by {
        assert(forall|i: int| 0 <= i < 8 ==> #[trigger] p1[i] == digits[i]);
    }
    assert(crate::tokenizer::no_char(p2, '-')) by {
        assert(forall|i: int| 0 <= i < 24 ==> #[trigger] p2[i] == digits[i + 8]);
    }
    assert(forall|i: int| 0 <= i < 3 ==> crate::tokenizer::no_char(#[trigger] segs[i], '-'));
    assert(segs.last() == p2);
    crate::tokenizer::lemma_split_term_join(segs, '-');
    assert(crate::tokenizer::join_char(segs, '-') =~= xray_encode_spec(id)) by {
        assert(segs.drop_first() =~= seq![p1, p2]);
        assert(seq![p1, p2].drop_first() =~= seq![p2]);
        assert(crate::tokenizer::join_char(seq![p2], '-') == p2);
        assert(crate::tokenizer::join_char(seq![p1, p2], '-') =~= p1 + seq!['-'] + p2);
        assert(crate::tokenizer::join_char(segs, '-') =~= p0 + seq!['-'] + (p1 + seq!['-'] + p2));
    }
    let parts = split_terminator_spec(xray_encode_spec(id), '-');
    assert(parts =~= segs);
    assert(parts[1] + parts[2] =~= digits);
}

/// The three wire parts of an encoded id, joined by hyphens.
pub open spec fn join_3(a: Seq<char>, b: Seq<char>, c: Seq<char>) -> Seq<char> {
    a + seq!['-'] + b + seq!['-'] + c
}

} // verus!
