use opentelemetry::trace::TraceState;
use xray_propagation::codec::{span_context_from_str, span_context_to_string};
use xray_propagation::hex::parse_hex_u128;
use xray_propagation::model::{SamplingState, TraceContext};
use xray_propagation::propagator::{
    trace_context_header_fields, XrayPropagator, AWS_XRAY_TRACE_HEADER,
};
use xray_propagation::tokenizer::from_key_value_pair;
use xray_propagation::xray_id;
use xray_propagation::{INVALID_PARENT_ID, INVALID_TRACE_ID};

const TRACE_ID: u128 = 0x58406520a006649127e371903a2de979;
const PARENT_ID: u64 = 0x4c721bf33e3caf8f;

fn state(entries: Vec<(&str, &str)>) -> TraceState {
    TraceState::from_key_value(entries).unwrap()
}

fn empty_state() -> TraceState {
    TraceState::from_key_value(Vec::<(String, String)>::new()).unwrap()
}

fn extract_test_data() -> Vec<(&'static str, Option<TraceContext>)> {
    vec![
        ("", None),
        ("Sampled=1;Self=foo", None),
        ("Root=1-bogus-bad", None),
        ("Root=1-too-many-parts", None),
        (
            "Root=1-58406520-a006649127e371903a2de979;Parent=garbage",
            Some(TraceContext {
                trace_id: TRACE_ID,
                parent_id: INVALID_PARENT_ID,
                sampling_state: SamplingState::Deferred,
                vendor_state: empty_state(),
            }),
        ),
        (
            "Root=1-58406520-a006649127e371903a2de979;Sampled=1",
            Some(TraceContext {
                trace_id: TRACE_ID,
                parent_id: INVALID_PARENT_ID,
                sampling_state: SamplingState::Sampled,
                vendor_state: empty_state(),
            }),
        ),
        (
            "Root=1-58406520-a006649127e371903a2de979;Parent=4c721bf33e3caf8f;Sampled=0",
            Some(TraceContext {
                trace_id: TRACE_ID,
                parent_id: PARENT_ID,
                sampling_state: SamplingState::NotSampled,
                vendor_state: empty_state(),
            }),
        ),
        (
            "Root=1-58406520-a006649127e371903a2de979;Parent=4c721bf33e3caf8f;Sampled=1",
            Some(TraceContext {
                trace_id: TRACE_ID,
                parent_id: PARENT_ID,
                sampling_state: SamplingState::Sampled,
                vendor_state: empty_state(),
            }),
        ),
        (
            "Root=1-58406520-a006649127e371903a2de979;Parent=4c721bf33e3caf8f",
            Some(TraceContext {
                trace_id: TRACE_ID,
                parent_id: PARENT_ID,
                sampling_state: SamplingState::Deferred,
                vendor_state: empty_state(),
            }),
        ),
        (
            "Root=1-58406520-a006649127e371903a2de979;Parent=4c721bf33e3caf8f;Sampled=?",
            Some(TraceContext {
                trace_id: TRACE_ID,
                parent_id: PARENT_ID,
                sampling_state: SamplingState::Deferred,
                vendor_state: empty_state(),
            }),
        ),
        (
            "Root=1-58406520-a006649127e371903a2de979;Self=1-58406520-bf42676c05e20ba4a90e448e;Parent=4c721bf33e3caf8f;Sampled=1",
            Some(TraceContext {
                trace_id: TRACE_ID,
                parent_id: PARENT_ID,
                sampling_state: SamplingState::Sampled,
                vendor_state: state(vec![("self", "1-58406520-bf42676c05e20ba4a90e448e")]),
            }),
        ),
        (
            "Root=1-58406520-a006649127e371903a2de979;Self=1-58406520-bf42676c05e20ba4a90e448e;Parent=4c721bf33e3caf8f;Sampled=1;RandomKey=RandomValue",
            Some(TraceContext {
                trace_id: TRACE_ID,
                parent_id: PARENT_ID,
                sampling_state: SamplingState::Sampled,
                vendor_state: state(vec![
                    ("self", "1-58406520-bf42676c05e20ba4a90e448e"),
                    ("randomkey", "RandomValue"),
                ]),
            }),
        ),
    ]
}

fn assert_same_context(actual: &Option<TraceContext>, expected: &Option<TraceContext>) {
    match (actual, expected) {
        (None, None) => (),
        (Some(a), Some(e)) => {
            assert_eq!(a.trace_id, e.trace_id);
            assert_eq!(a.parent_id, e.parent_id);
            assert_eq!(a.sampling_state, e.sampling_state);
            assert_eq!(a.vendor_state, e.vendor_state);
        }
        _ => panic!("one context is missing where the other is present"),
    }
}

#[test]
fn test_extract() {
    for (header, expected) in extract_test_data() {
        let propagator = XrayPropagator::new();
        let context = propagator.extract_span_context(Some(header));
        assert_same_context(&context, &expected);
    }
}

#[test]
fn test_extract_empty() {
    let propagator = XrayPropagator::default();
    let context = propagator.extract_span_context(None);
    assert!(context.is_none());
}

fn inject_test_data() -> Vec<(&'static str, TraceContext)> {
    vec![
        (
            "",
            TraceContext {
                trace_id: INVALID_TRACE_ID,
                parent_id: INVALID_PARENT_ID,
                sampling_state: SamplingState::NotSampled,
                vendor_state: empty_state(),
            },
        ),
        (
            "",
            TraceContext {
                trace_id: INVALID_TRACE_ID,
                parent_id: INVALID_PARENT_ID,
                sampling_state: SamplingState::Deferred,
                vendor_state: empty_state(),
            },
        ),
        (
            "Root=1-58406520-a006649127e371903a2de979;Parent=0000000000000000;Sampled=?",
            TraceContext {
                trace_id: TRACE_ID,
                parent_id: INVALID_PARENT_ID,
                sampling_state: SamplingState::Deferred,
                vendor_state: empty_state(),
            },
        ),
        (
            "Root=1-58406520-a006649127e371903a2de979;Parent=0000000000000000;Sampled=1",
            TraceContext {
                trace_id: TRACE_ID,
                parent_id: INVALID_PARENT_ID,
                sampling_state: SamplingState::Sampled,
                vendor_state: empty_state(),
            },
        ),
        (
            "Root=1-58406520-a006649127e371903a2de979;Parent=4c721bf33e3caf8f;Sampled=0",
            TraceContext {
                trace_id: TRACE_ID,
                parent_id: PARENT_ID,
                sampling_state: SamplingState::NotSampled,
                vendor_state: empty_state(),
            },
        ),
        (
            "Root=1-58406520-a006649127e371903a2de979;Parent=4c721bf33e3caf8f;Sampled=1",
            TraceContext {
                trace_id: TRACE_ID,
                parent_id: PARENT_ID,
                sampling_state: SamplingState::Sampled,
                vendor_state: empty_state(),
            },
        ),
        (
            "Root=1-58406520-a006649127e371903a2de979;Parent=4c721bf33e3caf8f;Sampled=?;Self=1-58406520-bf42676c05e20ba4a90e448e;Randomkey=RandomValue",
            TraceContext {
                trace_id: TRACE_ID,
                parent_id: PARENT_ID,
                sampling_state: SamplingState::Deferred,
                vendor_state: state(vec![
                    ("self", "1-58406520-bf42676c05e20ba4a90e448e"),
                    ("randomkey", "RandomValue"),
                ]),
            },
        ),
    ]
}

#[test]
fn test_inject() {
    for (header_value, context) in inject_test_data() {
        let injected_value = span_context_to_string(&context);
        if header_value.is_empty() {
            assert!(injected_value.is_none());
        } else {
            assert_eq!(injected_value, Some(header_value.to_string()));
        }
    }
}

#[test]
fn test_empty_input_carries_no_context() {
    assert!(span_context_from_str("").is_none());
}

#[test]
fn test_full_header_decodes() {
    let c = span_context_from_str(
        "Root=1-58406520-a006649127e371903a2de979;Parent=4c721bf33e3caf8f;Sampled=1",
    )
    .unwrap();
    assert_eq!(c.trace_id, TRACE_ID);
    assert_eq!(c.parent_id, PARENT_ID);
    assert_eq!(c.sampling_state, SamplingState::Sampled);
    assert_eq!(c.vendor_state, empty_state());
}

#[test]
fn test_garbage_parent_degrades_gracefully() {
    let c = span_context_from_str("Root=1-58406520-a006649127e371903a2de979;Parent=garbage")
        .unwrap();
    assert_eq!(c.trace_id, TRACE_ID);
    assert_eq!(c.parent_id, INVALID_PARENT_ID);
    assert_eq!(c.sampling_state, SamplingState::Deferred);
}

#[test]
fn test_encode_invalid_parent_still_emits_parent_field() {
    let c = TraceContext {
        trace_id: TRACE_ID,
        parent_id: INVALID_PARENT_ID,
        sampling_state: SamplingState::Deferred,
        vendor_state: empty_state(),
    };
    assert_eq!(
        span_context_to_string(&c).unwrap(),
        "Root=1-58406520-a006649127e371903a2de979;Parent=0000000000000000;Sampled=?"
    );
}

#[test]
fn test_unknown_key_becomes_lowercased_vendor_state() {
    let c = span_context_from_str(
        "Root=1-58406520-a006649127e371903a2de979;RandomKey=RandomValue",
    )
    .unwrap();
    assert_eq!(c.vendor_state.get("randomkey"), Some("RandomValue"));
    let rendered = span_context_to_string(&c).unwrap();
    assert_eq!(
        rendered,
        "Root=1-58406520-a006649127e371903a2de979;Parent=0000000000000000;Sampled=?;Randomkey=RandomValue"
    );
}

#[test]
fn test_round_trip_with_vendor_state() {
    let original = TraceContext {
        trace_id: TRACE_ID,
        parent_id: PARENT_ID,
        sampling_state: SamplingState::NotSampled,
        vendor_state: state(vec![("self", "abc"), ("other", "Value-1")]),
    };
    let wire = span_context_to_string(&original).unwrap();
    let decoded = span_context_from_str(&wire).unwrap();
    assert_eq!(decoded.trace_id, original.trace_id);
    assert_eq!(decoded.parent_id, original.parent_id);
    assert_eq!(decoded.sampling_state, original.sampling_state);
    assert_eq!(decoded.vendor_state, original.vendor_state);
}

#[test]
fn test_decode_is_idempotent() {
    let header = "Root=1-58406520-a006649127e371903a2de979;Self=foo;Sampled=?";
    let a = span_context_from_str(header);
    let b = span_context_from_str(header);
    assert_same_context(&a, &b);
    assert_eq!(
        a.as_ref().unwrap().vendor_state,
        b.as_ref().unwrap().vendor_state
    );
}

#[test]
fn test_invalid_context_never_encodes() {
    for sampling in [
        SamplingState::NotSampled,
        SamplingState::Sampled,
        SamplingState::Deferred,
    ] {
        let c = TraceContext {
            trace_id: INVALID_TRACE_ID,
            parent_id: PARENT_ID,
            sampling_state: sampling,
            vendor_state: state(vec![("self", "abc")]),
        };
        assert!(span_context_to_string(&c).is_none());
    }
}

#[test]
fn test_malformed_root_aborts_entirely() {
    assert!(span_context_from_str("Root=1-bogus-bad").is_none());
    assert!(
        span_context_from_str("Root=1-bogus-bad;Parent=4c721bf33e3caf8f;Sampled=1").is_none()
    );
}

#[test]
fn test_missing_sampled_defaults_to_deferred() {
    let c = span_context_from_str("Root=1-58406520-a006649127e371903a2de979").unwrap();
    assert_eq!(c.sampling_state, SamplingState::Deferred);
}

#[test]
fn test_unknown_sampled_token_means_deferred() {
    let c = span_context_from_str("Root=1-58406520-a006649127e371903a2de979;Sampled=x").unwrap();
    assert_eq!(c.sampling_state, SamplingState::Deferred);
}

#[test]
fn test_xray_id_error_variants() {
    assert_eq!(
        xray_id::decode("1-bogus-bad"),
        Err(xray_id::XrayIdError::Malformed)
    );
    assert_eq!(
        xray_id::decode("1-too-many-parts"),
        Err(xray_id::XrayIdError::Malformed)
    );
    assert_eq!(
        xray_id::decode("1-00000000-000000000000000000000000"),
        Err(xray_id::XrayIdError::InvalidIdentifier)
    );
    assert_eq!(
        xray_id::decode("1-58406520-a006649127e371903a2de979"),
        Ok(TRACE_ID)
    );
}

#[test]
fn test_xray_id_encode_format() {
    assert_eq!(
        xray_id::encode(TRACE_ID),
        "1-58406520-a006649127e371903a2de979"
    );
    assert_eq!(xray_id::encode(1), "1-00000000-000000000000000000000001");
}

#[test]
fn test_vendor_rejection_discards_whole_context() {
    // A space is not a valid vendor key character, so the container rejects
    // the entries and the decode yields no context at all.
    assert!(
        span_context_from_str("Root=1-58406520-a006649127e371903a2de979;Bad Key=1").is_none()
    );
}

#[test]
fn test_extract_trims_whitespace() {
    let propagator = XrayPropagator::new();
    let c = propagator
        .extract_span_context(Some("  Root=1-58406520-a006649127e371903a2de979;Sampled=1\t"))
        .unwrap();
    assert_eq!(c.trace_id, TRACE_ID);
    assert_eq!(c.sampling_state, SamplingState::Sampled);
}

#[test]
fn test_header_fields() {
    assert_eq!(trace_context_header_fields(), vec![AWS_XRAY_TRACE_HEADER.to_string()]);
    assert_eq!(AWS_XRAY_TRACE_HEADER, "x-amzn-trace-id");
}

#[test]
fn test_title_case() {
    assert_eq!(xray_propagation::ascii::title_case("self=foo"), "Self=foo");
    assert_eq!(xray_propagation::ascii::title_case(""), "");
    assert_eq!(xray_propagation::ascii::title_case("0key=v"), "0key=v");
}

#[test]
fn test_from_key_value_pair() {
    assert_eq!(from_key_value_pair("Key=Value"), Some(("Key", "Value")));
    assert_eq!(from_key_value_pair("Key==Value"), Some(("Key", "Value")));
    assert_eq!(from_key_value_pair("Key=a=b"), Some(("Key", "a=b")));
    assert_eq!(from_key_value_pair("Key="), Some(("Key", "")));
    assert_eq!(from_key_value_pair("noequals"), None);
    assert_eq!(from_key_value_pair(""), None);
}

#[test]
fn test_parse_hex() {
    assert_eq!(parse_hex_u128("ff"), Some(255));
    assert_eq!(parse_hex_u128("FF"), Some(255));
    assert_eq!(parse_hex_u128("0"), Some(0));
    assert_eq!(parse_hex_u128(""), None);
    assert_eq!(parse_hex_u128("xyz"), None);
    assert_eq!(
        parse_hex_u128("ffffffffffffffffffffffffffffffff"),
        Some(u128::MAX)
    );
    assert_eq!(parse_hex_u128("100000000000000000000000000000000"), None);
}

#[test]
fn test_parent_value_must_be_sixteen_hex_digits() {
    let c = span_context_from_str("Root=1-58406520-a006649127e371903a2de979;Parent=4c72").unwrap();
    assert_eq!(c.parent_id, INVALID_PARENT_ID);
}
