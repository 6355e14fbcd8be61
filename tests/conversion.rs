use dumps::decode::{decode_value, deserialize};
use dumps::encode::serialize;
use dumps::host::{
    BytesPolicy, CalendarTime, DtPolicy, Error, HostFloat, HostValue, Opaque, OpaquePolicy,
    Options, Refusal,
};
use dumps::text::{is_all_ascii, same_text};

fn text(s: &str) -> HostValue {
    HostValue::Text(s.to_string())
}

fn float(f: f64) -> HostValue {
    HostValue::Float(HostFloat::Finite(serde_json::Number::from_f64(f).unwrap()))
}

fn mapping(entries: Vec<(&str, HostValue)>) -> HostValue {
    HostValue::Mapping(entries.into_iter().map(|(k, v)| (k.to_string(), v)).collect())
}

fn with_bytes(policy: BytesPolicy) -> Options {
    let mut o = Options::new();
    o.bytes = policy;
    o
}

fn with_dt(policy: DtPolicy) -> Options {
    let mut o = Options::new();
    o.dt = policy;
    o
}

fn with_indent(indent: Option<usize>) -> Options {
    let mut o = Options::new();
    o.indent = indent;
    o
}

fn native_sample() -> HostValue {
    mapping(vec![
        ("null", HostValue::Null),
        ("flag", HostValue::Bool(true)),
        ("min", HostValue::Int(i64::MIN)),
        ("max", HostValue::Int(i64::MAX)),
        ("ratio", float(0.25)),
        ("name", text("héllo \"quoted\"\n")),
        (
            "list",
            HostValue::Sequence(vec![HostValue::Int(1), text("two"), HostValue::Sequence(vec![])]),
        ),
        ("nested", mapping(vec![("inner", HostValue::Bool(false))])),
    ])
}

fn calendar(iso: Option<&str>, formatted: Option<&str>) -> HostValue {
    HostValue::CalendarTime(CalendarTime {
        class_name: "datetime".to_string(),
        iso: iso.map(|s| s.to_string()),
        formatted: formatted.map(|s| s.to_string()),
    })
}

fn opaque() -> HostValue {
    HostValue::Opaque(Opaque { class_name: "Widget".to_string(), repr: "<Widget 7>".to_string() })
}

#[test]
fn json_native_values_round_trip() {
    let text_form = serialize(&native_sample(), &Options::new()).unwrap();
    assert_eq!(deserialize(&text_form).unwrap(), native_sample());
    let pretty = serialize(&native_sample(), &with_indent(Some(4))).unwrap();
    assert_eq!(deserialize(&pretty).unwrap(), native_sample());
}

#[test]
fn scalars_encode_to_their_json_forms() {
    let o = Options::new();
    assert_eq!(serialize(&HostValue::Null, &o).unwrap(), "null");
    assert_eq!(serialize(&HostValue::Bool(false), &o).unwrap(), "false");
    assert_eq!(serialize(&HostValue::Int(-42), &o).unwrap(), "-42");
    assert_eq!(serialize(&float(1.5), &o).unwrap(), "1.5");
    assert_eq!(serialize(&text("a\"b"), &o).unwrap(), "\"a\\\"b\"");
}

#[test]
fn bytes_marker_round_trips_but_base64_gives_text() {
    let bytes = HostValue::Bytes(vec![0, 1, 2, 250, 255]);
    let marked = serialize(&bytes, &Options::reversible()).unwrap();
    assert_eq!(marked, "{\"__bytes__\":\"AAEC+v8=\"}");
    assert_eq!(deserialize(&marked).unwrap(), HostValue::Bytes(vec![0, 1, 2, 250, 255]));
    let plain = serialize(&bytes, &with_bytes(BytesPolicy::Base64)).unwrap();
    assert_eq!(plain, "\"AAEC+v8=\"");
    assert_eq!(deserialize(&plain).unwrap(), text("AAEC+v8="));
}

#[test]
fn empty_bytes_round_trip() {
    let marked = serialize(&HostValue::Bytes(vec![]), &Options::reversible()).unwrap();
    assert_eq!(marked, "{\"__bytes__\":\"\"}");
    assert_eq!(deserialize(&marked).unwrap(), HostValue::Bytes(vec![]));
}

#[test]
fn bytes_policies_are_enforced() {
    let hi = || HostValue::Bytes(b"hi".to_vec());
    assert_eq!(
        serialize(&hi(), &Options::new()),
        Err(Error::UnsupportedType(Refusal::Bytes))
    );
    assert_eq!(
        serialize(&HostValue::Bytes(vec![104, 200]), &with_bytes(BytesPolicy::Ascii)),
        Err(Error::UnsupportedValue(Refusal::NonAscii))
    );
    assert_eq!(
        serialize(&HostValue::Bytes(vec![0xff, 0xfe]), &with_bytes(BytesPolicy::Utf8)),
        Err(Error::UnsupportedValue(Refusal::InvalidUtf8))
    );
    assert_eq!(
        serialize(&hi(), &with_bytes(BytesPolicy::Unknown("latin-9".to_string()))),
        Err(Error::UnsupportedValue(Refusal::UnknownEncoding("latin-9".to_string())))
    );
    assert_eq!(serialize(&hi(), &with_bytes(BytesPolicy::Ascii)).unwrap(), "\"hi\"");
    let accented = HostValue::Bytes("é".as_bytes().to_vec());
    assert_eq!(serialize(&accented, &with_bytes(BytesPolicy::Utf8)).unwrap(), "\"é\"");
}

#[test]
fn calendar_time_policies() {
    let when = || calendar(Some("2024-01-02T03:04:05"), Some("02/01/2024"));
    assert_eq!(serialize(&when(), &Options::new()).unwrap(), "\"2024-01-02T03:04:05\"");
    assert_eq!(
        serialize(&when(), &with_dt(DtPolicy::Raise)),
        Err(Error::UnsupportedType(Refusal::CalendarTime))
    );
    let pattern = with_dt(DtPolicy::Pattern("%d/%m/%Y".to_string()));
    assert_eq!(serialize(&when(), &pattern).unwrap(), "\"02/01/2024\"");
    assert_eq!(
        serialize(&calendar(None, None), &Options::new()),
        Err(Error::UnsupportedType(Refusal::NoIsoForm("datetime".to_string())))
    );
    assert_eq!(
        serialize(&calendar(None, None), &pattern),
        Err(Error::UnsupportedType(Refusal::PatternFailed("%d/%m/%Y".to_string())))
    );
}

#[test]
fn calendar_time_decodes_as_text() {
    let encoded = serialize(&calendar(Some("2024-01-02"), None), &Options::new()).unwrap();
    assert_eq!(deserialize(&encoded).unwrap(), text("2024-01-02"));
}

#[test]
fn opaque_values_degrade_or_fail() {
    let mut o = Options::new();
    assert_eq!(
        serialize(&opaque(), &o),
        Err(Error::UnsupportedType(Refusal::Opaque("Widget".to_string())))
    );
    o.opaque = OpaquePolicy::Degrade;
    let record = serialize(&opaque(), &o).unwrap();
    assert_eq!(record, "{\"__class__\":\"Widget\",\"__repr__\":\"<Widget 7>\"}");
    assert_eq!(
        deserialize(&record).unwrap(),
        mapping(vec![("__class__", text("Widget")), ("__repr__", text("<Widget 7>"))])
    );
}

#[test]
fn malformed_input_is_rejected() {
    assert!(matches!(deserialize("{not json"), Err(Error::MalformedJson(_))));
    assert!(matches!(deserialize("[1, 2"), Err(Error::MalformedJson(_))));
    assert!(matches!(deserialize("1 2"), Err(Error::MalformedJson(_))));
    assert!(matches!(deserialize(""), Err(Error::MalformedJson(_))));
    assert_eq!(deserialize("{\"__bytes__\": \"not-base64!\"}"), Err(Error::InvalidBase64));
}

#[test]
fn pretty_and_compact_printing() {
    let doc = || mapping(vec![("a", HostValue::Int(1))]);
    let pretty = serialize(&doc(), &with_indent(Some(2))).unwrap();
    assert!(pretty.contains("\n  \"a\""));
    assert_eq!(pretty, "{\n  \"a\": 1\n}");
    assert_eq!(serialize(&doc(), &Options::new()).unwrap(), "{\"a\":1}");
    assert_eq!(serialize(&doc(), &with_indent(Some(0))).unwrap(), "{\"a\":1}");
    assert_eq!(serialize(&doc(), &with_indent(Some(3))).unwrap(), "{\n   \"a\": 1\n}");
}

#[test]
fn tuple_decodes_as_sequence() {
    let tuple = HostValue::Tuple(vec![HostValue::Int(1), text("x")]);
    let encoded = serialize(&tuple, &Options::new()).unwrap();
    assert_eq!(encoded, "[1,\"x\"]");
    let back = deserialize(&encoded).unwrap();
    assert_eq!(back, HostValue::Sequence(vec![HostValue::Int(1), text("x")]));
    assert_ne!(back, HostValue::Tuple(vec![HostValue::Int(1), text("x")]));
}

#[test]
fn unordered_collection_encodes_as_array() {
    let set = HostValue::Unordered(vec![HostValue::Int(3)]);
    assert_eq!(serialize(&set, &Options::new()).unwrap(), "[3]");
}

#[test]
fn non_finite_float_is_refused() {
    assert_eq!(
        serialize(&HostValue::Float(HostFloat::NonFinite), &Options::new()),
        Err(Error::UnsupportedValue(Refusal::NonFiniteFloat))
    );
}

#[test]
fn mapping_keeps_order_and_last_write_wins() {
    let m = mapping(vec![
        ("b", HostValue::Int(1)),
        ("a", HostValue::Int(2)),
        ("b", HostValue::Int(3)),
    ]);
    assert_eq!(serialize(&m, &Options::new()).unwrap(), "{\"b\":3,\"a\":2}");
}

#[test]
fn first_failure_in_order_is_reported() {
    let list = HostValue::Sequence(vec![
        HostValue::Int(1),
        HostValue::Bytes(vec![1]),
        HostValue::Float(HostFloat::NonFinite),
    ]);
    assert_eq!(
        serialize(&list, &Options::new()),
        Err(Error::UnsupportedType(Refusal::Bytes))
    );
}

#[test]
fn nesting_beyond_the_limit_fails() {
    let mut o = Options::new();
    o.max_depth = 1;
    let flat = HostValue::Sequence(vec![HostValue::Int(1)]);
    assert_eq!(serialize(&flat, &o).unwrap(), "[1]");
    let nested = HostValue::Sequence(vec![HostValue::Sequence(vec![])]);
    assert_eq!(serialize(&nested, &o), Err(Error::RecursionLimit));
    let parsed: serde_json::Value = serde_json::from_str("[[1]]").unwrap();
    assert_eq!(decode_value(parsed, 1), Err(Error::RecursionLimit));
    let parsed: serde_json::Value = serde_json::from_str("[[1]]").unwrap();
    assert_eq!(
        decode_value(parsed, 2).unwrap(),
        HostValue::Sequence(vec![HostValue::Sequence(vec![HostValue::Int(1)])])
    );
}

#[test]
fn numbers_decode_by_range() {
    assert_eq!(deserialize("-7").unwrap(), HostValue::Int(-7));
    assert_eq!(deserialize("9223372036854775807").unwrap(), HostValue::Int(i64::MAX));
    match deserialize("18446744073709551615").unwrap() {
        HostValue::Float(HostFloat::Finite(n)) => assert_eq!(n.as_u64(), Some(u64::MAX)),
        other => panic!("unexpected {:?}", other),
    }
    assert_eq!(deserialize("2.5").unwrap(), float(2.5));
}

#[test]
fn marker_with_other_members_still_decodes_as_bytes() {
    assert_eq!(
        deserialize("{\"x\": 1, \"__bytes__\": \"aGk=\"}").unwrap(),
        HostValue::Bytes(b"hi".to_vec())
    );
    assert_eq!(
        deserialize("{\"__bytes__\": 5}").unwrap(),
        mapping(vec![("__bytes__", HostValue::Int(5))])
    );
}

#[test]
fn policy_names() {
    assert_eq!(DtPolicy::from_name("raise"), DtPolicy::Raise);
    assert_eq!(DtPolicy::from_name("iso"), DtPolicy::Iso);
    assert_eq!(DtPolicy::from_name("%Y"), DtPolicy::Pattern("%Y".to_string()));
    assert_eq!(BytesPolicy::from_name("raise"), BytesPolicy::Raise);
    assert_eq!(BytesPolicy::from_name("utf-8"), BytesPolicy::Utf8);
    assert_eq!(BytesPolicy::from_name("utf8"), BytesPolicy::Utf8);
    assert_eq!(BytesPolicy::from_name("ascii"), BytesPolicy::Ascii);
    assert_eq!(BytesPolicy::from_name("base64"), BytesPolicy::Base64);
    assert_eq!(BytesPolicy::from_name("utf16"), BytesPolicy::Unknown("utf16".to_string()));
}

#[test]
fn default_options() {
    let o = Options::new();
    assert_eq!(o.indent, None);
    assert_eq!(o.dt, DtPolicy::Iso);
    assert_eq!(o.bytes, BytesPolicy::Raise);
    assert_eq!(o.opaque, OpaquePolicy::Strict);
    assert_eq!(Options::reversible().bytes, BytesPolicy::Marker);
}

#[test]
fn text_helpers() {
    assert!(is_all_ascii(b"plain"));
    assert!(!is_all_ascii(&[65, 128]));
    assert!(is_all_ascii(&[]));
    assert!(same_text("abc", "abc"));
    assert!(!same_text("abc", "abd"));
    assert!(!same_text("abc", "ab"));
}
