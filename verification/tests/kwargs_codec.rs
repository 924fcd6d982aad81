use plugin_bridge::error::PluginError;
use plugin_bridge::kwargs::{decode_kwargs, dict_get, encode_kwargs, KwargsValue};

fn text(s: &str) -> Vec<u8> {
    s.as_bytes().to_vec()
}

#[test]
fn scalar_round_trips() {
    let cases = vec![
        KwargsValue::Null,
        KwargsValue::Bool(false),
        KwargsValue::Bool(true),
        KwargsValue::Int(0),
        KwargsValue::Int(1),
        KwargsValue::Int(-1),
        KwargsValue::Int(i64::MAX),
        KwargsValue::Int(i64::MIN),
        KwargsValue::Bytes(Vec::new()),
        KwargsValue::Bytes(text("hello")),
    ];
    for v in cases {
        let buf = encode_kwargs(&v);
        let back = decode_kwargs(&buf).expect("decoding an encoded value must succeed");
        assert_eq!(back, Some(v));
    }
}

#[test]
fn nested_round_trip() {
    let v = KwargsValue::Dict(vec![
        (text("name"), KwargsValue::Bytes(text("pig_latinnify"))),
        (
            text("options"),
            KwargsValue::List(vec![
                KwargsValue::Int(42),
                KwargsValue::Null,
                KwargsValue::Dict(vec![(text("deep"), KwargsValue::Bool(true))]),
            ]),
        ),
        (text("blob"), KwargsValue::Bytes(vec![0, 1, 2, 255])),
    ]);
    let buf = encode_kwargs(&v);
    let back = decode_kwargs(&buf).expect("decoding an encoded value must succeed");
    assert_eq!(back, Some(v));
}

#[test]
fn empty_list_and_dict_round_trip() {
    for v in [KwargsValue::List(Vec::new()), KwargsValue::Dict(Vec::new())] {
        let buf = encode_kwargs(&v);
        assert_eq!(decode_kwargs(&buf).unwrap(), Some(v));
    }
}

#[test]
fn empty_buffer_means_no_kwargs() {
    let empty: Vec<u8> = Vec::new();
    assert_eq!(decode_kwargs(&empty).unwrap(), None);
}

#[test]
fn trailing_bytes_are_an_error() {
    let mut buf = encode_kwargs(&KwargsValue::Int(7));
    buf.push(0);
    match decode_kwargs(&buf) {
        Err(PluginError::Kwargs(_)) => {}
        other => panic!("expected a kwargs error, got {:?}", other),
    }
}

#[test]
fn unknown_tag_is_an_error() {
    let buf = vec![9u8];
    assert!(decode_kwargs(&buf).is_err());
}

#[test]
fn truncated_encoding_is_an_error() {
    let buf = encode_kwargs(&KwargsValue::Bytes(text("hello")));
    let truncated = buf[..buf.len() - 1].to_vec();
    assert!(decode_kwargs(&truncated).is_err());
}

#[test]
fn dict_lookup_finds_first_match() {
    let entries = vec![
        (text("a"), KwargsValue::Int(1)),
        (text("b"), KwargsValue::Int(2)),
        (text("a"), KwargsValue::Int(3)),
    ];
    assert_eq!(dict_get(&entries, b"a"), Some(&KwargsValue::Int(1)));
    assert_eq!(dict_get(&entries, b"b"), Some(&KwargsValue::Int(2)));
    assert_eq!(dict_get(&entries, b"c"), None);
}

#[test]
fn exact_wire_form_of_an_integer() {
    // tag 3, then the value as eight little-endian bytes
    let buf = encode_kwargs(&KwargsValue::Int(0x0102));
    assert_eq!(buf, vec![3u8, 0x02, 0x01, 0, 0, 0, 0, 0, 0]);
}
