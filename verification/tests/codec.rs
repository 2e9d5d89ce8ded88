use baml_elixir::codec::{
    decode, decode_arguments, encode, stream_result_action, StreamAction, StreamPhase,
};
use baml_elixir::error::BridgeError;
use baml_elixir::value::{RuntimeValue, TaggedValue};

fn s(x: &str) -> String {
    x.to_string()
}

#[test]
fn decode_scalars_exactly() {
    assert_eq!(decode(&TaggedValue::Null), Ok(RuntimeValue::Null));
    assert_eq!(decode(&TaggedValue::Bool(true)), Ok(RuntimeValue::Bool(true)));
    assert_eq!(decode(&TaggedValue::Int(-7)), Ok(RuntimeValue::Int(-7)));
    assert_eq!(
        decode(&TaggedValue::Str(s("hi"))),
        Ok(RuntimeValue::Str(s("hi")))
    );
}

#[test]
fn decode_float_bits_exactly() {
    let bits = f64::to_bits(3.25);
    assert_eq!(decode(&TaggedValue::Float(bits)), Ok(RuntimeValue::Float(bits)));
    let back = match decode(&TaggedValue::Float(bits)) {
        Ok(RuntimeValue::Float(b)) => f64::from_bits(b),
        other => panic!("unexpected: {:?}", other),
    };
    assert_eq!(back, 3.25);
}

#[test]
fn empty_list_decodes_to_empty_list_never_null() {
    let r = decode(&TaggedValue::List(vec![]));
    assert_eq!(r, Ok(RuntimeValue::List(vec![])));
    assert_ne!(r, Ok(RuntimeValue::Null));
}

#[test]
fn decode_list_in_order() {
    let t = TaggedValue::List(vec![
        TaggedValue::Int(1),
        TaggedValue::Str(s("two")),
        TaggedValue::Null,
    ]);
    assert_eq!(
        decode(&t),
        Ok(RuntimeValue::List(vec![
            RuntimeValue::Int(1),
            RuntimeValue::Str(s("two")),
            RuntimeValue::Null,
        ]))
    );
}

#[test]
fn plain_map_never_becomes_class() {
    let t = TaggedValue::Mapping(vec![
        (s("name"), TaggedValue::Str(s("Fido"))),
        (s("value"), TaggedValue::Int(1)),
    ]);
    assert_eq!(
        decode(&t),
        Ok(RuntimeValue::Mapping(vec![
            (s("name"), RuntimeValue::Str(s("Fido"))),
            (s("value"), RuntimeValue::Int(1)),
        ]))
    );
}

#[test]
fn marked_map_decodes_to_class() {
    let t = TaggedValue::Mapping(vec![
        (s("__baml_class__"), TaggedValue::Str(s("Pet"))),
        (s("name"), TaggedValue::Str(s("Fido"))),
    ]);
    assert_eq!(
        decode(&t),
        Ok(RuntimeValue::Class(
            s("Pet"),
            vec![(s("name"), RuntimeValue::Str(s("Fido")))]
        ))
    );
}

#[test]
fn duplicate_class_markers_use_first_and_drop_all() {
    let t = TaggedValue::Mapping(vec![
        (s("__baml_class__"), TaggedValue::Str(s("A"))),
        (s("__baml_class__"), TaggedValue::Str(s("B"))),
    ]);
    assert_eq!(decode(&t), Ok(RuntimeValue::Class(s("A"), vec![])));
}

#[test]
fn enum_shaped_map_decodes_to_enum() {
    let t = TaggedValue::Mapping(vec![
        (s("__baml_enum__"), TaggedValue::Str(s("Color"))),
        (s("value"), TaggedValue::Str(s("red"))),
    ]);
    assert_eq!(decode(&t), Ok(RuntimeValue::Enum(s("Color"), s("red"))));
}

#[test]
fn three_entry_map_with_enum_keys_stays_plain() {
    let t = TaggedValue::Mapping(vec![
        (s("__baml_enum__"), TaggedValue::Str(s("Color"))),
        (s("value"), TaggedValue::Str(s("red"))),
        (s("extra"), TaggedValue::Int(1)),
    ]);
    match decode(&t) {
        Ok(RuntimeValue::Mapping(entries)) => assert_eq!(entries.len(), 3),
        other => panic!("unexpected: {:?}", other),
    }
}

#[test]
fn decode_rejects_named_tags() {
    assert_eq!(
        decode(&TaggedValue::Tag(s("widget"), vec![])),
        Err(BridgeError::UnsupportedValue(s("widget")))
    );
    // the same arm fires anywhere in the tree
    let nested = TaggedValue::List(vec![
        TaggedValue::Int(1),
        TaggedValue::Tag(s("inner"), vec![TaggedValue::Null]),
    ]);
    assert_eq!(
        decode(&nested),
        Err(BridgeError::UnsupportedValue(s("inner")))
    );
    let in_map = TaggedValue::Mapping(vec![(s("k"), TaggedValue::Tag(s("t"), vec![]))]);
    assert_eq!(decode(&in_map), Err(BridgeError::UnsupportedValue(s("t"))));
}

#[test]
fn encode_scalars_exactly() {
    assert_eq!(encode(&RuntimeValue::Null), Ok(TaggedValue::Null));
    assert_eq!(encode(&RuntimeValue::Bool(false)), Ok(TaggedValue::Bool(false)));
    assert_eq!(encode(&RuntimeValue::Int(42)), Ok(TaggedValue::Int(42)));
    assert_eq!(
        encode(&RuntimeValue::Str(s("ok"))),
        Ok(TaggedValue::Str(s("ok")))
    );
}

#[test]
fn class_encodes_with_reserved_marker() {
    let v = RuntimeValue::Class(s("Pet"), vec![(s("name"), RuntimeValue::Str(s("Fido")))]);
    assert_eq!(
        encode(&v),
        Ok(TaggedValue::Mapping(vec![
            (s("__baml_class__"), TaggedValue::Str(s("Pet"))),
            (s("name"), TaggedValue::Str(s("Fido"))),
        ]))
    );
}

#[test]
fn enum_encodes_as_two_entry_map() {
    let v = RuntimeValue::Enum(s("Color"), s("green"));
    assert_eq!(
        encode(&v),
        Ok(TaggedValue::Mapping(vec![
            (s("__baml_enum__"), TaggedValue::Str(s("Color"))),
            (s("value"), TaggedValue::Str(s("green"))),
        ]))
    );
}

#[test]
fn encode_media_fails() {
    assert_eq!(
        encode(&RuntimeValue::Media),
        Err(BridgeError::UnsupportedValue(s("media")))
    );
    let nested = RuntimeValue::List(vec![RuntimeValue::Int(1), RuntimeValue::Media]);
    assert_eq!(
        encode(&nested),
        Err(BridgeError::UnsupportedValue(s("media")))
    );
}

#[test]
fn round_trip_without_media() {
    let values = vec![
        RuntimeValue::Null,
        RuntimeValue::Bool(true),
        RuntimeValue::Int(-3),
        RuntimeValue::Float(f64::to_bits(-0.5)),
        RuntimeValue::Str(s("hello")),
        RuntimeValue::List(vec![RuntimeValue::Int(1), RuntimeValue::Null]),
        RuntimeValue::Mapping(vec![(s("k"), RuntimeValue::Str(s("v")))]),
        RuntimeValue::Class(
            s("Pet"),
            vec![
                (s("name"), RuntimeValue::Str(s("Fido"))),
                (s("age"), RuntimeValue::Int(3)),
            ],
        ),
        RuntimeValue::Enum(s("Color"), s("red")),
        RuntimeValue::Class(
            s("Owner"),
            vec![(
                s("pets"),
                RuntimeValue::List(vec![RuntimeValue::Class(
                    s("Pet"),
                    vec![(s("name"), RuntimeValue::Str(s("Rex")))],
                )]),
            )],
        ),
    ];
    for v in values {
        let encoded = encode(&v).expect("encodes");
        assert_eq!(decode(&encoded), Ok(v));
    }
}

#[test]
fn decode_arguments_requires_a_map() {
    assert_eq!(
        decode_arguments(&TaggedValue::Int(1)),
        Err(BridgeError::InvalidShape(s("map"), s("int")))
    );
    assert_eq!(
        decode_arguments(&TaggedValue::List(vec![])),
        Err(BridgeError::InvalidShape(s("map"), s("list")))
    );
}

#[test]
fn decode_arguments_decodes_entries_in_order() {
    let args = TaggedValue::Mapping(vec![
        (s("query"), TaggedValue::Str(s("cats"))),
        (s("limit"), TaggedValue::Int(5)),
    ]);
    assert_eq!(
        decode_arguments(&args),
        Ok(vec![
            (s("query"), RuntimeValue::Str(s("cats"))),
            (s("limit"), RuntimeValue::Int(5)),
        ])
    );
}

#[test]
fn streaming_suppresses_only_partial_failures() {
    assert_eq!(
        stream_result_action(StreamPhase::Partial, true),
        StreamAction::Deliver
    );
    assert_eq!(
        stream_result_action(StreamPhase::Done, true),
        StreamAction::Deliver
    );
    assert_eq!(
        stream_result_action(StreamPhase::Partial, false),
        StreamAction::Discard
    );
    assert_eq!(
        stream_result_action(StreamPhase::Done, false),
        StreamAction::Surface
    );
}

#[test]
fn non_string_class_marker_stays_a_plain_map() {
    let t = TaggedValue::Mapping(vec![
        (s("__baml_class__"), TaggedValue::Int(7)),
        (s("name"), TaggedValue::Str(s("Fido"))),
    ]);
    assert_eq!(
        decode(&t),
        Ok(RuntimeValue::Mapping(vec![
            (s("__baml_class__"), RuntimeValue::Int(7)),
            (s("name"), RuntimeValue::Str(s("Fido"))),
        ]))
    );
}
