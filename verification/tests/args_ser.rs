use func_args::ArgValue;
use func_args::ArgValues;
use func_args::JsonValue;

fn arg<T: Into<ArgValue>>(v: T) -> ArgValue {
    v.into()
}

#[test]
fn test_args_ser() {
    let mut args = ArgValues::new();
    args.add("foo".to_string(), ArgValue::String("bar".to_string()));
    args.add("boo".to_string(), ArgValue::Int(42));
    args.add("zoo".to_string(), ArgValue::Int(-42));

    let benc = String::from_utf8(args.serialize()).unwrap();
    assert_eq!(benc, "d3:booi42e3:foo3:bar3:zooi-42ee");
}

#[test]
fn test_args_ser_json() {
    let mut args = ArgValues::new();
    args.add(
        "foo".to_string(),
        ArgValue::Json(JsonValue::List(vec![
            JsonValue::Int(42),
            JsonValue::Int(-42),
            JsonValue::Str("bar".to_string()),
        ])),
    );
    args.add(
        "boo".to_string(),
        ArgValue::Json(JsonValue::Dict(vec![
            ("key1".to_string(), JsonValue::Str("baz".to_string())),
            (
                "key2".to_string(),
                JsonValue::List(vec![
                    JsonValue::Str("Lorem".to_string()),
                    JsonValue::Str("ipsum".to_string()),
                    JsonValue::Dict(vec![(
                        "dolor".to_string(),
                        JsonValue::List(vec![
                            JsonValue::Str("sit".to_string()),
                            JsonValue::Str("amet".to_string()),
                        ]),
                    )]),
                ]),
            ),
        ])),
    );

    let benc = String::from_utf8(args.serialize()).unwrap();
    assert_eq!(
        benc,
        "d3:bood4:key13:baz4:key2l5:Lorem5:ipsumd5:dolorl3:sit4:ameteeee3:fooli42ei-42e3:baree"
    );
}

#[test]
fn test_arg_value_conversion() {
    assert_eq!(arg(42), ArgValue::Int(42));
    assert_eq!(arg(-42), ArgValue::Int(-42));

    assert_eq!(arg("foo"), ArgValue::String("foo".to_string()));
    assert_eq!(arg("bar".to_string()), ArgValue::String("bar".to_string()));
}

#[test]
fn test_json_value_conversion() {
    assert_eq!(arg(JsonValue::Null), ArgValue::Json(JsonValue::Null));
    assert_eq!(
        arg(JsonValue::List(vec![JsonValue::Bool(true)])),
        ArgValue::Json(JsonValue::List(vec![JsonValue::Bool(true)]))
    );
}

#[test]
fn test_empty_map() {
    let args = ArgValues::new();
    let benc = String::from_utf8(args.serialize()).unwrap();
    assert_eq!(benc, "de");
}

#[test]
fn test_default_is_empty() {
    let args = ArgValues::default();
    let benc = String::from_utf8(args.serialize()).unwrap();
    assert_eq!(benc, "de");
}

#[test]
fn test_keys_sorted_regardless_of_insertion_order() {
    let mut a = ArgValues::new();
    a.add("zz".to_string(), ArgValue::Int(1));
    a.add("aa".to_string(), ArgValue::Int(2));
    a.add("mm".to_string(), ArgValue::Int(3));

    let mut b = ArgValues::new();
    b.add("aa".to_string(), ArgValue::Int(2));
    b.add("mm".to_string(), ArgValue::Int(3));
    b.add("zz".to_string(), ArgValue::Int(1));

    let out_a = a.serialize();
    let out_b = b.serialize();
    assert_eq!(out_a, out_b);
    assert_eq!(
        String::from_utf8(out_a).unwrap(),
        "d2:aai2e2:mmi3e2:zzi1ee"
    );
}

#[test]
fn test_last_write_wins() {
    let mut twice = ArgValues::new();
    twice.add("key".to_string(), ArgValue::Int(1));
    twice.add("key".to_string(), ArgValue::Int(2));

    let mut once = ArgValues::new();
    once.add("key".to_string(), ArgValue::Int(2));

    assert_eq!(twice.serialize(), once.serialize());
    assert_eq!(String::from_utf8(twice.serialize()).unwrap(), "d3:keyi2ee");
}

#[test]
fn test_serialize_twice_identical() {
    let mut args = ArgValues::new();
    args.add("a".to_string(), ArgValue::String("x".to_string()));
    args.add("b".to_string(), ArgValue::Int(7));
    assert_eq!(args.serialize(), args.serialize());
}

#[test]
fn test_int_edge_values() {
    let mut args = ArgValues::new();
    args.add("max".to_string(), ArgValue::Int(i64::MAX));
    args.add("min".to_string(), ArgValue::Int(i64::MIN));
    args.add("nil".to_string(), ArgValue::Int(0));
    args.add("ten".to_string(), ArgValue::Int(10));
    let benc = String::from_utf8(args.serialize()).unwrap();
    assert_eq!(
        benc,
        "d3:maxi9223372036854775807e3:mini-9223372036854775808e3:nili0e3:teni10ee"
    );
}

#[test]
fn test_empty_name_and_value() {
    let mut args = ArgValues::new();
    args.add(String::new(), ArgValue::String(String::new()));
    let benc = String::from_utf8(args.serialize()).unwrap();
    assert_eq!(benc, "d0:0:e");
}

#[test]
fn test_bool_and_null_fallbacks() {
    let mut args = ArgValues::new();
    args.add(
        "v".to_string(),
        ArgValue::Json(JsonValue::List(vec![
            JsonValue::Bool(true),
            JsonValue::Bool(false),
            JsonValue::Null,
        ])),
    );
    let benc = String::from_utf8(args.serialize()).unwrap();
    assert_eq!(benc, "d1:vli1ei0e0:ee");
}

#[test]
fn test_name_length_counts_bytes() {
    let mut args = ArgValues::new();
    args.add("z".to_string(), ArgValue::Int(2));
    args.add("\u{e9}".to_string(), ArgValue::Int(1));
    let benc = args.serialize();
    let mut expected: Vec<u8> = Vec::new();
    expected.extend_from_slice(b"d1:zi2e2:");
    expected.extend_from_slice("\u{e9}".as_bytes());
    expected.extend_from_slice(b"i1ee");
    assert_eq!(benc, expected);
}

#[test]
fn test_deep_equality() {
    let a = JsonValue::Dict(vec![
        ("k".to_string(), JsonValue::List(vec![JsonValue::Int(1)])),
    ]);
    let b = JsonValue::Dict(vec![
        ("k".to_string(), JsonValue::List(vec![JsonValue::Int(1)])),
    ]);
    let c = JsonValue::Dict(vec![
        ("k".to_string(), JsonValue::List(vec![JsonValue::Int(2)])),
    ]);
    assert_eq!(a, b);
    assert_ne!(a, c);
    assert_ne!(JsonValue::Null, JsonValue::Bool(false));
    assert_ne!(ArgValue::Int(1), ArgValue::String("1".to_string()));
}

#[test]
fn test_entries_sorted_view() {
    let mut args = ArgValues::new();
    args.add("b".to_string(), ArgValue::Int(2));
    args.add("a".to_string(), ArgValue::Int(1));
    let entries = args.entries();
    assert_eq!(entries.len(), 2);
    assert_eq!(entries[0].0, "a");
    assert_eq!(entries[1].0, "b");
}
#[test]
fn test_clone_serializes_identically() {
    let mut args = ArgValues::new();
    args.add("foo".to_string(), ArgValue::String("bar".to_string()));
    args.add(
        "boo".to_string(),
        ArgValue::Json(JsonValue::Dict(vec![(
            "key1".to_string(),
            JsonValue::List(vec![JsonValue::Int(1), JsonValue::Null]),
        )])),
    );
    let copy = args.clone();
    assert_eq!(args.serialize(), copy.serialize());
}

#[test]
fn test_value_clone_is_equal() {
    let v = JsonValue::List(vec![
        JsonValue::Str("x".to_string()),
        JsonValue::Dict(vec![("k".to_string(), JsonValue::Bool(true))]),
    ]);
    assert_eq!(v.clone(), v);
    let a = ArgValue::Json(v);
    assert_eq!(a.clone(), a);
}

#[test]
fn test_map_equality() {
    let mut a = ArgValues::new();
    a.add("x".to_string(), ArgValue::Int(1));
    a.add("y".to_string(), ArgValue::Int(2));

    let mut b = ArgValues::new();
    b.add("y".to_string(), ArgValue::Int(2));
    b.add("x".to_string(), ArgValue::Int(1));

    assert_eq!(a, b);

    let mut c = ArgValues::new();
    c.add("x".to_string(), ArgValue::Int(1));
    assert_ne!(a, c);
}
