use serde_state::attrs::{AttrPath, Attribute, Hook, Meta};
use serde_state::de::{decode, DecodeError};
use serde_state::schema::Shape;
use serde_state::ser::encode;
use serde_state::type_decl::{
    check_registry, Data, DeriveInput, Field, Fields, TypeDecl, Variant,
};
use serde_state::value::{Recorder, Value};
use serde_state::wire::Wire;

fn to_json(w: &Wire) -> serde_json::Value {
    match w {
        Wire::Null => serde_json::Value::Null,
        Wire::Int(n) => serde_json::Value::from(*n),
        Wire::Str(s) => serde_json::Value::String(s.clone()),
        Wire::Array(items) => serde_json::Value::Array(items.iter().map(to_json).collect()),
        Wire::Object(entries) => {
            let mut map = serde_json::Map::new();
            for (k, v) in entries {
                map.insert(k.clone(), to_json(v));
            }
            serde_json::Value::Object(map)
        }
    }
}

fn from_json(v: &serde_json::Value) -> Wire {
    match v {
        serde_json::Value::Null => Wire::Null,
        serde_json::Value::Number(n) => Wire::Int(n.as_u64().unwrap()),
        serde_json::Value::String(s) => Wire::Str(s.clone()),
        serde_json::Value::Array(items) => Wire::Array(items.iter().map(from_json).collect()),
        serde_json::Value::Object(map) => {
            Wire::Object(map.iter().map(|(k, v)| (k.clone(), from_json(v))).collect())
        }
        serde_json::Value::Bool(_) => panic!("booleans are not used here"),
    }
}

fn json(text: &str) -> serde_json::Value {
    serde_json::from_str(text).unwrap()
}

fn attr(path: AttrPath, metas: Vec<Meta>) -> Attribute {
    Attribute { path, metas }
}

fn stateless() -> Attribute {
    attr(AttrPath::SerdeState, vec![Meta::Stateless])
}

fn stateful() -> Attribute {
    attr(AttrPath::SerdeState, vec![Meta::Stateful])
}

fn field(name: &str, ty: Shape, attrs: Vec<Attribute>) -> Field {
    Field { ident: name.to_string(), ty, attrs }
}

fn record(name: &str, attrs: Vec<Attribute>, fields: Fields) -> TypeDecl {
    let input = DeriveInput { ident: name.to_string(), attrs, data: Data::Struct(fields) };
    TypeDecl::from_derive_input(&input).unwrap()
}

fn union(name: &str, attrs: Vec<Attribute>, variants: Vec<Variant>) -> TypeDecl {
    let input = DeriveInput { ident: name.to_string(), attrs, data: Data::Enum(variants) };
    TypeDecl::from_derive_input(&input).unwrap()
}

fn variant(name: &str, attrs: Vec<Attribute>, fields: Fields) -> Variant {
    Variant { ident: name.to_string(), attrs, fields }
}

fn registry(decls: Vec<TypeDecl>) -> Vec<TypeDecl> {
    assert!(check_registry(&decls));
    decls
}

fn ser(reg: &Vec<TypeDecl>, value: &Value, state: &mut Recorder) -> serde_json::Value {
    to_json(&encode(reg, &Shape::Named(0), value, state))
}

fn de(reg: &Vec<TypeDecl>, text: &serde_json::Value, state: &mut Recorder) -> Result<Value, DecodeError> {
    decode(reg, &Shape::Named(0), &from_json(text), state)
}

fn example() -> Vec<TypeDecl> {
    registry(vec![record(
        "Example",
        vec![],
        Fields::Named(vec![
            field("first", Shape::Counted, vec![]),
            field("second", Shape::Counted, vec![]),
        ]),
    )])
}

fn rec(vals: Vec<u64>) -> Value {
    Value::Record(vals.into_iter().map(Value::Int).collect())
}

#[test]
fn serialize_named_struct_threads_state() {
    let reg = example();
    let value = rec(vec![1, 2]);
    let mut state = Recorder::new();
    let out = ser(&reg, &value, &mut state);
    assert_eq!(state.serialized.len(), 2);
    assert_eq!(out, json(r#"{ "first": 1, "second": 2 }"#));
}

#[test]
fn deserialize_named_struct_threads_state() {
    let reg = example();
    let mut state = Recorder::new();
    let decoded = de(&reg, &json(r#"{"first":3,"second":4}"#), &mut state).unwrap();
    assert_eq!(decoded, rec(vec![3, 4]));
    assert_eq!(state.deserialized.len(), 2);
}

#[test]
fn transparent_struct_behaves_like_inner_value() {
    let reg = registry(vec![record(
        "Wrapper",
        vec![attr(AttrPath::Serde, vec![Meta::Transparent])],
        Fields::Named(vec![field("inner", Shape::Counted, vec![])]),
    )]);
    let wrapper = rec(vec![11]);
    let mut state = Recorder::new();
    let out = ser(&reg, &wrapper, &mut state);
    assert_eq!(state.serialized.len(), 1);
    assert_eq!(out, json("11"));

    let mut state = Recorder::new();
    let decoded = de(&reg, &out, &mut state).unwrap();
    assert_eq!(decoded, rec(vec![11]));
    assert_eq!(state.deserialized.len(), 1);
}

#[test]
fn plain_struct_does_not_need_state_attribute() {
    let reg = registry(vec![record(
        "PlainNumbers",
        vec![],
        Fields::Named(vec![field("value", Shape::Int, vec![stateless()])]),
    )]);
    let numbers = rec(vec![42]);
    let mut state = Recorder::new();
    let out = ser(&reg, &numbers, &mut state);
    assert_eq!(out, json(r#"{ "value": 42 }"#));

    let decoded = de(&reg, &out, &mut state).unwrap();
    assert_eq!(decoded, numbers);
    assert_eq!(state.serialized.len(), 0);
    assert_eq!(state.deserialized.len(), 0);
}

#[test]
fn tuple_and_unit_structs_thread_state() {
    let reg = registry(vec![
        record(
            "Pair",
            vec![],
            Fields::Unnamed(vec![
                field("0", Shape::Counted, vec![]),
                field("1", Shape::Counted, vec![]),
            ]),
        ),
        record("Empty", vec![], Fields::Unit),
    ]);
    let pair = rec(vec![7, 8]);
    let mut state = Recorder::new();
    let out = ser(&reg, &pair, &mut state);
    assert_eq!(state.serialized.len(), 2);
    assert_eq!(out, json("[7, 8]"));

    let mut state = Recorder::new();
    let decoded = de(&reg, &out, &mut state).unwrap();
    assert_eq!(decoded, pair);
    assert_eq!(state.deserialized.len(), 2);

    let empty = Value::Record(vec![]);
    let mut state = Recorder::new();
    let out = to_json(&encode(&reg, &Shape::Named(1), &empty, &mut state));
    assert_eq!(state.serialized.len(), 0);
    assert_eq!(out, serde_json::Value::Null);

    let mut state = Recorder::new();
    let decoded = decode(&reg, &Shape::Named(1), &from_json(&out), &mut state).unwrap();
    assert_eq!(decoded, Value::Record(vec![]));
    assert_eq!(state.deserialized.len(), 0);
}

fn action() -> Vec<TypeDecl> {
    registry(vec![union(
        "Action",
        vec![],
        vec![
            variant("Idle", vec![], Fields::Unit),
            variant("Reset", vec![], Fields::Unnamed(vec![field("0", Shape::Counted, vec![])])),
            variant(
                "Combine",
                vec![],
                Fields::Unnamed(vec![
                    field("0", Shape::Counted, vec![]),
                    field("1", Shape::Counted, vec![]),
                ]),
            ),
            variant(
                "Record",
                vec![],
                Fields::Named(vec![
                    field("first", Shape::Counted, vec![]),
                    field("second", Shape::Counted, vec![]),
                ]),
            ),
        ],
    )])
}

fn var(k: usize, vals: Vec<u64>) -> Value {
    Value::Variant(k, vals.into_iter().map(Value::Int).collect())
}

#[test]
fn enums_thread_state_for_each_variant() {
    let reg = action();
    let run_case = |action: Value, expected_json: serde_json::Value, expected_hits: usize| {
        let mut state = Recorder::new();
        let out = ser(&reg, &action, &mut state);
        assert_eq!(state.serialized.len(), expected_hits);
        assert_eq!(out, expected_json);

        let mut state = Recorder::new();
        let decoded = de(&reg, &out, &mut state).unwrap();
        assert_eq!(decoded, action);
        assert_eq!(state.deserialized.len(), expected_hits);
    };

    run_case(var(0, vec![]), json(r#""Idle""#), 0);
    run_case(var(1, vec![9]), json(r#"{"Reset": 9}"#), 1);
    run_case(var(2, vec![10, 11]), json(r#"{"Combine": [10, 11]}"#), 2);
    run_case(var(3, vec![12, 13]), json(r#"{"Record": {"first": 12, "second": 13}}"#), 2);
}

#[test]
fn perfect_derive_does_not_require_generic_bounds() {
    let reg = registry(vec![record(
        "PhantomWrapper",
        vec![],
        Fields::Named(vec![field("marker", Shape::Phantom, vec![])]),
    )]);
    let wrapper = Value::Record(vec![Value::Unit]);
    let mut ser_state = Recorder::new();
    let out = ser(&reg, &wrapper, &mut ser_state);
    assert_eq!(ser_state.serialized.len(), 0);
    let mut de_state = Recorder::new();
    let decoded = de(&reg, &out, &mut de_state).unwrap();
    assert_eq!(decoded, wrapper);
    assert_eq!(de_state.deserialized.len(), 0);
}

#[test]
fn generic_struct_threads_state() {
    let reg = registry(vec![record(
        "GenericContainer",
        vec![],
        Fields::Named(vec![
            field("first", Shape::Counted, vec![]),
            field("second", Shape::Counted, vec![]),
        ]),
    )]);
    let value = rec(vec![21, 22]);
    let mut state = Recorder::new();
    let out = ser(&reg, &value, &mut state);
    assert_eq!(state.serialized.len(), 2);

    let mut state = Recorder::new();
    let decoded = de(&reg, &out, &mut state).unwrap();
    assert_eq!(decoded, value);
    assert_eq!(state.deserialized.len(), 2);
}

#[test]
fn stateless_fields_use_plain_serde() {
    let reg = registry(vec![
        record(
            "MixedModes",
            vec![],
            Fields::Named(vec![
                field("plain", Shape::Plain, vec![stateless()]),
                field("stateful", Shape::Counted, vec![]),
            ]),
        ),
        record(
            "StatelessContainerWithOverride",
            vec![stateless()],
            Fields::Named(vec![
                field("plain", Shape::Plain, vec![]),
                field("counter", Shape::Counted, vec![stateful()]),
            ]),
        ),
    ]);
    let value = rec(vec![7, 8]);
    let mut state = Recorder::new();
    let out = ser(&reg, &value, &mut state);
    assert_eq!(state.serialized.len(), 1);

    let mut state = Recorder::new();
    let decoded = de(&reg, &out, &mut state).unwrap();
    assert_eq!(decoded, value);
    assert_eq!(state.deserialized.len(), 1);

    let value = rec(vec![9, 10]);
    let mut state = Recorder::new();
    let out = to_json(&encode(&reg, &Shape::Named(1), &value, &mut state));
    assert_eq!(state.serialized.len(), 1);

    let mut state = Recorder::new();
    let decoded = decode(&reg, &Shape::Named(1), &from_json(&out), &mut state).unwrap();
    assert_eq!(decoded, value);
    assert_eq!(state.deserialized.len(), 1);
}

#[test]
fn stateless_variants_control_state_usage() {
    let reg = registry(vec![union(
        "VariantModes",
        vec![stateful()],
        vec![
            variant("Plain", vec![stateless()], Fields::Unnamed(vec![field("0", Shape::Plain, vec![])])),
            variant("Struct", vec![stateless()], Fields::Named(vec![field("value", Shape::Plain, vec![])])),
            variant("Stateful", vec![], Fields::Unnamed(vec![field("0", Shape::Counted, vec![])])),
            variant(
                "WithOverride",
                vec![stateless()],
                Fields::Named(vec![field("counter", Shape::Counted, vec![stateful()])]),
            ),
        ],
    )]);
    let round_trip = |value: Value| -> usize {
        let mut state = Recorder::new();
        let out = ser(&reg, &value, &mut state);
        let mut de_state = Recorder::new();
        let decoded = de(&reg, &out, &mut de_state).unwrap();
        assert_eq!(decoded, value);
        state.serialized.len()
    };

    assert_eq!(round_trip(var(0, vec![1])), 0);
    assert_eq!(round_trip(var(1, vec![2])), 0);
    assert_eq!(round_trip(var(2, vec![3])), 1);
    assert_eq!(round_trip(var(3, vec![4])), 1);
}

#[test]
fn serde_rename_and_skip_are_respected() {
    let reg = registry(vec![record(
        "RenamedAndSkipped",
        vec![],
        Fields::Named(vec![
            field(
                "renamed",
                Shape::Counted,
                vec![attr(AttrPath::Serde, vec![Meta::Rename("external".to_string())])],
            ),
            field("skipped", Shape::Plain, vec![attr(AttrPath::Serde, vec![Meta::Skip])]),
        ]),
    )]);
    let value = rec(vec![5, 6]);
    let mut state = Recorder::new();
    let out = ser(&reg, &value, &mut state);
    assert_eq!(state.serialized.len(), 1);
    assert_eq!(out, json(r#"{"external": 5}"#));

    let mut state = Recorder::new();
    let decoded = de(&reg, &out, &mut state).unwrap();
    match decoded {
        Value::Record(vals) => {
            assert_eq!(vals[0], Value::Int(5));
            assert_eq!(vals[1], Value::Int(0));
        }
        other => panic!("unexpected {:?}", other),
    }
    assert_eq!(state.deserialized.len(), 1);
}

#[test]
fn state_implements_applies_trait_bounds() {
    let reg = registry(vec![record(
        "TraitBoundContainer",
        vec![attr(AttrPath::SerdeState, vec![Meta::StateImplements])],
        Fields::Named(vec![field("value", Shape::Counted, vec![])]),
    )]);
    let value = rec(vec![12]);
    let mut state = Recorder::new();
    let out = ser(&reg, &value, &mut state);
    assert_eq!(state.serialized_count(), 1);
    assert_eq!(out, json(r#"{"value": 12}"#));

    let mut state = Recorder::new();
    let decoded = de(&reg, &out, &mut state).unwrap();
    assert_eq!(decoded, value);
    assert_eq!(state.deserialized_count(), 1);
}

#[test]
fn serde_with_calls_custom_helpers() {
    let reg = registry(vec![record(
        "WithHelperField",
        vec![attr(AttrPath::SerdeState, vec![Meta::State])],
        Fields::Named(vec![field(
            "counter",
            Shape::Counted,
            vec![attr(AttrPath::Serde, vec![Meta::With(Hook::Shift(100))])],
        )]),
    )]);
    let value = rec(vec![7]);
    let mut state = Recorder::new();
    let out = ser(&reg, &value, &mut state);
    assert_eq!(state.serialized.len(), 0);
    assert_eq!(out, json(r#"{"counter": 107}"#));

    let mut state = Recorder::new();
    let decoded = de(&reg, &out, &mut state).unwrap();
    assert_eq!(decoded, rec(vec![7]));
    assert_eq!(state.deserialized.len(), 0);
}

#[test]
fn recursive_enum_threads_state() {
    let reg = registry(vec![union(
        "CounterList",
        vec![attr(AttrPath::SerdeState, vec![Meta::State])],
        vec![
            variant("Nil", vec![], Fields::Unit),
            variant(
                "Cons",
                vec![],
                Fields::Unnamed(vec![
                    field("0", Shape::Counted, vec![]),
                    field("1", Shape::Boxed(Box::new(Shape::Named(0))), vec![]),
                ]),
            ),
        ],
    )]);
    let nil = Value::Variant(0, vec![]);
    let list = Value::Variant(
        1,
        vec![Value::Int(1), Value::Variant(1, vec![Value::Int(2), nil])],
    );
    let mut state = Recorder::new();
    let out = ser(&reg, &list, &mut state);
    assert_eq!(state.serialized.len(), 2);
    assert_eq!(out, json(r#"{"Cons": [1, {"Cons": [2, "Nil"]}]}"#));

    let mut state = Recorder::new();
    let decoded = de(&reg, &out, &mut state).unwrap();
    assert_eq!(decoded, list);
    assert_eq!(state.deserialized.len(), 2);
}
