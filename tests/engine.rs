use serde_state::attrs::{
    attrs_mode, parse_field_attrs, parse_variant_attrs, AttrPath, Attribute, FieldAttrs, Hook,
    Meta, SchemaError, VariantAttrs,
};
use serde_state::de::{decode, decode_plain, DecodeError};
use serde_state::mode::{merge_modes, resolve_mode, ItemMode};
use serde_state::schema::Shape;
use serde_state::seed::{
    wrap_deserialize_seed, wrap_serialize, DeserializeState, DeserializeStateSeed, SerializeRef,
    SerializeState, WithState,
};
use serde_state::ser::{encode, encode_plain};
use serde_state::type_decl::{
    check_registry, value_conforms, ContainerAttributes, Data, DeriveInput, Field, Fields,
    TypeDecl, Variant,
};
use serde_state::value::{Recorder, Value};
use serde_state::wire::Wire;

fn attr(path: AttrPath, metas: Vec<Meta>) -> Attribute {
    Attribute { path, metas }
}

fn field(name: &str, ty: Shape, attrs: Vec<Attribute>) -> Field {
    Field { ident: name.to_string(), ty, attrs }
}

fn input(name: &str, attrs: Vec<Attribute>, data: Data) -> DeriveInput {
    DeriveInput { ident: name.to_string(), attrs, data }
}

fn pair_decl() -> TypeDecl {
    TypeDecl::from_derive_input(&input(
        "Pair",
        vec![],
        Data::Struct(Fields::Unnamed(vec![
            field("0", Shape::Counted, vec![]),
            field("1", Shape::Counted, vec![]),
        ])),
    ))
    .unwrap()
}

fn example_decl() -> TypeDecl {
    TypeDecl::from_derive_input(&input(
        "Example",
        vec![],
        Data::Struct(Fields::Named(vec![
            field("first", Shape::Counted, vec![]),
            field("second", Shape::Counted, vec![]),
        ])),
    ))
    .unwrap()
}

fn action_decl() -> TypeDecl {
    TypeDecl::from_derive_input(&input(
        "Action",
        vec![],
        Data::Enum(vec![
            Variant { ident: "Idle".to_string(), attrs: vec![], fields: Fields::Unit },
            Variant {
                ident: "Reset".to_string(),
                attrs: vec![],
                fields: Fields::Unnamed(vec![field("0", Shape::Counted, vec![])]),
            },
        ]),
    ))
    .unwrap()
}

fn s(text: &str) -> String {
    text.to_string()
}

fn obj(entries: Vec<(&str, Wire)>) -> Wire {
    Wire::Object(entries.into_iter().map(|(k, v)| (k.to_string(), v)).collect())
}

#[test]
fn repeated_key_is_duplicate_field() {
    let reg = vec![example_decl()];
    let w = obj(vec![("first", Wire::Int(1)), ("first", Wire::Int(2)), ("second", Wire::Int(3))]);
    let mut state = Recorder::new();
    assert_eq!(
        decode(&reg, &Shape::Named(0), &w, &mut state),
        Err(DecodeError::DuplicateField(s("first")))
    );
}

#[test]
fn absent_key_is_missing_field() {
    let reg = vec![example_decl()];
    let w = obj(vec![("first", Wire::Int(1))]);
    let mut state = Recorder::new();
    assert_eq!(
        decode(&reg, &Shape::Named(0), &w, &mut state),
        Err(DecodeError::MissingField(s("second")))
    );
}

#[test]
fn unknown_tag_is_unknown_variant() {
    let reg = vec![action_decl()];
    let mut state = Recorder::new();
    assert_eq!(
        decode(&reg, &Shape::Named(0), &Wire::Str(s("Jump")), &mut state),
        Err(DecodeError::UnknownVariant(s("Jump"), vec![s("Idle"), s("Reset")]))
    );
    let w = obj(vec![("Jump", Wire::Int(1))]);
    assert_eq!(
        decode(&reg, &Shape::Named(0), &w, &mut state),
        Err(DecodeError::UnknownVariant(s("Jump"), vec![s("Idle"), s("Reset")]))
    );
}

#[test]
fn short_and_long_sequences_are_invalid_length() {
    let reg = vec![pair_decl()];
    let mut state = Recorder::new();
    assert_eq!(
        decode(&reg, &Shape::Named(0), &Wire::Array(vec![Wire::Int(7)]), &mut state),
        Err(DecodeError::InvalidLength(1))
    );
    let long = Wire::Array(vec![Wire::Int(7), Wire::Int(8), Wire::Int(9)]);
    assert_eq!(decode(&reg, &Shape::Named(0), &long, &mut state), Err(DecodeError::InvalidLength(2)));
}

#[test]
fn wrong_wire_kind_is_invalid_type() {
    let reg = vec![example_decl()];
    let mut state = Recorder::new();
    assert_eq!(
        decode(&reg, &Shape::Named(0), &Wire::Int(3), &mut state),
        Err(DecodeError::InvalidType)
    );
    let w = obj(vec![("first", Wire::Str(s("x"))), ("second", Wire::Int(3))]);
    assert_eq!(decode(&reg, &Shape::Named(0), &w, &mut state), Err(DecodeError::InvalidType));
}

#[test]
fn unknown_keys_are_ignored() {
    let reg = vec![example_decl()];
    let w = obj(vec![
        ("extra", Wire::Array(vec![Wire::Null])),
        ("second", Wire::Int(4)),
        ("first", Wire::Int(3)),
    ]);
    let mut state = Recorder::new();
    let v = decode(&reg, &Shape::Named(0), &w, &mut state).unwrap();
    assert_eq!(v, Value::Record(vec![Value::Int(3), Value::Int(4)]));
    assert_eq!(state.deserialized, vec![4, 3]);
}

#[test]
fn leaves_report_in_order() {
    let reg = vec![example_decl()];
    let mut state = Recorder::new();
    let v = Value::Record(vec![Value::Int(1), Value::Int(2)]);
    let w = encode(&reg, &Shape::Named(0), &v, &mut state);
    assert_eq!(state.serialized, vec![1, 2]);
    assert!(state.deserialized.is_empty());
    let back = decode(&reg, &Shape::Named(0), &w, &mut state).unwrap();
    assert_eq!(back, v);
    assert_eq!(state.deserialized, vec![1, 2]);
    assert_eq!(state.serialized, vec![1, 2]);
}

#[test]
fn round_trip_with_two_contexts() {
    let reg = vec![example_decl()];
    let v = Value::Record(vec![Value::Int(5), Value::Int(6)]);
    let mut first = Recorder::new();
    first.mark_serialized(99);
    let w = encode(&reg, &Shape::Named(0), &v, &mut first);
    let mut second = Recorder::new();
    second.mark_deserialized(42);
    assert_eq!(decode(&reg, &Shape::Named(0), &w, &mut second), Ok(v));
    assert_eq!(second.deserialized, vec![42, 5, 6]);
}

#[test]
fn lists_options_and_boxes() {
    let reg: Vec<TypeDecl> = vec![];
    let shape = Shape::List(Box::new(Shape::Maybe(Box::new(Shape::Boxed(Box::new(Shape::Counted))))));
    let v = Value::List(vec![
        Value::Present(Box::new(Value::Int(1))),
        Value::Absent,
        Value::Present(Box::new(Value::Int(3))),
    ]);
    let mut state = Recorder::new();
    let w = encode(&reg, &shape, &v, &mut state);
    assert_eq!(w, Wire::Array(vec![Wire::Int(1), Wire::Null, Wire::Int(3)]));
    assert_eq!(state.serialized, vec![1, 3]);
    assert_eq!(decode(&reg, &shape, &w, &mut state), Ok(v));
    assert_eq!(state.deserialized, vec![1, 3]);
    let empty = Value::List(vec![]);
    assert_eq!(encode(&reg, &shape, &empty, &mut state), Wire::Array(vec![]));
}

#[test]
fn stateless_encoding_needs_no_context() {
    let shape = Shape::List(Box::new(Shape::Plain));
    let v = Value::List(vec![Value::Int(4), Value::Int(5)]);
    let w = encode_plain(&shape, &v);
    assert_eq!(w, Wire::Array(vec![Wire::Int(4), Wire::Int(5)]));
    assert_eq!(decode_plain(&shape, &w), Ok(v));
    assert_eq!(decode_plain(&Shape::Phantom, &Wire::Int(1)), Err(DecodeError::InvalidType));
    assert_eq!(decode_plain(&Shape::Named(0), &Wire::Null), Err(DecodeError::InvalidType));
}

#[test]
fn skipped_field_is_absent_and_defaulted() {
    let decl = TypeDecl::from_derive_input(&input(
        "Skips",
        vec![],
        Data::Struct(Fields::Named(vec![
            field("kept", Shape::Int, vec![]),
            field("gone", Shape::List(Box::new(Shape::Int)), vec![attr(AttrPath::Serde, vec![Meta::Skip])]),
            field("maybe", Shape::Maybe(Box::new(Shape::Int)), vec![attr(AttrPath::Serde, vec![Meta::Skip])]),
        ])),
    ))
    .unwrap();
    let reg = vec![decl];
    assert!(check_registry(&reg));
    let v = Value::Record(vec![
        Value::Int(1),
        Value::List(vec![Value::Int(9)]),
        Value::Present(Box::new(Value::Int(2))),
    ]);
    let mut state = Recorder::new();
    let w = encode(&reg, &Shape::Named(0), &v, &mut state);
    assert_eq!(w, obj(vec![("kept", Wire::Int(1))]));
    let back = decode(&reg, &Shape::Named(0), &w, &mut state).unwrap();
    assert_eq!(back, Value::Record(vec![Value::Int(1), Value::List(vec![]), Value::Absent]));
}

#[test]
fn rename_changes_only_the_key() {
    let plain = TypeDecl::from_derive_input(&input(
        "A",
        vec![],
        Data::Struct(Fields::Named(vec![field("x", Shape::Counted, vec![])])),
    ))
    .unwrap();
    let renamed = TypeDecl::from_derive_input(&input(
        "A",
        vec![],
        Data::Struct(Fields::Named(vec![field(
            "x",
            Shape::Counted,
            vec![attr(AttrPath::Serde, vec![Meta::Rename(s("y"))])],
        )])),
    ))
    .unwrap();
    let v = Value::Record(vec![Value::Int(3)]);
    let mut state = Recorder::new();
    let w1 = encode(&vec![plain], &Shape::Named(0), &v, &mut state);
    let reg2 = vec![renamed];
    let w2 = encode(&reg2, &Shape::Named(0), &v, &mut state);
    assert_eq!(w1, obj(vec![("x", Wire::Int(3))]));
    assert_eq!(w2, obj(vec![("y", Wire::Int(3))]));
    assert_eq!(decode(&reg2, &Shape::Named(0), &w2, &mut state), Ok(v));
    assert_eq!(state.serialized, vec![3, 3]);
}

#[test]
fn hook_shift_wraps_around() {
    let state = Recorder::new();
    assert_eq!(Hook::Shift(100).encode_int(7, &state), 107);
    assert_eq!(Hook::Shift(100).decode_int(107, &state), 7);
    assert_eq!(Hook::Shift(100).encode_int(u64::MAX - 49, &state), 50);
    assert_eq!(Hook::Shift(100).decode_int(50, &state), u64::MAX - 49);
    assert_eq!(Hook::Shift(100).decode_int(3, &state), u64::MAX - 96);
}

#[test]
fn modes_inherit_and_override() {
    assert_eq!(merge_modes(ItemMode::Stateful, None), ItemMode::Stateful);
    assert_eq!(merge_modes(ItemMode::Stateful, Some(ItemMode::Stateless)), ItemMode::Stateless);
    assert_eq!(resolve_mode(ItemMode::Stateful, Some(ItemMode::Stateless), None), ItemMode::Stateless);
    assert_eq!(
        resolve_mode(ItemMode::Stateful, Some(ItemMode::Stateless), Some(ItemMode::Stateful)),
        ItemMode::Stateful
    );
    assert_eq!(resolve_mode(ItemMode::Stateless, None, None), ItemMode::Stateless);
    let attrs = vec![
        attr(AttrPath::SerdeState, vec![Meta::Stateless]),
        attr(AttrPath::Other, vec![Meta::Stateful]),
    ];
    assert_eq!(attrs_mode(&attrs), Some(ItemMode::Stateless));
    assert_eq!(attrs_mode(&vec![]), None);
    let va: VariantAttrs = parse_variant_attrs(&attrs, ItemMode::Stateful);
    assert_eq!(va.mode(), ItemMode::Stateless);
    assert_eq!(parse_variant_attrs(&vec![], ItemMode::Stateless).mode(), ItemMode::Stateless);
}

#[test]
fn field_attributes_are_read() {
    let attrs = vec![
        attr(AttrPath::Serde, vec![Meta::Rename(s("a")), Meta::With(Hook::Shift(1))]),
        attr(AttrPath::Serde, vec![Meta::Rename(s("b"))]),
        attr(AttrPath::SerdeState, vec![Meta::Stateless, Meta::Unknown]),
    ];
    let fa: FieldAttrs = parse_field_attrs(&attrs, ItemMode::Stateful).unwrap();
    assert_eq!(fa.rename, Some(s("b")));
    assert_eq!(fa.with, Some(Hook::Shift(1)));
    assert!(!fa.skip);
    assert_eq!(fa.mode, ItemMode::Stateless);
    assert_eq!(fa.key(&s("field")), s("b"));
    let bad = vec![attr(AttrPath::Serde, vec![Meta::Transparent])];
    assert_eq!(parse_field_attrs(&bad, ItemMode::Stateful).err(), Some(SchemaError::UnsupportedSerdeAttribute));
}

#[test]
fn conflicting_container_attributes_are_rejected() {
    let both = vec![
        attr(AttrPath::SerdeState, vec![Meta::State]),
        attr(AttrPath::SerdeState, vec![Meta::StateImplements]),
    ];
    assert_eq!(ContainerAttributes::from_attrs(&both), Err(SchemaError::StateWithStateImplements));
    let both = vec![attr(AttrPath::SerdeState, vec![Meta::StateImplements, Meta::State])];
    assert_eq!(ContainerAttributes::from_attrs(&both), Err(SchemaError::StateWithStateImplements));
    let twice = vec![attr(AttrPath::SerdeState, vec![Meta::State, Meta::State])];
    assert_eq!(ContainerAttributes::from_attrs(&twice), Err(SchemaError::DuplicateState));
    let twice = vec![attr(AttrPath::SerdeState, vec![Meta::StateImplements, Meta::StateImplements])];
    assert_eq!(ContainerAttributes::from_attrs(&twice), Err(SchemaError::DuplicateStateImplements));
    let misplaced = vec![attr(AttrPath::Serde, vec![Meta::State])];
    assert_eq!(ContainerAttributes::from_attrs(&misplaced), Err(SchemaError::StateOutsideSerdeState));
    let misplaced = vec![attr(AttrPath::Serde, vec![Meta::StateImplements])];
    assert_eq!(
        ContainerAttributes::from_attrs(&misplaced),
        Err(SchemaError::StateImplementsOutsideSerdeState)
    );
    let misplaced = vec![attr(AttrPath::Serde, vec![Meta::Stateless])];
    assert_eq!(ContainerAttributes::from_attrs(&misplaced), Err(SchemaError::ModeOutsideSerdeState));
    let unknown = vec![attr(AttrPath::SerdeState, vec![Meta::Skip])];
    assert_eq!(ContainerAttributes::from_attrs(&unknown), Err(SchemaError::UnsupportedSerdeStateAttribute));
    let unknown = vec![attr(AttrPath::Serde, vec![Meta::Skip])];
    assert_eq!(ContainerAttributes::from_attrs(&unknown), Err(SchemaError::UnsupportedSerdeAttribute));
    let fine = vec![
        attr(AttrPath::Serde, vec![Meta::Transparent, Meta::Crate]),
        attr(AttrPath::SerdeState, vec![Meta::Stateless, Meta::State]),
        attr(AttrPath::Other, vec![Meta::Unknown]),
    ];
    assert_eq!(
        ContainerAttributes::from_attrs(&fine),
        Ok(ContainerAttributes { transparent: true, state: true, state_bound: false, mode: ItemMode::Stateless })
    );
}

#[test]
fn transparent_needs_exactly_one_field() {
    let two = input(
        "Two",
        vec![attr(AttrPath::Serde, vec![Meta::Transparent])],
        Data::Struct(Fields::Named(vec![field("a", Shape::Int, vec![]), field("b", Shape::Int, vec![])])),
    );
    assert_eq!(TypeDecl::from_derive_input(&two).err(), Some(SchemaError::TransparentArity));
    let unit = input("U", vec![attr(AttrPath::Serde, vec![Meta::Transparent])], Data::Struct(Fields::Unit));
    assert_eq!(TypeDecl::from_derive_input(&unit).err(), Some(SchemaError::TransparentArity));
    let bad_field = input(
        "F",
        vec![],
        Data::Struct(Fields::Named(vec![field("a", Shape::Int, vec![attr(AttrPath::Serde, vec![Meta::Crate])])])),
    );
    assert_eq!(TypeDecl::from_derive_input(&bad_field).err(), Some(SchemaError::UnsupportedSerdeAttribute));
}

#[test]
fn registry_check_enforces_capabilities() {
    let stateless_counter = TypeDecl::from_derive_input(&input(
        "S",
        vec![attr(AttrPath::SerdeState, vec![Meta::Stateless])],
        Data::Struct(Fields::Named(vec![field("c", Shape::Counted, vec![])])),
    ))
    .unwrap();
    assert!(!check_registry(&vec![stateless_counter]));
    let skipped_counter = TypeDecl::from_derive_input(&input(
        "K",
        vec![],
        Data::Struct(Fields::Named(vec![field("c", Shape::Counted, vec![attr(AttrPath::Serde, vec![Meta::Skip])])])),
    ))
    .unwrap();
    assert!(!check_registry(&vec![skipped_counter]));
    let same_key = TypeDecl::from_derive_input(&input(
        "D",
        vec![],
        Data::Struct(Fields::Named(vec![
            field("a", Shape::Int, vec![]),
            field("b", Shape::Int, vec![attr(AttrPath::Serde, vec![Meta::Rename(s("a"))])]),
        ])),
    ))
    .unwrap();
    assert!(!check_registry(&vec![same_key]));
    let dangling = TypeDecl::from_derive_input(&input(
        "R",
        vec![],
        Data::Struct(Fields::Named(vec![field("r", Shape::Named(5), vec![])])),
    ))
    .unwrap();
    assert!(!check_registry(&vec![dangling]));
    assert!(check_registry(&vec![example_decl(), pair_decl(), action_decl()]));
}

#[test]
fn self_wrapping_type_is_refused_and_decoding_stops() {
    let looped = TypeDecl::from_derive_input(&input(
        "Loop",
        vec![],
        Data::Struct(Fields::Unnamed(vec![field("0", Shape::Maybe(Box::new(Shape::Named(0))), vec![])])),
    ))
    .unwrap();
    let reg = vec![looped];
    assert!(!check_registry(&reg));
    let mut state = Recorder::new();
    assert_eq!(decode(&reg, &Shape::Named(0), &Wire::Int(5), &mut state), Err(DecodeError::InvalidType));
}

#[test]
fn seeds_carry_the_context() {
    let reg = vec![example_decl()];
    let v = Value::Record(vec![Value::Int(1), Value::Int(2)]);
    let mut state = Recorder::new();
    let w = WithState::new(Value::Record(vec![Value::Int(1), Value::Int(2)]), &mut state)
        .serialize(&reg, &Shape::Named(0));
    assert_eq!(state.serialized, vec![1, 2]);
    let w2 = wrap_serialize(&v, &mut state).serialize(&reg, &Shape::Named(0));
    assert_eq!(w, w2);
    let w3 = SerializeRef::new(&v, &mut state).serialize(&reg, &Shape::Named(0));
    assert_eq!(w, w3);
    assert_eq!(state.serialized_count(), 6);
    let shape = Shape::Named(0);
    let back = wrap_deserialize_seed(&mut state, &shape).deserialize(&reg, &w).unwrap();
    assert_eq!(back, v);
    let again = DeserializeStateSeed::new(&mut state, &shape).deserialize(&reg, &w).unwrap();
    assert_eq!(again, v);
    assert_eq!(state.deserialized_count(), 4);
}

#[test]
fn unit_variant_in_object_form_takes_null() {
    let reg = vec![action_decl()];
    let mut state = Recorder::new();
    let w = obj(vec![("Idle", Wire::Null)]);
    assert_eq!(decode(&reg, &Shape::Named(0), &w, &mut state), Ok(Value::Variant(0, vec![])));
    let w = obj(vec![("Idle", Wire::Int(1))]);
    assert_eq!(decode(&reg, &Shape::Named(0), &w, &mut state), Err(DecodeError::InvalidType));
    let two = obj(vec![("Idle", Wire::Null), ("Reset", Wire::Int(1))]);
    assert_eq!(decode(&reg, &Shape::Named(0), &two, &mut state), Err(DecodeError::InvalidType));
}

#[test]
fn failed_decodes_keep_only_earlier_reports() {
    let reg = vec![example_decl(), action_decl()];
    let mut state = Recorder::new();
    let dup = obj(vec![("first", Wire::Int(1)), ("first", Wire::Int(2)), ("second", Wire::Int(3))]);
    assert!(decode(&reg, &Shape::Named(0), &dup, &mut state).is_err());
    assert_eq!(state.deserialized, vec![1]);
    let mut state = Recorder::new();
    let unknown = obj(vec![("Nope", Wire::Int(1))]);
    assert!(decode(&reg, &Shape::Named(1), &unknown, &mut state).is_err());
    assert!(state.deserialized.is_empty());
    let mut state = Recorder::new();
    let pair = Shape::Pair(Box::new(Shape::Counted), Box::new(Shape::Counted));
    let bad = Wire::Array(vec![Wire::Int(1), Wire::Str(s("x")), Wire::Int(3)]);
    assert_eq!(decode(&reg, &pair, &bad, &mut state), Err(DecodeError::InvalidType));
    assert_eq!(state.deserialized, vec![1]);
    let mut state = Recorder::new();
    let list = Shape::List(Box::new(Shape::Counted));
    let bad = Wire::Array(vec![Wire::Int(4), Wire::Int(5), Wire::Null, Wire::Int(6)]);
    assert_eq!(decode(&reg, &list, &bad, &mut state), Err(DecodeError::InvalidType));
    assert_eq!(state.deserialized, vec![4, 5]);
}

#[test]
fn pairs_are_two_element_arrays() {
    let reg: Vec<TypeDecl> = vec![];
    let shape = Shape::Pair(Box::new(Shape::Counted), Box::new(Shape::Int));
    let v = Value::List(vec![Value::Int(1), Value::Int(2)]);
    let mut state = Recorder::new();
    let w = encode(&reg, &shape, &v, &mut state);
    assert_eq!(w, Wire::Array(vec![Wire::Int(1), Wire::Int(2)]));
    assert_eq!(state.serialized, vec![1]);
    assert_eq!(decode(&reg, &shape, &w, &mut state), Ok(v));
    assert_eq!(decode(&reg, &shape, &Wire::Array(vec![]), &mut state), Err(DecodeError::InvalidLength(0)));
    assert_eq!(
        decode(&reg, &shape, &Wire::Array(vec![Wire::Int(1)]), &mut state),
        Err(DecodeError::InvalidLength(1))
    );
    let long = Wire::Array(vec![Wire::Int(1), Wire::Int(2), Wire::Int(3)]);
    assert_eq!(decode(&reg, &shape, &long, &mut state), Err(DecodeError::InvalidLength(2)));
    let plain = Shape::Pair(Box::new(Shape::Plain), Box::new(Shape::Phantom));
    let pv = Value::List(vec![Value::Int(4), Value::Unit]);
    let pw = encode_plain(&plain, &pv);
    assert_eq!(pw, Wire::Array(vec![Wire::Int(4), Wire::Null]));
    assert_eq!(decode_plain(&plain, &pw), Ok(pv));
}

#[test]
fn defaults_are_stateful_and_empty() {
    let fa = FieldAttrs::default();
    assert_eq!(fa.rename, None);
    assert!(!fa.skip);
    assert_eq!(fa.mode, ItemMode::Stateful);
    assert_eq!(fa.with, None);
    assert_eq!(VariantAttrs::default().mode(), ItemMode::Stateful);
    assert_eq!(ItemMode::default(), ItemMode::Stateful);
}

#[test]
fn value_implements_the_state_traits() {
    let reg = vec![example_decl()];
    let v = Value::Record(vec![Value::Int(8), Value::Int(9)]);
    let mut state = Recorder::new();
    let w = v.serialize_state(&reg, &Shape::Named(0), &mut state);
    assert_eq!(w, obj(vec![("first", Wire::Int(8)), ("second", Wire::Int(9))]));
    let back = <Value as DeserializeState>::deserialize_state(&reg, &Shape::Named(0), &w, &mut state);
    assert_eq!(back, Ok(v));
    assert_eq!(state.serialized, vec![8, 9]);
    assert_eq!(state.deserialized, vec![8, 9]);
}

#[test]
fn conformance_is_checked() {
    let reg = vec![example_decl(), action_decl()];
    assert!(value_conforms(&reg, &Shape::Named(0), &Value::Record(vec![Value::Int(1), Value::Int(2)])));
    assert!(!value_conforms(&reg, &Shape::Named(0), &Value::Record(vec![Value::Int(1)])));
    assert!(!value_conforms(&reg, &Shape::Named(1), &Value::Variant(2, vec![])));
    assert!(value_conforms(&reg, &Shape::Named(1), &Value::Variant(1, vec![Value::Int(3)])));
    assert!(!value_conforms(&reg, &Shape::Named(7), &Value::Unit));
}
