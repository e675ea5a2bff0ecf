use betterproto_rust_codec::betterproto_interop::field_meta::{scalar_kind_of_name, text_is};
use betterproto_rust_codec::betterproto_interop::message_class::CacheSlot;
use betterproto_rust_codec::betterproto_interop::message_meta::{
    find_name, DeclaredClass, DefaultGen,
};
use betterproto_rust_codec::betterproto_interop::{
    BetterprotoFieldMeta, BetterprotoMessageClass, BetterprotoMessageMeta, InteropError, Value,
};
use betterproto_rust_codec::descriptors::{
    kind_resolves_within, ElementKind, FieldDescriptor, FieldKind, MapValueKind,
    MessageDescriptor, ScalarKind, Schema,
};
use betterproto_rust_codec::encode::EncodeError;

fn plain(number: u32, proto: &str) -> BetterprotoFieldMeta {
    BetterprotoFieldMeta {
        number,
        proto_type: proto.to_string(),
        map_types: None,
        wraps: None,
    }
}

fn sample_meta() -> BetterprotoMessageMeta {
    BetterprotoMessageMeta {
        cls_by_field: vec![
            ("child".to_string(), DeclaredClass::Message(3)),
            ("level".to_string(), DeclaredClass::Enum),
            ("at".to_string(), DeclaredClass::Timestamp),
            ("span".to_string(), DeclaredClass::Duration),
            ("by_name".to_string(), DeclaredClass::Message(4)),
        ],
        meta_by_field_name: vec![
            ("text".to_string(), plain(7, "string")),
            ("count".to_string(), plain(1, "int32")),
            ("child".to_string(), plain(3, "message")),
            ("numbers".to_string(), plain(2, "uint64")),
            ("level".to_string(), plain(9, "enum")),
            ("at".to_string(), plain(5, "message")),
            ("span".to_string(), plain(4, "message")),
            (
                "maybe".to_string(),
                BetterprotoFieldMeta {
                    number: 8,
                    proto_type: "message".to_string(),
                    map_types: None,
                    wraps: Some("bool".to_string()),
                },
            ),
            (
                "by_name".to_string(),
                BetterprotoFieldMeta {
                    number: 6,
                    proto_type: "map".to_string(),
                    map_types: Some(("string".to_string(), "message".to_string())),
                    wraps: None,
                },
            ),
        ],
        oneof_group_by_field: vec![
            ("text".to_string(), "choice".to_string()),
            ("child".to_string(), "choice".to_string()),
            ("numbers".to_string(), "ignored".to_string()),
        ],
        default_gen: vec![
            ("text".to_string(), DefaultGen::Other),
            ("count".to_string(), DefaultGen::Other),
            ("child".to_string(), DefaultGen::Other),
            ("numbers".to_string(), DefaultGen::List),
            ("level".to_string(), DefaultGen::Other),
            ("at".to_string(), DefaultGen::Other),
            ("span".to_string(), DefaultGen::Other),
            ("maybe".to_string(), DefaultGen::Other),
            ("by_name".to_string(), DefaultGen::Other),
        ],
    }
}

fn described(number: u32, name: &str, kind: FieldKind, group: Option<&str>) -> (u32, FieldDescriptor) {
    (
        number,
        FieldDescriptor {
            number,
            name: name.to_string(),
            kind,
            oneof_group: group.map(|g| g.to_string()),
        },
    )
}

fn sample_descriptor() -> MessageDescriptor {
    MessageDescriptor {
        fields: vec![
            described(1, "count", FieldKind::Single(ElementKind::Scalar(ScalarKind::Int32)), None),
            described(2, "numbers", FieldKind::Repeated(ElementKind::Scalar(ScalarKind::UInt64)), None),
            described(3, "child", FieldKind::Single(ElementKind::Message(3)), Some("choice")),
            described(4, "span", FieldKind::Single(ElementKind::Duration), None),
            described(5, "at", FieldKind::Single(ElementKind::Timestamp), None),
            described(
                6,
                "by_name",
                FieldKind::Repeated(ElementKind::MapEntry(ScalarKind::String, MapValueKind::Message(4))),
                None,
            ),
            described(7, "text", FieldKind::Single(ElementKind::Scalar(ScalarKind::String)), Some("choice")),
            described(8, "maybe", FieldKind::Single(ElementKind::Wrapped(ScalarKind::Bool)), None),
            described(9, "level", FieldKind::Single(ElementKind::Enum), None),
        ],
    }
}

fn one_field(name: &str, field: BetterprotoFieldMeta) -> BetterprotoMessageMeta {
    BetterprotoMessageMeta {
        cls_by_field: vec![],
        meta_by_field_name: vec![(name.to_string(), field)],
        oneof_group_by_field: vec![],
        default_gen: vec![(name.to_string(), DefaultGen::Other)],
    }
}

#[test]
fn descriptor_is_in_ascending_order_of_field_number() {
    assert_eq!(sample_meta().to_descriptor(), Ok(sample_descriptor()));
    assert_eq!(sample_meta().into_descriptor(), Ok(sample_descriptor()));
}

#[test]
fn descriptor_of_no_fields_is_empty() {
    let meta = BetterprotoMessageMeta {
        cls_by_field: vec![],
        meta_by_field_name: vec![],
        oneof_group_by_field: vec![],
        default_gen: vec![],
    };
    assert_eq!(meta.into_descriptor(), Ok(MessageDescriptor { fields: vec![] }));
}

#[test]
fn every_scalar_type_name_is_understood() {
    for (name, kind) in [
        ("bool", ScalarKind::Bool),
        ("int32", ScalarKind::Int32),
        ("int64", ScalarKind::Int64),
        ("uint32", ScalarKind::UInt32),
        ("uint64", ScalarKind::UInt64),
        ("float", ScalarKind::Float),
        ("double", ScalarKind::Double),
        ("string", ScalarKind::String),
        ("bytes", ScalarKind::Bytes),
    ] {
        assert_eq!(scalar_kind_of_name(&name.to_string()), Some(kind));
        let desc = one_field("x", plain(1, name)).into_descriptor().unwrap();
        assert_eq!(desc.fields[0].1.kind, FieldKind::Single(ElementKind::Scalar(kind)));
    }
    assert_eq!(scalar_kind_of_name(&"sint32".to_string()), None);
    assert_eq!(scalar_kind_of_name(&"".to_string()), None);
    assert!(text_is(&"map".to_string(), "map"));
    assert!(!text_is(&"map".to_string(), "maps"));
}

#[test]
fn redeclared_field_number_is_refused() {
    let mut meta = sample_meta();
    meta.meta_by_field_name.push(("again".to_string(), plain(4, "int32")));
    meta.default_gen.push(("again".to_string(), DefaultGen::Other));
    assert!(matches!(meta.into_descriptor(), Err(InteropError::NoBetterprotoMessage(_))));
}

#[test]
fn field_number_out_of_range_is_refused() {
    assert!(matches!(
        one_field("x", plain(0, "int32")).into_descriptor(),
        Err(InteropError::NoBetterprotoMessage(_))
    ));
    assert!(matches!(
        one_field("x", plain(1 << 29, "int32")).into_descriptor(),
        Err(InteropError::NoBetterprotoMessage(_))
    ));
    assert!(one_field("x", plain((1 << 29) - 1, "int32")).into_descriptor().is_ok());
}

#[test]
fn field_without_default_generator_is_incomplete() {
    let mut meta = one_field("x", plain(1, "int32"));
    meta.default_gen.clear();
    assert_eq!(meta.is_list_field(&"x".to_string()), Err(InteropError::IncompleteMetadata));
    assert_eq!(meta.into_descriptor(), Err(InteropError::IncompleteMetadata));
}

#[test]
fn message_or_enum_field_without_class_is_incomplete() {
    assert_eq!(
        one_field("m", plain(1, "message")).into_descriptor(),
        Err(InteropError::IncompleteMetadata)
    );
    assert_eq!(
        one_field("e", plain(1, "enum")).into_descriptor(),
        Err(InteropError::IncompleteMetadata)
    );
    let meta = one_field("m", plain(1, "message"));
    assert_eq!(meta.get_class(&"m".to_string()), Err(InteropError::IncompleteMetadata));
    let mut map = plain(1, "map");
    assert_eq!(
        one_field("m", plain(1, "map")).into_descriptor(),
        Err(InteropError::IncompleteMetadata)
    );
    map.map_types = Some(("int32".to_string(), "message".to_string()));
    assert_eq!(one_field("m", map).into_descriptor(), Err(InteropError::IncompleteMetadata));
}

#[test]
fn unknown_type_names_are_unsupported() {
    assert_eq!(
        one_field("x", plain(1, "sint32")).into_descriptor(),
        Err(InteropError::UnsupportedValueType("sint32".to_string()))
    );
    let mut map = plain(1, "map");
    map.map_types = Some(("double".to_string(), "int32".to_string()));
    assert_eq!(
        one_field("x", map).into_descriptor(),
        Err(InteropError::UnsupportedKeyType("double".to_string()))
    );
    let mut map = plain(1, "map");
    map.map_types = Some(("group".to_string(), "int32".to_string()));
    assert_eq!(
        one_field("x", map).into_descriptor(),
        Err(InteropError::UnsupportedKeyType("group".to_string()))
    );
    let mut map = plain(1, "map");
    map.map_types = Some(("int32".to_string(), "fixed32".to_string()));
    assert_eq!(
        one_field("x", map).into_descriptor(),
        Err(InteropError::UnsupportedValueType("fixed32".to_string()))
    );
    let mut wrapper = plain(1, "message");
    wrapper.wraps = Some("message".to_string());
    assert_eq!(
        one_field("x", wrapper).into_descriptor(),
        Err(InteropError::UnsupportedWrappedType("message".to_string()))
    );
    let mut meta = one_field("x", plain(1, "message"));
    meta.cls_by_field.push(("x".to_string(), DeclaredClass::Enum));
    assert_eq!(
        meta.into_descriptor(),
        Err(InteropError::UnsupportedValueType("message".to_string()))
    );
}

#[test]
fn maps_of_scalars_and_enums() {
    let mut map = plain(2, "map");
    map.map_types = Some(("bool".to_string(), "enum".to_string()));
    let desc = one_field("x", map).into_descriptor().unwrap();
    assert_eq!(
        desc.fields[0].1.kind,
        FieldKind::Repeated(ElementKind::MapEntry(ScalarKind::Bool, MapValueKind::Enum))
    );
    let mut map = plain(2, "map");
    map.map_types = Some(("uint64".to_string(), "bytes".to_string()));
    let desc = one_field("x", map).into_descriptor().unwrap();
    assert_eq!(
        desc.fields[0].1.kind,
        FieldKind::Repeated(
            ElementKind::MapEntry(ScalarKind::UInt64, MapValueKind::Scalar(ScalarKind::Bytes))
        )
    );
}

#[test]
fn lookups_take_the_first_entry_under_a_name() {
    let meta = sample_meta();
    assert_eq!(meta.is_list_field(&"numbers".to_string()), Ok(true));
    assert_eq!(meta.is_list_field(&"count".to_string()), Ok(false));
    assert_eq!(meta.is_list_field(&"nowhere".to_string()), Err(InteropError::IncompleteMetadata));
    assert_eq!(meta.get_class(&"child".to_string()), Ok(DeclaredClass::Message(3)));
    assert_eq!(meta.get_class(&"count".to_string()), Err(InteropError::IncompleteMetadata));
    assert_eq!(meta.get_group(&"text".to_string()), Some("choice".to_string()));
    assert_eq!(meta.get_group(&"count".to_string()), None);
    let entries = vec![("a".to_string(), 1), ("b".to_string(), 2), ("a".to_string(), 3)];
    assert_eq!(find_name(&entries, &"a".to_string()), Some(0));
    assert_eq!(find_name(&entries, &"b".to_string()), Some(1));
    assert_eq!(find_name(&entries, &"c".to_string()), None);
}

#[test]
fn field_descriptor_of_one_field() {
    let meta = sample_meta();
    let field = plain(7, "string");
    assert_eq!(
        field.to_descriptor(&"text".to_string(), &meta),
        Ok(described(7, "text", FieldKind::Single(ElementKind::Scalar(ScalarKind::String)), Some("choice")).1)
    );
    assert_eq!(
        field.element_kind(&"text".to_string(), &meta),
        Ok(ElementKind::Scalar(ScalarKind::String))
    );
    assert_eq!(
        plain(2, "uint64").into_descriptor("numbers".to_string(), &meta),
        Ok(described(2, "numbers", FieldKind::Repeated(ElementKind::Scalar(ScalarKind::UInt64)), None).1)
    );
}

#[test]
fn reflecting_twice_gives_the_same_descriptor() {
    let mut class = BetterprotoMessageClass::new(sample_meta());
    assert_eq!(class.slot, CacheSlot::Empty);
    let first = class.descriptor().unwrap();
    assert_eq!(first, sample_descriptor());
    assert_eq!(class.slot, CacheSlot::Descriptor(sample_descriptor()));
    let second = class.descriptor().unwrap();
    assert_eq!(second, first);
    assert_eq!(class.slot, CacheSlot::Descriptor(sample_descriptor()));
    let mut other = BetterprotoMessageClass::new(sample_meta());
    assert_eq!(other.descriptor().unwrap(), first);
}

#[test]
fn descriptor_in_the_slot_is_reused() {
    let stored = MessageDescriptor {
        fields: vec![described(1, "only", FieldKind::Single(ElementKind::Enum), None)],
    };
    let mut class = BetterprotoMessageClass {
        meta: Some(sample_meta()),
        slot: CacheSlot::Descriptor(MessageDescriptor {
            fields: vec![described(1, "only", FieldKind::Single(ElementKind::Enum), None)],
        }),
    };
    assert_eq!(class.descriptor(), Ok(stored));
    assert_eq!(class.meta, Some(sample_meta()));
    let mut bare = BetterprotoMessageClass {
        meta: None,
        slot: CacheSlot::Descriptor(MessageDescriptor { fields: vec![] }),
    };
    assert_eq!(bare.descriptor(), Ok(MessageDescriptor { fields: vec![] }));
}

#[test]
fn slot_that_holds_something_else_is_overwritten() {
    let mut class = BetterprotoMessageClass { meta: Some(sample_meta()), slot: CacheSlot::Other };
    assert_eq!(class.descriptor(), Ok(sample_descriptor()));
    assert_eq!(class.slot, CacheSlot::Descriptor(sample_descriptor()));
}

#[test]
fn class_without_metadata_is_no_message_class() {
    let mut class = BetterprotoMessageClass { meta: None, slot: CacheSlot::Empty };
    assert!(matches!(class.descriptor(), Err(InteropError::NoBetterprotoMessage(_))));
    assert_eq!(class.slot, CacheSlot::Empty);
    assert!(matches!(class.create_instance(), Err(InteropError::NoBetterprotoMessage(_))));
    let mut class = BetterprotoMessageClass { meta: None, slot: CacheSlot::Other };
    assert!(matches!(class.descriptor(), Err(InteropError::NoBetterprotoMessage(_))));
    assert_eq!(class.slot, CacheSlot::Other);
}

#[test]
fn failed_reflection_leaves_the_slot_as_it_was() {
    let mut class = BetterprotoMessageClass::new(one_field("x", plain(1, "sint64")));
    assert_eq!(
        class.descriptor(),
        Err(InteropError::UnsupportedValueType("sint64".to_string()))
    );
    assert_eq!(class.slot, CacheSlot::Empty);
    assert_eq!(
        class.descriptor(),
        Err(InteropError::UnsupportedValueType("sint64".to_string()))
    );
}

#[test]
fn fresh_instance_of_a_class() {
    let class = BetterprotoMessageClass::new(sample_meta());
    let instance = class.create_instance().unwrap();
    assert_eq!(
        instance.values,
        vec![
            Value::Int32(0),
            Value::List(vec![]),
            Value::Null,
            Value::Null,
            Value::Null,
            Value::List(vec![]),
            Value::Null,
            Value::Null,
            Value::Enum(0),
        ]
    );
    assert_eq!(class.slot, CacheSlot::Empty);
    let mut class = class;
    class.descriptor().unwrap();
    assert_eq!(class.create_instance().unwrap(), instance);
}

#[test]
fn descriptors_are_duplicated_field_by_field() {
    let desc = sample_descriptor();
    assert_eq!(desc.duplicate(), sample_descriptor());
    assert_eq!(desc.fields[2].1.duplicate(), sample_descriptor().fields.remove(2).1);
}

#[test]
fn failure_of_reflection_is_carried_by_a_failure_of_encoding() {
    assert_eq!(
        EncodeError::from(InteropError::IncompleteMetadata),
        EncodeError::Interop(InteropError::IncompleteMetadata)
    );
    assert_eq!(
        EncodeError::from(InteropError::UnsupportedKeyType("float".to_string())),
        EncodeError::Interop(InteropError::UnsupportedKeyType("float".to_string()))
    );
}

#[test]
fn well_formed_descriptors_are_told_apart() {
    assert!(sample_descriptor().is_well_formed());
    assert!(MessageDescriptor { fields: vec![] }.is_well_formed());
    let mut unordered = sample_descriptor();
    unordered.fields.swap(0, 1);
    assert!(!unordered.is_well_formed());
    let mut twice = sample_descriptor();
    twice.fields[1].0 = 1;
    twice.fields[1].1.number = 1;
    assert!(!twice.is_well_formed());
    let mut mismatch = sample_descriptor();
    mismatch.fields[0].0 = 100;
    assert!(!mismatch.is_well_formed());
    let mut zero = sample_descriptor();
    zero.fields[0].0 = 0;
    zero.fields[0].1.number = 0;
    assert!(!zero.is_well_formed());
    let mut large = sample_descriptor();
    large.fields[8].0 = 1 << 29;
    large.fields[8].1.number = 1 << 29;
    assert!(!large.is_well_formed());
    let mut grouped_list = sample_descriptor();
    grouped_list.fields[1].1.oneof_group = Some("choice".to_string());
    assert!(!grouped_list.is_well_formed());

    assert!(sample_descriptor().resolves_within(5));
    assert!(!sample_descriptor().resolves_within(4));
    assert!(!sample_descriptor().resolves_within(0));
    assert!(kind_resolves_within(ElementKind::Message(2), 3));
    assert!(!kind_resolves_within(ElementKind::Message(3), 3));
    assert!(kind_resolves_within(ElementKind::Enum, 0));
    assert!(!kind_resolves_within(
        ElementKind::MapEntry(ScalarKind::Int32, MapValueKind::Message(0)),
        0
    ));

    let own = MessageDescriptor {
        fields: vec![described(1, "next", FieldKind::Single(ElementKind::Message(0)), None)],
    };
    assert!(Schema { messages: vec![] }.is_well_formed());
    assert!(Schema { messages: vec![own] }.is_well_formed());
    assert!(!Schema { messages: vec![sample_descriptor()] }.is_well_formed());
    assert!(!Schema { messages: vec![unordered] }.is_well_formed());
}
