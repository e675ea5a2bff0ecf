//! The metadata of one field, and how the field's descriptor is made of it.

use crate::betterproto_interop::error::{InteropError, InteropErrorView, InteropResult};
use crate::betterproto_interop::message_meta::{
    declared_class, list_field, lookup, BetterprotoMessageMeta, DeclaredClass, MessageMetaView,
};
use crate::descriptors::{
    ElementKind, FieldDescriptor, FieldKind, FieldView, MapValueKind, ScalarKind,
};
use vstd::prelude::*;
use vstd::string::StringExecFns;

verus! {

/// What a class declares of one field: its number, the name of its wire
/// type, for a map the names of the key's and the value's types, and for a
/// nullable scalar the name of the type that it wraps.
#[derive(Debug, PartialEq)]
pub struct BetterprotoFieldMeta {
    pub number: u32,
    pub proto_type: String,
    pub map_types: Option<(String, String)>,
    pub wraps: Option<String>,
}

/// The metadata of a field as a mathematical value.
pub struct FieldMetaView {
    pub number: u32,
    pub proto_type: Seq<char>,
    pub map_types: Option<(Seq<char>, Seq<char>)>,
    pub wraps: Option<Seq<char>>,
}

impl View for BetterprotoFieldMeta {
    type V = FieldMetaView;

    open spec fn view(&self) -> FieldMetaView {
        FieldMetaView {
            number: self.number,
            proto_type: self.proto_type@,
            map_types: match self.map_types {
                Some((k, v)) => Some((k@, v@)),
                None => None,
            },
            wraps: match self.wraps {
                Some(w) => Some(w@),
                None => None,
            },
        }
    }
}

/// The scalar kind that a type name stands for.
pub open spec fn scalar_kind_named(name: Seq<char>) -> Option<ScalarKind> {
    if name == "bool"@ {
        Some(ScalarKind::Bool)
    } else if name == "int32"@ {
        Some(ScalarKind::Int32)
    } else if name == "int64"@ {
        Some(ScalarKind::Int64)
    } else if name == "uint32"@ {
        Some(ScalarKind::UInt32)
    } else if name == "uint64"@ {
        Some(ScalarKind::UInt64)
    } else if name == "float"@ {
        Some(ScalarKind::Float)
    } else if name == "double"@ {
        Some(ScalarKind::Double)
    } else if name == "string"@ {
        Some(ScalarKind::String)
    } else if name == "bytes"@ {
        Some(ScalarKind::Bytes)
    } else {
        None
    }
}

/// The scalar kind that a type name stands for as the key of a map: a map is
/// keyed by integers, booleans or strings.
pub open spec fn key_kind_named(name: Seq<char>) -> Option<ScalarKind> {
    match scalar_kind_named(name) {
        Some(ScalarKind::Float) => None,
        Some(ScalarKind::Double) => None,
        Some(ScalarKind::Bytes) => None,
        other => other,
    }
}

/// The kind of a map's values whose type has the given name.
pub open spec fn map_value_kind_of(meta: MessageMetaView, name: Seq<char>, type_text: Seq<char>)
    -> Result<MapValueKind, InteropErrorView> {
    if type_text == "message"@ {
        match declared_class(meta, name) {
            Ok(DeclaredClass::Message(id)) => Ok(MapValueKind::Message(id)),
            Ok(_) => Err(InteropErrorView::UnsupportedValueType(type_text)),
            Err(e) => Err(e),
        }
    } else if type_text == "enum"@ {
        Ok(MapValueKind::Enum)
    } else {
        match scalar_kind_named(type_text) {
            Some(kind) => Ok(MapValueKind::Scalar(kind)),
            None => Err(InteropErrorView::UnsupportedValueType(type_text)),
        }
    }
}

/// The kind of one value of a field.
///
/// A map gives the kind of its entries, or `IncompleteMetadata` where the
/// names of the key's and the value's types are missing and
/// `UnsupportedKeyType` where the key's type cannot key a map. A message gives
/// a nullable scalar where it wraps a type, `UnsupportedWrappedType` where that
/// type is no scalar, and otherwise what the declared class says. An
/// enumeration needs a declared class. Any other type name is that of a
/// scalar, or fails with `UnsupportedValueType`.
pub open spec fn element_kind_of(meta: MessageMetaView, name: Seq<char>, field: FieldMetaView)
    -> Result<ElementKind, InteropErrorView> {
    if field.proto_type == "map"@ {
        match field.map_types {
            Some((key_type, value_type)) => match key_kind_named(key_type) {
                Some(key) => match map_value_kind_of(meta, name, value_type) {
                    Ok(value) => Ok(ElementKind::MapEntry(key, value)),
                    Err(e) => Err(e),
                },
                None => Err(InteropErrorView::UnsupportedKeyType(key_type)),
            },
            None => Err(InteropErrorView::IncompleteMetadata),
        }
    } else if field.proto_type == "message"@ {
        match field.wraps {
            Some(wrapped) => match scalar_kind_named(wrapped) {
                Some(kind) => Ok(ElementKind::Wrapped(kind)),
                None => Err(InteropErrorView::UnsupportedWrappedType(wrapped)),
            },
            None => match declared_class(meta, name) {
                Ok(DeclaredClass::Message(id)) => Ok(ElementKind::Message(id)),
                Ok(DeclaredClass::Duration) => Ok(ElementKind::Duration),
                Ok(DeclaredClass::Timestamp) => Ok(ElementKind::Timestamp),
                Ok(DeclaredClass::Enum) => Err(
                    InteropErrorView::UnsupportedValueType(field.proto_type),
                ),
                Err(e) => Err(e),
            },
        }
    } else if field.proto_type == "enum"@ {
        match declared_class(meta, name) {
            Ok(_) => Ok(ElementKind::Enum),
            Err(e) => Err(e),
        }
    } else {
        match scalar_kind_named(field.proto_type) {
            Some(kind) => Ok(ElementKind::Scalar(kind)),
            None => Err(InteropErrorView::UnsupportedValueType(field.proto_type)),
        }
    }
}

/// The descriptor of a field: repeated where the field's default-value
/// generator makes a list or the field is a map, single-valued otherwise, and
/// then with the oneof group that the metadata names for it.
pub open spec fn field_view_of(meta: MessageMetaView, name: Seq<char>, field: FieldMetaView)
    -> Result<FieldView, InteropErrorView> {
    match list_field(meta, name) {
        Ok(is_list) => match element_kind_of(meta, name, field) {
            Ok(kind) => if is_list || kind is MapEntry {
                Ok(
                    FieldView {
                        number: field.number,
                        name,
                        kind: FieldKind::Repeated(kind),
                        oneof_group: None,
                    },
                )
            } else {
                Ok(
                    FieldView {
                        number: field.number,
                        name,
                        kind: FieldKind::Single(kind),
                        oneof_group: lookup(meta.oneof_group_by_field, name),
                    },
                )
            },
            Err(e) => Err(e),
        },
        Err(e) => Err(e),
    }
}

/// In the descriptor of a field only a single-valued field belongs to a
/// oneof group, and the field has the number that the metadata gives it.
pub proof fn lemma_field_view_of(meta: MessageMetaView, name: Seq<char>, field: FieldMetaView)
    ensures
        field_view_of(meta, name, field) matches Ok(view) ==> (view.oneof_group is Some
            ==> view.kind is Single) && view.number == field.number,
{
}

/// Whether a string is the given text.
pub fn text_is(s: &String, text: &str) -> (r: bool)
    ensures
        r == (s@ == text@),
{
    let other = String::from_str(text);
    *s == other
}

/// The scalar kind that a type name stands for.
pub fn scalar_kind_of_name(name: &String) -> (r: Option<ScalarKind>)
    ensures
        r == scalar_kind_named(name@),
{
    if text_is(name, "bool") {
        Some(ScalarKind::Bool)
    } else if text_is(name, "int32") {
        Some(ScalarKind::Int32)
    } else if text_is(name, "int64") {
        Some(ScalarKind::Int64)
    } else if text_is(name, "uint32") {
        Some(ScalarKind::UInt32)
    } else if text_is(name, "uint64") {
        Some(ScalarKind::UInt64)
    } else if text_is(name, "float") {
        Some(ScalarKind::Float)
    } else if text_is(name, "double") {
        Some(ScalarKind::Double)
    } else if text_is(name, "string") {
        Some(ScalarKind::String)
    } else if text_is(name, "bytes") {
        Some(ScalarKind::Bytes)
    } else {
        None
    }
}

impl BetterprotoFieldMeta {
    /// The kind of a map's values whose type has the given name.
    fn map_value_kind(name: &String, type_text: &String, meta: &BetterprotoMessageMeta) -> (r:
        InteropResult<MapValueKind>)
        ensures
            match r {
                Ok(kind) => map_value_kind_of(meta@, name@, type_text@) == Ok::<
                    MapValueKind,
                    InteropErrorView,
                >(kind),
                Err(e) => map_value_kind_of(meta@, name@, type_text@) == Err::<
                    MapValueKind,
                    InteropErrorView,
                >(e@),
            },
    {
        if text_is(type_text, "message") {
            match meta.get_class(name) {
                Ok(DeclaredClass::Message(id)) => Ok(MapValueKind::Message(id)),
                Ok(_) => Err(InteropError::UnsupportedValueType(type_text.clone())),
                Err(e) => Err(e),
            }
        } else if text_is(type_text, "enum") {
            Ok(MapValueKind::Enum)
        } else {
            match scalar_kind_of_name(type_text) {
                Some(kind) => Ok(MapValueKind::Scalar(kind)),
                None => Err(InteropError::UnsupportedValueType(type_text.clone())),
            }
        }
    }

    /// The kind of one value of the field.
    pub fn element_kind(&self, name: &String, meta: &BetterprotoMessageMeta) -> (r: InteropResult<
        ElementKind,
    >)
        ensures
            match r {
                Ok(kind) => element_kind_of(meta@, name@, self@) == Ok::<
                    ElementKind,
                    InteropErrorView,
                >(kind),
                Err(e) => element_kind_of(meta@, name@, self@) == Err::<
                    ElementKind,
                    InteropErrorView,
                >(e@),
            },
    {
        if text_is(&self.proto_type, "map") {
            match &self.map_types {
                Some((key_type, value_type)) => {
                    let key = match scalar_kind_of_name(key_type) {
                        Some(ScalarKind::Float) => None,
                        Some(ScalarKind::Double) => None,
                        Some(ScalarKind::Bytes) => None,
                        other => other,
                    };
                    match key {
                        Some(key) => match Self::map_value_kind(name, value_type, meta) {
                            Ok(value) => Ok(ElementKind::MapEntry(key, value)),
                            Err(e) => Err(e),
                        },
                        None => Err(InteropError::UnsupportedKeyType(key_type.clone())),
                    }
                },
                None => Err(InteropError::IncompleteMetadata),
            }
        } else if text_is(&self.proto_type, "message") {
            match &self.wraps {
                Some(wrapped) => match scalar_kind_of_name(wrapped) {
                    Some(kind) => Ok(ElementKind::Wrapped(kind)),
                    None => Err(InteropError::UnsupportedWrappedType(wrapped.clone())),
                },
                None => match meta.get_class(name) {
                    Ok(DeclaredClass::Message(id)) => Ok(ElementKind::Message(id)),
                    Ok(DeclaredClass::Duration) => Ok(ElementKind::Duration),
                    Ok(DeclaredClass::Timestamp) => Ok(ElementKind::Timestamp),
                    Ok(DeclaredClass::Enum) => Err(
                        InteropError::UnsupportedValueType(self.proto_type.clone()),
                    ),
                    Err(e) => Err(e),
                },
            }
        } else if text_is(&self.proto_type, "enum") {
            match meta.get_class(name) {
                Ok(_) => Ok(ElementKind::Enum),
                Err(e) => Err(e),
            }
        } else {
            match scalar_kind_of_name(&self.proto_type) {
                Some(kind) => Ok(ElementKind::Scalar(kind)),
                None => Err(InteropError::UnsupportedValueType(self.proto_type.clone())),
            }
        }
    }

    /// The descriptor of the field with the given name in a class with the
    /// given metadata.
    pub fn to_descriptor(&self, name: &String, meta: &BetterprotoMessageMeta) -> (r:
        InteropResult<FieldDescriptor>)
        ensures
            match r {
                Ok(field) => field_view_of(meta@, name@, self@) == Ok::<
                    FieldView,
                    InteropErrorView,
                >(field@),
                Err(e) => field_view_of(meta@, name@, self@) == Err::<FieldView, InteropErrorView>(
                    e@,
                ),
            },
    {
        let is_list = match meta.is_list_field(name) {
            Ok(is_list) => is_list,
            Err(e) => {
                return Err(e);
            },
        };
        let kind = match self.element_kind(name, meta) {
            Ok(kind) => kind,
            Err(e) => {
                return Err(e);
            },
        };
        let is_map = match kind {
            ElementKind::MapEntry(_, _) => true,
            _ => false,
        };
        if is_list || is_map {
            Ok(
                FieldDescriptor {
                    number: self.number,
                    name: name.clone(),
                    kind: FieldKind::Repeated(kind),
                    oneof_group: None,
                },
            )
        } else {
            Ok(
                FieldDescriptor {
                    number: self.number,
                    name: name.clone(),
                    kind: FieldKind::Single(kind),
                    oneof_group: meta.get_group(name),
                },
            )
        }
    }

    /// The descriptor of the field, as `to_descriptor` makes it.
    pub fn into_descriptor(self, name: String, meta: &BetterprotoMessageMeta) -> (r:
        InteropResult<FieldDescriptor>)
        ensures
            match r {
                Ok(field) => field_view_of(meta@, name@, self@) == Ok::<
                    FieldView,
                    InteropErrorView,
                >(field@),
                Err(e) => field_view_of(meta@, name@, self@) == Err::<FieldView, InteropErrorView>(
                    e@,
                ),
            },
    {
        self.to_descriptor(&name, meta)
    }
}

} // verus!
