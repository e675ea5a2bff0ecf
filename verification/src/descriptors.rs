//! The schema of a message class: one descriptor per field, in ascending
//! order of field number.

use crate::wire::{MAX_FIELD_NUMBER, MIN_FIELD_NUMBER};
use vstd::prelude::*;

verus! {

/// The scalar types that a field can hold.
#[derive(Clone, Copy, Debug, PartialEq, Eq, Structural)]
pub enum ScalarKind {
    Bool,
    Int32,
    Int64,
    UInt32,
    UInt64,
    Float,
    Double,
    String,
    Bytes,
}

/// What the value of a map entry is. A message is named by the position of
/// its class in the schema.
#[derive(Clone, Copy, Debug, PartialEq, Eq, Structural)]
pub enum MapValueKind {
    Scalar(ScalarKind),
    Enum,
    Message(usize),
}

/// What one value of a field is. A message is named by the position of its
/// class in the schema.
#[derive(Clone, Copy, Debug, PartialEq, Eq, Structural)]
pub enum ElementKind {
    Scalar(ScalarKind),
    Enum,
    Message(usize),
    /// A nullable scalar: on the wire a message whose field 1 is the scalar.
    Wrapped(ScalarKind),
    Duration,
    Timestamp,
    /// One entry of a map: on the wire a message whose field 1 is the key and
    /// whose field 2 is the value. A map is a repeated field of entries.
    MapEntry(ScalarKind, MapValueKind),
}

impl MapValueKind {
    /// The kind of a map's values as the kind of a field's value.
    pub open spec fn element(self) -> ElementKind {
        match self {
            MapValueKind::Scalar(k) => ElementKind::Scalar(k),
            MapValueKind::Enum => ElementKind::Enum,
            MapValueKind::Message(id) => ElementKind::Message(id),
        }
    }

    /// The kind of a map's values as the kind of a field's value.
    pub fn to_element(self) -> (r: ElementKind)
        ensures
            r == self.element(),
    {
        match self {
            MapValueKind::Scalar(k) => ElementKind::Scalar(k),
            MapValueKind::Enum => ElementKind::Enum,
            MapValueKind::Message(id) => ElementKind::Message(id),
        }
    }
}

/// What a field holds: one value, or a list of values.
#[derive(Clone, Copy, Debug, PartialEq, Eq, Structural)]
pub enum FieldKind {
    Single(ElementKind),
    Repeated(ElementKind),
}

/// The schema of one field.
#[derive(Debug, PartialEq)]
pub struct FieldDescriptor {
    pub number: u32,
    pub name: String,
    pub kind: FieldKind,
    pub oneof_group: Option<String>,
}

/// A field descriptor as a mathematical value.
pub struct FieldView {
    pub number: u32,
    pub name: Seq<char>,
    pub kind: FieldKind,
    pub oneof_group: Option<Seq<char>>,
}

impl View for FieldDescriptor {
    type V = FieldView;

    open spec fn view(&self) -> FieldView {
        FieldView {
            number: self.number,
            name: self.name@,
            kind: self.kind,
            oneof_group: match self.oneof_group {
                Some(g) => Some(g@),
                None => None,
            },
        }
    }
}

/// The schema of a message class: its fields, each under its number.
#[derive(Debug, PartialEq)]
pub struct MessageDescriptor {
    pub fields: Vec<(u32, FieldDescriptor)>,
}

impl View for MessageDescriptor {
    type V = Seq<FieldView>;

    open spec fn view(&self) -> Seq<FieldView> {
        Seq::new(self.fields@.len(), |i: int| self.fields@[i].1@)
    }
}

/// The descriptors of all message classes that may refer to one another; a
/// field of kind `Message(i)` holds instances of the class at position `i`.
#[derive(Debug, PartialEq)]
pub struct Schema {
    pub messages: Vec<MessageDescriptor>,
}

impl View for Schema {
    type V = Seq<Seq<FieldView>>;

    open spec fn view(&self) -> Seq<Seq<FieldView>> {
        Seq::new(self.messages@.len(), |i: int| self.messages@[i]@)
    }
}

/// Whether a field can be absent as a value of its own: a member of a oneof
/// group, or a field that holds a message, a nullable scalar or a temporal
/// value.
pub open spec fn nullable(field: FieldView) -> bool {
    match field.kind {
        FieldKind::Single(ElementKind::Scalar(_)) => field.oneof_group is Some,
        FieldKind::Single(ElementKind::Enum) => field.oneof_group is Some,
        FieldKind::Single(_) => true,
        FieldKind::Repeated(_) => false,
    }
}

/// A well-formed message descriptor: field numbers are in range and strictly
/// ascending, hence unique, and only single-valued fields belong to a oneof
/// group.
pub open spec fn descriptor_wf(desc: Seq<FieldView>) -> bool {
    &&& forall|i: int|
        0 <= i < desc.len() ==> MIN_FIELD_NUMBER <= (#[trigger] desc[i]).number
            <= MAX_FIELD_NUMBER
    &&& forall|i: int, j: int|
        0 <= i < j < desc.len() ==> (#[trigger] desc[i]).number < (#[trigger] desc[j]).number
    &&& forall|i: int|
        0 <= i < desc.len() && (#[trigger] desc[i]).oneof_group is Some
            ==> desc[i].kind is Single
}

/// Whether every message that a descriptor names is in the schema.
pub open spec fn references_resolve(schema: Seq<Seq<FieldView>>, desc: Seq<FieldView>) -> bool {
    forall|i: int| 0 <= i < desc.len() ==> field_resolves(schema, #[trigger] desc[i])
}

/// Whether the message that a field names, if it names one, is in the
/// schema.
pub open spec fn field_resolves(schema: Seq<Seq<FieldView>>, field: FieldView) -> bool {
    match field.kind {
        FieldKind::Single(kind) => kind_resolves(schema, kind),
        FieldKind::Repeated(kind) => kind_resolves(schema, kind),
    }
}

/// Whether the message that a kind names, if it names one, is in the schema.
pub open spec fn kind_resolves(schema: Seq<Seq<FieldView>>, kind: ElementKind) -> bool {
    match kind {
        ElementKind::Message(id) => id < schema.len(),
        ElementKind::MapEntry(_, MapValueKind::Message(id)) => id < schema.len(),
        _ => true,
    }
}

/// A descriptor that is well-formed and names only messages of the schema.
pub open spec fn descriptor_fits(schema: Seq<Seq<FieldView>>, desc: Seq<FieldView>) -> bool {
    descriptor_wf(desc) && references_resolve(schema, desc)
}

/// A well-formed schema: each of its descriptors fits it.
pub open spec fn schema_wf(schema: Seq<Seq<FieldView>>) -> bool {
    forall|i: int| 0 <= i < schema.len() ==> descriptor_fits(schema, #[trigger] schema[i])
}

impl MessageDescriptor {
    /// Whether the number stored beside each field is that field's own, and
    /// the descriptor is well-formed.
    pub open spec fn well_formed(&self) -> bool {
        &&& forall|i: int|
            0 <= i < self.fields@.len() ==> (#[trigger] self.fields@[i]).0
                == self.fields@[i].1.number
        &&& descriptor_wf(self@)
    }
}

impl Schema {
    /// Whether each descriptor is well-formed and names only messages of this
    /// schema.
    pub open spec fn well_formed(&self) -> bool {
        &&& forall|i: int|
            0 <= i < self.messages@.len() ==> (#[trigger] self.messages@[i]).well_formed()
        &&& schema_wf(self@)
    }
}

/// The position of the first field with the given number from `from` on.
pub open spec fn find_field_from(desc: Seq<FieldView>, number: u32, from: int) -> Option<int>
    decreases desc.len() - from,
{
    if from < 0 || from >= desc.len() {
        None
    } else if desc[from].number == number {
        Some(from)
    } else {
        find_field_from(desc, number, from + 1)
    }
}

/// The position of the field with the given number.
pub open spec fn find_field(desc: Seq<FieldView>, number: u32) -> Option<int> {
    find_field_from(desc, number, 0)
}

/// What `find_field_from` finds is a field with that number at or after
/// `from`, and where it finds none, no field from `from` on has the number.
pub proof fn lemma_find_field_from(desc: Seq<FieldView>, number: u32, from: int)
    requires
        0 <= from,
    ensures
        match find_field_from(desc, number, from) {
            Some(i) => from <= i < desc.len() && desc[i].number == number,
            None => forall|j: int| from <= j < desc.len() ==> (#[trigger] desc[j]).number != number,
        },
    decreases desc.len() - from,
{
    if from < desc.len() && desc[from].number != number {
        lemma_find_field_from(desc, number, from + 1);
    }
}

/// In a well-formed descriptor a field is found under its own number.
pub proof fn lemma_find_field_unique(desc: Seq<FieldView>, i: int)
    requires
        descriptor_wf(desc),
        0 <= i < desc.len(),
    ensures
        find_field(desc, desc[i].number) == Some(i),
{
    lemma_find_field_from(desc, desc[i].number, 0);
}

impl MessageDescriptor {
    /// The position of the field with the given number, if there is one.
    pub fn find(&self, number: u32) -> (r: Option<usize>)
        ensures
            match r {
                Some(i) => find_field(self@, number) == Some(i as int) && i < self.fields@.len(),
                None => find_field(self@, number) is None,
            },
    {
        let mut i: usize = 0;
        while i < self.fields.len()
            invariant
                i <= self.fields@.len(),
                self@.len() == self.fields@.len(),
                find_field(self@, number) == find_field_from(self@, number, i as int),
            decreases self.fields@.len() - i,
        {
            if self.fields[i].1.number == number {
                return Some(i);
            }
            i += 1;
        }
        None
    }
}

impl FieldDescriptor {
    /// A copy of this descriptor.
    pub fn duplicate(&self) -> (r: FieldDescriptor)
        ensures
            r@ == self@,
    {
        FieldDescriptor {
            number: self.number,
            name: self.name.clone(),
            kind: self.kind,
            oneof_group: match &self.oneof_group {
                Some(group) => Some(group.clone()),
                None => None,
            },
        }
    }
}

impl MessageDescriptor {
    /// A copy of this descriptor.
    pub fn duplicate(&self) -> (r: MessageDescriptor)
        ensures
            r@ == self@,
            self.well_formed() ==> r.well_formed(),
    {
        let mut fields: Vec<(u32, FieldDescriptor)> = Vec::new();
        let mut i: usize = 0;
        while i < self.fields.len()
            invariant
                i <= self.fields@.len(),
                fields@.len() == i,
                forall|j: int|
                    0 <= j < i ==> (#[trigger] fields@[j]).0 == self.fields@[j].0 && fields@[j].1@
                        == self.fields@[j].1@,
            decreases self.fields@.len() - i,
        {
            fields.push((self.fields[i].0, self.fields[i].1.duplicate()));
            i += 1;
        }
        let r = MessageDescriptor { fields };
        assert(r@ =~= self@);
        r
    }
}

/// Whether the message that a kind names, if it names one, is among the
/// first `classes` of a schema.
pub fn kind_resolves_within(kind: ElementKind, classes: usize) -> (r: bool)
    ensures
        forall|schema: Seq<Seq<FieldView>>|
            schema.len() == classes ==> r == kind_resolves(schema, kind),
{
    match kind {
        ElementKind::Message(id) => id < classes,
        ElementKind::MapEntry(_, MapValueKind::Message(id)) => id < classes,
        _ => true,
    }
}

impl MessageDescriptor {
    /// Whether this descriptor is well-formed.
    pub fn is_well_formed(&self) -> (r: bool)
        ensures
            r == self.well_formed(),
    {
        let n = self.fields.len();
        let mut i: usize = 0;
        while i < n
            invariant
                i <= n,
                n == self.fields@.len(),
                self@.len() == n,
                forall|k: int|
                    0 <= k < i ==> {
                        &&& (#[trigger] self.fields@[k]).0 == self.fields@[k].1.number
                        &&& MIN_FIELD_NUMBER <= self.fields@[k].1.number <= MAX_FIELD_NUMBER
                        &&& (self.fields@[k].1.oneof_group is Some ==> self.fields@[k].1.kind
                            is Single)
                    },
                forall|a: int, b: int|
                    0 <= a < b < i ==> (#[trigger] self@[a]).number < (#[trigger] self@[b]).number,
            decreases n - i,
        {
            let field = &self.fields[i].1;
            assert(self@[i as int] == field@);
            if self.fields[i].0 != field.number {
                return false;
            }
            if field.number < MIN_FIELD_NUMBER || field.number > MAX_FIELD_NUMBER {
                return false;
            }
            let is_single = match field.kind {
                FieldKind::Single(_) => true,
                FieldKind::Repeated(_) => false,
            };
            if field.oneof_group.is_some() && !is_single {
                return false;
            }
            if i > 0 {
                assert(self@[i - 1] == self.fields@[i - 1].1@);
                if self.fields[i - 1].1.number >= field.number {
                    return false;
                }
                assert forall|a: int| 0 <= a < i implies (#[trigger] self@[a]).number
                    < self@[i as int].number by {
                    if a < i - 1 {
                        assert(self@[a].number < self@[i - 1].number);
                    }
                }
            }
            i += 1;
        }
        assert forall|k: int| 0 <= k < n implies MIN_FIELD_NUMBER <= (#[trigger] self@[k]).number
            <= MAX_FIELD_NUMBER && (self@[k].oneof_group is Some ==> self@[k].kind is Single) by {
            assert(self@[k] == self.fields@[k].1@);
        }
        true
    }

    /// Whether every message that this descriptor names is among the first
    /// `classes` of a schema.
    pub fn resolves_within(&self, classes: usize) -> (r: bool)
        ensures
            forall|schema: Seq<Seq<FieldView>>|
                schema.len() == classes ==> r == references_resolve(schema, self@),
    {
        let n = self.fields.len();
        let mut i: usize = 0;
        while i < n
            invariant
                i <= n,
                n == self.fields@.len(),
                self@.len() == n,
                forall|schema: Seq<Seq<FieldView>>, k: int|
                    schema.len() == classes && 0 <= k < i ==> #[trigger] field_resolves(
                        schema,
                        self@[k],
                    ),
            decreases n - i,
        {
            let kind = match self.fields[i].1.kind {
                FieldKind::Single(kind) => kind,
                FieldKind::Repeated(kind) => kind,
            };
            assert(self@[i as int] == self.fields@[i as int].1@);
            if !kind_resolves_within(kind, classes) {
                assert forall|schema: Seq<Seq<FieldView>>| schema.len() == classes implies
                    !references_resolve(schema, self@) by {
                    assert(!field_resolves(schema, self@[i as int]));
                }
                return false;
            }
            i += 1;
        }
        true
    }
}

impl Schema {
    /// Whether this schema is well-formed.
    pub fn is_well_formed(&self) -> (r: bool)
        ensures
            r == self.well_formed(),
    {
        let n = self.messages.len();
        let mut i: usize = 0;
        while i < n
            invariant
                i <= n,
                n == self.messages@.len(),
                self@.len() == n,
                forall|k: int|
                    0 <= k < i ==> (#[trigger] self.messages@[k]).well_formed()
                        && references_resolve(self@, self.messages@[k]@),
            decreases n - i,
        {
            assert(self@[i as int] == self.messages@[i as int]@);
            if !self.messages[i].is_well_formed() {
                return false;
            }
            if !self.messages[i].resolves_within(n) {
                assert(!descriptor_fits(self@, self@[i as int]));
                return false;
            }
            i += 1;
        }
        assert forall|k: int| 0 <= k < n implies descriptor_fits(self@, #[trigger] self@[k]) by {
            assert(self@[k] == self.messages@[k]@);
        }
        true
    }
}

} // verus!
