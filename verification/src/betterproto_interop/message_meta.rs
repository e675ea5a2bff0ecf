//! The metadata that a message class declares, and how a descriptor is made
//! of it.

use crate::betterproto_interop::error::{InteropError, InteropErrorView, InteropResult};
use crate::betterproto_interop::field_meta::{
    field_view_of, BetterprotoFieldMeta, FieldMetaView,
};
use crate::descriptors::{descriptor_wf, FieldDescriptor, FieldView, MessageDescriptor};
use crate::wire::{MAX_FIELD_NUMBER, MIN_FIELD_NUMBER};
use vstd::prelude::*;
use vstd::string::StringExecFns;

verus! {

/// What a class declares as the type of a field's values, where the field
/// holds messages, enumeration values or temporal values. A message class is
/// named by its position in the schema.
#[derive(Clone, Copy, Debug, PartialEq, Eq, Structural)]
pub enum DeclaredClass {
    Message(usize),
    Enum,
    Duration,
    Timestamp,
}

/// What the default-value generator of a field makes: a list, or anything
/// else.
#[derive(Clone, Copy, Debug, PartialEq, Eq, Structural)]
pub enum DefaultGen {
    List,
    Other,
}

/// The metadata of a message class: four mappings from field names. Within
/// each, the first entry under a name is the one that counts.
#[derive(Debug, PartialEq)]
pub struct BetterprotoMessageMeta {
    pub cls_by_field: Vec<(String, DeclaredClass)>,
    pub meta_by_field_name: Vec<(String, BetterprotoFieldMeta)>,
    pub oneof_group_by_field: Vec<(String, String)>,
    pub default_gen: Vec<(String, DefaultGen)>,
}

/// The metadata of a message class as a mathematical value.
pub struct MessageMetaView {
    pub cls_by_field: Seq<(Seq<char>, DeclaredClass)>,
    pub meta_by_field_name: Seq<(Seq<char>, FieldMetaView)>,
    pub oneof_group_by_field: Seq<(Seq<char>, Seq<char>)>,
    pub default_gen: Seq<(Seq<char>, DefaultGen)>,
}

impl View for BetterprotoMessageMeta {
    type V = MessageMetaView;

    open spec fn view(&self) -> MessageMetaView {
        MessageMetaView {
            cls_by_field: Seq::new(
                self.cls_by_field@.len(),
                |i: int| (self.cls_by_field@[i].0@, self.cls_by_field@[i].1),
            ),
            meta_by_field_name: Seq::new(
                self.meta_by_field_name@.len(),
                |i: int| (self.meta_by_field_name@[i].0@, self.meta_by_field_name@[i].1@),
            ),
            oneof_group_by_field: Seq::new(
                self.oneof_group_by_field@.len(),
                |i: int| (self.oneof_group_by_field@[i].0@, self.oneof_group_by_field@[i].1@),
            ),
            default_gen: Seq::new(
                self.default_gen@.len(),
                |i: int| (self.default_gen@[i].0@, self.default_gen@[i].1),
            ),
        }
    }
}

/// The position of the first entry under `name` from `from` on.
pub open spec fn position_from<V>(entries: Seq<(Seq<char>, V)>, name: Seq<char>, from: int)
    -> Option<int>
    decreases entries.len() - from,
{
    if from < 0 || from >= entries.len() {
        None
    } else if entries[from].0 == name {
        Some(from)
    } else {
        position_from(entries, name, from + 1)
    }
}

/// What a mapping holds under `name`.
pub open spec fn lookup<V>(entries: Seq<(Seq<char>, V)>, name: Seq<char>) -> Option<V> {
    match position_from(entries, name, 0) {
        Some(i) => Some(entries[i].1),
        None => None,
    }
}

/// Whether the field's default-value generator makes a list, or
/// `IncompleteMetadata` where the field has no generator.
pub open spec fn list_field(meta: MessageMetaView, name: Seq<char>) -> Result<
    bool,
    InteropErrorView,
> {
    match lookup(meta.default_gen, name) {
        Some(gen) => Ok(gen == DefaultGen::List),
        None => Err(InteropErrorView::IncompleteMetadata),
    }
}

/// The class that is declared for the field's values, or
/// `IncompleteMetadata` where none is.
pub open spec fn declared_class(meta: MessageMetaView, name: Seq<char>) -> Result<
    DeclaredClass,
    InteropErrorView,
> {
    match lookup(meta.cls_by_field, name) {
        Some(class) => Ok(class),
        None => Err(InteropErrorView::IncompleteMetadata),
    }
}

/// A descriptor with one more field, put where its number belongs;
/// `NoBetterprotoMessage` where the number is out of range or a field of the
/// descriptor has it already.
pub open spec fn inserted(desc: Seq<FieldView>, field: FieldView, at: int) -> Result<
    Seq<FieldView>,
    InteropErrorView,
>
    decreases desc.len() - at,
{
    if !(MIN_FIELD_NUMBER <= field.number <= MAX_FIELD_NUMBER) {
        Err(InteropErrorView::NoBetterprotoMessage)
    } else if at < 0 || at >= desc.len() {
        Ok(desc.push(field))
    } else if desc[at].number == field.number {
        Err(InteropErrorView::NoBetterprotoMessage)
    } else if desc[at].number > field.number {
        Ok(desc.insert(at, field))
    } else {
        inserted(desc, field, at + 1)
    }
}

/// The descriptor of the field that entry `k` of the field metadata
/// declares.
pub open spec fn entry_field(meta: MessageMetaView, k: int) -> Result<FieldView, InteropErrorView> {
    field_view_of(meta, meta.meta_by_field_name[k].0, meta.meta_by_field_name[k].1)
}

/// The descriptor of the first `n` entries of the metadata: the descriptor
/// of each field, in ascending order of field number. The failure of the
/// first entry that has one, otherwise.
pub open spec fn reflected_upto(meta: MessageMetaView, n: nat) -> Result<
    Seq<FieldView>,
    InteropErrorView,
>
    decreases n,
{
    if n == 0 || n > meta.meta_by_field_name.len() {
        Ok(Seq::empty())
    } else {
        match reflected_upto(meta, (n - 1) as nat) {
            Ok(desc) => match field_view_of(
                meta,
                meta.meta_by_field_name[n - 1].0,
                meta.meta_by_field_name[n - 1].1,
            ) {
                Ok(field) => inserted(desc, field, 0),
                Err(e) => Err(e),
            },
            Err(e) => Err(e),
        }
    }
}

/// The descriptor of a class with the given metadata.
pub open spec fn reflected(meta: MessageMetaView) -> Result<Seq<FieldView>, InteropErrorView> {
    reflected_upto(meta, meta.meta_by_field_name.len())
}

/// Whether a descriptor holds a field.
pub open spec fn holds(desc: Seq<FieldView>, field: FieldView) -> bool {
    exists|i: int| 0 <= i < desc.len() && #[trigger] desc[i] == field
}

/// What a descriptor holds at each position after a field was put in at
/// position `at`.
pub proof fn lemma_insert_positions(desc: Seq<FieldView>, field: FieldView, at: int)
    requires
        0 <= at <= desc.len(),
    ensures
        desc.insert(at, field).len() == desc.len() + 1,
        desc.insert(at, field)[at] == field,
        forall|i: int| 0 <= i < at ==> #[trigger] desc.insert(at, field)[i] == desc[i],
        forall|i: int|
            at < i <= desc.len() ==> #[trigger] desc.insert(at, field)[i] == desc[i - 1],
{
}

/// A field that is put where its number belongs keeps the numbers in
/// strictly ascending order.
pub proof fn lemma_insert_ascending(desc: Seq<FieldView>, field: FieldView, at: int)
    requires
        descriptor_wf(desc),
        0 <= at <= desc.len(),
        forall|i: int| 0 <= i < at ==> (#[trigger] desc[i]).number < field.number,
        at < desc.len() ==> field.number < desc[at].number,
    ensures
        forall|i: int, j: int|
            0 <= i < j < desc.len() + 1 ==> (#[trigger] desc.insert(at, field)[i]).number < (
            #[trigger] desc.insert(at, field)[j]).number,
{
    let next = desc.insert(at, field);
    lemma_insert_positions(desc, field, at);
    assert forall|i: int, j: int| 0 <= i < j < desc.len() + 1 implies (#[trigger] next[i]).number
        < (#[trigger] next[j]).number by {
        if j < at {
            assert(next[i] == desc[i] && next[j] == desc[j]);
        } else if j == at {
            assert(next[i] == desc[i]);
        } else if i < at {
            assert(next[i] == desc[i] && next[j] == desc[j - 1]);
            assert(desc[i].number < field.number);
            if j - 1 > at {
                assert(desc[at].number < desc[j - 1].number);
            }
        } else if i == at {
            assert(next[j] == desc[j - 1]);
            if j - 1 > at {
                assert(desc[at].number < desc[j - 1].number);
            }
        } else {
            assert(next[i] == desc[i - 1] && next[j] == desc[j - 1]);
            assert(desc[i - 1].number < desc[j - 1].number);
        }
    }
}

/// A well-formed descriptor with a field put where its number belongs is
/// well-formed, and holds the new field, all that it held, and nothing else.
pub proof fn lemma_insert_wf(desc: Seq<FieldView>, field: FieldView, at: int)
    requires
        descriptor_wf(desc),
        MIN_FIELD_NUMBER <= field.number <= MAX_FIELD_NUMBER,
        field.oneof_group is Some ==> field.kind is Single,
        0 <= at <= desc.len(),
        forall|i: int| 0 <= i < at ==> (#[trigger] desc[i]).number < field.number,
        at < desc.len() ==> field.number < desc[at].number,
    ensures
        descriptor_wf(desc.insert(at, field)),
        holds(desc.insert(at, field), field),
        forall|i: int| 0 <= i < desc.len() ==> holds(desc.insert(at, field), #[trigger] desc[i]),
        forall|i: int|
            0 <= i < desc.len() + 1 ==> (#[trigger] desc.insert(at, field)[i]) == field || holds(
                desc,
                desc.insert(at, field)[i],
            ),
{
    let next = desc.insert(at, field);
    lemma_insert_positions(desc, field, at);
    lemma_insert_ascending(desc, field, at);
    assert forall|i: int| 0 <= i < desc.len() implies holds(next, #[trigger] desc[i]) by {
        if i < at {
            assert(next[i] == desc[i]);
        } else {
            assert(next[i + 1] == desc[i]);
        }
    }
    assert forall|i: int| 0 <= i < next.len() implies (#[trigger] next[i]) == field || holds(
        desc,
        next[i],
    ) by {
        if i < at {
            assert(desc[i] == next[i]);
        } else if i > at {
            assert(desc[i - 1] == next[i]);
        }
    }
    assert forall|i: int| 0 <= i < next.len() implies MIN_FIELD_NUMBER <= (
    #[trigger] next[i]).number <= MAX_FIELD_NUMBER by {
        if i < at {
            assert(next[i] == desc[i]);
        } else if i > at {
            assert(next[i] == desc[i - 1]);
        }
    }
    assert forall|i: int| 0 <= i < next.len() && (#[trigger] next[i]).oneof_group is Some implies
        next[i].kind is Single by {
        if i < at {
            assert(next[i] == desc[i]);
        } else if i > at {
            assert(next[i] == desc[i - 1]);
        }
    }
}

/// A well-formed descriptor with a field inserted is well-formed, one field
/// longer, and holds the new field and all that it held.
pub proof fn lemma_inserted(desc: Seq<FieldView>, field: FieldView, at: int)
    requires
        descriptor_wf(desc),
        field.oneof_group is Some ==> field.kind is Single,
        0 <= at <= desc.len(),
        forall|i: int| 0 <= i < at ==> (#[trigger] desc[i]).number < field.number,
    ensures
        match inserted(desc, field, at) {
            Ok(next) => {
                &&& descriptor_wf(next)
                &&& next.len() == desc.len() + 1
                &&& holds(next, field)
                &&& forall|i: int| 0 <= i < desc.len() ==> holds(next, #[trigger] desc[i])
                &&& forall|i: int|
                    0 <= i < next.len() ==> (#[trigger] next[i]) == field || holds(desc, next[i])
            },
            Err(e) => e == InteropErrorView::NoBetterprotoMessage && (!(MIN_FIELD_NUMBER
                <= field.number <= MAX_FIELD_NUMBER) || exists|i: int|
                0 <= i < desc.len() && (#[trigger] desc[i]).number == field.number),
        },
    decreases desc.len() - at,
{
    if !(MIN_FIELD_NUMBER <= field.number <= MAX_FIELD_NUMBER) {
    } else if at >= desc.len() {
        assert(desc.push(field) =~= desc.insert(at, field));
        lemma_insert_wf(desc, field, at);
    } else if desc[at].number == field.number {
    } else if desc[at].number > field.number {
        lemma_insert_wf(desc, field, at);
    } else {
        lemma_inserted(desc, field, at + 1);
    }
}

/// The descriptor that is made of the first `n` entries is well-formed and
/// holds the descriptor of each of those entries, and nothing else.
pub proof fn lemma_reflected_upto(meta: MessageMetaView, n: nat)
    requires
        n <= meta.meta_by_field_name.len(),
    ensures
        reflected_upto(meta, n) matches Ok(desc) ==> {
            &&& descriptor_wf(desc)
            &&& desc.len() == n
            &&& forall|k: int|
                0 <= k < n ==> (#[trigger] entry_field(meta, k)) is Ok && holds(
                    desc,
                    entry_field(meta, k)->Ok_0,
                )
            &&& forall|i: int|
                0 <= i < desc.len() ==> exists|k: int|
                    0 <= k < n && entry_field(meta, k) == Ok::<FieldView, InteropErrorView>(
                        #[trigger] desc[i],
                    )
        },
    decreases n,
{
    if n > 0 {
        lemma_reflected_upto(meta, (n - 1) as nat);
        match reflected_upto(meta, (n - 1) as nat) {
            Ok(before) => {
                let name = meta.meta_by_field_name[n - 1].0;
                let fm = meta.meta_by_field_name[n - 1].1;
                match entry_field(meta, n - 1) {
                    Ok(field) => {
                        crate::betterproto_interop::field_meta::lemma_field_view_of(
                            meta,
                            name,
                            fm,
                        );
                        lemma_inserted(before, field, 0);
                        match inserted(before, field, 0) {
                            Ok(desc) => {
                                assert forall|k: int| 0 <= k < n implies (#[trigger] entry_field(
                                    meta,
                                    k,
                                )) is Ok && holds(desc, entry_field(meta, k)->Ok_0) by {
                                    if k < n - 1 {
                                        let f = entry_field(meta, k)->Ok_0;
                                        let i = choose|i: int|
                                            0 <= i < before.len() && #[trigger] before[i] == f;
                                        assert(holds(desc, before[i]));
                                    }
                                }
                                assert forall|i: int| 0 <= i < desc.len() implies exists|k: int|
                                    0 <= k < n && entry_field(meta, k) == Ok::<
                                        FieldView,
                                        InteropErrorView,
                                    >(#[trigger] desc[i]) by {
                                    if desc[i] == field {
                                        assert(entry_field(meta, n - 1) == Ok::<
                                            FieldView,
                                            InteropErrorView,
                                        >(desc[i]));
                                    } else {
                                        let j = choose|j: int|
                                            0 <= j < before.len() && #[trigger] before[j]
                                                == desc[i];
                                        let k = choose|k: int|
                                            0 <= k < n - 1 && entry_field(meta, k) == Ok::<
                                                FieldView,
                                                InteropErrorView,
                                            >(before[j]);
                                        assert(0 <= k < n);
                                    }
                                }
                            },
                            Err(_) => {},
                        }
                    },
                    Err(_) => {},
                }
            },
            Err(_) => {},
        }
    }
}

/// The position of the first entry under `name`.
pub fn find_name<V>(entries: &Vec<(String, V)>, name: &String) -> (r: Option<usize>)
    ensures
        match r {
            Some(i) => i < entries@.len() && entries@[i as int].0@ == name@ && forall|j: int|
                0 <= j < i ==> (#[trigger] entries@[j]).0@ != name@,
            None => forall|j: int| 0 <= j < entries@.len() ==> (#[trigger] entries@[j]).0@ != name@,
        },
{
    let mut i: usize = 0;
    while i < entries.len()
        invariant
            i <= entries@.len(),
            forall|j: int| 0 <= j < i ==> (#[trigger] entries@[j]).0@ != name@,
        decreases entries@.len() - i,
    {
        if entries[i].0 == *name {
            return Some(i);
        }
        i += 1;
    }
    None
}

/// `position_from` finds the first entry under the name.
pub proof fn lemma_position_is_first<V>(
    entries: Seq<(Seq<char>, V)>,
    name: Seq<char>,
    from: int,
    i: int,
)
    requires
        0 <= from <= i < entries.len(),
        entries[i].0 == name,
        forall|j: int| from <= j < i ==> (#[trigger] entries[j]).0 != name,
    ensures
        position_from(entries, name, from) == Some(i),
    decreases i - from,
{
    if from < i {
        lemma_position_is_first(entries, name, from + 1, i);
    }
}

/// `position_from` finds nothing where no entry is under the name.
pub proof fn lemma_position_is_none<V>(entries: Seq<(Seq<char>, V)>, name: Seq<char>, from: int)
    requires
        0 <= from,
        forall|j: int| from <= j < entries.len() ==> (#[trigger] entries[j]).0 != name,
    ensures
        position_from(entries, name, from) is None,
    decreases entries.len() - from,
{
    if from < entries.len() {
        lemma_position_is_none(entries, name, from + 1);
    }
}

impl BetterprotoMessageMeta {
    /// Whether the field is repeated: whether its default-value generator
    /// makes a list. Fails with `IncompleteMetadata` where the field has no
    /// generator.
    pub fn is_list_field(&self, field_name: &String) -> (r: InteropResult<bool>)
        ensures
            match r {
                Ok(is_list) => list_field(self@, field_name@) == Ok::<bool, InteropErrorView>(
                    is_list,
                ),
                Err(e) => list_field(self@, field_name@) == Err::<bool, InteropErrorView>(e@),
            },
    {
        match find_name(&self.default_gen, field_name) {
            Some(i) => {
                proof {
                    lemma_position_is_first(self@.default_gen, field_name@, 0, i as int);
                }
                Ok(self.default_gen[i].1 == DefaultGen::List)
            },
            None => {
                proof {
                    lemma_position_is_none(self@.default_gen, field_name@, 0);
                }
                Err(InteropError::IncompleteMetadata)
            },
        }
    }

    /// The class that is declared for the field's values. Fails with
    /// `IncompleteMetadata` where none is.
    pub fn get_class(&self, field_name: &String) -> (r: InteropResult<DeclaredClass>)
        ensures
            match r {
                Ok(class) => declared_class(self@, field_name@) == Ok::<
                    DeclaredClass,
                    InteropErrorView,
                >(class),
                Err(e) => declared_class(self@, field_name@) == Err::<
                    DeclaredClass,
                    InteropErrorView,
                >(e@),
            },
    {
        match find_name(&self.cls_by_field, field_name) {
            Some(i) => {
                proof {
                    lemma_position_is_first(self@.cls_by_field, field_name@, 0, i as int);
                }
                Ok(self.cls_by_field[i].1)
            },
            None => {
                proof {
                    lemma_position_is_none(self@.cls_by_field, field_name@, 0);
                }
                Err(InteropError::IncompleteMetadata)
            },
        }
    }

    /// The name of the oneof group that the field belongs to, if it belongs
    /// to one.
    pub fn get_group(&self, field_name: &String) -> (r: Option<String>)
        ensures
            match r {
                Some(group) => lookup(self@.oneof_group_by_field, field_name@) == Some(group@),
                None => lookup(self@.oneof_group_by_field, field_name@) is None,
            },
    {
        match find_name(&self.oneof_group_by_field, field_name) {
            Some(i) => {
                proof {
                    lemma_position_is_first(self@.oneof_group_by_field, field_name@, 0, i as int);
                }
                Some(self.oneof_group_by_field[i].1.clone())
            },
            None => {
                proof {
                    lemma_position_is_none(self@.oneof_group_by_field, field_name@, 0);
                }
                None
            },
        }
    }

    /// The descriptor of the class: one field descriptor for each entry of
    /// the field metadata, in ascending order of field number.
    ///
    /// Fails with the failure of the first entry whose descriptor cannot be
    /// made, or with `NoBetterprotoMessage` at the first entry whose field
    /// number is out of range or was declared before.
    pub fn to_descriptor(&self) -> (r: InteropResult<MessageDescriptor>)
        ensures
            match r {
                Ok(desc) => reflected(self@) == Ok::<Seq<FieldView>, InteropErrorView>(desc@)
                    && desc.well_formed(),
                Err(e) => reflected(self@) == Err::<Seq<FieldView>, InteropErrorView>(e@),
            },
    {
        let mut fields: Vec<(u32, FieldDescriptor)> = Vec::new();
        let n = self.meta_by_field_name.len();
        let mut k: usize = 0;
        let ghost mut views: Seq<FieldView> = Seq::empty();
        while k < n
            invariant
                k <= n,
                n == self.meta_by_field_name@.len(),
                n == self@.meta_by_field_name.len(),
                reflected_upto(self@, k as nat) == Ok::<Seq<FieldView>, InteropErrorView>(views),
                views.len() == fields@.len(),
                forall|i: int| 0 <= i < fields@.len() ==> (#[trigger] fields@[i]).1@ == views[i],
                forall|i: int|
                    0 <= i < fields@.len() ==> (#[trigger] fields@[i]).0 == fields@[i].1.number,
            decreases n - k,
        {
            let name = &self.meta_by_field_name[k].0;
            let field_meta = &self.meta_by_field_name[k].1;
            assert(self@.meta_by_field_name[k as int] == (name@, field_meta@));
            match field_meta.to_descriptor(name, self) {
                Ok(field) => {
                    match insert_field(&mut fields, field, Ghost(views)) {
                        Ok(()) => {
                            proof {
                                views = inserted(views, field@, 0)->Ok_0;
                            }
                        },
                        Err(e) => {
                            proof {
                                lemma_reflected_fails(self@, (k + 1) as nat, n as nat);
                            }
                            return Err(e);
                        },
                    }
                },
                Err(e) => {
                    proof {
                        lemma_reflected_fails(self@, (k + 1) as nat, n as nat);
                    }
                    return Err(e);
                },
            }
            k += 1;
        }
        let desc = MessageDescriptor { fields };
        proof {
            assert(desc@ =~= views);
            lemma_reflected_upto(self@, n as nat);
        }
        Ok(desc)
    }

    /// The descriptor of the class, as `to_descriptor` makes it.
    pub fn into_descriptor(self) -> (r: InteropResult<MessageDescriptor>)
        ensures
            match r {
                Ok(desc) => reflected(self@) == Ok::<Seq<FieldView>, InteropErrorView>(desc@)
                    && desc.well_formed(),
                Err(e) => reflected(self@) == Err::<Seq<FieldView>, InteropErrorView>(e@),
            },
    {
        self.to_descriptor()
    }
}

/// Once the descriptor of a prefix of the entries cannot be made, that of no
/// longer prefix can, and the failure is the same.
pub proof fn lemma_reflected_fails(meta: MessageMetaView, k: nat, n: nat)
    requires
        k <= n <= meta.meta_by_field_name.len(),
        reflected_upto(meta, k) is Err,
    ensures
        reflected_upto(meta, n) == reflected_upto(meta, k),
    decreases n,
{
    if k < n {
        lemma_reflected_fails(meta, k, (n - 1) as nat);
    }
}

/// Puts a field into a list of fields that is in ascending order of number.
fn insert_field(
    fields: &mut Vec<(u32, FieldDescriptor)>,
    field: FieldDescriptor,
    Ghost(views): Ghost<Seq<FieldView>>,
) -> (r: InteropResult<()>)
    requires
        views.len() == old(fields)@.len(),
        forall|i: int| 0 <= i < old(fields)@.len() ==> (#[trigger] old(fields)@[i]).1@ == views[i],
        forall|i: int|
            0 <= i < old(fields)@.len() ==> (#[trigger] old(fields)@[i]).0 == old(fields)@[i].1.number,
    ensures
        match r {
            Ok(()) => inserted(views, field@, 0) matches Ok(next) && next.len() == final(fields)@.len() && (forall|i: int|
                0 <= i < final(fields)@.len() ==> (#[trigger] final(fields)@[i]).1@ == next[i])
                && (forall|i: int|
                0 <= i < final(fields)@.len() ==> (#[trigger] final(fields)@[i]).0 == final(fields)@[i].1.number),
            Err(e) => inserted(views, field@, 0) == Err::<Seq<FieldView>, InteropErrorView>(e@),
        },
{
    if field.number < MIN_FIELD_NUMBER || field.number > MAX_FIELD_NUMBER {
        return Err(InteropError::NoBetterprotoMessage(String::from_str("field number out of range")));
    }
    let mut at: usize = 0;
    while at < fields.len()
        invariant
            at <= fields@.len(),
            fields@ == old(fields)@,
            views.len() == fields@.len(),
            MIN_FIELD_NUMBER <= field.number <= MAX_FIELD_NUMBER,
            forall|i: int| 0 <= i < fields@.len() ==> (#[trigger] fields@[i]).1@ == views[i],
            forall|i: int|
                0 <= i < fields@.len() ==> (#[trigger] fields@[i]).0 == fields@[i].1.number,
            inserted(views, field@, 0) == inserted(views, field@, at as int),
        decreases fields@.len() - at,
    {
        assert(fields@[at as int].1@ == views[at as int]);
        if fields[at].1.number == field.number {
            return Err(
                InteropError::NoBetterprotoMessage(String::from_str("field number declared twice")),
            );
        }
        if fields[at].1.number > field.number {
            let ghost view = field@;
            fields.insert(at, (field.number, field));
            proof {
                let next = views.insert(at as int, view);
                assert(next.len() == fields@.len());
                assert forall|i: int| 0 <= i < fields@.len() implies (#[trigger] fields@[i]).1@
                    == next[i] by {
                    if i < at {
                        assert(fields@[i] == old(fields)@[i]);
                    } else if i > at {
                        assert(fields@[i] == old(fields)@[i - 1]);
                    }
                }
                assert forall|i: int| 0 <= i < fields@.len() implies (#[trigger] fields@[i]).0
                    == fields@[i].1.number by {
                    if i < at {
                        assert(fields@[i] == old(fields)@[i]);
                    } else if i > at {
                        assert(fields@[i] == old(fields)@[i - 1]);
                    }
                }
            }
            return Ok(());
        }
        at += 1;
    }
    let ghost view = field@;
    fields.push((field.number, field));
    proof {
        let next = views.push(view);
        assert forall|i: int| 0 <= i < fields@.len() implies (#[trigger] fields@[i]).1@
            == next[i] by {
            if i < old(fields)@.len() {
                assert(fields@[i] == old(fields)@[i]);
            }
        }
        assert forall|i: int| 0 <= i < fields@.len() implies (#[trigger] fields@[i]).0
            == fields@[i].1.number by {
            if i < old(fields)@.len() {
                assert(fields@[i] == old(fields)@[i]);
            }
        }
    }
    Ok(())
}

} // verus!
