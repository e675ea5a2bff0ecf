//! Message instances and the values of their fields.

use crate::well_known_types::{Duration, Timestamp};
use vstd::prelude::*;

verus! {

/// The value of a field on a message instance.
///
/// Floating-point values are held by their IEEE 754 bit patterns, and a map by
/// the list of its entries, each an instance with the key and the value as its
/// two fields.
#[derive(Debug, PartialEq)]
pub enum Value {
    /// No value: an unset member of a oneof group, or an absent message,
    /// nullable scalar or temporal value.
    Null,
    Bool(bool),
    Int32(i32),
    Int64(i64),
    UInt32(u32),
    UInt64(u64),
    Float(u32),
    Double(u64),
    Str(String),
    Bytes(Vec<u8>),
    Enum(i32),
    Duration(Duration),
    Timestamp(Timestamp),
    Message(BetterprotoMessage),
    List(Vec<Value>),
}

/// An instance of a message class: the values of its fields, in the order of
/// the class's descriptor.
#[derive(Debug, PartialEq)]
pub struct BetterprotoMessage {
    pub values: Vec<Value>,
}

/// A value as a mathematical value.
pub enum ValueView {
    Null,
    Bool(bool),
    Int32(i32),
    Int64(i64),
    UInt32(u32),
    UInt64(u64),
    Float(u32),
    Double(u64),
    Str(Seq<char>),
    Bytes(Seq<u8>),
    Enum(i32),
    Duration(Duration),
    Timestamp(Timestamp),
    Message(Seq<ValueView>),
    List(Seq<ValueView>),
}

impl View for Value {
    type V = ValueView;

    open spec fn view(&self) -> ValueView {
        value_view(*self)
    }
}

/// The mathematical value that a value stands for.
pub open spec fn value_view(value: Value) -> ValueView
    decreases value,
{
    match value {
        Value::Null => ValueView::Null,
        Value::Bool(b) => ValueView::Bool(b),
        Value::Int32(v) => ValueView::Int32(v),
        Value::Int64(v) => ValueView::Int64(v),
        Value::UInt32(v) => ValueView::UInt32(v),
        Value::UInt64(v) => ValueView::UInt64(v),
        Value::Float(v) => ValueView::Float(v),
        Value::Double(v) => ValueView::Double(v),
        Value::Str(s) => ValueView::Str(s@),
        Value::Bytes(b) => ValueView::Bytes(b@),
        Value::Enum(v) => ValueView::Enum(v),
        Value::Duration(d) => ValueView::Duration(d),
        Value::Timestamp(t) => ValueView::Timestamp(t),
        Value::Message(m) => ValueView::Message(views_upto(m.values@, m.values@.len())),
        Value::List(items) => ValueView::List(views_upto(items@, items@.len())),
    }
}

/// The views of the first `n` values of a sequence.
pub open spec fn views_upto(values: Seq<Value>, n: nat) -> Seq<ValueView>
    decreases values, n,
{
    if n == 0 || n > values.len() {
        Seq::empty()
    } else {
        views_upto(values, (n - 1) as nat).push(value_view(values[n - 1]))
    }
}

/// `views_upto` holds the view of each of the first `n` values.
pub proof fn lemma_views_upto(values: Seq<Value>, n: nat)
    requires
        n <= values.len(),
    ensures
        views_upto(values, n) == Seq::new(n, |i: int| values[i]@),
    decreases n,
{
    if n > 0 {
        lemma_views_upto(values, (n - 1) as nat);
    }
    assert(views_upto(values, n) =~= Seq::new(n, |i: int| values[i]@));
}

/// The views of a sequence of values.
pub open spec fn values_view(values: Seq<Value>) -> Seq<ValueView> {
    Seq::new(values.len(), |i: int| values[i]@)
}

impl View for BetterprotoMessage {
    type V = Seq<ValueView>;

    open spec fn view(&self) -> Seq<ValueView> {
        values_view(self.values@)
    }
}

/// The view of a message value is made of the views of its fields' values.
pub proof fn lemma_message_view(m: BetterprotoMessage)
    ensures
        Value::Message(m)@ == ValueView::Message(m@),
{
    lemma_views_upto(m.values@, m.values@.len());
    assert(Value::Message(m)@->Message_0 =~= m@);
}

/// The view of a list is made of the views of its items.
pub proof fn lemma_list_view(items: Vec<Value>)
    ensures
        Value::List(items)@ == ValueView::List(values_view(items@)),
{
    lemma_views_upto(items@, items@.len());
    assert(Value::List(items)@->List_0 =~= values_view(items@));
}

} // verus!
