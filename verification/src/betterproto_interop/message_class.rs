//! A message class: what it declares, and the slot in which its descriptor
//! is kept once it was made.

use crate::betterproto_interop::error::{InteropError, InteropErrorView, InteropResult};
use crate::betterproto_interop::message::BetterprotoMessage;
use crate::betterproto_interop::message_meta::{
    reflected, BetterprotoMessageMeta, MessageMetaView,
};
use crate::decode::message::{default_values, default_values_of};
use crate::descriptors::{FieldView, MessageDescriptor};
use vstd::prelude::*;
use vstd::string::StringExecFns;

verus! {

/// What the slot that is reserved on a class for its descriptor holds.
#[derive(Debug, PartialEq)]
pub enum CacheSlot {
    /// Nothing was stored yet.
    Empty,
    /// The descriptor that was made of the class.
    Descriptor(MessageDescriptor),
    /// Something that is no descriptor.
    Other,
}

/// The slot of a class as a mathematical value.
pub enum CacheSlotView {
    Empty,
    Descriptor(Seq<FieldView>),
    Other,
}

impl View for CacheSlot {
    type V = CacheSlotView;

    open spec fn view(&self) -> CacheSlotView {
        match self {
            CacheSlot::Empty => CacheSlotView::Empty,
            CacheSlot::Descriptor(desc) => CacheSlotView::Descriptor(desc@),
            CacheSlot::Other => CacheSlotView::Other,
        }
    }
}

/// A message class of the host: the metadata that its instances carry, where
/// they carry any, and the slot for its descriptor.
#[derive(Debug, PartialEq)]
pub struct BetterprotoMessageClass {
    pub meta: Option<BetterprotoMessageMeta>,
    pub slot: CacheSlot,
}

/// A message class as a mathematical value.
pub struct MessageClassView {
    pub meta: Option<MessageMetaView>,
    pub slot: CacheSlotView,
}

impl View for BetterprotoMessageClass {
    type V = MessageClassView;

    open spec fn view(&self) -> MessageClassView {
        MessageClassView {
            meta: match self.meta {
                Some(meta) => Some(meta@),
                None => None,
            },
            slot: self.slot@,
        }
    }
}

/// The descriptor that a class gives: the one in its slot where there is
/// one, else the one that is made of its metadata, and
/// `NoBetterprotoMessage` where it has no metadata.
pub open spec fn class_descriptor(class: MessageClassView) -> Result<
    Seq<FieldView>,
    InteropErrorView,
> {
    match class.slot {
        CacheSlotView::Descriptor(desc) => Ok(desc),
        _ => match class.meta {
            Some(meta) => reflected(meta),
            None => Err(InteropErrorView::NoBetterprotoMessage),
        },
    }
}

/// The class after it was asked for its descriptor: the descriptor is in the
/// slot where one could be given, and nothing has changed where none could.
pub open spec fn class_after(class: MessageClassView) -> MessageClassView {
    match class_descriptor(class) {
        Ok(desc) => MessageClassView { meta: class.meta, slot: CacheSlotView::Descriptor(desc) },
        Err(_) => class,
    }
}

/// Asking a class for its descriptor a second time gives what the first
/// time gave, and leaves the class as the first time left it; once the slot
/// holds a descriptor, that descriptor is what is given.
pub proof fn theorem_reflection_idempotent(class: MessageClassView)
    ensures
        class_descriptor(class_after(class)) == class_descriptor(class),
        class_after(class_after(class)) == class_after(class),
        class_descriptor(class) is Ok ==> class_after(class).slot == CacheSlotView::Descriptor(
            class_descriptor(class)->Ok_0,
        ),
{
}

impl BetterprotoMessageClass {
    /// Whether the descriptor in the slot, if there is one, is well-formed.
    pub open spec fn well_formed(&self) -> bool {
        self.slot matches CacheSlot::Descriptor(desc) ==> desc.well_formed()
    }

    /// A class with the given metadata and an empty slot.
    pub fn new(meta: BetterprotoMessageMeta) -> (r: BetterprotoMessageClass)
        ensures
            r.well_formed(),
            r@ == (MessageClassView { meta: Some(meta@), slot: CacheSlotView::Empty }),
    {
        BetterprotoMessageClass { meta: Some(meta), slot: CacheSlot::Empty }
    }

    /// The descriptor of the class. Where the slot holds a descriptor, that
    /// one is given and nothing is computed; otherwise the descriptor is
    /// made of the metadata and stored in the slot, over whatever was there.
    ///
    /// Fails with `NoBetterprotoMessage` where the class has no metadata, and
    /// with the failure of making the descriptor where that fails; the class
    /// is then left as it was.
    pub fn descriptor(&mut self) -> (r: InteropResult<MessageDescriptor>)
        requires
            old(self).well_formed(),
        ensures
            final(self).well_formed(),
            final(self)@ == class_after(old(self)@),
            match r {
                Ok(desc) => class_descriptor(old(self)@) == Ok::<Seq<FieldView>, InteropErrorView>(
                    desc@,
                ) && desc.well_formed(),
                Err(e) => class_descriptor(old(self)@) == Err::<Seq<FieldView>, InteropErrorView>(
                    e@,
                ),
            },
    {
        match &self.slot {
            CacheSlot::Descriptor(desc) => {
                return Ok(desc.duplicate());
            },
            _ => {},
        }
        let made = match &self.meta {
            Some(meta) => meta.to_descriptor(),
            None => Err(
                InteropError::NoBetterprotoMessage(String::from_str("the class has no metadata")),
            ),
        };
        match made {
            Ok(desc) => {
                self.slot = CacheSlot::Descriptor(desc.duplicate());
                Ok(desc)
            },
            Err(e) => Err(e),
        }
    }

    /// A fresh instance of the class: every field holds what it holds where
    /// nothing was set. Fails as `descriptor` does.
    pub fn create_instance(&self) -> (r: InteropResult<BetterprotoMessage>)
        ensures
            match r {
                Ok(message) => class_descriptor(self@) matches Ok(desc) && message@
                    == default_values(desc),
                Err(e) => class_descriptor(self@) == Err::<Seq<FieldView>, InteropErrorView>(e@),
            },
    {
        match &self.slot {
            CacheSlot::Descriptor(desc) => {
                return Ok(BetterprotoMessage { values: default_values_of(desc) });
            },
            _ => {},
        }
        match &self.meta {
            Some(meta) => match meta.to_descriptor() {
                Ok(desc) => Ok(BetterprotoMessage { values: default_values_of(&desc) }),
                Err(e) => Err(e),
            },
            None => Err(
                InteropError::NoBetterprotoMessage(String::from_str("the class has no metadata")),
            ),
        }
    }
}

} // verus!
