//! The table in which a cell's elements are kept while texts are assigned to them.

use slotmap::DefaultKey;
use slotmap::Key;
use slotmap::KeyData;
use slotmap::SlotMap;
use vstd::prelude::*;

use crate::layout::Element;

verus! {

/// The most elements that a table can hold.
pub const MAX_ELEMENTS: usize = 0xFFFF_FFFE;

/// A table of elements, each under a key of its own. Elements are never removed one by one.
#[verifier::external_body]
#[derive(Debug)]
pub struct ElementSlots {
    slots: SlotMap<DefaultKey, Element>,
}

/// What a table holds: each key with its element, in the order of their slots.
pub uninterp spec fn slot_entries(slots: ElementSlots) -> Seq<(u64, Element)>;

impl ElementSlots {
    /// An empty table, from `slotmap::SlotMap::with_key`.
    #[verifier::external_body]
    pub(crate) fn new() -> (r: ElementSlots)
        ensures
            slot_entries(r) == Seq::<(u64, Element)>::empty(),
    {
        ElementSlots { slots: SlotMap::with_key() }
    }

    /// Adds `element`, by `slotmap::SlotMap::insert`. As no element was ever removed, no slot is
    /// vacant, so that the element goes to a new slot behind all others. Its key, written as an
    /// integer by `slotmap::KeyData::as_ffi`, is one that no other element has. The slots are
    /// numbered by 32 bits, and one of them is reserved: a full table must not be added to.
    #[verifier::external_body]
    pub(crate) fn insert(&mut self, element: Element) -> (key: u64)
        requires
            slot_entries(*old(self)).len() < MAX_ELEMENTS,
        ensures
            slot_entries(*final(self)) == slot_entries(*old(self)).push((key, element)),
            forall|i: int|
                0 <= i < slot_entries(*old(self)).len() ==> (#[trigger] slot_entries(
                    *old(self),
                )[i]).0 != key,
    {
        self.slots.insert(element).data().as_ffi()
    }

    /// The element under `key`, which must be the key of one, by `slotmap::SlotMap::get_mut`. From a
    /// key that was written as an integer, `slotmap::KeyData::from_ffi` gives back that key. Nothing
    /// but that element can change through the reference.
    #[verifier::external_body]
    pub(crate) fn get_mut(&mut self, key: u64) -> (element: Option<&mut Element>)
        requires
            exists|i: int|
                0 <= i < slot_entries(*old(self)).len() && (#[trigger] slot_entries(
                    *old(self),
                )[i]).0 == key,
        ensures
            element matches Some(e) && exists|i: int|
                0 <= i < slot_entries(*old(self)).len() && #[trigger] slot_entries(*old(self))[i]
                    == (key, *e) && slot_entries(*final(self)) == slot_entries(*old(self)).update(
                    i,
                    (key, *final(e)),
                ),
    {
        self.slots.get_mut(DefaultKey::from(KeyData::from_ffi(key)))
    }

    /// All elements, by `slotmap::SlotMap::drain`, which walks the slots from the first to the last.
    #[verifier::external_body]
    pub(crate) fn into_elements(self) -> (r: Vec<Element>)
        ensures
            r@ == slot_entries(self).map_values(|entry: (u64, Element)| entry.1),
    {
        let mut slots = self.slots;
        let elements = slots.drain().map(|(_key, element)| element).collect();
        elements
    }
}

} // verus!
