//! Item and item-stack modeling for inventories.
//!
//! [`Item`] and [`Enchant`] describe what a concrete item registry must
//! provide; this crate ships no registry of its own, so the traits carry no
//! contracts and are left to their implementors.

use core::marker::PhantomData;
use vstd::prelude::*;

verus! {

/// An enchantment kind an item stack's metadata may carry.
pub trait Enchant: Sized {

}

/// A concrete item kind, resolved by numeric id or by name.
pub trait Item: Sized {
    /// The item's numeric id.
    fn id(&self) -> u16;

    /// The item with the given numeric id, if one exists.
    fn from_id(id: u16) -> Option<Self>;

    /// The item's canonical name.
    fn name(&self) -> &'static str;

    /// The item with the given canonical name, if one exists.
    fn from_name(name: &str) -> Option<Self>;

    /// The item's human-readable name.
    fn display_name(&self) -> &'static str;

    /// How many of this item stack together.
    fn stack_size(&self) -> u32;

    /// The item's maximum durability, for items that wear out.
    fn durability(&self) -> Option<u16>;
}

/// Relies on the std `Clone` impl of `PhantomData`, whose only value is its
/// sole zero-sized value; the derived clones of the stack types call it.
pub assume_specification<T: core::marker::PointeeSized>[ <PhantomData<T> as Clone>::clone ](v: &PhantomData<T>) -> (r:
    PhantomData<T>)
    ensures
        r == *v,
;

/// Extra per-stack data: enchantments and the like.
#[derive(Debug, Clone, Copy)]
pub struct ItemStackMetaData<T> {
    _marker: PhantomData<T>,
}

/// A stack of one item kind with a signed count and optional metadata.
#[derive(Debug, Clone, Copy)]
pub struct Itemstack<T: Item, U: Enchant> {
    /// The stacked item.
    pub item: T,
    /// How many items the stack holds.
    pub count: i8,
    /// Extra stack data, when any has been attached.
    pub meta: Option<ItemStackMetaData<U>>,
}

impl<T: Item, U: Enchant> Itemstack<T, U> {
    /// Returns a new stack of `count` times `item`, without metadata.
    pub fn new(item: T, count: i8) -> (r: Self)
        ensures
            r.item == item,
            r.count == count,
            r.meta is None,
    {
        Itemstack { item, count, meta: None }
    }
}

} // verus!
