//! Inventory item kinds: placeholders of the item system that the weapon
//! inventory will grow into.

use vstd::prelude::*;

verus! {

/// The held item kinds.
pub enum Items {
    Sword,
}

/// The armor slots.
pub enum Armors {
    Helmet,
    Chesplate,
    Leggings,
    Boots,
}

/// Common item state.
#[allow(dead_code)]
pub struct Item {
    durability: u32,
    stack_size: u32,
}

/// A melee weapon: delay between attacks in milliseconds.
#[allow(dead_code)]
pub struct Sword {
    item: Item,
    attack_speed: i32,
}

/// One piece of armor and its protection value.
#[allow(dead_code)]
pub struct ArmorPiece {
    item: Item,
    protection: i32,
}

} // verus!
