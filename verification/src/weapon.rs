//! Weapons and the fixed-capacity inventory. Firing is gated by a
//! cooldown: a weapon fires only when the time since its last shot exceeds
//! its attack delay, and checking eligibility records the shot in the same
//! step, so no two shots can ever land inside one cooldown window.

use vstd::prelude::*;
use crate::id::IdManager;
use crate::rng::rand_range;

verus! {

/// Capacity of the weapon inventory.
pub const INVENTORY_MAX_LENGTH: usize = 10;

/// What a defeated monster leaves behind.
pub enum ObjectDrop {
    Dropped(Weapon),
    Nothing,
}

/// The capability of everything that can fire: a cooldown-gated shot, a
/// damage value and a range.
pub trait WeaponTrait: Sized {
    /// Whether a shot at time `now` is allowed.
    spec fn can_shoot_spec(&self, now: int) -> bool;

    /// The weapon after a successful shot at time `now`.
    spec fn after_shot(pre: Self, now: int) -> Self;

    /// The damage one shot deals.
    spec fn damage_spec(&self) -> int;

    /// The reach of the weapon in world units.
    spec fn range_spec(&self) -> int;

    /// Checks the cooldown and, in the same step, records the shot time
    /// when firing is allowed (check-and-set, never two shots in a
    /// window).
    fn can_shoot(&mut self, now_ms: i64) -> (r: bool)
        ensures
            r == old(self).can_shoot_spec(now_ms as int),
            r ==> *final(self) == Self::after_shot(*old(self), now_ms as int),
            !r ==> *final(self) == *old(self),
    ;

    fn get_damage(&self) -> (r: i32)
        ensures
            r == self.damage_spec(),
    ;

    fn get_range(&self) -> (r: i64)
        ensures
            r == self.range_spec(),
    ;
}

/// A ranged weapon: damage, delay between shots in milliseconds, the time
/// of the last shot, and reach.
#[derive(Clone, Copy, Debug, PartialEq, Eq, Structural)]
pub struct Pistol {
    pub id: i32,
    pub damage: i32,
    pub attack_speed: i32,
    pub last_shot_time: i64,
    pub range: i64,
}

/// A melee weapon with the same firing discipline.
#[derive(Clone, Copy, Debug, PartialEq, Eq, Structural)]
pub struct Knife {
    pub id: i32,
    pub damage: i32,
    pub attack_speed: i32,
    pub last_shot_time: i64,
    pub range: i64,
}

/// A weapon slot: a weapon, or an empty hand.
#[derive(Clone, Copy, Debug, PartialEq, Eq, Structural)]
pub enum Weapon {
    Pistol(Pistol),
    Knife(Knife),
    Unarmed,
}

/// The pistol a fresh id produces.
pub open spec fn pistol_spec(id: int) -> Pistol {
    Pistol { id: id as i32, damage: 6, attack_speed: 200, last_shot_time: 0, range: 500 }
}

/// The knife a fresh id produces.
pub open spec fn knife_spec(id: int) -> Knife {
    Knife { id: id as i32, damage: 26, attack_speed: 120, last_shot_time: 0, range: 80 }
}

impl Pistol {
    pub fn new(id_manager: &mut IdManager) -> (r: Self)
        requires
            old(id_manager).wf(),
            old(id_manager).current() < i32::MAX,
        ensures
            final(id_manager).wf(),
            final(id_manager).current() == old(id_manager).current() + 1,
            r == pistol_spec(old(id_manager).current() + 1),
    {
        Pistol {
            id: id_manager.get_new_id(),
            damage: 6,
            attack_speed: 200,
            last_shot_time: 0,
            range: 500,
        }
    }
}

impl Knife {
    pub fn new(id_manager: &mut IdManager) -> (r: Self)
        requires
            old(id_manager).wf(),
            old(id_manager).current() < i32::MAX,
        ensures
            final(id_manager).wf(),
            final(id_manager).current() == old(id_manager).current() + 1,
            r == knife_spec(old(id_manager).current() + 1),
    {
        Knife {
            id: id_manager.get_new_id(),
            damage: 26,
            attack_speed: 120,
            last_shot_time: 0,
            range: 80,
        }
    }
}

impl WeaponTrait for Weapon {
    open spec fn can_shoot_spec(&self, now: int) -> bool {
        match *self {
            Weapon::Pistol(p) => now >= p.last_shot_time && now - p.last_shot_time
                > p.attack_speed,
            Weapon::Knife(k) => now >= k.last_shot_time && now - k.last_shot_time
                > k.attack_speed,
            Weapon::Unarmed => false,
        }
    }

    open spec fn after_shot(pre: Self, now: int) -> Self {
        match pre {
            Weapon::Pistol(p) => Weapon::Pistol(
                Pistol { last_shot_time: now as i64, ..p },
            ),
            Weapon::Knife(k) => Weapon::Knife(Knife { last_shot_time: now as i64, ..k }),
            Weapon::Unarmed => pre,
        }
    }

    open spec fn damage_spec(&self) -> int {
        match *self {
            Weapon::Pistol(p) => p.damage as int,
            Weapon::Knife(k) => k.damage as int,
            Weapon::Unarmed => 0,
        }
    }

    open spec fn range_spec(&self) -> int {
        match *self {
            Weapon::Pistol(p) => p.range as int,
            Weapon::Knife(k) => k.range as int,
            Weapon::Unarmed => 0,
        }
    }

    /// A clock that went backwards (now before the recorded shot) skips
    /// the cooldown check for the tick and refuses the shot.
    fn can_shoot(&mut self, now_ms: i64) -> (r: bool)
        ensures
            r == old(self).can_shoot_spec(now_ms as int),
            r ==> *final(self) == Self::after_shot(*old(self), now_ms as int),
            !r ==> *final(self) == *old(self),
    {
        match self {
            Weapon::Pistol(p) => {
                if now_ms >= p.last_shot_time && (now_ms as i128) - (p.last_shot_time as i128)
                    > p.attack_speed as i128 {
                    p.last_shot_time = now_ms;
                    true
                } else {
                    false
                }
            },
            Weapon::Knife(k) => {
                if now_ms >= k.last_shot_time && (now_ms as i128) - (k.last_shot_time as i128)
                    > k.attack_speed as i128 {
                    k.last_shot_time = now_ms;
                    true
                } else {
                    false
                }
            },
            Weapon::Unarmed => false,
        }
    }

    fn get_damage(&self) -> (r: i32)
        ensures
            r == self.damage_spec(),
    {
        match self {
            Weapon::Pistol(p) => p.damage,
            Weapon::Knife(k) => k.damage,
            Weapon::Unarmed => 0,
        }
    }

    fn get_range(&self) -> (r: i64)
        ensures
            r == self.range_spec(),
    {
        match self {
            Weapon::Pistol(p) => p.range,
            Weapon::Knife(k) => k.range,
            Weapon::Unarmed => 0,
        }
    }
}

/// The fixed-capacity weapon slots and the selected slot.
pub struct WeaponInventory {
    pub weapon_list: Vec<Weapon>,
    pub selected_index: usize,
}

impl WeaponInventory {
    /// Exactly the fixed number of slots, and a valid selection.
    pub open spec fn wf(self) -> bool {
        self.weapon_list@.len() == INVENTORY_MAX_LENGTH && self.selected_index
            < INVENTORY_MAX_LENGTH
    }

    /// A fresh inventory: a knife in the first slot, the rest empty.
    pub fn new(id_manager: &mut IdManager) -> (r: Self)
        requires
            old(id_manager).wf(),
            old(id_manager).current() < i32::MAX,
        ensures
            final(id_manager).wf(),
            final(id_manager).current() == old(id_manager).current() + 1,
            r.wf(),
            r.selected_index == 0,
            r.weapon_list@[0] == Weapon::Knife(knife_spec(old(id_manager).current() + 1)),
            forall|i: int|
                1 <= i < INVENTORY_MAX_LENGTH ==> #[trigger] r.weapon_list@[i] == Weapon::Unarmed,
    {
        let mut weapon_list: Vec<Weapon> = Vec::new();
        weapon_list.push(Weapon::Knife(Knife::new(id_manager)));
        while weapon_list.len() < INVENTORY_MAX_LENGTH
            invariant
                1 <= weapon_list@.len() <= INVENTORY_MAX_LENGTH,
                weapon_list@[0] is Knife,
                weapon_list@[0] == Weapon::Knife(knife_spec(old(id_manager).current() + 1)),
                forall|i: int|
                    1 <= i < weapon_list@.len() ==> #[trigger] weapon_list@[i] == Weapon::Unarmed,
            decreases INVENTORY_MAX_LENGTH - weapon_list@.len(),
        {
            weapon_list.push(Weapon::Unarmed);
        }
        WeaponInventory { weapon_list, selected_index: 0 }
    }

    /// Whether the selected slot holds an actual weapon.
    pub fn index_is_weapon(&self) -> (r: bool)
        requires
            self.wf(),
        ensures
            r == !(self.weapon_list@[self.selected_index as int] is Unarmed),
    {
        match self.weapon_list[self.selected_index] {
            Weapon::Unarmed => false,
            _ => true,
        }
    }
}

/// Rolls a random drop for a defeated monster: nine times out of ten a
/// weapon drops, a pistol or a knife with even odds.
pub fn generate_drop(id_manager: &mut IdManager) -> (r: ObjectDrop)
    requires
        old(id_manager).wf(),
        old(id_manager).current() < i32::MAX - 1,
    ensures
        final(id_manager).wf(),
        old(id_manager).current() <= final(id_manager).current() <= old(id_manager).current() + 1,
        r matches ObjectDrop::Dropped(w) ==> (w == Weapon::Pistol(
            pistol_spec(old(id_manager).current() + 1),
        ) || w == Weapon::Knife(knife_spec(old(id_manager).current() + 1))),
{
    let prcentage = rand_range(0, 100);
    if prcentage < 90 {
        let index = rand_range(0, 2);
        match index {
            1 => ObjectDrop::Dropped(Weapon::Pistol(Pistol::new(id_manager))),
            0 => ObjectDrop::Dropped(Weapon::Knife(Knife::new(id_manager))),
            _ => ObjectDrop::Nothing,
        }
    } else {
        ObjectDrop::Nothing
    }
}

} // verus!
