//! The player: input-driven movement through the collision sweep, an
//! aim-driven line of sight cast through the compound raycaster, and a
//! cooldown-gated hit-scan shot.

use vstd::prelude::*;
use crate::bloc::{blocs_wf, Bloc};
use crate::collision::{world_resolve, CheckCollision};
use crate::entity::EntityTrait;
use crate::geometry::{
    div_trunc, idiv, normalize_point, normalize_spec, pos_in_bounds, rect_body_wf, rect_center,
    rotate_line, rotate_spec, rotate_square, Pos2D, Rect, Rot, COORD_LIMIT, SCALE,
};
use crate::id::IdManager;
use crate::input::Input;
use crate::monster::{monsters_wf, Monster, MonsterManager};
use crate::raycast::{two_pass_post, RayCastBlocType, RayCastResult, RayCasting, LOS};
use crate::weapon::{ObjectDrop, Weapon, WeaponInventory, WeaponTrait};

verus! {

/// Base movement speed of the player, world units per second.
pub const PLAYER_SPEED: i64 = 400;

/// Starting hit points.
pub const PLAYER_BASE_HP: i32 = 100;

/// Reach of the hit-scan shot in world units.
pub const WEAPON_RANGE: i64 = 500;

/// The player: identity, health, body, inputs, line of sight and weapons.
pub struct Player {
    pub id: i32,
    pub hp: i32,
    pub name: String,
    pub hitbox: Rect,
    pub inputs: Input,
    pub speed: i64,
    pub los: LOS,
    pub inventory: WeaponInventory,
}

/// The movement intent of one tick as a fixed-point step: the axis intents
/// combined, normalized, and scaled by the per-tick speed budget.
pub open spec fn player_move_delta(inputs: Input, speed: int, dt_ms: int) -> Pos2D<i64> {
    let dx: int = (if inputs.right { 1int } else { 0int }) - (if inputs.left { 1int } else { 0int });
    let dy: int = (if inputs.down { 1int } else { 0int }) - (if inputs.up { 1int } else { 0int });
    let dir = normalize_spec(Pos2D { x: dx as i64, y: dy as i64 });
    let base = idiv(speed * dt_ms, 1000);
    Pos2D { x: idiv(dir.x * base, SCALE as int) as i64, y: idiv(dir.y * base, SCALE as int) as i64 }
}

impl Player {
    /// A fresh player at the given rectangle with full health, no intent,
    /// and a fresh inventory.
    pub fn new(x: i64, y: i64, w: i64, h: i64, id_manager: &mut IdManager) -> (r: Self)
        requires
            old(id_manager).wf(),
            old(id_manager).current() < i32::MAX - 1,
            -COORD_LIMIT <= x <= COORD_LIMIT,
            -COORD_LIMIT <= y <= COORD_LIMIT,
            0 <= w <= COORD_LIMIT,
            0 <= h <= COORD_LIMIT,
        ensures
            final(id_manager).wf(),
            r.wf(),
            r.id == old(id_manager).current() + 1,
            r.hp == PLAYER_BASE_HP,
            r.hitbox == (Rect { x, y, w, h }),
            r.speed == PLAYER_SPEED,
    {
        Player {
            id: id_manager.get_new_id(),
            hp: PLAYER_BASE_HP,
            name: "bob".to_string(),
            hitbox: Rect { x, y, w, h },
            inputs: Input::new(),
            speed: PLAYER_SPEED,
            los: LOS::default(),
            inventory: WeaponInventory::new(id_manager),
        }
    }

    /// One movement tick: combine the axis intents, normalize, scale by
    /// the speed budget, and resolve against the blocking cells; then
    /// fire when a fire intent is set.
    pub fn update_movements(
        &mut self,
        bloclist: &Vec<Bloc>,
        dt_ms: i64,
        id_manager: &mut IdManager,
        monster_manager: &mut MonsterManager,
        now_ms: i64,
    ) -> (dropped: ObjectDrop)
        requires
            old(self).wf(),
            blocs_wf(bloclist@),
            0 <= dt_ms <= 10000,
            now_ms >= 0,
            monsters_wf(old(monster_manager).monster_list@),
            old(id_manager).wf(),
            old(id_manager).current() < i32::MAX - 1,
        ensures
            final(self).wf(),
            final(self).id == old(self).id,
            final(self).hp == old(self).hp,
            final(id_manager).wf(),
            monsters_wf(final(monster_manager).monster_list@),
            ({
                let delta = player_move_delta(
                    old(self).inputs,
                    old(self).speed as int,
                    dt_ms as int,
                );
                let moved = world_resolve(
                    old(self).hitbox,
                    Rect {
                        x: (old(self).hitbox.x + delta.x) as i64,
                        y: (old(self).hitbox.y + delta.y) as i64,
                        w: old(self).hitbox.w,
                        h: old(self).hitbox.h,
                    },
                    bloclist@,
                );
                final(self).hitbox == (if rect_body_wf(moved) {
                    moved
                } else {
                    old(self).hitbox
                })
            }),
    {
        let dx: i64 = (if self.inputs.right { 1 } else { 0 }) - (if self.inputs.left { 1 } else { 0 });
        let dy: i64 = (if self.inputs.down { 1 } else { 0 }) - (if self.inputs.up { 1 } else { 0 });
        let dir = normalize_point(Pos2D { x: dx, y: dy });
        proof {
            crate::geometry::lemma_mul_bound(self.speed as int, dt_ms as int, 1000, 10000);
        }
        let base = div_trunc(self.speed * dt_ms, 1000);
        proof {
            crate::geometry::lemma_idiv_bounded(self.speed * dt_ms, 1000, 10000);
            vstd::arithmetic::div_mod::lemma_div_pos_is_pos(
                crate::geometry::mag(self.speed * dt_ms),
                1000,
            );
            crate::geometry::lemma_mul_bound(dir.x as int, base as int, SCALE as int, 10000);
            crate::geometry::lemma_mul_bound(dir.y as int, base as int, SCALE as int, 10000);
            crate::geometry::lemma_idiv_bounded(dir.x * base, SCALE as int, 10000);
            crate::geometry::lemma_idiv_bounded(dir.y * base, SCALE as int, 10000);
        }
        let delta_x = div_trunc(dir.x * base, SCALE);
        let delta_y = div_trunc(dir.y * base, SCALE);
        let new_hitbox = CheckCollision::world_collision(
            self.hitbox,
            Pos2D { x: delta_x, y: delta_y },
            bloclist,
        );
        // A move that would leave the world's body range is refused.
        if -2097152 <= new_hitbox.x && new_hitbox.x <= 2097152 && -2097152 <= new_hitbox.y
            && new_hitbox.y <= 2097152 {
            self.hitbox = new_hitbox;
        }
        if self.inputs.mouse_left || self.inputs.controler_south {
            self.shoot(id_manager, monster_manager, now_ms)
        } else {
            ObjectDrop::Nothing
        }
    }

    /// Recomputes the line of sight: aim at the pointed screen position,
    /// build the sight segment out to weapon range, and cast it against
    /// the cells and then the monsters; an unobstructed ray keeps the
    /// unclipped endpoint.
    pub fn update_los(
        &mut self,
        camera_scroll: Pos2D<i64>,
        bloclist: &Vec<Bloc>,
        monster_list: &Vec<Monster>,
    )
        requires
            old(self).wf(),
            pos_in_bounds(camera_scroll),
            blocs_wf(bloclist@),
            monsters_wf(monster_list@),
        ensures
            final(self).wf(),
            final(self).id == old(self).id,
            final(self).hp == old(self).hp,
            final(self).hitbox == old(self).hitbox,
            final(self).inventory == old(self).inventory,
            ({
                let center = rect_center(old(self).hitbox);
                let aim = normalize_spec(
                    Pos2D {
                        x: (old(self).inputs.pointing.x - (center.x - camera_scroll.x)) as i64,
                        y: (old(self).inputs.pointing.y - (center.y - camera_scroll.y)) as i64,
                    },
                );
                final(self).los.rot == (Rot { c: aim.x, s: aim.y })
            }),
            ({
                let center = rect_center(old(self).hitbox);
                let seg = (
                    center,
                    rotate_spec(
                        center,
                        Pos2D {
                            x: (old(self).hitbox.x + WEAPON_RANGE + old(self).hitbox.w / 2 + old(
                                self,
                            ).hitbox.w) as i64,
                            y: (old(self).hitbox.y + old(self).hitbox.h / 2) as i64,
                        },
                        final(self).los.rot,
                    ),
                );
                &&& two_pass_post(
                    seg,
                    bloclist@,
                    monster_list@,
                    false,
                    final(self).los.result,
                )
                &&& (final(self).los.result matches RayCastResult::Hit(line, _k, _d)
                    ==> final(self).los.end_point == line.1)
                &&& (final(self).los.result is Fail ==> final(self).los.end_point == seg.1)
            }),
    {
        let halfw = div_trunc(self.hitbox.w, 2);
        let halfh = div_trunc(self.hitbox.h, 2);
        proof {
            vstd::arithmetic::div_mod::lemma_div_pos_is_pos(self.hitbox.w as int, 2);
            vstd::arithmetic::div_mod::lemma_div_pos_is_pos(self.hitbox.h as int, 2);
        }
        let player_center = Pos2D { x: self.hitbox.x + halfw, y: self.hitbox.y + halfh };
        let hitbox_center = Pos2D {
            x: player_center.x - camera_scroll.x,
            y: player_center.y - camera_scroll.y,
        };
        let aim = normalize_point(
            Pos2D {
                x: self.inputs.pointing.x - hitbox_center.x,
                y: self.inputs.pointing.y - hitbox_center.y,
            },
        );
        self.los.rot = Rot { c: aim.x, s: aim.y };
        let rotated_line_end_point = rotate_line(
            player_center,
            Pos2D {
                x: self.hitbox.x + WEAPON_RANGE + halfw + self.hitbox.w,
                y: self.hitbox.y + halfh,
            },
            self.los.rot,
        );
        let line_of_sight = (player_center, rotated_line_end_point);
        let result = RayCasting::ray_cast_tile_monster(line_of_sight, bloclist, monster_list);
        match result {
            RayCastResult::Hit(line, _bloc, _dist) => {
                self.los.end_point = line.1;
            },
            RayCastResult::Fail => {
                self.los.end_point = line_of_sight.1;
            },
        }
        self.los.result = result;
    }

    /// Takes damage; reports whether the player died of it.
    pub fn take_damages(&mut self, damage: i32) -> (dead: bool)
        requires
            i32::MIN <= old(self).hp - damage <= i32::MAX,
        ensures
            final(self).hp == old(self).hp - damage,
            dead == (final(self).hp < 1),
            *final(self) == (Player { hp: (old(self).hp - damage) as i32, ..*old(self) }),
    {
        self.hp = self.hp - damage;
        if self.hp < 1 {
            true
        } else {
            false
        }
    }

    /// Fires the selected weapon when its cooldown allows: a pistol shot
    /// records its shot time in the same call and damages the monster the
    /// recorded line of sight ended on, removing it and rolling a drop if
    /// it dies. A stale monster index (beyond the current list) or
    /// out-of-limit damage is ignored rather than trusted; a knife or an
    /// empty hand never fires here.
    pub fn shoot(
        &mut self,
        id_manager: &mut IdManager,
        monster_manager: &mut MonsterManager,
        now_ms: i64,
    ) -> (dropped: ObjectDrop)
        requires
            old(self).wf(),
            now_ms >= 0,
            monsters_wf(old(monster_manager).monster_list@),
            old(id_manager).wf(),
            old(id_manager).current() < i32::MAX - 1,
        ensures
            final(self).wf(),
            final(self).id == old(self).id,
            final(self).hp == old(self).hp,
            final(self).hitbox == old(self).hitbox,
            final(self).los == old(self).los,
            final(self).inputs == old(self).inputs,
            final(self).inventory.selected_index == old(self).inventory.selected_index,
            final(id_manager).wf(),
            monsters_wf(final(monster_manager).monster_list@),
            ({
                let idx = old(self).inventory.selected_index as int;
                let sel = old(self).inventory.weapon_list@[idx];
                let fired = (sel is Pistol) && sel.can_shoot_spec(now_ms as int);
                &&& (fired ==> final(self).inventory.weapon_list@ == old(
                    self,
                ).inventory.weapon_list@.update(idx, Weapon::after_shot(sel, now_ms as int)))
                &&& (!fired ==> final(self).inventory.weapon_list@ == old(
                    self,
                ).inventory.weapon_list@)
                &&& (!fired ==> shot_no_effect(
                    old(monster_manager).monster_list@,
                    final(monster_manager).monster_list@,
                    dropped,
                    *old(id_manager),
                    *final(id_manager),
                ))
                &&& (fired ==> match old(self).los.result {
                    RayCastResult::Hit(_l, kind, _d) => match kind {
                        RayCastBlocType::Bot(mi) => {
                            if mi < old(monster_manager).monster_list@.len() && old(
                                monster_manager,
                            ).monster_list@[mi as int].damage_pre(sel->Pistol_0.damage) {
                                shot_damages_monster(
                                    old(monster_manager).monster_list@,
                                    final(monster_manager).monster_list@,
                                    mi as int,
                                    sel->Pistol_0.damage,
                                    dropped,
                                    old(id_manager).current(),
                                    final(id_manager).current(),
                                )
                            } else {
                                shot_no_effect(
                                    old(monster_manager).monster_list@,
                                    final(monster_manager).monster_list@,
                                    dropped,
                                    *old(id_manager),
                                    *final(id_manager),
                                )
                            }
                        },
                        _ => shot_no_effect(
                            old(monster_manager).monster_list@,
                            final(monster_manager).monster_list@,
                            dropped,
                            *old(id_manager),
                            *final(id_manager),
                        ),
                    },
                    RayCastResult::Fail => shot_no_effect(
                        old(monster_manager).monster_list@,
                        final(monster_manager).monster_list@,
                        dropped,
                        *old(id_manager),
                        *final(id_manager),
                    ),
                })
            }),
    {
        let mut dropped_item = ObjectDrop::Nothing;
        let ghost old_list = self.inventory.weapon_list@;
        if self.inventory.index_is_weapon() {
            let mut w = Weapon::Unarmed;
            let idx = self.inventory.selected_index;
            self.inventory.weapon_list.set_and_swap(idx, &mut w);
            match w {
                Weapon::Pistol(_) => {
                    let damage = w.get_damage();
                    let fired = w.can_shoot(now_ms);
                    if fired {
                        match self.los.result {
                            RayCastResult::Hit(_line, object, _dist) => {
                                match object {
                                    RayCastBlocType::Bot(monster_index) => {
                                        if monster_index
                                            < monster_manager.monster_list.len()
                                            && monster_manager.monster_damage_ok(
                                            monster_index,
                                            damage,
                                        ) {
                                            dropped_item =
                                                monster_manager.damage_monster_isdead(
                                                monster_index,
                                                damage,
                                                id_manager,
                                            );
                                        }
                                    },
                                    _ => {},
                                }
                            },
                            RayCastResult::Fail => {},
                        }
                    }
                },
                _ => {},
            }
            self.inventory.weapon_list.set_and_swap(idx, &mut w);
            proof {
                if !((old_list[idx as int] is Pistol) && old_list[idx as int].can_shoot_spec(
                    now_ms as int,
                )) {
                    assert(self.inventory.weapon_list@ =~= old_list);
                } else {
                    assert(self.inventory.weapon_list@ =~= old_list.update(
                        idx as int,
                        Weapon::after_shot(old_list[idx as int], now_ms as int),
                    ));
                }
            }
        } else {
            proof {
                assert(old_list[old(self).inventory.selected_index as int] is Unarmed);
            }
        }
        dropped_item
    }
}

/// A shot that lands nothing: the monsters, the drop and the id allocator
/// are untouched.
pub open spec fn shot_no_effect(
    monsters_old: Seq<Monster>,
    monsters_new: Seq<Monster>,
    dropped: ObjectDrop,
    ids_old: IdManager,
    ids_new: IdManager,
) -> bool {
    &&& monsters_new == monsters_old
    &&& dropped is Nothing
    &&& ids_new == ids_old
}

/// A landed shot: monster `mi` takes the weapon's damage, is swap-removed
/// exactly when that kills it, a drop is rolled for it (a fresh pistol or
/// knife when one drops), and at most one id is spent on the drop.
pub open spec fn shot_damages_monster(
    monsters_old: Seq<Monster>,
    monsters_new: Seq<Monster>,
    mi: int,
    damage: i32,
    dropped: ObjectDrop,
    ids_old: int,
    ids_new: int,
) -> bool {
    let hit = Monster::damaged_spec(monsters_old[mi], damage);
    &&& (hit.hp_spec() < 1 ==> monsters_new == monsters_old.update(
        mi,
        monsters_old.last(),
    ).drop_last())
    &&& (hit.hp_spec() >= 1 ==> monsters_new == monsters_old.update(mi, hit))
    &&& (dropped matches ObjectDrop::Dropped(w) ==> (w == Weapon::Pistol(
        crate::weapon::pistol_spec(ids_old + 1),
    ) || w == Weapon::Knife(crate::weapon::knife_spec(ids_old + 1))))
    &&& ids_old <= ids_new <= ids_old + 1
}

impl EntityTrait for Player {
    open spec fn hitbox_spec(&self) -> Rect {
        self.hitbox
    }

    open spec fn rot_spec(&self) -> Rot {
        self.los.rot
    }

    open spec fn bypass_spec(&self) -> bool {
        false
    }

    open spec fn id_spec(&self) -> int {
        self.id as int
    }

    /// Geometry, speed, aim and inventory stay within their bounds.
    open spec fn wf(&self) -> bool {
        &&& rect_body_wf(self.hitbox)
        &&& 0 <= self.speed <= 1000
        &&& self.los.rot.wf()
        &&& self.inventory.wf()
        &&& pos_in_bounds(self.inputs.pointing)
    }

    open spec fn damaged_spec(pre: Self, damage: i32) -> Self {
        Player { hp: (pre.hp - damage) as i32, ..pre }
    }

    open spec fn damage_pre(&self, damage: i32) -> bool {
        i32::MIN <= self.hp - damage <= i32::MAX
    }

    proof fn lemma_wf_geometry(&self) {
    }

    fn get_hitbox(&self) -> (r: Rect) {
        self.hitbox
    }

    fn get_angle(&self) -> (r: Rot) {
        self.los.rot
    }

    fn ray_cast_bypass(&self) -> (r: bool) {
        false
    }

    fn rotated_hitbox(&self) -> (v: Vec<Pos2D<i64>>) {
        rotate_square(self.hitbox, self.los.rot)
    }

    fn id(&self) -> (r: i32) {
        self.id
    }

    fn damage_ok(&self, damage: i32) -> (r: bool) {
        (self.hp as i64) - (damage as i64) >= i32::MIN as i64 && (self.hp as i64) - (
        damage as i64) <= i32::MAX as i64
    }

    fn take_damage(&mut self, damage: i32) {
        self.take_damages(damage);
    }
}

} // verus!
