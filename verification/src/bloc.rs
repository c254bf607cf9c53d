//! Map blocs: each grid cell materializes as one bloc variant owning its
//! tile. Lava blocs additionally track a per-entity damage cooldown.
//!
//! Material codes used by map assembly:
//! `-1` ground, `4` wall, `9` water, `18` lava, `20` spawn point,
//! `21` level end point.

use vstd::prelude::*;
use crate::entity::EntityTrait;
use crate::geometry::{rotate_square, Pos2D, Rect, Rot};
use crate::map::Tile;

verus! {

/// A materialized map cell.
pub enum Bloc {
    Air(Air),
    Wall(Wall),
    Water(Water),
    Lava(Lava),
}

/// Walkable ground (also used for spawn and end markers).
pub struct Air {
    pub id: i32,
    pub tile: Tile,
}

/// A solid, opaque cell.
pub struct Wall {
    pub id: i32,
    pub tile: Tile,
}

/// Walkable water.
pub struct Water {
    pub id: i32,
    pub tile: Tile,
}

/// A hazard cell: damages overlapping entities on a cooldown, tracked per
/// entity id as `(id, last damage time in milliseconds)`.
pub struct Lava {
    pub id: i32,
    pub tile: Tile,
    pub damage: i32,
    pub damage_speed: i32,
    pub id_time_list: Vec<(i32, i64)>,
}

impl Air {
    pub fn new(id: i32, tile: Tile) -> (r: Self)
        ensures
            r.id == id,
            r.tile == tile,
    {
        Air { id, tile }
    }
}

impl Wall {
    pub fn new(id: i32, tile: Tile) -> (r: Self)
        ensures
            r.id == id,
            r.tile == tile,
    {
        Wall { id, tile }
    }
}

impl Water {
    pub fn new(id: i32, tile: Tile) -> (r: Self)
        ensures
            r.id == id,
            r.tile == tile,
    {
        Self { id, tile }
    }
}

impl Bloc {
    /// The tile a bloc owns, whichever variant it is.
    pub open spec fn tile_spec(self) -> Tile {
        match self {
            Bloc::Air(a) => a.tile,
            Bloc::Wall(w) => w.tile,
            Bloc::Water(w) => w.tile,
            Bloc::Lava(l) => l.tile,
        }
    }

    /// The bloc's stable id.
    pub open spec fn id_spec(self) -> int {
        match self {
            Bloc::Air(a) => a.id as int,
            Bloc::Wall(w) => w.id as int,
            Bloc::Water(w) => w.id as int,
            Bloc::Lava(l) => l.id as int,
        }
    }

    /// Reads the owned tile.
    pub fn tile(&self) -> (t: &Tile)
        ensures
            *t == self.tile_spec(),
    {
        match self {
            Bloc::Air(a) => &a.tile,
            Bloc::Wall(w) => &w.tile,
            Bloc::Water(w) => &w.tile,
            Bloc::Lava(l) => &l.tile,
        }
    }
}

/// Every bloc's tile geometry is within world bounds.
pub open spec fn blocs_wf(s: Seq<Bloc>) -> bool {
    forall|i: int| 0 <= i < s.len() ==> (#[trigger] s[i]).tile_spec().wf()
}

/// The cooldown entry is still inside its window at time `now`.
pub open spec fn entry_fresh(e: (i32, i64), now: int, speed: int) -> bool {
    now - e.1 <= speed
}

/// Some entry for `id` is still inside its cooldown window.
pub open spec fn has_fresh_id(s: Seq<(i32, i64)>, id: int, now: int, speed: int) -> bool {
    exists|j: int| 0 <= j < s.len() && (#[trigger] s[j]).0 == id && entry_fresh(s[j], now, speed)
}

/// The cooldown table after pruning at time `now`: exactly the entries
/// still inside their window, in their original order.
pub open spec fn prune_times(s: Seq<(i32, i64)>, now: int, speed: int) -> Seq<(i32, i64)>
    decreases s.len(),
{
    if s.len() == 0 {
        Seq::empty()
    } else if entry_fresh(s.last(), now, speed) {
        prune_times(s.drop_last(), now, speed).push(s.last())
    } else {
        prune_times(s.drop_last(), now, speed)
    }
}

/// A well-formed cooldown table: nonnegative times, one entry per id.
pub open spec fn times_wf(s: Seq<(i32, i64)>) -> bool {
    &&& forall|j: int| 0 <= j < s.len() ==> (#[trigger] s[j]).1 >= 0
    &&& forall|j1: int, j2: int| 0 <= j1 < j2 < s.len() ==> s[j1].0 != s[j2].0
}

impl Lava {
    /// A lava cell deals 5 damage with a 500 millisecond cooldown per
    /// entity.
    pub fn new(id: i32, tile: Tile) -> (r: Self)
        ensures
            r.id == id,
            r.tile == tile,
            r.damage == 5,
            r.damage_speed == 500,
            r.id_time_list@ =~= Seq::<(i32, i64)>::empty(),
    {
        Lava { id, tile, damage: 5, damage_speed: 500, id_time_list: Vec::new() }
    }

    /// Prunes expired cooldown entries: afterwards the table holds exactly
    /// the previously present entries still inside their window at `now_ms`
    /// (an entry from a clock that ran backwards is kept, never fatal).
    pub fn update(&mut self, now_ms: i64)
        requires
            times_wf(old(self).id_time_list@),
            now_ms >= 0,
        ensures
            final(self).id == old(self).id,
            final(self).tile == old(self).tile,
            final(self).damage == old(self).damage,
            final(self).damage_speed == old(self).damage_speed,
            times_wf(final(self).id_time_list@),
            forall|j: int|
                0 <= j < final(self).id_time_list@.len() ==> old(self).id_time_list@.contains(
                    #[trigger] final(self).id_time_list@[j],
                ) && entry_fresh(
                    final(self).id_time_list@[j],
                    now_ms as int,
                    old(self).damage_speed as int,
                ),
            forall|j: int|
                0 <= j < old(self).id_time_list@.len() && entry_fresh(
                    #[trigger] old(self).id_time_list@[j],
                    now_ms as int,
                    old(self).damage_speed as int,
                ) ==> final(self).id_time_list@.contains(old(self).id_time_list@[j]),
            final(self).id_time_list@ == prune_times(
                old(self).id_time_list@,
                now_ms as int,
                old(self).damage_speed as int,
            ),
    {
        let ghost orig = self.id_time_list@;
        let mut kept: Vec<(i32, i64)> = Vec::new();
        let mut i: usize = 0;
        while i < self.id_time_list.len()
            invariant
                0 <= i <= self.id_time_list@.len(),
                self.id_time_list@ == orig,
                times_wf(orig),
                now_ms >= 0,
                forall|j: int|
                    0 <= j < kept@.len() ==> exists|w: int|
                        0 <= w < i && orig[w] == #[trigger] kept@[j],
                forall|j: int|
                    0 <= j < kept@.len() ==> entry_fresh(
                        #[trigger] kept@[j],
                        now_ms as int,
                        self.damage_speed as int,
                    ),
                forall|w: int|
                    0 <= w < i && entry_fresh(
                        #[trigger] orig[w],
                        now_ms as int,
                        self.damage_speed as int,
                    ) ==> kept@.contains(orig[w]),
                forall|j1: int, j2: int| 0 <= j1 < j2 < kept@.len() ==> kept@[j1].0 != kept@[j2].0,
                kept@ == prune_times(orig.take(i as int), now_ms as int, self.damage_speed as int),
            decreases self.id_time_list@.len() - i,
        {
            proof {
                assert(orig.take(i as int + 1).drop_last() =~= orig.take(i as int));
                assert(orig.take(i as int + 1).last() == orig[i as int]);
            }
            let e = self.id_time_list[i];
            if now_ms - e.1 <= self.damage_speed as i64 {
                let ghost pre = kept@;
                kept.push(e);
                proof {
                    assert(kept@[pre.len() as int] == e);
                    assert forall|j1: int, j2: int| 0 <= j1 < j2 < kept@.len() implies kept@[
                        j1
                    ].0 != kept@[j2].0 by {
                        if j2 == pre.len() {
                            let w = choose|w: int| 0 <= w < i && orig[w] == pre[j1];
                            assert(orig[w].0 != orig[i as int].0);
                        }
                    }
                    assert forall|w: int|
                        0 <= w < i + 1 && entry_fresh(
                            #[trigger] orig[w],
                            now_ms as int,
                            self.damage_speed as int,
                        ) implies kept@.contains(orig[w]) by {
                        if w < i {
                            assert(pre.contains(orig[w]));
                            let v = choose|v: int| 0 <= v < pre.len() && pre[v] == orig[w];
                            assert(kept@[v] == orig[w]);
                        } else {
                            assert(kept@[pre.len() as int] == orig[w]);
                        }
                    }
                }
            }
            i = i + 1;
        }
        proof {
            assert forall|j: int| 0 <= j < kept@.len() implies orig.contains(
                #[trigger] kept@[j],
            ) by {
                let w = choose|w: int| 0 <= w < self.id_time_list@.len() && orig[w] == kept@[j];
            }
            assert(orig.take(orig.len() as int) =~= orig);
        }
        self.id_time_list = kept;
    }

    /// Damages the entity unless it is still inside its cooldown window:
    /// expired entries are pruned, and when no fresh entry remains for the
    /// entity's id, the damage is dealt and the hit time recorded in the
    /// same step.
    pub fn damage<E: EntityTrait>(&mut self, entity: &mut E, now_ms: i64)
        requires
            times_wf(old(self).id_time_list@),
            now_ms >= 0,
            old(entity).damage_pre(old(self).damage),
        ensures
            final(self).id == old(self).id,
            final(self).tile == old(self).tile,
            final(self).damage == old(self).damage,
            final(self).damage_speed == old(self).damage_speed,
            times_wf(final(self).id_time_list@),
            ({
                let pruned = prune_times(
                    old(self).id_time_list@,
                    now_ms as int,
                    old(self).damage_speed as int,
                );
                let eligible = !has_fresh_id(
                    old(self).id_time_list@,
                    old(entity).id_spec(),
                    now_ms as int,
                    old(self).damage_speed as int,
                );
                &&& (eligible ==> *final(entity) == E::damaged_spec(
                    *old(entity),
                    old(self).damage,
                ) && final(self).id_time_list@ == pruned.push(
                    ((old(entity).id_spec()) as i32, now_ms),
                ))
                &&& (!eligible ==> *final(entity) == *old(entity) && final(self).id_time_list@
                    == pruned)
            }),
            final(entity).hitbox_spec() == old(entity).hitbox_spec(),
            final(entity).rot_spec() == old(entity).rot_spec(),
            final(entity).wf() == old(entity).wf(),
    {
        self.update(now_ms);
        let eid = entity.id();
        let mut present = false;
        let mut i: usize = 0;
        while i < self.id_time_list.len()
            invariant
                0 <= i <= self.id_time_list@.len(),
                eid as int == old(entity).id_spec(),
                present == exists|j: int|
                    0 <= j < i && (#[trigger] self.id_time_list@[j]).0 == eid,
            decreases self.id_time_list@.len() - i,
        {
            if self.id_time_list[i].0 == eid {
                present = true;
            }
            i = i + 1;
        }
        if !present {
            proof {
                // No surviving entry carries the id, so no fresh entry did.
                if has_fresh_id(
                    old(self).id_time_list@,
                    old(entity).id_spec(),
                    now_ms as int,
                    old(self).damage_speed as int,
                ) {
                    let j = choose|j: int|
                        0 <= j < old(self).id_time_list@.len() && (#[trigger] old(
                            self,
                        ).id_time_list@[j]).0 == old(entity).id_spec() && entry_fresh(
                            old(self).id_time_list@[j],
                            now_ms as int,
                            old(self).damage_speed as int,
                        );
                    assert(self.id_time_list@.contains(old(self).id_time_list@[j]));
                    let w = choose|w: int|
                        0 <= w < self.id_time_list@.len() && self.id_time_list@[w] == old(
                            self,
                        ).id_time_list@[j];
                    assert(false);
                }
            }
            let ghost pre = self.id_time_list@;
            self.id_time_list.push((eid, now_ms));
            proof {
                assert(self.id_time_list@[pre.len() as int] == (eid, now_ms));
                assert forall|j1: int, j2: int|
                    0 <= j1 < j2 < self.id_time_list@.len() implies self.id_time_list@[j1].0
                    != self.id_time_list@[j2].0 by {
                    if j2 == pre.len() {
                        assert(!(exists|j: int|
                            0 <= j < pre.len() && (#[trigger] pre[j]).0 == eid));
                        assert(pre[j1] == self.id_time_list@[j1]);
                    }
                }
            }
            entity.take_damage(self.damage);
        } else {
            proof {
                // A surviving entry is a pruned (fresh) entry of the old
                // table with this id.
                let j = choose|j: int|
                    0 <= j < self.id_time_list@.len() && (#[trigger] self.id_time_list@[j]).0
                        == eid;
                assert(old(self).id_time_list@.contains(self.id_time_list@[j]));
                let w = choose|w: int|
                    0 <= w < old(self).id_time_list@.len() && old(self).id_time_list@[w]
                        == self.id_time_list@[j];
                assert(has_fresh_id(
                    old(self).id_time_list@,
                    old(entity).id_spec(),
                    now_ms as int,
                    old(self).damage_speed as int,
                ));
            }
        }
    }
}

impl EntityTrait for Bloc {
    open spec fn hitbox_spec(&self) -> Rect {
        self.tile_spec().hitbox
    }

    open spec fn rot_spec(&self) -> Rot {
        self.tile_spec().rot
    }

    open spec fn bypass_spec(&self) -> bool {
        self.tile_spec().transparent
    }

    open spec fn id_spec(&self) -> int {
        match *self {
            Bloc::Air(a) => a.id as int,
            Bloc::Wall(w) => w.id as int,
            Bloc::Water(w) => w.id as int,
            Bloc::Lava(l) => l.id as int,
        }
    }

    open spec fn wf(&self) -> bool {
        self.tile_spec().wf()
    }

    open spec fn damaged_spec(pre: Self, damage: i32) -> Self {
        pre
    }

    open spec fn damage_pre(&self, damage: i32) -> bool {
        true
    }

    proof fn lemma_wf_geometry(&self) {
    }

    fn get_hitbox(&self) -> (r: Rect) {
        match self {
            Bloc::Air(a) => a.tile.hitbox,
            Bloc::Wall(w) => w.tile.hitbox,
            Bloc::Water(w) => w.tile.hitbox,
            Bloc::Lava(l) => l.tile.hitbox,
        }
    }

    fn get_angle(&self) -> (r: Rot) {
        match self {
            Bloc::Air(a) => a.tile.rot,
            Bloc::Wall(w) => w.tile.rot,
            Bloc::Water(w) => w.tile.rot,
            Bloc::Lava(l) => l.tile.rot,
        }
    }

    fn ray_cast_bypass(&self) -> (r: bool) {
        match self {
            Bloc::Air(a) => a.tile.transparent,
            Bloc::Wall(w) => w.tile.transparent,
            Bloc::Water(w) => w.tile.transparent,
            Bloc::Lava(l) => l.tile.transparent,
        }
    }

    fn rotated_hitbox(&self) -> (v: Vec<Pos2D<i64>>) {
        let tile = self.tile();
        rotate_square(tile.hitbox, tile.rot)
    }

    fn id(&self) -> (r: i32) {
        match self {
            Bloc::Air(a) => a.id,
            Bloc::Wall(w) => w.id,
            Bloc::Water(w) => w.id,
            Bloc::Lava(l) => l.id,
        }
    }

    fn damage_ok(&self, _damage: i32) -> (r: bool) {
        true
    }

    fn take_damage(&mut self, _damage: i32) {
    }
}

} // verus!
