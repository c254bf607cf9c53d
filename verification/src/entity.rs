//! The shared capability contract of every simulated actor: tiles, the
//! player and monsters all expose a hitbox, an orientation, a raycast
//! transparency flag, a stable id, and a damage operation. Subsystems
//! (collision, raycasting, hazards) work against this trait alone.

use vstd::prelude::*;
use crate::geometry::{
    poly_in_bounds, rect_body_wf, rotate_square_spec, Pos2D, Rect, Rot,
};

verus! {

/// A positioned, oriented, hittable actor.
pub trait EntityTrait: Sized {
    /// The actor's axis-aligned bounding rectangle.
    spec fn hitbox_spec(&self) -> Rect;

    /// The actor's facing as a fixed-point unit vector.
    spec fn rot_spec(&self) -> Rot;

    /// Rays pass through the actor without hitting it.
    spec fn bypass_spec(&self) -> bool;

    /// The actor's stable id.
    spec fn id_spec(&self) -> int;

    /// Geometry well-formedness: the hitbox and facing are within bounds.
    spec fn wf(&self) -> bool;

    /// What the actor becomes when it takes `damage`.
    spec fn damaged_spec(pre: Self, damage: i32) -> Self;

    /// When taking `damage` is within machine limits for this actor.
    spec fn damage_pre(&self, damage: i32) -> bool;

    /// A well-formed actor keeps bounded geometry.
    proof fn lemma_wf_geometry(&self)
        requires
            self.wf(),
        ensures
            rect_body_wf(self.hitbox_spec()),
            self.rot_spec().wf(),
    ;

    fn get_hitbox(&self) -> (r: Rect)
        ensures
            r == self.hitbox_spec(),
    ;

    /// The facing orientation (a fixed-point cosine-sine pair).
    fn get_angle(&self) -> (r: Rot)
        ensures
            r == self.rot_spec(),
    ;

    fn ray_cast_bypass(&self) -> (r: bool)
        ensures
            r == self.bypass_spec(),
    ;

    /// The oriented corner polygon of the actor's hitbox.
    fn rotated_hitbox(&self) -> (v: Vec<Pos2D<i64>>)
        requires
            self.wf(),
        ensures
            v@ == rotate_square_spec(self.hitbox_spec(), self.rot_spec()),
            v@.len() == 5,
            v@[4] == v@[0],
            poly_in_bounds(v@),
    ;

    fn id(&self) -> (r: i32)
        ensures
            r as int == self.id_spec(),
    ;

    /// Whether taking `damage` stays within machine limits, decidable at
    /// run time.
    fn damage_ok(&self, damage: i32) -> (r: bool)
        ensures
            r == self.damage_pre(damage),
    ;

    /// Damage never moves or reorients the actor, and never breaks its
    /// well-formedness.
    fn take_damage(&mut self, damage: i32)
        requires
            old(self).damage_pre(damage),
        ensures
            *final(self) == Self::damaged_spec(*old(self), damage),
            final(self).hitbox_spec() == old(self).hitbox_spec(),
            final(self).rot_spec() == old(self).rot_spec(),
            final(self).id_spec() == old(self).id_spec(),
            final(self).wf() == old(self).wf(),
    ;
}

} // verus!
