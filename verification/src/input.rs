//! The per-tick input snapshot the outside shell hands to the core:
//! movement intents, a pointing position, and fire intents. The core never
//! reads input devices itself.

use vstd::prelude::*;
use crate::geometry::Pos2D;

verus! {

/// One tick's worth of player intent.
#[derive(Clone, Copy, Debug)]
pub struct Input {
    pub up: bool,
    pub left: bool,
    pub down: bool,
    pub right: bool,
    pub pointing: Pos2D<i64>,
    pub rightpad: Pos2D<i64>,
    pub gamepad: bool,
    pub mouse_left: bool,
    pub mouse_right: bool,
    pub controler_south: bool,
    pub controler_east: bool,
    pub controler_west: bool,
    pub controler_north: bool,
    pub controler_start: bool,
    pub controler_select: bool,
}

impl Input {
    /// No intent at all: every flag off and both sticks at the origin.
    pub fn new() -> (r: Self)
        ensures
            !r.up && !r.left && !r.down && !r.right,
            r.pointing == (Pos2D { x: 0i64, y: 0i64 }),
            r.rightpad == (Pos2D { x: 0i64, y: 0i64 }),
            !r.gamepad,
            !r.mouse_left && !r.mouse_right,
            !r.controler_south && !r.controler_east && !r.controler_west && !r.controler_north,
            !r.controler_start && !r.controler_select,
    {
        Input {
            up: false,
            left: false,
            down: false,
            right: false,
            pointing: Pos2D { x: 0, y: 0 },
            rightpad: Pos2D { x: 0, y: 0 },
            gamepad: false,
            mouse_left: false,
            mouse_right: false,
            controler_south: false,
            controler_east: false,
            controler_west: false,
            controler_north: false,
            controler_start: false,
            controler_select: false,
        }
    }
}

} // verus!
