//! The viewport: follows a focus target, clamped so the view never leaves
//! the map.

use vstd::prelude::*;
use crate::geometry::{div_trunc, idiv, lemma_mul_bound, Pos2D, Rect, COORD_LIMIT};

verus! {

/// The camera rectangle and the scroll offset applied to everything drawn.
#[derive(Clone, Copy, Debug)]
pub struct Camera {
    pub camera: Rect,
    pub scroll: Pos2D<i64>,
}

fn min(floor: i64, nbr: i64) -> (r: i64)
    ensures
        r == if floor < nbr {
            floor
        } else {
            nbr
        },
{
    if floor < nbr {
        floor
    } else {
        nbr
    }
}

fn max(ceil: i64, nbr: i64) -> (r: i64)
    ensures
        r == if ceil > nbr {
            ceil
        } else {
            nbr
        },
{
    if ceil > nbr {
        ceil
    } else {
        nbr
    }
}

/// The camera corner after focusing: centered on the target, clamped to
/// stay at or left of the origin and at or right of the map's far edge.
pub open spec fn focus_coord(target: int, window: int, map_cells: int, view: int, ts: int) -> int {
    let centered = -target + idiv(window, 2);
    let low = if 0 < centered {
        0
    } else {
        centered
    };
    let edge = (map_cells - view) * -ts;
    if edge > low {
        edge
    } else {
        low
    }
}

impl Camera {
    /// A camera of the given view size at the origin.
    pub fn new(width: i64, height: i64) -> (r: Self)
        ensures
            r.camera == (Rect { x: 0i64, y: 0i64, w: width, h: height }),
            r.scroll == (Pos2D { x: 0i64, y: 0i64 }),
    {
        Camera {
            camera: Rect { x: 0, y: 0, w: width, h: height },
            scroll: Pos2D { x: 0, y: 0 },
        }
    }

    /// Centers the view on `target`, clamping at the map edges; the scroll
    /// is the negated camera corner.
    pub fn set_focus(
        &mut self,
        target: (i64, i64),
        window_size: (i64, i64),
        map_size: (i64, i64),
        tile_size: i64,
    )
        requires
            -COORD_LIMIT <= target.0 <= COORD_LIMIT,
            -COORD_LIMIT <= target.1 <= COORD_LIMIT,
            0 <= window_size.0 <= COORD_LIMIT,
            0 <= window_size.1 <= COORD_LIMIT,
            0 <= map_size.0 <= 1048576,
            0 <= map_size.1 <= 1048576,
            0 <= tile_size <= 1048576,
            -COORD_LIMIT <= old(self).camera.w <= COORD_LIMIT,
            -COORD_LIMIT <= old(self).camera.h <= COORD_LIMIT,
            (map_size.1 - old(self).camera.w) * tile_size <= COORD_LIMIT * COORD_LIMIT,
            (map_size.0 - old(self).camera.h) * tile_size <= COORD_LIMIT * COORD_LIMIT,
        ensures
            final(self).camera.x == focus_coord(
                target.0 as int,
                window_size.0 as int,
                map_size.1 as int,
                old(self).camera.w as int,
                tile_size as int,
            ),
            final(self).camera.y == focus_coord(
                target.1 as int,
                window_size.1 as int,
                map_size.0 as int,
                old(self).camera.h as int,
                tile_size as int,
            ),
            final(self).scroll.x == -final(self).camera.x,
            final(self).scroll.y == -final(self).camera.y,
            final(self).camera.w == old(self).camera.w,
            final(self).camera.h == old(self).camera.h,
    {
        let mut x = -target.0 + div_trunc(window_size.0, 2);
        let mut y = -target.1 + div_trunc(window_size.1, 2);

        x = min(0, x);
        y = min(0, y);

        proof {
            lemma_mul_bound(
                map_size.1 - self.camera.w,
                -tile_size as int,
                2 * COORD_LIMIT as int,
                COORD_LIMIT as int,
            );
            lemma_mul_bound(
                map_size.0 - self.camera.h,
                -tile_size as int,
                2 * COORD_LIMIT as int,
                COORD_LIMIT as int,
            );
        }
        x = max((map_size.1 - self.camera.w) * -tile_size, x);
        y = max((map_size.0 - self.camera.h) * -tile_size, y);

        self.scroll = Pos2D { x: -x, y: -y };
        self.camera.x = x;
        self.camera.y = y;
    }
}

} // verus!
