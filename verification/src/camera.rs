//! The camera: a viewport in world coordinates shown on a screen of pixels.

use vstd::prelude::*;

verus! {

#[derive(Debug)]
pub struct Camera<N> {
    /// Position (center) of camera viewport in world coords.
    pub pos: [N; 2],
    /// Size of camera viewport in world coords.
    pub size: [N; 2],
    /// Size of the inner screen in pixels.
    pub screen_size: [i32; 2],
}

/// Half of `s`, rounded toward zero.
pub open spec fn half(s: int) -> int {
    if s >= 0 {
        s / 2
    } else {
        -((-s) / 2)
    }
}

impl<N: Copy> Camera<N> {
    /// A camera centred on (`zero`, `zero`) that shows `w` by `h` world
    /// units on a screen of `screen_w` by `screen_h` pixels.
    pub fn new(w: N, h: N, screen_w: i32, screen_h: i32, zero: N) -> (r: Camera<N>)
        ensures
            r.pos@ == seq![zero, zero],
            r.size@ == seq![w, h],
            r.screen_size@ == seq![screen_w, screen_h],
    {
        let r = Camera { pos: [zero, zero], size: [w, h], screen_size: [screen_w, screen_h] };
        proof {
            assert(r.pos@ =~= seq![zero, zero]);
            assert(r.size@ =~= seq![w, h]);
            assert(r.screen_size@ =~= seq![screen_w, screen_h]);
        }
        r
    }

    /// The distance in pixels of the screen point (`x`, `y`) from the
    /// centre of the screen, along each axis. The world point it shows lies
    /// this far from the camera's position, scaled by the viewport's size
    /// over the screen's.
    pub fn screen_offset(&self, x: i32, y: i32) -> (r: (i64, i64))
        ensures
            r.0 == x - half(self.screen_size[0] as int),
            r.1 == y - half(self.screen_size[1] as int),
    {
        let x_dis: i64 = x as i64 - (self.screen_size[0] / 2) as i64;
        let y_dis: i64 = y as i64 - (self.screen_size[1] / 2) as i64;
        (x_dis, y_dis)
    }
}

} // verus!
