//! The camera: position, heading, field of view, angular sampling density
//! and the fish-eye flag.  It produces the ordered cast angles for a frame
//! and applies movement input with per-axis collision against the level.

use vstd::prelude::*;
use crate::geometry::{Point, Rotation};
use crate::level::{Level, spec_tile_at};
use crate::math::{
    spec_normalize_degrees, spec_cos, spec_sin, spec_trunc_div,
    clamp_degrees, cos_fixed, sin_fixed, trunc_div,
    SCALE, QUARTER_TURN,
};
use vstd::arithmetic::div_mod::lemma_fundamental_div_mod_converse;

verus! {

/// One tick's worth of movement input.
#[derive(Clone, Debug)]
pub struct InputInfo {
    pub forward: bool,
    pub backward: bool,
    pub right: bool,
    pub left: bool,
    pub rot_right: bool,
    pub rot_left: bool,
}

/// Distance walked per movement tick: 0.05 of a world unit, in fixed-point
/// units.
pub const MOVEMENT_SPEED: i64 = 51;

/// Heading change per rotation tick: ten degrees, in fixed-point units.
pub const ROTATION_STEP: i64 = 10 * SCALE;

/// Bound on camera coordinates the movement and render paths accept; the
/// margin below `i64` range keeps every intermediate product exact.
pub const MAX_CAMERA_COORD: i64 = 0x100_0000_0000;

/// The single piece of mutable simulation state.
#[derive(Clone, Debug)]
pub struct Camera {
    pub pos: Point,
    pub rotation: Rotation,
    pub fov: u8,
    pub resolution_multiplier: u8,
    pub fish_eye_correction: bool,
}

/// The heading after this tick's rotation inputs, each applied through the
/// normalize-on-write setter.
pub open spec fn spec_rotated_heading(c: Camera, input: InputInfo) -> int {
    let d1 = if input.rot_right {
        spec_normalize_degrees(c.rotation.degree + ROTATION_STEP)
    } else {
        c.rotation.degree as int
    };
    if input.rot_left {
        spec_normalize_degrees(d1 - ROTATION_STEP)
    } else {
        d1
    }
}

/// The candidate movement along X for a tick: walk along the heading,
/// strafe at a quarter turn to either side.
pub open spec fn spec_move_dx(deg: int, input: InputInfo) -> int {
    (if input.forward {
        spec_trunc_div(MOVEMENT_SPEED * spec_cos(deg), SCALE as int)
    } else {
        0
    }) - (if input.backward {
        spec_trunc_div(MOVEMENT_SPEED * spec_cos(deg), SCALE as int)
    } else {
        0
    }) + (if input.right {
        spec_trunc_div(
            MOVEMENT_SPEED * spec_cos(spec_normalize_degrees(deg + QUARTER_TURN)),
            SCALE as int,
        )
    } else {
        0
    }) + (if input.left {
        spec_trunc_div(
            MOVEMENT_SPEED * spec_cos(spec_normalize_degrees(deg - QUARTER_TURN)),
            SCALE as int,
        )
    } else {
        0
    })
}

/// The candidate movement along Y for a tick.
pub open spec fn spec_move_dy(deg: int, input: InputInfo) -> int {
    (if input.forward {
        spec_trunc_div(MOVEMENT_SPEED * spec_sin(deg), SCALE as int)
    } else {
        0
    }) - (if input.backward {
        spec_trunc_div(MOVEMENT_SPEED * spec_sin(deg), SCALE as int)
    } else {
        0
    }) + (if input.right {
        spec_trunc_div(
            MOVEMENT_SPEED * spec_sin(spec_normalize_degrees(deg + QUARTER_TURN)),
            SCALE as int,
        )
    } else {
        0
    }) + (if input.left {
        spec_trunc_div(
            MOVEMENT_SPEED * spec_sin(spec_normalize_degrees(deg - QUARTER_TURN)),
            SCALE as int,
        )
    } else {
        0
    })
}

/// The camera after one tick of input: rotation first, then the X and Y
/// deltas applied independently, each gated by a solidity check of its own
/// destination tile — blocking one axis leaves the other free, which is what
/// permits sliding along a wall.
pub open spec fn spec_update_camera(c: Camera, lv: Level, input: InputInfo) -> Camera {
    let deg = spec_rotated_heading(c, input);
    let dx = spec_move_dx(deg, input);
    let dy = spec_move_dy(deg, input);
    let x1 = if !spec_tile_at(lv, Point { x: (c.pos.x + dx) as i64, y: c.pos.y }).solid {
        (c.pos.x + dx) as i64
    } else {
        c.pos.x
    };
    let y1 = if !spec_tile_at(lv, Point { x: x1, y: (c.pos.y + dy) as i64 }).solid {
        (c.pos.y + dy) as i64
    } else {
        c.pos.y
    };
    Camera {
        pos: Point { x: x1, y: y1 },
        rotation: Rotation { degree: deg as i64 },
        fov: c.fov,
        resolution_multiplier: c.resolution_multiplier,
        fish_eye_correction: c.fish_eye_correction,
    }
}

/// The heading cast for screen column `k`: the `k`-th sub-sample, counted
/// left to right from half the field of view below the heading.
pub open spec fn spec_cast_angle(c: Camera, k: int) -> int {
    let res = c.resolution_multiplier as int;
    spec_normalize_degrees(
        c.rotation.degree - (c.fov as int) * (SCALE as int) / 2 + (k / res) * SCALE + (k % res)
            * SCALE / res,
    )
}

impl Camera {
    /// Well-formedness: normalized heading, field of view and sampling
    /// density inside their debug-control clamps.
    pub open spec fn wf(self) -> bool {
        &&& self.rotation.wf()
        &&& 4 <= self.fov <= 180
        &&& 1 <= self.resolution_multiplier <= 32
    }

    pub fn new(pos: Point) -> (c: Camera)
        ensures
            c == (Camera {
                pos,
                rotation: Rotation { degree: 0 },
                fov: 90,
                resolution_multiplier: 16,
                fish_eye_correction: true,
            }),
            c.wf(),
    {
        Camera {
            pos: Point::new(pos.x, pos.y),
            rotation: Rotation::new(0),
            fov: 90,
            resolution_multiplier: 16,
            fish_eye_correction: true,
        }
    }

    /// The ordered cast angles for one frame: `fov * resolution_multiplier`
    /// headings, left to right, one per screen column in the same order.
    #[verifier::loop_isolation(false)]
    pub fn get_angles_to_cast(&self) -> (output: Vec<Rotation>)
        requires
            self.wf(),
        ensures
            output@.len() == self.fov as int * self.resolution_multiplier as int,
            forall|k: int|
                0 <= k < output@.len() ==> (#[trigger] output@[k]).degree == spec_cast_angle(
                    *self,
                    k,
                ),
            forall|k: int| 0 <= k < output@.len() ==> (#[trigger] output@[k]).wf(),
    {
        let res: i64 = self.resolution_multiplier as i64;
        let base: i64 = self.rotation.degree - (self.fov as i64) * SCALE / 2;
        let mut output: Vec<Rotation> = Vec::new();
        let mut d: u8 = 0;
        while d < self.fov
            invariant
                0 <= d <= self.fov,
                output@.len() == d as int * self.resolution_multiplier as int,
                forall|k: int|
                    0 <= k < output@.len() ==> (#[trigger] output@[k]).degree == spec_cast_angle(
                        *self,
                        k,
                    ),
                forall|k: int| 0 <= k < output@.len() ==> (#[trigger] output@[k]).wf(),
            decreases self.fov - d,
        {
            let mut s: u8 = 0;
            while s < self.resolution_multiplier
                invariant
                    0 <= d < self.fov,
                    0 <= s <= self.resolution_multiplier,
                    output@.len() == d as int * self.resolution_multiplier as int + s as int,
                    forall|k: int|
                        0 <= k < output@.len() ==> (#[trigger] output@[k]).degree
                            == spec_cast_angle(*self, k),
                    forall|k: int| 0 <= k < output@.len() ==> (#[trigger] output@[k]).wf(),
                decreases self.resolution_multiplier - s,
            {
                let angle = Rotation::new(base + (d as i64) * SCALE + (s as i64) * SCALE / res);
                proof {
                    let k = d as int * res as int + s as int;
                    lemma_fundamental_div_mod_converse(k, res as int, d as int, s as int);
                }
                output.push(angle);
                s += 1;
            }
            proof {
                vstd::arithmetic::mul::lemma_mul_is_distributive_add_other_way(
                    self.resolution_multiplier as int, d as int, 1);
            }
            d += 1;
        }
        proof {
            vstd::arithmetic::mul::lemma_mul_is_commutative(
                self.fov as int,
                self.resolution_multiplier as int,
            );
        }
        output
    }

    /// Apply one tick of input: rotate, then move, with each axis gated by
    /// the solidity of its own destination tile.
    #[verifier::rlimit(50)]
    pub fn update_from_input(&mut self, level: &Level, input: InputInfo)
        requires
            old(self).wf(),
            level.wf(),
            -MAX_CAMERA_COORD <= old(self).pos.x <= MAX_CAMERA_COORD,
            -MAX_CAMERA_COORD <= old(self).pos.y <= MAX_CAMERA_COORD,
        ensures
            *final(self) == spec_update_camera(*old(self), *level, input),
            final(self).wf(),
    {
        if input.rot_right {
            self.rotation.mod_value(ROTATION_STEP);
        }
        if input.rot_left {
            self.rotation.mod_value(-ROTATION_STEP);
        }
        let deg: i64 = self.rotation.degree;
        proof {
            assert(deg as int == spec_rotated_heading(*old(self), input));
        }

        let mut x_change: i64 = 0;
        let mut y_change: i64 = 0;
        if input.forward {
            x_change += trunc_div(MOVEMENT_SPEED * cos_fixed(deg), SCALE);
            y_change += trunc_div(MOVEMENT_SPEED * sin_fixed(deg), SCALE);
        }
        if input.backward {
            x_change -= trunc_div(MOVEMENT_SPEED * cos_fixed(deg), SCALE);
            y_change -= trunc_div(MOVEMENT_SPEED * sin_fixed(deg), SCALE);
        }
        if input.right {
            let side = clamp_degrees(deg + QUARTER_TURN);
            x_change += trunc_div(MOVEMENT_SPEED * cos_fixed(side), SCALE);
            y_change += trunc_div(MOVEMENT_SPEED * sin_fixed(side), SCALE);
        }
        if input.left {
            let side = clamp_degrees(deg - QUARTER_TURN);
            x_change += trunc_div(MOVEMENT_SPEED * cos_fixed(side), SCALE);
            y_change += trunc_div(MOVEMENT_SPEED * sin_fixed(side), SCALE);
        }

        proof {
            assert(x_change as int == spec_move_dx(deg as int, input));
            assert(y_change as int == spec_move_dy(deg as int, input));
        }
        let x_dest = Point::new(self.pos.x + x_change, self.pos.y);
        if !level.get_tile(&x_dest).solid {
            self.pos.x = self.pos.x + x_change;
        }
        let y_dest = Point::new(self.pos.x, self.pos.y + y_change);
        if !level.get_tile(&y_dest).solid {
            self.pos.y = self.pos.y + y_change;
        }
    }

    /// Mouse-look: a pointer delta scaled by the fixed sensitivity of half a
    /// degree per count, applied through the normalize-on-write setter.
    pub fn mouse_look(&mut self, movement_x: i64)
        requires
            old(self).wf(),
            -0x1_0000_0000 <= movement_x <= 0x1_0000_0000,
        ensures
            *final(self) == (Camera {
                rotation: Rotation {
                    degree: spec_normalize_degrees(
                        old(self).rotation.degree + movement_x * 512,
                    ) as i64,
                },
                ..*old(self)
            }),
            final(self).wf(),
    {
        self.rotation.mod_value(movement_x * 512);
    }

    /// Debug control: widen the field of view by one degree, clamped to 180.
    pub fn increase_fov(&mut self)
        requires
            old(self).wf(),
        ensures
            *final(self) == (Camera {
                fov: if old(self).fov < 180 { (old(self).fov + 1) as u8 } else { 180 },
                ..*old(self)
            }),
            final(self).wf(),
    {
        if self.fov < 180 {
            self.fov = self.fov + 1;
        }
    }

    /// Debug control: narrow the field of view by one degree, clamped to 4.
    pub fn decrease_fov(&mut self)
        requires
            old(self).wf(),
        ensures
            *final(self) == (Camera {
                fov: if old(self).fov > 4 { (old(self).fov - 1) as u8 } else { 4 },
                ..*old(self)
            }),
            final(self).wf(),
    {
        if self.fov > 4 {
            self.fov = self.fov - 1;
        }
    }

    /// Debug control: one more sub-sample per degree, clamped to 32.
    pub fn increase_resolution(&mut self)
        requires
            old(self).wf(),
        ensures
            *final(self) == (Camera {
                resolution_multiplier: if old(self).resolution_multiplier < 32 {
                    (old(self).resolution_multiplier + 1) as u8
                } else {
                    32
                },
                ..*old(self)
            }),
            final(self).wf(),
    {
        if self.resolution_multiplier < 32 {
            self.resolution_multiplier = self.resolution_multiplier + 1;
        }
    }

    /// Debug control: one fewer sub-sample per degree, clamped to 1.
    pub fn decrease_resolution(&mut self)
        requires
            old(self).wf(),
        ensures
            *final(self) == (Camera {
                resolution_multiplier: if old(self).resolution_multiplier > 1 {
                    (old(self).resolution_multiplier - 1) as u8
                } else {
                    1
                },
                ..*old(self)
            }),
            final(self).wf(),
    {
        if self.resolution_multiplier > 1 {
            self.resolution_multiplier = self.resolution_multiplier - 1;
        }
    }

    /// Debug control: toggle fish-eye correction.
    pub fn toggle_fish_eye(&mut self)
        requires
            old(self).wf(),
        ensures
            *final(self) == (Camera {
                fish_eye_correction: !old(self).fish_eye_correction,
                ..*old(self)
            }),
            final(self).wf(),
    {
        self.fish_eye_correction = !self.fish_eye_correction;
    }
}

/// Law: wall sliding.  When the X destination of a tick is blocked by a
/// solid tile but the Y destination (keeping the old X) is free, the tick
/// leaves X unchanged and still applies the full Y movement.
pub proof fn lemma_wall_sliding(c: Camera, lv: Level, input: InputInfo)
    requires
        ({
            let deg = spec_rotated_heading(c, input);
            let dx = spec_move_dx(deg, input);
            spec_tile_at(lv, Point { x: (c.pos.x + dx) as i64, y: c.pos.y }).solid
        }),
        ({
            let deg = spec_rotated_heading(c, input);
            let dy = spec_move_dy(deg, input);
            !spec_tile_at(lv, Point { x: c.pos.x, y: (c.pos.y + dy) as i64 }).solid
        }),
    ensures
        spec_update_camera(c, lv, input).pos.x == c.pos.x,
        spec_update_camera(c, lv, input).pos.y == (c.pos.y + spec_move_dy(
            spec_rotated_heading(c, input),
            input,
        )) as i64,
{
}

} // verus!
