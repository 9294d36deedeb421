//! Parameter state of the orbiting camera.
//!
//! The orbit holds an orientation (azimuth, polar tilt, roll) as integer
//! degrees in `[0, 360)` and two extrinsic lengths (camera radius and focal
//! length) that only ever move in whole steps and never drop below one unit.
//! Every mutation is a documented increment or decrement; the host re-derives
//! the real-valued camera pose from this state after each change.

use vstd::prelude::*;

verus! {

/// Degrees in a full turn; angles live in `[0, FULL_CIRCLE)`.
pub const FULL_CIRCLE: u16 = 360;

/// Orientation and extrinsics of the orbiting camera.
pub struct Orbit {
    /// Tilt from the equatorial plane, in degrees.
    pub polar: u16,
    /// Rotation around the vertical axis, in degrees.
    pub azimuth: u16,
    /// Roll of the view rectangle around the view axis, in degrees.
    pub rotation: u16,
    /// Distance from the look-at center to the camera, in whole units.
    pub camera_radius: u64,
    /// Distance from the camera to the view plane, in whole units.
    pub focal_length: u64,
    /// Width of the raster, in pixels.
    pub screen_width: usize,
    /// Height of the raster, in pixels.
    pub screen_height: usize,
}

impl Orbit {
    /// Angles stay below a full turn and both lengths stay at or above one
    /// unit; every constructor establishes this and every mutator keeps it.
    pub open spec fn well_formed(&self) -> bool {
        &&& self.polar < FULL_CIRCLE
        &&& self.azimuth < FULL_CIRCLE
        &&& self.rotation < FULL_CIRCLE
        &&& self.camera_radius >= 1
        &&& self.focal_length >= 1
    }

    /// A fresh orbit: all angles zero, the given extrinsics.
    pub fn new(
        camera_radius: u64,
        focal_length: u64,
        screen_width: usize,
        screen_height: usize,
    ) -> (orbit: Orbit)
        requires
            camera_radius >= 1,
            focal_length >= 1,
        ensures
            orbit.well_formed(),
            orbit.polar == 0,
            orbit.azimuth == 0,
            orbit.rotation == 0,
            orbit.camera_radius == camera_radius,
            orbit.focal_length == focal_length,
            orbit.screen_width == screen_width,
            orbit.screen_height == screen_height,
    {
        Orbit {
            polar: 0,
            azimuth: 0,
            rotation: 0,
            camera_radius,
            focal_length,
            screen_width,
            screen_height,
        }
    }

    /// Steps the polar angle one degree forward, wrapping from 359 to 0.
    pub fn inc_polar(&mut self)
        requires
            old(self).well_formed(),
        ensures
            final(self).well_formed(),
            final(self).polar == (old(self).polar + 1) % (FULL_CIRCLE as int),
            *final(self) == (Orbit { polar: final(self).polar, ..*old(self) }),
    {
        if self.polar == FULL_CIRCLE - 1 {
            self.polar = 0;
        } else {
            self.polar = self.polar + 1;
        }
    }

    /// Steps the polar angle one degree back, wrapping from 0 to 359.
    pub fn dec_polar(&mut self)
        requires
            old(self).well_formed(),
        ensures
            final(self).well_formed(),
            final(self).polar == (old(self).polar + FULL_CIRCLE - 1) % (FULL_CIRCLE as int),
            *final(self) == (Orbit { polar: final(self).polar, ..*old(self) }),
    {
        if self.polar == 0 {
            self.polar = FULL_CIRCLE - 1;
        } else {
            self.polar = self.polar - 1;
        }
    }

    /// Steps the azimuth one degree forward, wrapping from 359 to 0.
    pub fn inc_azimuth(&mut self)
        requires
            old(self).well_formed(),
        ensures
            final(self).well_formed(),
            final(self).azimuth == (old(self).azimuth + 1) % (FULL_CIRCLE as int),
            *final(self) == (Orbit { azimuth: final(self).azimuth, ..*old(self) }),
    {
        if self.azimuth == FULL_CIRCLE - 1 {
            self.azimuth = 0;
        } else {
            self.azimuth = self.azimuth + 1;
        }
    }

    /// Steps the azimuth one degree back, wrapping from 0 to 359.
    pub fn dec_azimuth(&mut self)
        requires
            old(self).well_formed(),
        ensures
            final(self).well_formed(),
            final(self).azimuth == (old(self).azimuth + FULL_CIRCLE - 1) % (FULL_CIRCLE as int),
            *final(self) == (Orbit { azimuth: final(self).azimuth, ..*old(self) }),
    {
        if self.azimuth == 0 {
            self.azimuth = FULL_CIRCLE - 1;
        } else {
            self.azimuth = self.azimuth - 1;
        }
    }

    /// Steps the roll one degree forward, wrapping from 359 to 0.
    pub fn inc_rotation(&mut self)
        requires
            old(self).well_formed(),
        ensures
            final(self).well_formed(),
            final(self).rotation == (old(self).rotation + 1) % (FULL_CIRCLE as int),
            *final(self) == (Orbit { rotation: final(self).rotation, ..*old(self) }),
    {
        if self.rotation == FULL_CIRCLE - 1 {
            self.rotation = 0;
        } else {
            self.rotation = self.rotation + 1;
        }
    }

    /// Steps the roll one degree back, wrapping from 0 to 359.
    pub fn dec_rotation(&mut self)
        requires
            old(self).well_formed(),
        ensures
            final(self).well_formed(),
            final(self).rotation == (old(self).rotation + FULL_CIRCLE - 1) % (FULL_CIRCLE as int),
            *final(self) == (Orbit { rotation: final(self).rotation, ..*old(self) }),
    {
        if self.rotation == 0 {
            self.rotation = FULL_CIRCLE - 1;
        } else {
            self.rotation = self.rotation - 1;
        }
    }

    /// Current polar angle in degrees.
    pub fn polar(&self) -> (angle: u16)
        ensures
            angle == self.polar,
    {
        self.polar
    }

    /// Current azimuth in degrees.
    pub fn azimuth(&self) -> (angle: u16)
        ensures
            angle == self.azimuth,
    {
        self.azimuth
    }

    /// Current roll in degrees.
    pub fn rotation(&self) -> (angle: u16)
        ensures
            angle == self.rotation,
    {
        self.rotation
    }

    /// Current camera radius in whole units.
    pub fn camera_radius(&self) -> (radius: u64)
        ensures
            radius == self.camera_radius,
    {
        self.camera_radius
    }

    /// Current focal length in whole units.
    pub fn focal_length(&self) -> (length: u64)
        ensures
            length == self.focal_length,
    {
        self.focal_length
    }

    /// Moves the camera one unit farther from the center.
    pub fn inc_camera_radius(&mut self)
        requires
            old(self).well_formed(),
            old(self).camera_radius < u64::MAX,
        ensures
            final(self).well_formed(),
            final(self).camera_radius == old(self).camera_radius + 1,
            *final(self) == (Orbit { camera_radius: final(self).camera_radius, ..*old(self) }),
    {
        self.camera_radius = self.camera_radius + 1;
    }

    /// Moves the camera one unit closer to the center, floored at one unit:
    /// a decrement at radius one is a silent no-op.
    pub fn dec_camera_radius(&mut self)
        requires
            old(self).well_formed(),
        ensures
            final(self).well_formed(),
            final(self).camera_radius == if old(self).camera_radius > 1 {
                old(self).camera_radius - 1
            } else {
                old(self).camera_radius as int
            },
            *final(self) == (Orbit { camera_radius: final(self).camera_radius, ..*old(self) }),
    {
        if self.camera_radius > 1 {
            self.camera_radius = self.camera_radius - 1;
        }
    }

    /// Moves the view plane one unit farther from the camera.
    pub fn inc_focal_length(&mut self)
        requires
            old(self).well_formed(),
            old(self).focal_length < u64::MAX,
        ensures
            final(self).well_formed(),
            final(self).focal_length == old(self).focal_length + 1,
            *final(self) == (Orbit { focal_length: final(self).focal_length, ..*old(self) }),
    {
        self.focal_length = self.focal_length + 1;
    }

    /// Moves the view plane one unit closer to the camera; a decrement at or
    /// below one unit is a silent no-op.
    pub fn dec_focal_length(&mut self)
        requires
            old(self).well_formed(),
        ensures
            final(self).well_formed(),
            final(self).focal_length == if old(self).focal_length > 1 {
                old(self).focal_length - 1
            } else {
                old(self).focal_length as int
            },
            *final(self) == (Orbit { focal_length: final(self).focal_length, ..*old(self) }),
    {
        if self.focal_length > 1 {
            self.focal_length = self.focal_length - 1;
        }
    }

    /// Puts every angle back to zero and both extrinsics to the given
    /// defaults, keeping the screen dimensions.
    pub fn reset_to_defaults(&mut self, default_camera_radius: u64, default_focal_length: u64)
        requires
            default_camera_radius >= 1,
            default_focal_length >= 1,
        ensures
            final(self).well_formed(),
            final(self).polar == 0,
            final(self).azimuth == 0,
            final(self).rotation == 0,
            final(self).camera_radius == default_camera_radius,
            final(self).focal_length == default_focal_length,
            final(self).screen_width == old(self).screen_width,
            final(self).screen_height == old(self).screen_height,
    {
        self.polar = 0;
        self.azimuth = 0;
        self.rotation = 0;
        self.camera_radius = default_camera_radius;
        self.focal_length = default_focal_length;
    }
}

} // verus!
