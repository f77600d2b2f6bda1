//! Perspective camera parameters.
//!
//! The four scalars are stored as raw IEEE-754 bit patterns; the projection
//! matrix itself is float math and is computed outside the verified core.
use vstd::prelude::*;

verus! {

/// Bit pattern of the float 1.3, the default vertical field of view in
/// radians.
pub const DEFAULT_VFOV: u32 = 0x3fa6_6666;

/// Bit pattern of the float 1.667, the default aspect ratio.
pub const DEFAULT_ASPECT_RATIO: u32 = 0x3fd5_6042;

/// Bit pattern of the float 0.05, the default near plane distance.
pub const DEFAULT_NEAR: u32 = 0x3d4c_cccd;

/// Bit pattern of the float 100.0, the default far plane distance.
pub const DEFAULT_FAR: u32 = 0x42c8_0000;

/// A perspective camera; every field holds the bit pattern of a float.
#[derive(Debug, Clone, Copy, PartialEq, Eq, Structural)]
pub struct Camera {
    pub vfov: u32,
    pub aspect_ratio: u32,
    pub near: u32,
    pub far: u32,
}

impl Camera {
    /// A camera with the default parameters.
    pub fn new() -> (c: Camera)
        ensures
            c == Camera::default_spec(),
    {
        Camera {
            vfov: DEFAULT_VFOV,
            aspect_ratio: DEFAULT_ASPECT_RATIO,
            near: DEFAULT_NEAR,
            far: DEFAULT_FAR,
        }
    }

    /// The default parameters: the values `new` and `default` return.
    pub open spec fn default_spec() -> Camera {
        Camera {
            vfov: DEFAULT_VFOV,
            aspect_ratio: DEFAULT_ASPECT_RATIO,
            near: DEFAULT_NEAR,
            far: DEFAULT_FAR,
        }
    }
}

impl Default for Camera {
    fn default() -> (c: Camera)
        ensures
            c == Camera::default_spec(),
    {
        Camera::new()
    }
}

} // verus!
