//! Light sources carried by scene nodes.
use vstd::prelude::*;

use crate::color::{Color, F32_ONE};

verus! {

/// A light: a color and a kind. The point light's radius holds the bit
/// pattern of a float.
#[derive(Debug, Clone, Copy, PartialEq, Eq, Structural)]
pub struct Light {
    pub color: Color,
    pub kind: LightKind,
}

/// The kinds of light the renderer knows.
#[derive(Debug, Clone, Copy, PartialEq, Eq, Structural)]
pub enum LightKind {
    Directional,
    Point { radius: u32 },
}

impl Light {
    /// A white directional light.
    pub fn directional() -> (l: Light)
        ensures
            l == (Light { color: Color { r: F32_ONE, g: F32_ONE, b: F32_ONE, a: F32_ONE }, kind: LightKind::Directional }),
    {
        Light { color: Color::white(), kind: LightKind::Directional }
    }

    /// A white point light with the given radius (a float bit pattern).
    pub fn point(radius: u32) -> (l: Light)
        ensures
            l == (Light { color: Color { r: F32_ONE, g: F32_ONE, b: F32_ONE, a: F32_ONE }, kind: LightKind::Point { radius } }),
    {
        Light { color: Color::white(), kind: LightKind::Point { radius } }
    }

    /// The same light with another color.
    pub fn with_color(self, color: Color) -> (l: Light)
        ensures
            l == (Light { color, ..self }),
    {
        Light { color, ..self }
    }

    /// The radius fed to the GPU-side light uniform: the point light's
    /// radius, zero for a directional light.
    pub open spec fn radius_spec(&self) -> u32 {
        match self.kind {
            LightKind::Point { radius } => radius,
            LightKind::Directional => 0,
        }
    }

    /// The point light's radius; a directional light has none.
    pub fn radius(&self) -> (r: Option<u32>)
        ensures
            r == match self.kind {
                LightKind::Point { radius } => Some(radius),
                LightKind::Directional => None::<u32>,
            },
    {
        match self.kind {
            LightKind::Point { radius } => Some(radius),
            LightKind::Directional => None,
        }
    }
}

impl LightKind {
    /// The small integer the GPU-side light uniform encodes the kind as.
    pub open spec fn id_spec(&self) -> u32 {
        match self {
            LightKind::Directional => 0,
            LightKind::Point { .. } => 1,
        }
    }

    /// The kind's encoding, as runtime code computes it.
    pub fn id(&self) -> (k: u32)
        ensures
            k == self.id_spec(),
    {
        match self {
            LightKind::Directional => 0,
            LightKind::Point { .. } => 1,
        }
    }
}

} // verus!
