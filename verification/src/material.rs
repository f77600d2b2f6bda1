//! Surface materials.
use vstd::prelude::*;

use crate::arena::{AssetKey, Handle};
use crate::color::Color;
use crate::image::Image;

verus! {

/// How a mesh using this material faces the camera.
#[derive(Debug, Clone, Copy, PartialEq, Eq, Structural)]
pub enum BillboardMode {
    Off,
    On,
    FixedSize,
}

impl BillboardMode {
    /// The small integer the GPU-side material uniform encodes the mode as.
    pub open spec fn id_spec(&self) -> u32 {
        match self {
            BillboardMode::Off => 0,
            BillboardMode::On => 1,
            BillboardMode::FixedSize => 2,
        }
    }

    /// The mode's encoding, as runtime code computes it.
    pub fn id(&self) -> (k: u32)
        ensures
            k == self.id_spec(),
    {
        match self {
            BillboardMode::Off => 0,
            BillboardMode::On => 1,
            BillboardMode::FixedSize => 2,
        }
    }
}

/// A material: a base color, optionally modulated by an image, plus billboard
/// and lighting flags.
#[derive(Debug, Clone, Copy)]
pub struct Material {
    pub base_color: Color,
    pub base_color_image: Option<Handle<Image>>,
    pub billboard_mode: BillboardMode,
    pub unlit: bool,
}

impl Material {
    /// The untextured opaque white material `default` returns.
    pub open spec fn default_spec() -> Material {
        Material {
            base_color: Color {
                r: crate::color::F32_ONE,
                g: crate::color::F32_ONE,
                b: crate::color::F32_ONE,
                a: crate::color::F32_ONE,
            },
            base_color_image: None,
            billboard_mode: BillboardMode::Off,
            unlit: false,
        }
    }
}

impl Default for Material {
    fn default() -> (m: Material)
        ensures
            m == Material::default_spec(),
    {
        Material {
            base_color: Color::white(),
            base_color_image: None,
            billboard_mode: BillboardMode::Off,
            unlit: false,
        }
    }
}

impl AssetKey for Material {
    open spec fn type_key_spec() -> u64 {
        4
    }

    fn type_key() -> u64 {
        4
    }
}

} // verus!
