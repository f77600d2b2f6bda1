//! Triangle meshes: one or more submeshes of vertices and indices, each with
//! an optional material.
use vstd::prelude::*;

use crate::arena::{AssetKey, Handle};
use crate::color::{F32_HALF, F32_ONE, F32_ZERO};
use crate::material::Material;

verus! {

/// Bit pattern of the float -0.5.
pub const F32_NEG_HALF: u32 = 0xbf00_0000;

/// Bit pattern of the float -1.0.
pub const F32_NEG_ONE: u32 = 0xbf80_0000;

/// One vertex: position, normal and texture coordinates, each component the
/// bit pattern of a float.
#[derive(Debug, Clone, Copy, PartialEq, Eq)]
pub struct Vertex {
    pub position: [u32; 3],
    pub normal: [u32; 3],
    pub uv: [u32; 2],
}

impl Vertex {
    /// A vertex from its components.
    pub fn new(position: [u32; 3], normal: [u32; 3], uv: [u32; 2]) -> (v: Vertex)
        ensures
            v == (Vertex { position, normal, uv }),
    {
        Vertex { position, normal, uv }
    }
}

/// One draw unit of a mesh.
#[derive(Debug, Clone)]
pub struct Submesh {
    pub vertices: Vec<Vertex>,
    pub indices: Vec<u32>,
    pub material: Option<Handle<Material>>,
}

/// A mesh: its submeshes.
#[derive(Debug, Clone)]
pub struct Mesh {
    pub submeshes: Vec<Submesh>,
}

impl Mesh {
    /// A unit quad in the XY plane facing -Z: one submesh, four vertices, two
    /// triangles, no material.
    pub fn quad() -> (m: Mesh)
        ensures
            m.submeshes@.len() == 1,
            m.submeshes@[0].vertices@.len() == 4,
            m.submeshes@[0].indices@ == seq![0u32, 2, 1, 1, 2, 3],
            m.submeshes@[0].material is None,
    {
        let normal = [F32_ZERO, F32_ZERO, F32_NEG_ONE];
        let vertices: Vec<Vertex> = vec![
            Vertex::new([F32_NEG_HALF, F32_HALF, F32_ZERO], normal, [F32_ZERO, F32_ZERO]),
            Vertex::new([F32_HALF, F32_HALF, F32_ZERO], normal, [F32_ONE, F32_ZERO]),
            Vertex::new([F32_NEG_HALF, F32_NEG_HALF, F32_ZERO], normal, [F32_ZERO, F32_ONE]),
            Vertex::new([F32_HALF, F32_NEG_HALF, F32_ZERO], normal, [F32_ONE, F32_ONE]),
        ];
        let indices: Vec<u32> = vec![0, 2, 1, 1, 2, 3];
        proof {
            assert(indices@ =~= seq![0u32, 2, 1, 1, 2, 3]);
        }
        Mesh { submeshes: vec![Submesh { vertices, indices, material: None }] }
    }
}

impl AssetKey for Mesh {
    open spec fn type_key_spec() -> u64 {
        3
    }

    fn type_key() -> u64 {
        3
    }
}

} // verus!
