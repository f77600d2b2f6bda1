//! The visual server's registration half: it mirrors scene content into
//! GPU-side resources, lazily and deduplicated.
//!
//! GPU resources are represented by numeric ids; creating or updating one is
//! expressed as a [`GpuCommand`] pushed onto an internal queue that the host's
//! render backend drains and executes. Content caches (meshes, materials,
//! textures) are keyed by asset handle: an entry is built the first time a
//! handle is seen and reused afterwards, so re-registering every visible node
//! each frame costs one cache lookup, not one GPU allocation. Per-instance
//! records (mesh instances, lights, texts) are keyed by [`UniqueNodeId`];
//! `reset_scene` clears them but deliberately keeps the handle-keyed caches,
//! which stay valid across scene swaps. `notify_asset_changes` rebuilds
//! exactly the mirrors that depend on a changed asset.
use std::collections::HashMap;

use vstd::prelude::*;

use crate::arena::{AssetKey, Handle};
use crate::asset_server::{AssetChanges, AssetServer};
use crate::color::Color;
use crate::image::Image;
use crate::light::Light;
use crate::material::Material;
use crate::mesh::{Mesh, Vertex};
use crate::scene::{scene_wf_deep, NodeData, NodeId, Scene, UniqueNodeId};
use crate::transform::{affine_identity, mul_affine};

verus! {

/// The cache key of a typed handle: its slot index.
pub open spec fn hkey<T>(h: Handle<T>) -> u32 {
    h@ as u32
}

/// The cache key of a unique node id: its packed form.
pub open spec fn ukey(id: UniqueNodeId) -> u64 {
    id.encode_spec() as u64
}

/// The data of a GPU-side material uniform: the base color and two small
/// integer flags.
#[derive(Debug, Clone, Copy)]
pub struct MaterialUniform {
    pub base_color: Color,
    pub billboard_mode: u32,
    pub unlit: u32,
}

/// The data of a GPU-side light uniform. `radius` holds a float bit pattern,
/// zero for a directional light; `kind` is the light kind's id.
#[derive(Debug, Clone, Copy)]
pub struct LightUniform {
    pub transform: glam::Affine3A,
    pub color: Color,
    pub radius: u32,
    pub kind: u32,
}

/// One instruction for the host's render backend. Ids name resources; a
/// `Create*` command defines the id it carries, the other fields reference
/// ids defined by earlier commands.
#[derive(Debug)]
pub enum GpuCommand {
    CreateVertexBuffer { id: u64, vertices: Vec<Vertex> },
    CreateIndexBuffer { id: u64, indices: Vec<u32> },
    /// `linear` selects a non-sRGB texture format (used for the font atlas).
    CreateColorTexture {
        id: u64,
        width: u32,
        height: u32,
        data: Vec<u8>,
        mip_level_count: u32,
        linear: bool,
    },
    CreateMaterialUniformBuffer { id: u64, uniform: MaterialUniform },
    /// `base_color_texture` of `None` means the backend's built-in white
    /// texture.
    CreateMaterialBindGroup { id: u64, uniform_buffer: u64, base_color_texture: Option<u64> },
    CreateModelUniformBuffer { id: u64, transform: glam::Affine3A },
    UpdateModelUniformBuffer { id: u64, transform: glam::Affine3A },
    CreateModelBindGroup { id: u64, uniform_buffer: u64 },
    CreateShadowMap { id: u64 },
    CreateLightUniformBuffer { id: u64, uniform: LightUniform },
    UpdateLightUniformBuffer { id: u64, uniform: LightUniform },
    CreateLightBindGroup { id: u64, uniform_buffer: u64, shadow_map: u64 },
    /// The backend lays the glyph quads out from the text transform and size
    /// (a float bit pattern); glyph ids are already clamped to the font's
    /// range.
    CreateTextInstanceBuffer { id: u64, transform: glam::Affine3A, size: u32, glyphs: Vec<u8> },
    /// Refill an existing text node's glyph instances in place.
    UpdateTextInstanceBuffer { id: u64, transform: glam::Affine3A, size: u32, glyphs: Vec<u8> },
    /// Re-point the text pipeline at a rebuilt font texture.
    UpdateFontTexture { texture: u64 },
}

/// The GPU mirror of one submesh: its buffers and the material to draw it
/// with (the mesh's own, or the default material).
#[derive(Debug, Clone, Copy)]
pub struct RenderSubmesh {
    pub vertex_buffer: u64,
    pub index_buffer: u64,
    pub index_count: u32,
    pub material: Handle<Material>,
}

/// The GPU mirror of one mesh.
#[derive(Debug, Clone)]
pub struct RenderMesh {
    pub submeshes: Vec<RenderSubmesh>,
}

/// The GPU mirror of one material.
#[derive(Debug, Clone)]
pub struct RenderMaterial {
    pub bind_group: u64,
    pub uniform_buffer: u64,
    pub used_textures: Vec<Handle<Image>>,
}

/// The per-instance record of one mesh-bearing scene node.
#[derive(Debug, Clone, Copy)]
pub struct RenderMeshInstance {
    pub model_uniform_buffer: u64,
    pub model_bind_group: u64,
    pub mesh: Handle<Mesh>,
    pub material_override: Option<Handle<Material>>,
}

/// The per-instance record of one light-bearing scene node.
#[derive(Debug, Clone, Copy)]
pub struct RenderLight {
    pub uniform_buffer: u64,
    pub bind_group: u64,
    pub shadow_map: u64,
}

/// The per-instance record of one text-bearing scene node.
#[derive(Debug, Clone, Copy)]
pub struct RenderText {
    pub instance_buffer: u64,
    pub instance_count: u32,
}

/// A mesh handle the visual server can register: it points at a mesh of the
/// server whose submeshes only reference materials that can themselves be
/// registered, with index counts a GPU draw call can express.
pub open spec fn mesh_ok(server: AssetServer, h: Handle<Mesh>) -> bool {
    &&& server.mesh_valid(h)
    &&& forall|i: int|
        0 <= i < server.meshes@[h@].submeshes@.len() ==> {
            &&& (#[trigger] server.meshes@[h@].submeshes@[i]).indices@.len() <= u32::MAX
            &&& match server.meshes@[h@].submeshes@[i].material {
                Some(m) => material_ok(server, m),
                None => true,
            }
        }
}

/// A material handle the visual server can register: it points at a material
/// of the server whose base color image, if any, is a valid image handle.
pub open spec fn material_ok(server: AssetServer, h: Handle<Material>) -> bool {
    &&& server.material_valid(h)
    &&& match server.materials@[h@].base_color_image {
        Some(img) => server.image_valid(img),
        None => true,
    }
}

/// Every asset reference reachable from the scene's nodes can be registered
/// against the given server; nested sub-scenes included.
pub open spec fn scene_assets_ok(s: Scene, server: AssetServer) -> bool
    decreases s,
    via scene_assets_ok_dec
{
    nodes_assets_ok(s.nodes@, server)
}

#[via_fn]
proof fn scene_assets_ok_dec(s: Scene, server: AssetServer) {
    crate::arena::lemma_arena_decreases_to_view(s.nodes);
    assert(decreases_to!(s => s.nodes));
    assert(decreases_to!(s => s.nodes@));
}

/// `scene_assets_ok`, sequence form.
pub open spec fn nodes_assets_ok(nodes: Seq<crate::scene::Node>, server: AssetServer) -> bool
    decreases nodes,
{
    if nodes.len() == 0 {
        true
    } else {
        node_assets_ok(nodes[0], server) && nodes_assets_ok(nodes.drop_first(), server)
    }
}

/// `scene_assets_ok`, single node form.
pub open spec fn node_assets_ok(n: crate::scene::Node, server: AssetServer) -> bool
    decreases n,
{
    match n.data {
        NodeData::Mesh(h) => mesh_ok(server, h),
        NodeData::Scene(sub) => scene_assets_ok(*sub, server),
        _ => true,
    }
}

/// Sequence-level asset soundness coincides with elementwise soundness.
pub proof fn lemma_nodes_assets_ok_index(nodes: Seq<crate::scene::Node>, server: AssetServer)
    requires
        nodes_assets_ok(nodes, server),
    ensures
        forall|i: int| 0 <= i < nodes.len() ==> node_assets_ok(#[trigger] nodes[i], server),
    decreases nodes,
{
    if nodes.len() > 0 {
        lemma_nodes_assets_ok_index(nodes.drop_first(), server);
        assert forall|i: int|
            0 <= i < nodes.len() implies node_assets_ok(#[trigger] nodes[i], server) by {
            if i > 0 {
                assert(nodes.drop_first()[i - 1] == nodes[i]);
            }
        }
    }
}

/// Every entry of `a` survives unchanged into `b`.
pub open spec fn map_grows<K, V>(a: Map<K, V>, b: Map<K, V>) -> bool {
    forall|k: K| #[trigger] a.contains_key(k) ==> b.contains_key(k) && b[k] == a[k]
}

/// Mirrors scene content into GPU resources; see the module documentation.
#[derive(Debug)]
pub struct VisualServer {
    pub meshes: HashMap<u32, RenderMesh>,
    pub materials: HashMap<u32, RenderMaterial>,
    pub material_keys: Vec<Handle<Material>>,
    pub textures: HashMap<u32, u64>,
    pub mesh_instances: HashMap<u64, RenderMeshInstance>,
    pub lights: HashMap<u64, RenderLight>,
    pub texts: HashMap<u64, RenderText>,
    pub font_handle: Option<Handle<Image>>,
    pub default_material: Option<Handle<Material>>,
    pub quad_mesh: Option<Handle<Mesh>>,
    pub next_resource_id: u64,
    pub commands: Vec<GpuCommand>,
}

/// A cached mesh only references cached materials.
pub open spec fn render_mesh_wf(m: RenderMesh, vs: VisualServer) -> bool {
    forall|i: int|
        0 <= i < m.submeshes@.len() ==> vs.materials@.contains_key(
            hkey((#[trigger] m.submeshes@[i]).material),
        )
}

/// A cached material only references cached textures.
pub open spec fn render_material_wf(m: RenderMaterial, vs: VisualServer) -> bool {
    forall|i: int|
        0 <= i < m.used_textures@.len() ==> vs.textures@.contains_key(
            hkey(#[trigger] m.used_textures@[i]),
        )
}

/// An instance only references a cached mesh, and a cached material when it
/// overrides one.
pub open spec fn instance_wf(inst: RenderMeshInstance, vs: VisualServer) -> bool {
    &&& vs.meshes@.contains_key(hkey(inst.mesh))
    &&& match inst.material_override {
        Some(m) => vs.materials@.contains_key(hkey(m)),
        None => true,
    }
}

impl VisualServer {
    /// Structural soundness of the caches, relative to the asset server they
    /// mirror: default resources are registered; every cached key points at a
    /// slot of the server; cached meshes only reference cached materials,
    /// cached materials only cached textures, instances only cached meshes
    /// and materials; `material_keys` lists exactly the material cache's
    /// keys, duplicate-free, so rebuild passes visit each cached material
    /// once; and the server-side image of every cached material is itself
    /// cached, so a rebuild never misses its texture.
    pub open spec fn wf_for(self, server: AssetServer) -> bool {
        &&& self.caches_wf(server)
        &&& self.default_material matches Some(dm) && material_ok(server, dm)
            && self.materials@.contains_key(hkey(dm))
        &&& self.quad_mesh matches Some(qm) && mesh_ok(server, qm) && self.meshes@.contains_key(
            hkey(qm),
        )
    }

}


/// When the material cache's keys and the key list are unchanged, the key
/// list still describes the cache, whatever else changed.
pub proof fn lemma_material_keys_stable(pre: VisualServer, post: VisualServer)
    requires
        pre.material_keys_wf(),
        post.material_keys@ == pre.material_keys@,
        post.materials@.dom() == pre.materials@.dom(),
    ensures
        post.material_keys_wf(),
{
    assert forall|i: int|
        0 <= i < post.material_keys@.len() implies post.materials@.contains_key(
        hkey(#[trigger] post.material_keys@[i]),
    ) by {
        assert(pre.materials@.contains_key(hkey(pre.material_keys@[i])));
    }
    assert forall|k: u32| #[trigger] post.materials@.contains_key(k) implies exists|i: int|
        0 <= i < post.material_keys@.len() && hkey(#[trigger] post.material_keys@[i]) == k by {
        assert(pre.materials@.contains_key(k));
        let i = choose|i: int|
            0 <= i < pre.material_keys@.len() && hkey(#[trigger] pre.material_keys@[i]) == k;
        assert(hkey(post.material_keys@[i]) == k);
    }
    assert forall|i: int, j: int|
        0 <= i < j < post.material_keys@.len() implies hkey(post.material_keys@[i]) != hkey(
        post.material_keys@[j],
    ) by {
        assert(hkey(pre.material_keys@[i]) != hkey(pre.material_keys@[j]));
    }
}

} // verus!

verus! {

/// Copies a vector of plain copyable values.
fn clone_copy_vec<T: Copy>(v: &Vec<T>) -> (r: Vec<T>)
    ensures
        r@ == v@,
{
    let mut r: Vec<T> = Vec::new();
    let n = v.len();
    for i in 0..n
        invariant
            n == v@.len(),
            r@ =~= v@.subrange(0, i as int),
    {
        r.push(v[i]);
    }
    proof {
        assert(r@ =~= v@);
    }
    r
}

impl VisualServer {
    /// Hands out the next resource id.
    fn alloc_id(&mut self) -> (id: u64)
        ensures
            id == old(self).next_resource_id,
            final(self).next_resource_id == old(self).next_resource_id.wrapping_add(1),
            final(self).meshes == old(self).meshes,
            final(self).materials == old(self).materials,
            final(self).material_keys == old(self).material_keys,
            final(self).textures == old(self).textures,
            final(self).mesh_instances == old(self).mesh_instances,
            final(self).lights == old(self).lights,
            final(self).texts == old(self).texts,
            final(self).font_handle == old(self).font_handle,
            final(self).default_material == old(self).default_material,
            final(self).quad_mesh == old(self).quad_mesh,
            final(self).commands == old(self).commands,
    {
        let id = self.next_resource_id;
        self.next_resource_id = self.next_resource_id.wrapping_add(1);
        id
    }

    /// The caches' structural soundness, without demanding that the default
    /// material and quad mesh exist yet; what construction establishes piece
    /// by piece.
    pub open spec fn caches_wf(self, server: AssetServer) -> bool {
        &&& (self.font_handle matches Some(f) ==> server.image_valid(f))
        &&& forall|k: u32| #[trigger]
            self.meshes@.contains_key(k) ==> k < server.meshes@.len() && render_mesh_wf(
                self.meshes@[k],
                self,
            )
        &&& forall|k: u32| #[trigger]
            self.materials@.contains_key(k) ==> {
                &&& k < server.materials@.len()
                &&& render_material_wf(self.materials@[k], self)
                &&& (server.materials@[k as int].base_color_image matches Some(img)
                    ==> server.image_valid(img) && self.textures@.contains_key(hkey(img)))
            }
        &&& forall|k: u32| #[trigger] self.textures@.contains_key(k) ==> k < server.images@.len()
        &&& forall|k: u64| #[trigger]
            self.mesh_instances@.contains_key(k) ==> instance_wf(self.mesh_instances@[k], self)
        &&& self.material_keys_wf()
    }

    /// `material_keys` lists exactly the material cache's keys, each once.
    pub open spec fn material_keys_wf(self) -> bool {
        &&& forall|i: int|
            0 <= i < self.material_keys@.len() ==> self.materials@.contains_key(
                hkey(#[trigger] self.material_keys@[i]),
            )
        &&& forall|k: u32| #[trigger]
            self.materials@.contains_key(k) ==> exists|i: int|
                0 <= i < self.material_keys@.len() && hkey(#[trigger] self.material_keys@[i]) == k
        &&& forall|i: int, j: int|
            0 <= i < j < self.material_keys@.len() ==> hkey(self.material_keys@[i]) != hkey(
                self.material_keys@[j],
            )
    }

    /// Builds (or rebuilds) the GPU texture mirroring an image: one create
    /// command carrying the image's current pixels, whose id the texture
    /// cache then maps the image to. Entries of other images are untouched.
    pub fn update_texture(&mut self, h: Handle<Image>, server: &AssetServer)
        requires
            old(self).caches_wf(*server),
            server.wf(),
            server.image_valid(h),
        ensures
            final(self).caches_wf(*server),
            final(self).textures@.dom() =~= old(self).textures@.dom().insert(hkey(h)),
            forall|k: u32|
                #[trigger] old(self).textures@.contains_key(k) && k != hkey(h) ==> final(self).textures@[k] == old(self).textures@[k],
            final(self).commands@.len() == old(self).commands@.len() + 1,
            final(self).commands@.drop_last() == old(self).commands@,
            final(self).commands@.last() matches GpuCommand::CreateColorTexture {
                id,
                width,
                height,
                data,
                mip_level_count,
                linear,
            } && id == final(self).textures@[hkey(h)] && width == server.images@[h@].width_spec()
                && height == server.images@[h@].height_spec() && data@ == server.images@[
                h@
            ].data_spec() && mip_level_count == server.images@[h@].mip_level_count_spec()
                && !linear,
            final(self).meshes == old(self).meshes,
            final(self).materials == old(self).materials,
            final(self).material_keys == old(self).material_keys,
            final(self).mesh_instances == old(self).mesh_instances,
            final(self).lights == old(self).lights,
            final(self).texts == old(self).texts,
            final(self).font_handle == old(self).font_handle,
            final(self).default_material == old(self).default_material,
            final(self).quad_mesh == old(self).quad_mesh,
    {
        let image = server.get_image(h);
        let id = self.alloc_id();
        self.commands.push(
            GpuCommand::CreateColorTexture {
                id,
                width: image.width(),
                height: image.height(),
                data: clone_copy_vec(image.data()),
                mip_level_count: image.mip_level_count(),
                linear: false,
            },
        );
        self.textures.insert(h.raw_index(), id);
        proof {
            assert(self.commands@.drop_last() =~= old(self).commands@);
            assert(self.textures@.dom() =~= old(self).textures@.dom().insert(hkey(h)));
            lemma_material_keys_stable(*old(self), *self);
        }
    }

    /// Ensures an image has a GPU texture mirror, building it on first sight
    /// and reusing it afterwards.
    pub fn register_texture(&mut self, h: Handle<Image>, server: &AssetServer)
        requires
            old(self).caches_wf(*server),
            server.wf(),
            server.image_valid(h),
        ensures
            final(self).caches_wf(*server),
            final(self).textures@.contains_key(hkey(h)),
            old(self).textures@.contains_key(hkey(h)) ==> *final(self) == *old(self),
            final(self).textures@.dom() =~= old(self).textures@.dom().insert(hkey(h)),
            forall|k: u32|
                #[trigger] old(self).textures@.contains_key(k) && k != hkey(h) ==> final(self).textures@[k] == old(self).textures@[k],
            old(self).commands@.is_prefix_of(final(self).commands@),
            final(self).meshes == old(self).meshes,
            final(self).materials == old(self).materials,
            final(self).material_keys == old(self).material_keys,
            final(self).mesh_instances == old(self).mesh_instances,
            final(self).lights == old(self).lights,
            final(self).texts == old(self).texts,
            final(self).font_handle == old(self).font_handle,
            final(self).default_material == old(self).default_material,
            final(self).quad_mesh == old(self).quad_mesh,
    {
        if !self.textures.contains_key(&h.raw_index()) {
            self.update_texture(h, server);
        } else {
            proof {
                assert(old(self).textures@.dom() =~= old(self).textures@.dom().insert(hkey(h)));
            }
        }
    }

    /// Builds (or rebuilds) the GPU mirror of a material from its current
    /// content: a fresh uniform buffer and bind group, wired to the cached
    /// texture of its base color image (or the backend's white fallback).
    /// Other materials' mirrors are untouched.
    pub fn update_render_material_data(&mut self, h: Handle<Material>, server: &AssetServer)
        requires
            old(self).caches_wf(*server),
            server.wf(),
            material_ok(*server, h),
            server.materials@[h@].base_color_image matches Some(img) ==> old(self).textures@.contains_key(hkey(img)),
        ensures
            final(self).caches_wf(*server),
            final(self).materials@.contains_key(hkey(h)),
            final(self).materials@.dom() =~= old(self).materials@.dom().insert(hkey(h)),
            forall|k: u32|
                #[trigger] old(self).materials@.contains_key(k) && k != hkey(h) ==> final(self).materials@[k] == old(self).materials@[k],
            final(self).materials@[hkey(h)].used_textures@ == match server.materials@[
                h@
            ].base_color_image {
                Some(img) => seq![img],
                None => Seq::<Handle<Image>>::empty(),
            },
            old(self).materials@.contains_key(hkey(h)) ==> final(self).material_keys == old(self).material_keys,
            final(self).commands@.len() == old(self).commands@.len() + 2,
            material_mirror_built(
                final(self).commands@,
                old(self).commands@.len() as int,
                final(self).materials@[hkey(h)],
                server.materials@[h@],
                match server.materials@[h@].base_color_image {
                    Some(img) => Some(old(self).textures@[hkey(img)]),
                    None => None::<u64>,
                },
            ),
            old(self).commands@.is_prefix_of(final(self).commands@),
            final(self).meshes == old(self).meshes,
            final(self).textures == old(self).textures,
            final(self).mesh_instances == old(self).mesh_instances,
            final(self).lights == old(self).lights,
            final(self).texts == old(self).texts,
            final(self).font_handle == old(self).font_handle,
            final(self).default_material == old(self).default_material,
            final(self).quad_mesh == old(self).quad_mesh,
    {
        let material = *server.get_material(h);
        let uniform = MaterialUniform {
            base_color: material.base_color,
            billboard_mode: material.billboard_mode.id(),
            unlit: if material.unlit {
                1
            } else {
                0
            },
        };
        let uniform_buffer = self.alloc_id();
        self.commands.push(GpuCommand::CreateMaterialUniformBuffer { id: uniform_buffer, uniform });
        let base_color_texture: Option<u64> = match material.base_color_image {
            Some(img) => {
                match self.textures.get(&img.raw_index()) {
                    Some(t) => Some(*t),
                    None => vstd::pervasive::unreached(),
                }
            },
            None => None,
        };
        let bind_group = self.alloc_id();
        self.commands.push(
            GpuCommand::CreateMaterialBindGroup { id: bind_group, uniform_buffer, base_color_texture },
        );
        let mut used_textures: Vec<Handle<Image>> = Vec::new();
        match material.base_color_image {
            Some(img) => {
                used_textures.push(img);
            },
            None => {},
        }
        let key = h.raw_index();
        if !self.materials.contains_key(&key) {
            self.material_keys.push(h);
        }
        self.materials.insert(key, RenderMaterial { bind_group, uniform_buffer, used_textures });
        proof {
            let base = old(self).commands@.len() as int;
            assert(self.commands@[base] matches GpuCommand::CreateMaterialUniformBuffer {
                id,
                uniform,
            } && id == self.materials@[hkey(h)].uniform_buffer && uniform == material_uniform_of(
                server.materials@[h@],
            ));
            assert(self.commands@[base + 1] matches GpuCommand::CreateMaterialBindGroup {
                id,
                uniform_buffer: ub,
                base_color_texture: t,
            } && id == self.materials@[hkey(h)].bind_group && ub == self.materials@[hkey(
                h,
            )].uniform_buffer && t == match server.materials@[h@].base_color_image {
                Some(img) => Some(old(self).textures@[hkey(img)]),
                None => None::<u64>,
            });
            assert(self.materials@.dom() =~= old(self).materials@.dom().insert(hkey(h)));
            assert forall|k: u32| #[trigger]
                self.materials@.contains_key(k) implies exists|i: int|
                0 <= i < self.material_keys@.len() && hkey(#[trigger] self.material_keys@[i])
                    == k by {
                if k == hkey(h) {
                    if old(self).materials@.contains_key(k) {
                        let i = choose|i: int|
                            0 <= i < old(self).material_keys@.len() && hkey(
                                #[trigger] old(self).material_keys@[i],
                            ) == k;
                        assert(hkey(self.material_keys@[i]) == k);
                    } else {
                        assert(hkey(self.material_keys@[self.material_keys@.len() - 1]) == k);
                    }
                } else {
                    let i = choose|i: int|
                        0 <= i < old(self).material_keys@.len() && hkey(
                            #[trigger] old(self).material_keys@[i],
                        ) == k;
                    assert(hkey(self.material_keys@[i]) == k);
                }
            }
        }
    }

    /// Ensures a material has a GPU mirror, building it (and the texture of
    /// its base color image) on first sight and reusing it afterwards.
    pub fn register_material(&mut self, h: Handle<Material>, server: &AssetServer)
        requires
            old(self).caches_wf(*server),
            server.wf(),
            material_ok(*server, h),
        ensures
            final(self).caches_wf(*server),
            final(self).materials@.contains_key(hkey(h)),
            old(self).materials@.contains_key(hkey(h)) ==> *final(self) == *old(self),
            final(self).materials@.dom() =~= old(self).materials@.dom().insert(hkey(h)),
            forall|k: u32|
                #[trigger] old(self).materials@.contains_key(k) && k != hkey(h) ==> final(self).materials@[k] == old(self).materials@[k],
            !old(self).materials@.contains_key(hkey(h)) ==> final(self).textures@.dom() =~= match server.materials@[h@].base_color_image {
                Some(img) => old(self).textures@.dom().insert(hkey(img)),
                None => old(self).textures@.dom(),
            },
            !old(self).materials@.contains_key(hkey(h)) ==> material_mirror_built(
                final(self).commands@,
                old(self).commands@.len() as int,
                final(self).materials@[hkey(h)],
                server.materials@[h@],
                match server.materials@[h@].base_color_image {
                    Some(img) => Some(final(self).textures@[hkey(img)]),
                    None => None::<u64>,
                },
            ),
            map_grows(old(self).textures@, final(self).textures@),
            old(self).commands@.is_prefix_of(final(self).commands@),
            final(self).meshes == old(self).meshes,
            final(self).mesh_instances == old(self).mesh_instances,
            final(self).lights == old(self).lights,
            final(self).texts == old(self).texts,
            final(self).font_handle == old(self).font_handle,
            final(self).default_material == old(self).default_material,
            final(self).quad_mesh == old(self).quad_mesh,
    {
        if self.materials.contains_key(&h.raw_index()) {
            proof {
                assert(old(self).materials@.dom() =~= old(self).materials@.dom().insert(hkey(h)));
            }
            return ;
        }
        let material = *server.get_material(h);
        match material.base_color_image {
            Some(img) => {
                self.register_texture(img, server);
            },
            None => {},
        }
        self.update_render_material_data(h, server);
    }
}

} // verus!

verus! {

impl VisualServer {
    /// Ensures a mesh has a GPU mirror. On first sight this builds exactly
    /// one vertex/index buffer pair per submesh and registers each submesh's
    /// material (the default material where a submesh has none); re-calling
    /// for a cached mesh changes nothing at all, which is what makes
    /// registering every visible mesh every frame cheap.
    pub fn register_mesh(&mut self, handle: Handle<Mesh>, server: &AssetServer)
        requires
            old(self).caches_wf(*server),
            server.wf(),
            mesh_ok(*server, handle),
            old(self).default_material matches Some(dm) && material_ok(*server, dm) && old(self).materials@.contains_key(hkey(dm)),
        ensures
            final(self).caches_wf(*server),
            final(self).meshes@.contains_key(hkey(handle)),
            old(self).meshes@.contains_key(hkey(handle)) ==> *final(self) == *old(self),
            final(self).meshes@.dom() =~= old(self).meshes@.dom().insert(hkey(handle)),
            forall|k: u32|
                #[trigger] old(self).meshes@.contains_key(k) ==> final(self).meshes@[k] == old(self).meshes@[k],
            !old(self).meshes@.contains_key(hkey(handle)) ==> final(self).meshes@[hkey(
                handle,
            )].submeshes@.len() == server.meshes@[handle@].submeshes@.len(),
            !old(self).meshes@.contains_key(hkey(handle)) ==> forall|i: int|
                0 <= i < server.meshes@[handle@].submeshes@.len() ==> {
                    &&& (#[trigger] final(self).meshes@[hkey(handle)].submeshes@[i]).index_count
                        == server.meshes@[handle@].submeshes@[i].indices@.len()
                    &&& match server.meshes@[handle@].submeshes@[i].material {
                        Some(m) => final(self).meshes@[hkey(handle)].submeshes@[i].material == m,
                        None => Some(final(self).meshes@[hkey(handle)].submeshes@[i].material)
                            == old(self).default_material,
                    }
                    &&& submesh_buffers_built(
                        final(self).commands@,
                        old(self).commands@.len() as int,
                        final(self).meshes@[hkey(handle)].submeshes@[i],
                        server.meshes@[handle@].submeshes@[i],
                    )
                },
            map_grows(old(self).materials@, final(self).materials@),
            map_grows(old(self).textures@, final(self).textures@),
            old(self).commands@.is_prefix_of(final(self).commands@),
            final(self).mesh_instances == old(self).mesh_instances,
            final(self).lights == old(self).lights,
            final(self).texts == old(self).texts,
            final(self).font_handle == old(self).font_handle,
            final(self).default_material == old(self).default_material,
            final(self).quad_mesh == old(self).quad_mesh,
    {
        let key = handle.raw_index();
        if self.meshes.contains_key(&key) {
            proof {
                assert(old(self).meshes@.dom() =~= old(self).meshes@.dom().insert(hkey(handle)));
            }
            return ;
        }
        let default_material = match self.default_material {
            Some(dm) => dm,
            None => vstd::pervasive::unreached(),
        };
        let mesh = server.get_mesh(handle);
        let n = mesh.submeshes.len();
        let mut render_submeshes: Vec<RenderSubmesh> = Vec::new();
        for i in 0..n
            invariant
                server.wf(),
                mesh_ok(*server, handle),
                server.mesh_valid(handle),
                *mesh == server.meshes@[handle@],
                n == server.meshes@[handle@].submeshes@.len(),
                self.caches_wf(*server),
                self.default_material matches Some(dm2) && dm2 == default_material,
                self.materials@.contains_key(hkey(default_material)),
                render_submeshes@.len() == i,
                forall|j: int|
                    0 <= j < render_submeshes@.len() ==> self.materials@.contains_key(
                        hkey((#[trigger] render_submeshes@[j]).material),
                    ),
                forall|j: int|
                    0 <= j < render_submeshes@.len() ==> {
                        &&& (#[trigger] render_submeshes@[j]).index_count == server.meshes@[
                            handle@
                        ].submeshes@[j].indices@.len()
                        &&& match server.meshes@[handle@].submeshes@[j].material {
                            Some(m) => render_submeshes@[j].material == m,
                            None => render_submeshes@[j].material == default_material,
                        }
                        &&& submesh_buffers_built(
                            self.commands@,
                            old(self).commands@.len() as int,
                            render_submeshes@[j],
                            server.meshes@[handle@].submeshes@[j],
                        )
                    },
                old(self).default_material matches Some(dm3) && dm3 == default_material,
                map_grows(old(self).materials@, self.materials@),
                map_grows(old(self).textures@, self.textures@),
                self.meshes == old(self).meshes,
                old(self).commands@.is_prefix_of(self.commands@),
                self.mesh_instances == old(self).mesh_instances,
                self.lights == old(self).lights,
                self.texts == old(self).texts,
                self.font_handle == old(self).font_handle,
                self.quad_mesh == old(self).quad_mesh,
        {
            let ghost materials_before = self.materials@;
            let ghost commands_before = self.commands@;
            let sm = &mesh.submeshes[i];
            let material = match sm.material {
                Some(m) => {
                    self.register_material(m, server);
                    m
                },
                None => default_material,
            };
            let ghost registered = *self;
            let vertex_buffer = self.alloc_id();
            self.commands.push(
                GpuCommand::CreateVertexBuffer {
                    id: vertex_buffer,
                    vertices: clone_copy_vec(&sm.vertices),
                },
            );
            let index_buffer = self.alloc_id();
            self.commands.push(
                GpuCommand::CreateIndexBuffer {
                    id: index_buffer,
                    indices: clone_copy_vec(&sm.indices),
                },
            );
            let index_count = sm.indices.len() as u32;
            render_submeshes.push(
                RenderSubmesh { vertex_buffer, index_buffer, index_count, material },
            );
            proof {
                assert(commands_before.is_prefix_of(self.commands@));
                lemma_prefix_extends(commands_before, self.commands@);
                lemma_material_keys_stable(registered, *self);
                assert forall|j: int|
                    0 <= j < render_submeshes@.len() implies self.materials@.contains_key(
                    hkey((#[trigger] render_submeshes@[j]).material),
                ) by {
                    if j < render_submeshes@.len() - 1 {
                        assert(materials_before.contains_key(
                            hkey(render_submeshes@[j].material),
                        ));
                    }
                }
                let base = old(self).commands@.len() as int;
                assert forall|j: int|
                    0 <= j < render_submeshes@.len() implies submesh_buffers_built(
                    self.commands@,
                    base,
                    #[trigger] render_submeshes@[j],
                    server.meshes@[handle@].submeshes@[j],
                ) by {
                    if j < render_submeshes@.len() - 1 {
                        lemma_submesh_buffers_built_extended(
                            commands_before,
                            self.commands@,
                            base,
                            render_submeshes@[j],
                            server.meshes@[handle@].submeshes@[j],
                        );
                    } else {
                        let v = self.commands@.len() - 2;
                        let w = self.commands@.len() - 1;
                        assert(self.commands@[v] matches GpuCommand::CreateVertexBuffer {
                            id,
                            vertices,
                        } && id == render_submeshes@[j].vertex_buffer && vertices@
                            == server.meshes@[handle@].submeshes@[j].vertices@);
                        assert(self.commands@[w] matches GpuCommand::CreateIndexBuffer {
                            id,
                            indices,
                        } && id == render_submeshes@[j].index_buffer && indices@ == server.meshes@[
                            handle@
                        ].submeshes@[j].indices@);
                    }
                }
            }
        }
        let ghost before_insert = *self;
        self.meshes.insert(key, RenderMesh { submeshes: render_submeshes });
        proof {
            lemma_material_keys_stable(before_insert, *self);
            assert(self.meshes@.dom() =~= old(self).meshes@.dom().insert(hkey(handle)));
            assert forall|k: u32| #[trigger]
                self.meshes@.contains_key(k) implies k < server.meshes@.len() && render_mesh_wf(
                self.meshes@[k],
                *self,
            ) by {
                if k != hkey(handle) {
                    assert(old(self).meshes@.contains_key(k));
                    assert(render_mesh_wf(old(self).meshes@[k], *old(self)));
                    assert forall|j: int|
                        0 <= j < self.meshes@[k].submeshes@.len() implies self.materials@.contains_key(
                        hkey((#[trigger] self.meshes@[k].submeshes@[j]).material),
                    ) by {
                        assert(old(self).materials@.contains_key(
                            hkey(old(self).meshes@[k].submeshes@[j].material),
                        ));
                    }
                }
            }
            assert forall|k: u64| #[trigger]
                self.mesh_instances@.contains_key(k) implies instance_wf(
                self.mesh_instances@[k],
                *self,
            ) by {
                assert(instance_wf(old(self).mesh_instances@[k], *old(self)));
            }
        }
    }

    /// A visual server with empty caches, after registering its two built-in
    /// resources into the given asset server: the default material (used by
    /// submeshes that name none) and the unit quad mesh (used by sprites).
    pub fn new(server: &mut AssetServer) -> (vs: VisualServer)
        requires
            old(server).wf(),
            old(server).materials@.len() < u32::MAX,
            old(server).meshes@.len() < u32::MAX,
        ensures
            final(server).wf(),
            vs.wf_for(*final(server)),
            vs.mesh_instances@.dom() =~= Set::<u64>::empty(),
            vs.lights@.dom() =~= Set::<u64>::empty(),
            vs.texts@.dom() =~= Set::<u64>::empty(),
            vs.default_material matches Some(dm) && dm@ == old(server).materials@.len() && final(server).materials@[dm@] == Material::default_spec() && material_mirror_built(
                vs.commands@,
                0,
                vs.materials@[hkey(dm)],
                Material::default_spec(),
                None::<u64>,
            ),
            vs.quad_mesh matches Some(qm) && qm@ == old(server).meshes@.len() && {
                &&& final(server).meshes@[qm@].submeshes@.len() == 1
                &&& final(server).meshes@[qm@].submeshes@[0].indices@ == seq![0u32, 2, 1, 1, 2, 3]
                &&& final(server).meshes@[qm@].submeshes@[0].vertices@.len() == 4
                &&& final(server).meshes@[qm@].submeshes@[0].material is None
                &&& vs.meshes@[hkey(qm)].submeshes@.len() == 1
                &&& vs.meshes@[hkey(qm)].submeshes@[0].index_count == 6
                &&& Some(vs.meshes@[hkey(qm)].submeshes@[0].material) == vs.default_material
                &&& submesh_buffers_built(
                    vs.commands@,
                    0,
                    vs.meshes@[hkey(qm)].submeshes@[0],
                    final(server).meshes@[qm@].submeshes@[0],
                )
            },
            final(server).materials@.len() == old(server).materials@.len() + 1,
            final(server).meshes@.len() == old(server).meshes@.len() + 1,
            forall|j: int|
                0 <= j < old(server).materials@.len() ==> final(server).materials@[j] == old(server).materials@[j],
            forall|j: int|
                0 <= j < old(server).meshes@.len() ==> final(server).meshes@[j] == old(server).meshes@[j],
            final(server).images == old(server).images,
            final(server).shader_sources == old(server).shader_sources,
            final(server).scenes == old(server).scenes,
            final(server).changes == old(server).changes,
            final(server).pending_loads == old(server).pending_loads,
            final(server).last_changes_check == old(server).last_changes_check,
    {
        let mut vs = VisualServer {
            meshes: HashMap::new(),
            materials: HashMap::new(),
            material_keys: Vec::new(),
            textures: HashMap::new(),
            mesh_instances: HashMap::new(),
            lights: HashMap::new(),
            texts: HashMap::new(),
            font_handle: None,
            default_material: None,
            quad_mesh: None,
            next_resource_id: 1,
            commands: Vec::new(),
        };
        let default_material = server.add_material(Material::default());
        vs.register_material(default_material, server);
        let ghost after_material = vs;
        vs.default_material = Some(default_material);
        proof {
            lemma_material_keys_stable(after_material, vs);
        }
        let quad_mesh = server.add_mesh(Mesh::quad());
        vs.register_mesh(quad_mesh, server);
        let ghost after_quad = vs;
        vs.quad_mesh = Some(quad_mesh);
        proof {
            lemma_material_keys_stable(after_quad, vs);
            assert(vs.mesh_instances@.dom() =~= Set::<u64>::empty());
            assert(vs.lights@.dom() =~= Set::<u64>::empty());
            assert(vs.texts@.dom() =~= Set::<u64>::empty());
        }
        vs
    }

    /// Upserts the per-instance record of a mesh-bearing node: on first
    /// sight, register the mesh and create the instance's model uniform and
    /// bind group; afterwards only update the existing uniform in place, so a
    /// stationary object costs no GPU allocation per frame (when the mesh is
    /// cached too, no resource id is consumed at all).
    pub fn set_mesh_instance(
        &mut self,
        id: UniqueNodeId,
        transform: glam::Affine3A,
        mesh_handle: Handle<Mesh>,
        server: &AssetServer,
    )
        requires
            old(self).wf_for(*server),
            server.wf(),
            mesh_ok(*server, mesh_handle),
        ensures
            final(self).wf_for(*server),
            final(self).mesh_instances@.contains_key(ukey(id)),
            final(self).mesh_instances@[ukey(id)].mesh == mesh_handle,
            final(self).meshes@.contains_key(hkey(mesh_handle)),
            final(self).mesh_instances@.dom() =~= old(self).mesh_instances@.dom().insert(ukey(id)),
            forall|k: u64|
                #[trigger] old(self).mesh_instances@.contains_key(k) && k != ukey(id) ==> final(self).mesh_instances@[k] == old(self).mesh_instances@[k],
            old(self).mesh_instances@.contains_key(ukey(id)) && old(self).meshes@.contains_key(
                hkey(mesh_handle),
            ) ==> {
                &&& final(self).next_resource_id == old(self).next_resource_id
                &&& final(self).meshes == old(self).meshes
                &&& final(self).materials == old(self).materials
                &&& final(self).textures == old(self).textures
                &&& final(self).mesh_instances@[ukey(id)].model_uniform_buffer == old(self).mesh_instances@[ukey(id)].model_uniform_buffer
            },
            old(self).mesh_instances@.contains_key(ukey(id)) ==> final(self).commands@.len()
                >= 1 && (final(self).commands@.last() matches GpuCommand::UpdateModelUniformBuffer {
                id: ub,
                transform: t,
            } && ub == final(self).mesh_instances@[ukey(id)].model_uniform_buffer && t
                == transform),
            !old(self).mesh_instances@.contains_key(ukey(id)) ==> final(self).commands@.len() >= 2
                && (final(self).commands@[final(self).commands@.len() - 2] matches GpuCommand::CreateModelUniformBuffer {
                id: ub,
                transform: t,
            } && ub == final(self).mesh_instances@[ukey(id)].model_uniform_buffer && t
                == transform) && (final(self).commands@.last() matches GpuCommand::CreateModelBindGroup {
                id: bg,
                uniform_buffer: ub2,
            } && bg == final(self).mesh_instances@[ukey(id)].model_bind_group && ub2 == final(self).mesh_instances@[ukey(id)].model_uniform_buffer),
            map_grows(old(self).meshes@, final(self).meshes@),
            map_grows(old(self).materials@, final(self).materials@),
            map_grows(old(self).textures@, final(self).textures@),
            old(self).commands@.is_prefix_of(final(self).commands@),
            final(self).lights == old(self).lights,
            final(self).texts == old(self).texts,
            final(self).font_handle == old(self).font_handle,
            final(self).default_material == old(self).default_material,
            final(self).quad_mesh == old(self).quad_mesh,
    {
        self.register_mesh(mesh_handle, server);
        let ghost after_register = *self;
        let k = id.encode();
        let existing: Option<RenderMeshInstance> = match self.mesh_instances.get(&k) {
            Some(inst) => Some(*inst),
            None => None,
        };
        match existing {
            Some(inst) => {
                self.commands.push(
                    GpuCommand::UpdateModelUniformBuffer {
                        id: inst.model_uniform_buffer,
                        transform,
                    },
                );
                self.mesh_instances.insert(k, RenderMeshInstance { mesh: mesh_handle, ..inst });
            },
            None => {
                let model_uniform_buffer = self.alloc_id();
                self.commands.push(
                    GpuCommand::CreateModelUniformBuffer { id: model_uniform_buffer, transform },
                );
                let model_bind_group = self.alloc_id();
                self.commands.push(
                    GpuCommand::CreateModelBindGroup {
                        id: model_bind_group,
                        uniform_buffer: model_uniform_buffer,
                    },
                );
                self.mesh_instances.insert(
                    k,
                    RenderMeshInstance {
                        model_uniform_buffer,
                        model_bind_group,
                        mesh: mesh_handle,
                        material_override: None,
                    },
                );
            },
        }
        proof {
            lemma_material_keys_stable(after_register, *self);
            assert(self.mesh_instances@.dom() =~= old(self).mesh_instances@.dom().insert(
                ukey(id),
            ));
            assert forall|k2: u64| #[trigger]
                self.mesh_instances@.contains_key(k2) implies instance_wf(
                self.mesh_instances@[k2],
                *self,
            ) by {
                if k2 != ukey(id) {
                    assert(instance_wf(old(self).mesh_instances@[k2], *old(self)));
                } else {
                    match existing {
                        Some(inst) => {
                            assert(instance_wf(old(self).mesh_instances@[ukey(id)], *old(self)));
                        },
                        None => {},
                    }
                }
            }
        }
    }

    /// Upserts the per-instance record of a light-bearing node. The first
    /// sighting creates a shadow map, a light uniform carrying the light's
    /// current data, and their bind group; afterwards only the existing
    /// uniform is refilled in place, so a steady light costs no GPU
    /// allocation per frame.
    pub fn set_light(&mut self, id: UniqueNodeId, transform: glam::Affine3A, light: &Light)
        ensures
            final(self).lights@.dom() =~= old(self).lights@.dom().insert(ukey(id)),
            final(self).lights@.contains_key(ukey(id)),
            forall|k: u64|
                #[trigger] old(self).lights@.contains_key(k) && k != ukey(id) ==> final(self).lights@[k] == old(self).lights@[k],
            old(self).commands@.is_prefix_of(final(self).commands@),
            old(self).lights@.contains_key(ukey(id)) ==> {
                &&& final(self).lights == old(self).lights
                &&& final(self).next_resource_id == old(self).next_resource_id
                &&& final(self).commands@.len() == old(self).commands@.len() + 1
                &&& (final(self).commands@.last() matches GpuCommand::UpdateLightUniformBuffer {
                    id: ub,
                    uniform,
                } && ub == final(self).lights@[ukey(id)].uniform_buffer && uniform
                    == light_uniform_of(transform, *light))
            },
            !old(self).lights@.contains_key(ukey(id)) ==> {
                &&& final(self).commands@.len() == old(self).commands@.len() + 3
                &&& (final(self).commands@[final(self).commands@.len() - 3] matches GpuCommand::CreateShadowMap {
                    id: sm,
                } && sm == final(self).lights@[ukey(id)].shadow_map)
                &&& (final(self).commands@[final(self).commands@.len() - 2] matches GpuCommand::CreateLightUniformBuffer {
                    id: ub,
                    uniform,
                } && ub == final(self).lights@[ukey(id)].uniform_buffer && uniform
                    == light_uniform_of(transform, *light))
                &&& (final(self).commands@.last() matches GpuCommand::CreateLightBindGroup {
                    id: bg,
                    uniform_buffer: ub2,
                    shadow_map: sm2,
                } && bg == final(self).lights@[ukey(id)].bind_group && ub2 == final(self).lights@[ukey(id)].uniform_buffer && sm2 == final(self).lights@[ukey(
                    id,
                )].shadow_map)
            },
            final(self).meshes == old(self).meshes,
            final(self).materials == old(self).materials,
            final(self).material_keys == old(self).material_keys,
            final(self).textures == old(self).textures,
            final(self).mesh_instances == old(self).mesh_instances,
            final(self).texts == old(self).texts,
            final(self).font_handle == old(self).font_handle,
            final(self).default_material == old(self).default_material,
            final(self).quad_mesh == old(self).quad_mesh,
    {
        let uniform = LightUniform {
            transform,
            color: light.color,
            radius: match light.radius() {
                Some(r) => r,
                None => 0,
            },
            kind: light.kind.id(),
        };
        let k = id.encode();
        let existing: Option<RenderLight> = match self.lights.get(&k) {
            Some(l) => Some(*l),
            None => None,
        };
        match existing {
            Some(record) => {
                self.commands.push(
                    GpuCommand::UpdateLightUniformBuffer { id: record.uniform_buffer, uniform },
                );
                proof {
                    assert(old(self).lights@.dom() =~= old(self).lights@.dom().insert(ukey(id)));
                }
            },
            None => {
                let shadow_map = self.alloc_id();
                self.commands.push(GpuCommand::CreateShadowMap { id: shadow_map });
                let uniform_buffer = self.alloc_id();
                self.commands.push(
                    GpuCommand::CreateLightUniformBuffer { id: uniform_buffer, uniform },
                );
                let bind_group = self.alloc_id();
                self.commands.push(
                    GpuCommand::CreateLightBindGroup { id: bind_group, uniform_buffer, shadow_map },
                );
                self.lights.insert(
                    k,
                    RenderLight { uniform_buffer, bind_group, shadow_map },
                );
                proof {
                    assert(self.lights@.dom() =~= old(self).lights@.dom().insert(ukey(id)));
                }
            },
        }
    }

    /// Upserts the per-instance record of a text-bearing node: one glyph
    /// instance per byte, each glyph id clamped to the font's range. The
    /// first sighting creates the instance buffer; afterwards the existing
    /// buffer is refilled in place, so a steady text costs no GPU allocation
    /// per frame.
    pub fn set_text(&mut self, id: UniqueNodeId, transform: &glam::Affine3A, text: &[u8], size: u32)
        requires
            text@.len() <= u32::MAX,
        ensures
            final(self).texts@.dom() =~= old(self).texts@.dom().insert(ukey(id)),
            final(self).texts@.contains_key(ukey(id)),
            final(self).texts@[ukey(id)].instance_count == text@.len(),
            forall|k: u64|
                #[trigger] old(self).texts@.contains_key(k) && k != ukey(id) ==> final(self).texts@[k] == old(self).texts@[k],
            final(self).commands@.len() == old(self).commands@.len() + 1,
            old(self).commands@.is_prefix_of(final(self).commands@),
            old(self).texts@.contains_key(ukey(id)) ==> {
                &&& final(self).next_resource_id == old(self).next_resource_id
                &&& final(self).texts@[ukey(id)].instance_buffer == old(self).texts@[ukey(
                    id,
                )].instance_buffer
                &&& (final(self).commands@.last() matches GpuCommand::UpdateTextInstanceBuffer {
                    id: buf,
                    transform: t,
                    size: s,
                    glyphs,
                } && buf == final(self).texts@[ukey(id)].instance_buffer && t == transform && s
                    == size && glyphs@.len() == text@.len() && (forall|i: int|
                    0 <= i < text@.len() ==> glyphs@[i] == clamp_glyph(#[trigger] text@[i])))
            },
            !old(self).texts@.contains_key(ukey(id)) ==> (final(self).commands@.last() matches GpuCommand::CreateTextInstanceBuffer {
                id: buf,
                transform: t,
                size: s,
                glyphs,
            } && buf == final(self).texts@[ukey(id)].instance_buffer && t == transform && s == size
                && glyphs@.len() == text@.len() && (forall|i: int|
                0 <= i < text@.len() ==> glyphs@[i] == clamp_glyph(#[trigger] text@[i]))),
            final(self).meshes == old(self).meshes,
            final(self).materials == old(self).materials,
            final(self).material_keys == old(self).material_keys,
            final(self).textures == old(self).textures,
            final(self).mesh_instances == old(self).mesh_instances,
            final(self).lights == old(self).lights,
            final(self).font_handle == old(self).font_handle,
            final(self).default_material == old(self).default_material,
            final(self).quad_mesh == old(self).quad_mesh,
    {
        let mut glyphs: Vec<u8> = Vec::new();
        let n = text.len();
        for i in 0..n
            invariant
                n == text@.len(),
                glyphs@.len() == i,
                forall|j: int| 0 <= j < i ==> glyphs@[j] == clamp_glyph(#[trigger] text@[j]),
        {
            let b = text[i];
            glyphs.push(
                if b > 127 {
                    127
                } else {
                    b
                },
            );
        }
        let instance_count = n as u32;
        let k = id.encode();
        let existing: Option<RenderText> = match self.texts.get(&k) {
            Some(t) => Some(*t),
            None => None,
        };
        match existing {
            Some(record) => {
                self.commands.push(
                    GpuCommand::UpdateTextInstanceBuffer {
                        id: record.instance_buffer,
                        transform: *transform,
                        size,
                        glyphs,
                    },
                );
                self.texts.insert(
                    k,
                    RenderText { instance_buffer: record.instance_buffer, instance_count },
                );
            },
            None => {
                let instance_buffer = self.alloc_id();
                self.commands.push(
                    GpuCommand::CreateTextInstanceBuffer {
                        id: instance_buffer,
                        transform: *transform,
                        size,
                        glyphs,
                    },
                );
                self.texts.insert(k, RenderText { instance_buffer, instance_count });
            },
        }
        proof {
            assert(self.texts@.dom() =~= old(self).texts@.dom().insert(ukey(id)));
        }
    }

    /// Records which image the text pipeline's font atlas comes from and
    /// (re)builds the font texture from that image's current pixels, in a
    /// linear (non-sRGB) format.
    pub fn set_font_image(&mut self, handle: Handle<Image>, server: &AssetServer)
        requires
            old(self).caches_wf(*server),
            server.wf(),
            server.image_valid(handle),
        ensures
            final(self).caches_wf(*server),
            final(self).font_handle == Some(handle),
            final(self).commands@.len() == old(self).commands@.len() + 2,
            old(self).commands@.is_prefix_of(final(self).commands@),
            final(self).commands@[final(self).commands@.len() - 2] matches GpuCommand::CreateColorTexture {
                id,
                width,
                height,
                data,
                linear,
                ..
            } && width == server.images@[handle@].width_spec() && height == server.images@[
                handle@
            ].height_spec() && data@ == server.images@[handle@].data_spec() && linear && (final(self).commands@.last() matches GpuCommand::UpdateFontTexture { texture } && texture == id),
            final(self).meshes == old(self).meshes,
            final(self).materials == old(self).materials,
            final(self).material_keys == old(self).material_keys,
            final(self).textures == old(self).textures,
            final(self).mesh_instances == old(self).mesh_instances,
            final(self).lights == old(self).lights,
            final(self).texts == old(self).texts,
            final(self).default_material == old(self).default_material,
            final(self).quad_mesh == old(self).quad_mesh,
    {
        self.font_handle = Some(handle);
        let image = server.get_image(handle);
        let id = self.alloc_id();
        self.commands.push(
            GpuCommand::CreateColorTexture {
                id,
                width: image.width(),
                height: image.height(),
                data: clone_copy_vec(image.data()),
                mip_level_count: 1,
                linear: true,
            },
        );
        self.commands.push(GpuCommand::UpdateFontTexture { texture: id });
        proof {
            lemma_material_keys_stable(*old(self), *self);
        }
    }

    /// Clears the per-instance records (mesh instances, lights, texts) but
    /// deliberately keeps the handle-keyed mesh, material and texture caches:
    /// those are content-addressed by asset identity and stay valid across
    /// scene swaps.
    pub fn reset_scene(&mut self)
        ensures
            final(self).mesh_instances@.dom() =~= Set::<u64>::empty(),
            final(self).lights@.dom() =~= Set::<u64>::empty(),
            final(self).texts@.dom() =~= Set::<u64>::empty(),
            final(self).meshes == old(self).meshes,
            final(self).materials == old(self).materials,
            final(self).material_keys == old(self).material_keys,
            final(self).textures == old(self).textures,
            final(self).font_handle == old(self).font_handle,
            final(self).default_material == old(self).default_material,
            final(self).quad_mesh == old(self).quad_mesh,
            final(self).next_resource_id == old(self).next_resource_id,
            final(self).commands == old(self).commands,
    {
        self.mesh_instances.clear();
        self.lights.clear();
        self.texts.clear();
        proof {
            assert(self.mesh_instances@.dom() =~= Set::<u64>::empty());
            assert(self.lights@.dom() =~= Set::<u64>::empty());
            assert(self.texts@.dom() =~= Set::<u64>::empty());
        }
    }

    /// Hands the queued GPU commands to the host's render backend, leaving
    /// the queue empty.
    pub fn take_gpu_commands(&mut self) -> (cs: Vec<GpuCommand>)
        ensures
            cs@ == old(self).commands@,
            final(self).commands@.len() == 0,
            final(self).meshes == old(self).meshes,
            final(self).materials == old(self).materials,
            final(self).material_keys == old(self).material_keys,
            final(self).textures == old(self).textures,
            final(self).mesh_instances == old(self).mesh_instances,
            final(self).lights == old(self).lights,
            final(self).texts == old(self).texts,
            final(self).font_handle == old(self).font_handle,
            final(self).default_material == old(self).default_material,
            final(self).quad_mesh == old(self).quad_mesh,
            final(self).next_resource_id == old(self).next_resource_id,
    {
        let mut cs: Vec<GpuCommand> = Vec::new();
        core::mem::swap(&mut self.commands, &mut cs);
        cs
    }
}

/// A glyph id clamped to the font atlas' range.
pub open spec fn clamp_glyph(b: u8) -> u8 {
    if b > 127 {
        127
    } else {
        b
    }
}

} // verus!

verus! {

/// A cached material depends on one of the changed assets: some texture it
/// uses is a changed image.
pub open spec fn material_touched(m: RenderMaterial, changes: AssetChanges) -> bool {
    exists|i: int|
        0 <= i < m.used_textures@.len() && changes.contains_spec(
            ((#[trigger] m.used_textures@[i])@, crate::image::Image::type_key_spec()),
        )
}

/// The command rebuilds the texture mirror of image slot `k`: it creates the
/// resource the cache now maps `k` to, from the image's current content.
pub open spec fn command_rebuilds_texture(
    c: GpuCommand,
    tex_id: u64,
    server: AssetServer,
    k: u32,
) -> bool {
    c matches GpuCommand::CreateColorTexture { id, width, height, data, mip_level_count, linear }
        && id == tex_id && width == server.images@[k as int].width_spec() && height
        == server.images@[k as int].height_spec() && data@ == server.images@[k as int].data_spec()
        && mip_level_count == server.images@[k as int].mip_level_count_spec() && !linear
}

/// Updating the content of one material slot to content whose image
/// reference is valid keeps every registrable handle registrable.
pub proof fn lemma_material_update_keeps_ok(pre: AssetServer, post: AssetServer, changed: int)
    requires
        post.meshes == pre.meshes,
        post.images == pre.images,
        post.materials@.len() == pre.materials@.len(),
        forall|j: int|
            0 <= j < pre.materials@.len() && j != changed ==> post.materials@[j]
                == pre.materials@[j],
        0 <= changed < post.materials@.len() ==> match post.materials@[changed].base_color_image {
            Some(img) => 0 <= img@ < post.images@.len(),
            None => true,
        },
    ensures
        forall|m: Handle<Material>| material_ok(pre, m) ==> #[trigger] material_ok(post, m),
        forall|h: Handle<Mesh>| mesh_ok(pre, h) ==> #[trigger] mesh_ok(post, h),
{
    assert forall|m: Handle<Material>| material_ok(pre, m) implies #[trigger] material_ok(
        post,
        m,
    ) by {
        if m@ != changed {
            assert(post.materials@[m@] == pre.materials@[m@]);
        }
    }
    assert forall|h: Handle<Mesh>| mesh_ok(pre, h) implies #[trigger] mesh_ok(post, h) by {
        assert forall|i: int|
            0 <= i < post.meshes@[h@].submeshes@.len() implies {
            &&& (#[trigger] post.meshes@[h@].submeshes@[i]).indices@.len() <= u32::MAX
            &&& match post.meshes@[h@].submeshes@[i].material {
                Some(m) => material_ok(post, m),
                None => true,
            }
        } by {
            assert(pre.meshes@[h@].submeshes@[i] == post.meshes@[h@].submeshes@[i]);
            match post.meshes@[h@].submeshes@[i].material {
                Some(m) => {
                    assert(material_ok(pre, m));
                    assert(material_ok(post, m));
                },
                None => {},
            }
        }
    }
}

/// Sequence extension: `b` begins with `a`.
pub open spec fn commands_extended(a: Seq<GpuCommand>, b: Seq<GpuCommand>) -> bool {
    a.len() <= b.len() && forall|i: int| 0 <= i < a.len() ==> b[i] == a[i]
}

/// A prefix is an extension, element by element.
pub proof fn lemma_prefix_extends(a: Seq<GpuCommand>, b: Seq<GpuCommand>)
    requires
        a.is_prefix_of(b),
    ensures
        commands_extended(a, b),
{
    assert forall|i: int| 0 <= i < a.len() implies b[i] == a[i] by {
        assert(a[i] == b.subrange(0, a.len() as int)[i]);
    }
}

/// Some command at or after `base` rebuilds the texture mirror of image slot
/// `k` as resource `id`.
pub open spec fn texture_rebuilt(
    cmds: Seq<GpuCommand>,
    base: int,
    id: u64,
    server: AssetServer,
    k: u32,
) -> bool {
    exists|j: int|
        base <= j < cmds.len() && command_rebuilds_texture(#[trigger] cmds[j], id, server, k)
}

/// The uniform content a material's GPU mirror is built from.
pub open spec fn material_uniform_of(m: Material) -> MaterialUniform {
    MaterialUniform {
        base_color: m.base_color,
        billboard_mode: m.billboard_mode.id_spec(),
        unlit: if m.unlit {
            1
        } else {
            0
        },
    }
}

/// Commands at or after `base` build the material mirror `rm` from the
/// material content `m`: a uniform buffer carrying `m`'s data under the
/// mirror's uniform buffer id, and a bind group under the mirror's bind group
/// id wiring that uniform to `tex` (the cached texture of `m`'s image, or the
/// backend's white fallback for `None`).
pub open spec fn material_mirror_built(
    cmds: Seq<GpuCommand>,
    base: int,
    rm: RenderMaterial,
    m: Material,
    tex: Option<u64>,
) -> bool {
    &&& exists|j: int|
        base <= j < cmds.len() && ((#[trigger] cmds[j]) matches GpuCommand::CreateMaterialUniformBuffer {
            id,
            uniform,
        } && id == rm.uniform_buffer && uniform == material_uniform_of(m))
    &&& exists|j: int|
        base <= j < cmds.len() && ((#[trigger] cmds[j]) matches GpuCommand::CreateMaterialBindGroup {
            id,
            uniform_buffer,
            base_color_texture,
        } && id == rm.bind_group && uniform_buffer == rm.uniform_buffer && base_color_texture
            == tex)
}

/// A material mirror already built stays built when the queue is only
/// extended.
pub proof fn lemma_material_mirror_built_extended(
    pre: Seq<GpuCommand>,
    post: Seq<GpuCommand>,
    base: int,
    rm: RenderMaterial,
    m: Material,
    tex: Option<u64>,
)
    requires
        0 <= base,
        material_mirror_built(pre, base, rm, m, tex),
        commands_extended(pre, post),
    ensures
        material_mirror_built(post, base, rm, m, tex),
{
    let j1 = choose|j: int|
        base <= j < pre.len() && ((#[trigger] pre[j]) matches GpuCommand::CreateMaterialUniformBuffer {
            id,
            uniform,
        } && id == rm.uniform_buffer && uniform == material_uniform_of(m));
    assert(post[j1] == pre[j1]);
    let j2 = choose|j: int|
        base <= j < pre.len() && ((#[trigger] pre[j]) matches GpuCommand::CreateMaterialBindGroup {
            id,
            uniform_buffer,
            base_color_texture,
        } && id == rm.bind_group && uniform_buffer == rm.uniform_buffer && base_color_texture
            == tex);
    assert(post[j2] == pre[j2]);
}

/// Commands at or after `base` build the submesh mirror `rs` from the submesh
/// data `sm`: a vertex buffer carrying `sm`'s vertices under the mirror's
/// vertex buffer id and an index buffer carrying `sm`'s indices under its
/// index buffer id.
pub open spec fn submesh_buffers_built(
    cmds: Seq<GpuCommand>,
    base: int,
    rs: RenderSubmesh,
    sm: crate::mesh::Submesh,
) -> bool {
    &&& exists|j: int|
        base <= j < cmds.len() && ((#[trigger] cmds[j]) matches GpuCommand::CreateVertexBuffer {
            id,
            vertices,
        } && id == rs.vertex_buffer && vertices@ == sm.vertices@)
    &&& exists|j: int|
        base <= j < cmds.len() && ((#[trigger] cmds[j]) matches GpuCommand::CreateIndexBuffer {
            id,
            indices,
        } && id == rs.index_buffer && indices@ == sm.indices@)
}

/// Submesh buffers already built stay built when the queue is only extended.
pub proof fn lemma_submesh_buffers_built_extended(
    pre: Seq<GpuCommand>,
    post: Seq<GpuCommand>,
    base: int,
    rs: RenderSubmesh,
    sm: crate::mesh::Submesh,
)
    requires
        0 <= base,
        submesh_buffers_built(pre, base, rs, sm),
        commands_extended(pre, post),
    ensures
        submesh_buffers_built(post, base, rs, sm),
{
    let j1 = choose|j: int|
        base <= j < pre.len() && ((#[trigger] pre[j]) matches GpuCommand::CreateVertexBuffer {
            id,
            vertices,
        } && id == rs.vertex_buffer && vertices@ == sm.vertices@);
    assert(post[j1] == pre[j1]);
    let j2 = choose|j: int|
        base <= j < pre.len() && ((#[trigger] pre[j]) matches GpuCommand::CreateIndexBuffer {
            id,
            indices,
        } && id == rs.index_buffer && indices@ == sm.indices@);
    assert(post[j2] == pre[j2]);
}

/// The uniform content a light's GPU mirror is built from.
pub open spec fn light_uniform_of(transform: glam::Affine3A, light: Light) -> LightUniform {
    LightUniform {
        transform,
        color: light.color,
        radius: light.radius_spec(),
        kind: light.kind.id_spec(),
    }
}

/// A rebuild already on the command queue stays on it when the queue is only
/// extended.
pub proof fn lemma_texture_rebuilt_extended(
    pre: Seq<GpuCommand>,
    post: Seq<GpuCommand>,
    base: int,
    id: u64,
    server: AssetServer,
    k: u32,
)
    requires
        0 <= base,
        texture_rebuilt(pre, base, id, server, k),
        commands_extended(pre, post),
    ensures
        texture_rebuilt(post, base, id, server, k),
{
    let j = choose|j: int|
        base <= j < pre.len() && command_rebuilds_texture(#[trigger] pre[j], id, server, k);
    assert(post[j] == pre[j]);
    assert(command_rebuilds_texture(post[j], id, server, k));
}

impl VisualServer {
    /// Whether any of the given textures is a changed image.
    fn any_texture_changed(used: &Vec<Handle<Image>>, changes: &AssetChanges) -> (r: bool)
        ensures
            r == exists|i: int|
                0 <= i < used@.len() && changes.contains_spec(
                    ((#[trigger] used@[i])@, crate::image::Image::type_key_spec()),
                ),
    {
        let n = used.len();
        for i in 0..n
            invariant
                n == used@.len(),
                forall|j: int|
                    0 <= j < i ==> !changes.contains_spec(
                        ((#[trigger] used@[j])@, crate::image::Image::type_key_spec()),
                    ),
        {
            if changes.contains::<Image>(used[i]) {
                return true;
            }
        }
        false
    }

    /// Applies a drained change-set to the GPU mirrors, before the per-frame
    /// scene walk, so a stale resource is never drawn: the texture of every
    /// changed image that has one is rebuilt from the image's current pixels;
    /// every cached material using such a texture gets its bind group rebuilt;
    /// the font texture is rebuilt when the font's image changed. Mirrors of
    /// unrelated assets are left exactly as they were, and no cache entry
    /// appears or disappears.
    pub fn notify_asset_changes(&mut self, changes: &AssetChanges, server: &AssetServer)
        requires
            old(self).wf_for(*server),
            server.wf(),
        ensures
            final(self).wf_for(*server),
            final(self).textures@.dom() =~= old(self).textures@.dom(),
            forall|k: u32|
                #[trigger] old(self).textures@.contains_key(k) && !changes.contains_spec(
                    (k as int, crate::image::Image::type_key_spec()),
                ) ==> final(self).textures@[k] == old(self).textures@[k],
            forall|k: u32|
                #[trigger] old(self).textures@.contains_key(k) && changes.contains_spec(
                    (k as int, crate::image::Image::type_key_spec()),
                ) ==> texture_rebuilt(
                    final(self).commands@,
                    old(self).commands@.len() as int,
                    final(self).textures@[k],
                    *server,
                    k,
                ),
            final(self).materials@.dom() =~= old(self).materials@.dom(),
            forall|k: u32|
                #[trigger] old(self).materials@.contains_key(k) && !material_touched(
                    old(self).materials@[k],
                    *changes,
                ) ==> final(self).materials@[k] == old(self).materials@[k],
            forall|k: u32|
                #[trigger] old(self).materials@.contains_key(k) && material_touched(
                    old(self).materials@[k],
                    *changes,
                ) ==> material_mirror_built(
                    final(self).commands@,
                    old(self).commands@.len() as int,
                    final(self).materials@[k],
                    server.materials@[k as int],
                    match server.materials@[k as int].base_color_image {
                        Some(img) => Some(final(self).textures@[hkey(img)]),
                        None => None::<u64>,
                    },
                ),
            forall|f: Handle<Image>|
                old(self).font_handle == Some(f) && #[trigger] changes.contains_spec(
                    (f@, crate::image::Image::type_key_spec()),
                ) ==> final(self).commands@.len() >= 2 && (final(self).commands@[final(self).commands@.len() - 2] matches GpuCommand::CreateColorTexture {
                id,
                width,
                height,
                data,
                linear,
                ..
            } && width == server.images@[f@].width_spec() && height == server.images@[
                f@
            ].height_spec() && data@ == server.images@[f@].data_spec() && linear && (final(self).commands@.last() matches GpuCommand::UpdateFontTexture {
                texture,
            } && texture == id)),
            commands_extended(old(self).commands@, final(self).commands@),
            final(self).meshes == old(self).meshes,
            final(self).mesh_instances == old(self).mesh_instances,
            final(self).lights == old(self).lights,
            final(self).texts == old(self).texts,
            final(self).font_handle == old(self).font_handle,
            final(self).default_material == old(self).default_material,
            final(self).quad_mesh == old(self).quad_mesh,
    {
        let ghost base = old(self).commands@.len() as int;
        let changed_images: Vec<Handle<Image>> = changes.iter::<Image>();
        let n = changed_images.len();
        for i in 0..n
            invariant
                server.wf(),
                self.caches_wf(*server),
                base == old(self).commands@.len(),
                n == changed_images@.len(),
                forall|p: int|
                    0 <= p < n ==> changes.contains_spec(
                        ((#[trigger] changed_images@[p])@, crate::image::Image::type_key_spec()),
                    ),
                self.textures@.dom() =~= old(self).textures@.dom(),
                forall|k: u32|
                    #[trigger] old(self).textures@.contains_key(k) && !changes.contains_spec(
                        (k as int, crate::image::Image::type_key_spec()),
                    ) ==> self.textures@[k] == old(self).textures@[k],
                forall|p: int|
                    0 <= p < i && old(self).textures@.contains_key(
                        hkey(#[trigger] changed_images@[p]),
                    ) ==> texture_rebuilt(
                        self.commands@,
                        base,
                        self.textures@[hkey(changed_images@[p])],
                        *server,
                        hkey(changed_images@[p]),
                    ),
                commands_extended(old(self).commands@, self.commands@),
                self.meshes == old(self).meshes,
                self.materials == old(self).materials,
                self.material_keys == old(self).material_keys,
                self.mesh_instances == old(self).mesh_instances,
                self.lights == old(self).lights,
                self.texts == old(self).texts,
                self.font_handle == old(self).font_handle,
                self.default_material == old(self).default_material,
                self.quad_mesh == old(self).quad_mesh,
        {
            let ghost commands_before = self.commands@;
            let ghost textures_before = self.textures@;
            proof {
                assert forall|p: int|
                    0 <= p < i && old(self).textures@.contains_key(
                        hkey(#[trigger] changed_images@[p]),
                    ) implies texture_rebuilt(
                    commands_before,
                    base,
                    textures_before[hkey(changed_images@[p])],
                    *server,
                    hkey(changed_images@[p]),
                ) by {
                    assert(texture_rebuilt(
                        self.commands@,
                        base,
                        self.textures@[hkey(changed_images@[p])],
                        *server,
                        hkey(changed_images@[p]),
                    ));
                }
            }
            let h = changed_images[i];
            if self.textures.contains_key(&h.raw_index()) {
                self.update_texture(h, server);
            }
            proof {
                assert forall|x: int|
                    0 <= x < commands_before.len() implies self.commands@[x] == commands_before[x] by {
                    if self.commands@.len() > commands_before.len() {
                        assert(self.commands@.drop_last() == commands_before);
                        assert(self.commands@.drop_last()[x] == self.commands@[x]);
                    }
                }
                assert forall|p: int|
                    0 <= p < i + 1 && old(self).textures@.contains_key(
                        hkey(#[trigger] changed_images@[p]),
                    ) implies texture_rebuilt(
                    self.commands@,
                    base,
                    self.textures@[hkey(changed_images@[p])],
                    *server,
                    hkey(changed_images@[p]),
                ) by {
                    let k = hkey(changed_images@[p]);
                    if p < i && k != hkey(h) {
                        assert(texture_rebuilt(commands_before, base, textures_before[k], *server, k));
                        assert(commands_extended(commands_before, self.commands@));
                        lemma_texture_rebuilt_extended(
                            commands_before,
                            self.commands@,
                            base,
                            textures_before[k],
                            *server,
                            k,
                        );
                        assert(self.textures@[k] == textures_before[k]);
                    } else {
                        assert(k == hkey(h));
                        assert(textures_before.contains_key(hkey(h)));
                        let j = self.commands@.len() - 1;
                        assert(command_rebuilds_texture(
                            self.commands@[j],
                            self.textures@[hkey(h)],
                            *server,
                            hkey(h),
                        ));
                    }
                }
            }
        }
        let ghost mid = self.commands@;
        let ghost textures_mid = self.textures@;
        let material_handles = clone_copy_vec(&self.material_keys);
        let m = material_handles.len();
        for i in 0..m
            invariant
                server.wf(),
                self.caches_wf(*server),
                m == material_handles@.len(),
                material_handles@ == self.material_keys@,
                self.material_keys == old(self).material_keys,
                self.textures@ == textures_mid,
                self.materials@.dom() =~= old(self).materials@.dom(),
                forall|k: u32|
                    #[trigger] old(self).materials@.contains_key(k) && !material_touched(
                        old(self).materials@[k],
                        *changes,
                    ) ==> self.materials@[k] == old(self).materials@[k],
                forall|p: int|
                    0 <= p < i ==> self.materials@.contains_key(
                        hkey(#[trigger] material_handles@[p]),
                    ),
                forall|p: int, q: int|
                    0 <= p < q < material_handles@.len() ==> hkey(material_handles@[p]) != hkey(
                        material_handles@[q],
                    ),
                forall|p: int|
                    i <= p < material_handles@.len() ==> self.materials@.contains_key(
                        hkey(#[trigger] material_handles@[p]),
                    ) && self.materials@[hkey(material_handles@[p])] == old(self).materials@[hkey(
                        material_handles@[p],
                    )],
                base == old(self).commands@.len(),
                commands_extended(old(self).commands@, self.commands@),
                forall|p: int|
                    0 <= p < i && old(self).materials@.contains_key(
                        hkey(#[trigger] material_handles@[p]),
                    ) && material_touched(
                        old(self).materials@[hkey(material_handles@[p])],
                        *changes,
                    ) ==> material_mirror_built(
                        self.commands@,
                        base,
                        self.materials@[hkey(material_handles@[p])],
                        server.materials@[hkey(material_handles@[p]) as int],
                        match server.materials@[hkey(material_handles@[p]) as int].base_color_image {
                            Some(img) => Some(self.textures@[hkey(img)]),
                            None => None::<u64>,
                        },
                    ),
                commands_extended(mid, self.commands@),
                self.meshes == old(self).meshes,
                self.mesh_instances == old(self).mesh_instances,
                self.lights == old(self).lights,
                self.texts == old(self).texts,
                self.font_handle == old(self).font_handle,
                self.default_material == old(self).default_material,
                self.quad_mesh == old(self).quad_mesh,
        {
            let ghost cmds_before2 = self.commands@;
            let ghost materials_before2 = self.materials@;
            let mh = material_handles[i];
            let key = mh.raw_index();
            let touched = match self.materials.get(&key) {
                Some(rm) => Self::any_texture_changed(&rm.used_textures, changes),
                None => vstd::pervasive::unreached(),
            };
            if touched {
                self.update_render_material_data(mh, server);
            }
            proof {
                assert forall|x: int|
                    0 <= x < cmds_before2.len() implies self.commands@[x] == cmds_before2[x] by {
                    if self.commands@.len() > cmds_before2.len() {
                        assert(cmds_before2.is_prefix_of(self.commands@));
                        assert(cmds_before2[x] == self.commands@.subrange(
                            0,
                            cmds_before2.len() as int,
                        )[x]);
                    }
                }
                assert forall|p: int|
                    0 <= p < i + 1 && old(self).materials@.contains_key(
                        hkey(#[trigger] material_handles@[p]),
                    ) && material_touched(
                        old(self).materials@[hkey(material_handles@[p])],
                        *changes,
                    ) implies material_mirror_built(
                    self.commands@,
                    base,
                    self.materials@[hkey(material_handles@[p])],
                    server.materials@[hkey(material_handles@[p]) as int],
                    match server.materials@[hkey(material_handles@[p]) as int].base_color_image {
                        Some(img) => Some(self.textures@[hkey(img)]),
                        None => None::<u64>,
                    },
                ) by {
                    let pk = hkey(material_handles@[p]);
                    if p < i {
                        assert(material_mirror_built(
                            cmds_before2,
                            base,
                            materials_before2[pk],
                            server.materials@[pk as int],
                            match server.materials@[pk as int].base_color_image {
                                Some(img) => Some(self.textures@[hkey(img)]),
                                None => None::<u64>,
                            },
                        ));
                        assert(self.materials@[pk] == materials_before2[pk]);
                        lemma_material_mirror_built_extended(
                            cmds_before2,
                            self.commands@,
                            base,
                            materials_before2[pk],
                            server.materials@[pk as int],
                            match server.materials@[pk as int].base_color_image {
                                Some(img) => Some(self.textures@[hkey(img)]),
                                None => None::<u64>,
                            },
                        );
                    } else {
                        assert(pk == hkey(mh));
                        assert(materials_before2[pk] == old(self).materials@[pk]);
                        assert(touched == material_touched(old(self).materials@[pk], *changes));
                        assert(touched);
                        assert(base <= cmds_before2.len());
                        assert(material_mirror_built(
                            self.commands@,
                            cmds_before2.len() as int,
                            self.materials@[pk],
                            server.materials@[pk as int],
                            match server.materials@[pk as int].base_color_image {
                                Some(img) => Some(self.textures@[hkey(img)]),
                                None => None::<u64>,
                            },
                        ));
                    }
                }
            }
        }
        match self.font_handle {
            Some(f) => {
                if changes.contains::<Image>(f) {
                    self.set_font_image(f, server);
                }
            },
            None => {},
        }
        proof {
            assert forall|k: u32|
                #[trigger] old(self).textures@.contains_key(k) && changes.contains_spec(
                    (k as int, crate::image::Image::type_key_spec()),
                ) implies exists|j: int|
                old(self).commands@.len() <= j < self.commands@.len() && command_rebuilds_texture(
                    #[trigger] self.commands@[j],
                    self.textures@[k],
                    *server,
                    k,
                ) by {
                let w = choose|w: int|
                    0 <= w < changes.assets@.len() && (#[trigger] changes.assets@[w])@ == (
                        k as int,
                        crate::image::Image::type_key_spec(),
                    );
                let p = choose|p: int|
                    0 <= p < changed_images@.len() && (#[trigger] changed_images@[p])@ == k as int;
                assert(hkey(changed_images@[p]) == k);
                let j = choose|j: int|
                    base <= j < mid.len() && command_rebuilds_texture(
                        #[trigger] mid[j],
                        textures_mid[k],
                        *server,
                        k,
                    );
                assert(self.commands@[j] == mid[j]);
                assert(self.textures@[k] == textures_mid[k]);
            }
        }
    }
}

} // verus!

verus! {

impl VisualServer {
    /// Upserts the per-instance record of a sprite node: a camera-facing unit
    /// quad, drawn with an unlit billboard material showing the given image
    /// tinted by `base_color`. The first sighting creates the instance's
    /// uniform and bind group and registers a dedicated override material in
    /// the asset server; afterwards only the transform uniform is updated in
    /// place and the override material's content is refreshed.
    pub fn set_sprite(
        &mut self,
        id: UniqueNodeId,
        transform: glam::Affine3A,
        image_handle: Handle<Image>,
        base_color: Color,
        server: &mut AssetServer,
    )
        requires
            old(self).wf_for(*old(server)),
            old(server).wf(),
            old(server).image_valid(image_handle),
            old(server).materials@.len() < u32::MAX,
            old(self).mesh_instances@.contains_key(ukey(id)) ==> old(self).mesh_instances@[ukey(
                id,
            )].material_override is Some,
        ensures
            final(server).wf(),
            final(self).wf_for(*final(server)),
            final(self).mesh_instances@.contains_key(ukey(id)),
            final(self).mesh_instances@.dom() =~= old(self).mesh_instances@.dom().insert(ukey(id)),
            forall|k: u64|
                #[trigger] old(self).mesh_instances@.contains_key(k) && k != ukey(id) ==> final(self).mesh_instances@[k] == old(self).mesh_instances@[k],
            final(server).images == old(server).images,
            final(server).meshes == old(server).meshes,
            final(server).shader_sources == old(server).shader_sources,
            final(server).scenes == old(server).scenes,
            final(server).changes == old(server).changes,
            final(server).pending_loads == old(server).pending_loads,
            old(self).mesh_instances@.contains_key(ukey(id)) ==> {
                &&& final(self).mesh_instances == old(self).mesh_instances
                &&& (final(self).commands@.last() matches GpuCommand::UpdateModelUniformBuffer {
                    id: ub,
                    transform: t,
                } && ub == old(self).mesh_instances@[ukey(id)].model_uniform_buffer && t
                    == transform)
                &&& (old(self).mesh_instances@[ukey(id)].material_override matches Some(m) && {
                    &&& final(server).materials@.len() == old(server).materials@.len()
                    &&& final(server).materials@[m@].base_color == base_color
                    &&& final(server).materials@[m@].base_color_image == Some(image_handle)
                    &&& final(server).materials@[m@].billboard_mode == old(server).materials@[
                        m@
                    ].billboard_mode
                    &&& final(server).materials@[m@].unlit == old(server).materials@[m@].unlit
                    &&& forall|j: int|
                        0 <= j < old(server).materials@.len() && j != m@ ==> final(server).materials@[j] == old(server).materials@[j]
                })
                &&& final(self).textures@.contains_key(hkey(image_handle))
            },
            !old(self).mesh_instances@.contains_key(ukey(id)) ==> {
                &&& Some(final(self).mesh_instances@[ukey(id)].mesh) == old(self).quad_mesh
                &&& (final(self).mesh_instances@[ukey(id)].material_override matches Some(m) && {
                    &&& m@ == old(server).materials@.len()
                    &&& final(server).materials@.len() == old(server).materials@.len() + 1
                    &&& forall|j: int|
                        0 <= j < old(server).materials@.len() ==> final(server).materials@[j]
                            == old(server).materials@[j]
                    &&& final(server).materials@[m@] == (Material {
                        base_color,
                        base_color_image: Some(image_handle),
                        billboard_mode: crate::material::BillboardMode::On,
                        unlit: true,
                    })
                    &&& material_mirror_built(
                        final(self).commands@,
                        old(self).commands@.len() as int,
                        final(self).materials@[hkey(m)],
                        final(server).materials@[m@],
                        Some(final(self).textures@[hkey(image_handle)]),
                    )
                })
                &&& (final(self).commands@[old(self).commands@.len() as int] matches GpuCommand::CreateModelUniformBuffer {
                    id: ub,
                    transform: t,
                } && ub == final(self).mesh_instances@[ukey(id)].model_uniform_buffer && t
                    == transform)
                &&& (final(self).commands@[old(self).commands@.len() as int + 1] matches GpuCommand::CreateModelBindGroup {
                    id: bg,
                    uniform_buffer: ub2,
                } && bg == final(self).mesh_instances@[ukey(id)].model_bind_group && ub2 == final(self).mesh_instances@[ukey(id)].model_uniform_buffer)
                &&& final(self).textures@.contains_key(hkey(image_handle))
            },
            old(self).commands@.is_prefix_of(final(self).commands@),
            final(self).lights == old(self).lights,
            final(self).texts == old(self).texts,
            final(self).meshes == old(self).meshes,
            final(self).font_handle == old(self).font_handle,
            final(self).default_material == old(self).default_material,
            final(self).quad_mesh == old(self).quad_mesh,
    {
        let k = id.encode();
        let existing: Option<RenderMeshInstance> = match self.mesh_instances.get(&k) {
            Some(inst) => Some(*inst),
            None => None,
        };
        match existing {
            Some(inst) => {
                self.register_texture(image_handle, server);
                self.commands.push(
                    GpuCommand::UpdateModelUniformBuffer {
                        id: inst.model_uniform_buffer,
                        transform,
                    },
                );
                let material_handle = match inst.material_override {
                    Some(m) => m,
                    None => vstd::pervasive::unreached(),
                };
                proof {
                    crate::arena::lemma_handle_view_bounds(material_handle);
                    assert(old(self).mesh_instances@.contains_key(ukey(id)));
                    assert(instance_wf(old(self).mesh_instances@[ukey(id)], *old(self)));
                    assert(old(self).materials@.contains_key(hkey(material_handle)));
                }
                let material = server.get_material_mut(material_handle);
                material.base_color = base_color;
                material.base_color_image = Some(image_handle);
                proof {
                    lemma_material_update_keeps_ok(*old(server), *server, material_handle@);
                    lemma_material_keys_stable(*old(self), *self);
                    assert(old(self).mesh_instances@.contains_key(ukey(id)));
                    assert(self.mesh_instances@.dom() =~= old(self).mesh_instances@.dom().insert(
                        ukey(id),
                    ));
                    assert(self.commands@.last() matches GpuCommand::UpdateModelUniformBuffer {
                        id: ub,
                        transform: t,
                    } && ub == old(self).mesh_instances@[ukey(id)].model_uniform_buffer && t
                        == transform);
                    assert(server.materials@[material_handle@].base_color == base_color);
                    assert(server.materials@[material_handle@].base_color_image == Some(
                        image_handle,
                    ));
                    assert(server.materials@[material_handle@].billboard_mode == old(
                        server,
                    ).materials@[material_handle@].billboard_mode);
                    assert(server.materials@[material_handle@].unlit == old(server).materials@[
                        material_handle@
                    ].unlit);
                    assert(self.textures@.contains_key(hkey(image_handle)));
                    assert forall|k2: u32| #[trigger]
                        self.materials@.contains_key(k2) implies {
                        &&& k2 < server.materials@.len()
                        &&& render_material_wf(self.materials@[k2], *self)
                        &&& (server.materials@[k2 as int].base_color_image matches Some(img)
                            ==> server.image_valid(img) && self.textures@.contains_key(hkey(img)))
                    } by {
                        assert(old(self).materials@.contains_key(k2));
                        if k2 != hkey(material_handle) {
                            assert(server.materials@[k2 as int] == old(server).materials@[
                                k2 as int
                            ]);
                        }
                    }
                }
            },
            None => {
                let model_uniform_buffer = self.alloc_id();
                self.commands.push(
                    GpuCommand::CreateModelUniformBuffer { id: model_uniform_buffer, transform },
                );
                let model_bind_group = self.alloc_id();
                self.commands.push(
                    GpuCommand::CreateModelBindGroup {
                        id: model_bind_group,
                        uniform_buffer: model_uniform_buffer,
                    },
                );
                let ghost cmds_after_model = self.commands@;
                let material = server.add_material(
                    Material {
                        base_color,
                        base_color_image: Some(image_handle),
                        billboard_mode: crate::material::BillboardMode::On,
                        unlit: true,
                    },
                );
                proof {
                    lemma_material_keys_stable(*old(self), *self);
                    assert forall|k2: u32| #[trigger]
                        self.materials@.contains_key(k2) implies {
                        &&& k2 < server.materials@.len()
                        &&& render_material_wf(self.materials@[k2], *self)
                        &&& (server.materials@[k2 as int].base_color_image matches Some(img)
                            ==> server.image_valid(img) && self.textures@.contains_key(hkey(img)))
                    } by {
                        assert(old(self).materials@.contains_key(k2));
                        assert(server.materials@[k2 as int] == old(server).materials@[k2 as int]);
                    }
                    assert forall|m: Handle<Material>|
                        material_ok(*old(server), m) implies #[trigger] material_ok(
                        *server,
                        m,
                    ) by {
                        assert(server.materials@[m@] == old(server).materials@[m@]);
                    }
                    assert forall|h: Handle<Mesh>|
                        mesh_ok(*old(server), h) implies #[trigger] mesh_ok(*server, h) by {
                        assert forall|i: int|
                            0 <= i < server.meshes@[h@].submeshes@.len() implies {
                            &&& (#[trigger] server.meshes@[h@].submeshes@[i]).indices@.len()
                                <= u32::MAX
                            &&& match server.meshes@[h@].submeshes@[i].material {
                                Some(m) => material_ok(*server, m),
                                None => true,
                            }
                        } by {
                            match server.meshes@[h@].submeshes@[i].material {
                                Some(m) => {
                                    assert(material_ok(*old(server), m));
                                },
                                None => {},
                            }
                        }
                    }
                }
                self.register_material(material, server);
                let quad = match self.quad_mesh {
                    Some(q) => q,
                    None => vstd::pervasive::unreached(),
                };
                self.mesh_instances.insert(
                    k,
                    RenderMeshInstance {
                        model_uniform_buffer,
                        model_bind_group,
                        mesh: quad,
                        material_override: Some(material),
                    },
                );
                proof {
                    lemma_material_keys_stable(
                        VisualServer { mesh_instances: old(self).mesh_instances, ..*self },
                        *self,
                    );
                    assert(cmds_after_model.is_prefix_of(self.commands@));
                    lemma_prefix_extends(cmds_after_model, self.commands@);
                    let base = old(self).commands@.len() as int;
                    assert(cmds_after_model[base] matches GpuCommand::CreateModelUniformBuffer {
                        id: ub,
                        transform: t,
                    } && ub == model_uniform_buffer && t == transform);
                    assert(self.commands@[base] == cmds_after_model[base]);
                    assert(cmds_after_model[base + 1] matches GpuCommand::CreateModelBindGroup {
                        id: bg,
                        uniform_buffer: ub2,
                    } && bg == model_bind_group && ub2 == model_uniform_buffer);
                    assert(self.commands@[base + 1] == cmds_after_model[base + 1]);
                    assert(material@ == old(server).materials@.len());
                    assert(self.mesh_instances@.dom() =~= old(self).mesh_instances@.dom().insert(
                        ukey(id),
                    ));
                    assert forall|k2: u64| #[trigger]
                        self.mesh_instances@.contains_key(k2) implies instance_wf(
                        self.mesh_instances@[k2],
                        *self,
                    ) by {
                        if k2 != ukey(id) {
                            assert(instance_wf(old(self).mesh_instances@[k2], *old(self)));
                        }
                    }
                }
            },
        }
    }

    /// Registers one node and, recursively, everything below it: meshes
    /// become mesh instances, lights and texts their per-instance records,
    /// sub-scene payloads are walked with their own identity, and each node's
    /// global transform is its parent's global transform composed with its
    /// local one. Text uses the node's local transform by design.
    fn register_node_recursive(
        &mut self,
        parent_transform: glam::Affine3A,
        node_id: NodeId,
        scene: &Scene,
        server: &AssetServer,
    )
        requires
            old(self).wf_for(*server),
            server.wf(),
            scene_wf_deep(*scene),
            scene.handle is Some,
            scene_assets_ok(*scene, *server),
            node_id@ < scene.nodes@.len(),
        ensures
            final(self).wf_for(*server),
            final(self).mesh_instances@.dom() =~= old(self).mesh_instances@.dom().union(
                walk_instances(*scene, node_id@).meshes.dom(),
            ),
            forall|k: u64|
                #[trigger] walk_instances(*scene, node_id@).meshes.dom().contains(k) ==> final(self).mesh_instances@[k].mesh == walk_instances(*scene, node_id@).meshes[k],
            forall|k: u64|
                #[trigger] old(self).mesh_instances@.contains_key(k) && !walk_instances(
                    *scene,
                    node_id@,
                ).meshes.dom().contains(k) ==> final(self).mesh_instances@[k] == old(self).mesh_instances@[k],
            final(self).lights@.dom() =~= old(self).lights@.dom().union(
                walk_instances(*scene, node_id@).lights,
            ),
            forall|k: u64|
                #[trigger] old(self).lights@.contains_key(k) && !walk_instances(
                    *scene,
                    node_id@,
                ).lights.contains(k) ==> final(self).lights@[k] == old(self).lights@[k],
            final(self).texts@.dom() =~= old(self).texts@.dom().union(
                walk_instances(*scene, node_id@).texts.dom(),
            ),
            forall|k: u64|
                #[trigger] walk_instances(*scene, node_id@).texts.dom().contains(k) ==> final(self).texts@[k].instance_count == walk_instances(*scene, node_id@).texts[k],
            forall|k: u64|
                #[trigger] old(self).texts@.contains_key(k) && !walk_instances(
                    *scene,
                    node_id@,
                ).texts.dom().contains(k) ==> final(self).texts@[k] == old(self).texts@[k],
            map_grows(old(self).meshes@, final(self).meshes@),
            map_grows(old(self).materials@, final(self).materials@),
            map_grows(old(self).textures@, final(self).textures@),
            commands_extended(old(self).commands@, final(self).commands@),
            final(self).font_handle == old(self).font_handle,
            final(self).default_material == old(self).default_material,
            final(self).quad_mesh == old(self).quad_mesh,
        decreases *scene, scene.nodes@.len() - node_id@,
    {
        proof {
            crate::arena::lemma_handle_view_bounds(node_id);
            crate::scene::lemma_nodes_wf_deep_index(scene.nodes@);
            lemma_nodes_assets_ok_index(scene.nodes@, *server);
        }
        let ghost own = walk_own(*scene, node_id@);
        let node = scene.nodes.get(node_id);
        let node_transform = mul_affine(&parent_transform, &node.transform);
        match &node.data {
            NodeData::Empty => {},
            NodeData::Camera(_) => {},
            NodeData::Light(light) => {
                let uid = scene.make_unique_node_id(node_id);
                proof {
                    assert(ukey(uid) == node_key(*scene, node_id@));
                }
                self.set_light(uid, node_transform, light);
                proof {
                    assert(self.lights@.dom() =~= old(self).lights@.dom().union(own.lights));
                }
            },
            NodeData::Mesh(mesh_handle) => {
                proof {
                    lemma_nodes_assets_ok_index(scene.nodes@, *server);
                    assert(node_assets_ok(scene.nodes@[node_id@], *server));
                }
                let uid = scene.make_unique_node_id(node_id);
                proof {
                    assert(ukey(uid) == node_key(*scene, node_id@));
                }
                self.set_mesh_instance(uid, node_transform, *mesh_handle, server);
                proof {
                    assert(self.mesh_instances@.dom() =~= old(self).mesh_instances@.dom().union(
                        own.meshes.dom(),
                    ));
                }
            },
            NodeData::Scene(sub) => {
                proof {
                    crate::scene::lemma_nodes_wf_deep_index(scene.nodes@);
                    lemma_nodes_assets_ok_index(scene.nodes@, *server);
                    assert(crate::scene::node_wf_deep(scene.nodes@[node_id@]));
                    assert(node_assets_ok(scene.nodes@[node_id@], *server));
                    assert(scene_wf_deep(**sub));
                    assert(scene_assets_ok(**sub, *server));
                    crate::arena::lemma_arena_decreases_to_view(scene.nodes);
                    assert(decreases_to!(*scene => scene.nodes));
                    assert(decreases_to!(*scene => scene.nodes@));
                    assert(decreases_to!(*scene => scene.nodes@[node_id@]));
                    assert(decreases_to!(*scene => **sub));
                    crate::arena::lemma_handle_view_bounds(sub.root);
                }
                let sub_root = sub.root;
                self.register_node_recursive(node_transform, sub_root, sub, server);
                proof {
                    assert(own == walk_instances(**sub, sub.root@));
                }
            },
            NodeData::Text(text, size) => {
                let uid = scene.make_unique_node_id(node_id);
                proof {
                    assert(ukey(uid) == node_key(*scene, node_id@));
                }
                if text.len() <= u32::MAX as usize {
                    self.set_text(uid, &node.transform, text.as_slice(), *size);
                    proof {
                        assert(self.texts@.dom() =~= old(self).texts@.dom().union(
                            own.texts.dom(),
                        ));
                    }
                } else {
                    proof {
                        assert(own == WalkInstances::empty());
                    }
                }
            },
        }
        let ghost mut acc = own;
        proof {
            assert(self.mesh_instances@.dom() =~= old(self).mesh_instances@.dom().union(
                acc.meshes.dom(),
            ));
            assert(self.lights@.dom() =~= old(self).lights@.dom().union(acc.lights));
            assert(self.texts@.dom() =~= old(self).texts@.dom().union(acc.texts.dom()));
            assert(walk_instances(*scene, node_id@) == own.join(
                walk_children(*scene, node_id@, 0),
            ));
        }
        let children = scene.children_of(node_id);
        let n = children.len();
        for i in 0..n
            invariant
                server.wf(),
                scene_wf_deep(*scene),
                scene.handle is Some,
                scene_assets_ok(*scene, *server),
                0 <= node_id@ < scene.nodes@.len(),
                children@ == scene.children_view()[node_id@],
                n == children@.len(),
                self.wf_for(*server),
                walk_instances(*scene, node_id@) == acc.join(
                    walk_children(*scene, node_id@, i as int),
                ),
                self.mesh_instances@.dom() =~= old(self).mesh_instances@.dom().union(
                    acc.meshes.dom(),
                ),
                forall|k: u64|
                    #[trigger] acc.meshes.dom().contains(k) ==> self.mesh_instances@[k].mesh
                        == acc.meshes[k],
                forall|k: u64|
                    #[trigger] old(self).mesh_instances@.contains_key(k)
                        && !acc.meshes.dom().contains(k) ==> self.mesh_instances@[k] == old(self).mesh_instances@[k],
                self.lights@.dom() =~= old(self).lights@.dom().union(acc.lights),
                forall|k: u64|
                    #[trigger] old(self).lights@.contains_key(k) && !acc.lights.contains(k)
                        ==> self.lights@[k] == old(self).lights@[k],
                self.texts@.dom() =~= old(self).texts@.dom().union(acc.texts.dom()),
                forall|k: u64|
                    #[trigger] acc.texts.dom().contains(k) ==> self.texts@[k].instance_count
                        == acc.texts[k],
                forall|k: u64|
                    #[trigger] old(self).texts@.contains_key(k) && !acc.texts.dom().contains(k)
                        ==> self.texts@[k] == old(self).texts@[k],
                map_grows(old(self).meshes@, self.meshes@),
                map_grows(old(self).materials@, self.materials@),
                map_grows(old(self).textures@, self.textures@),
                commands_extended(old(self).commands@, self.commands@),
                self.font_handle == old(self).font_handle,
                self.default_material == old(self).default_material,
                self.quad_mesh == old(self).quad_mesh,
        {
            let child = children[i];
            proof {
                crate::arena::lemma_handle_view_bounds(node_id);
                crate::arena::lemma_handle_view_bounds(child);
                assert(crate::scene::children_ok(
                    scene.children_view()[node_id@],
                    node_id@,
                    scene.nodes@.len() as int,
                ));
                assert(child == scene.children_view()[node_id@][i as int]);
                assert(node_id@ < child@ < scene.nodes@.len());
            }
            let ghost pre = *self;
            self.register_node_recursive(node_transform, child, scene, server);
            proof {
                let w = walk_instances(*scene, child@);
                let acc2 = acc.join(w);
                assert(self.mesh_instances@.dom() =~= old(self).mesh_instances@.dom().union(
                    acc2.meshes.dom(),
                ));
                assert forall|k: u64| #[trigger]
                    acc2.meshes.dom().contains(k) implies self.mesh_instances@[k].mesh
                    == acc2.meshes[k] by {
                    if w.meshes.dom().contains(k) {
                    } else {
                        assert(pre.mesh_instances@[k].mesh == acc.meshes[k]);
                        assert(pre.mesh_instances@.contains_key(k));
                        assert(self.mesh_instances@[k] == pre.mesh_instances@[k]);
                    }
                }
                assert forall|k: u64| #[trigger]
                    old(self).mesh_instances@.contains_key(k) && !acc2.meshes.dom().contains(
                        k,
                    ) implies self.mesh_instances@[k] == old(self).mesh_instances@[k] by {
                    assert(pre.mesh_instances@[k] == old(self).mesh_instances@[k]);
                    assert(pre.mesh_instances@.contains_key(k));
                }
                assert(self.lights@.dom() =~= old(self).lights@.dom().union(acc2.lights));
                assert forall|k: u64| #[trigger]
                    old(self).lights@.contains_key(k) && !acc2.lights.contains(k) implies
                    self.lights@[k] == old(self).lights@[k] by {
                    assert(pre.lights@[k] == old(self).lights@[k]);
                    assert(pre.lights@.contains_key(k));
                }
                assert(self.texts@.dom() =~= old(self).texts@.dom().union(acc2.texts.dom()));
                assert forall|k: u64| #[trigger]
                    acc2.texts.dom().contains(k) implies self.texts@[k].instance_count
                    == acc2.texts[k] by {
                    if w.texts.dom().contains(k) {
                    } else {
                        assert(pre.texts@[k].instance_count == acc.texts[k]);
                        assert(pre.texts@.contains_key(k));
                        assert(self.texts@[k] == pre.texts@[k]);
                    }
                }
                assert forall|k: u64| #[trigger]
                    old(self).texts@.contains_key(k) && !acc2.texts.dom().contains(k) implies
                    self.texts@[k] == old(self).texts@[k] by {
                    assert(pre.texts@[k] == old(self).texts@[k]);
                    assert(pre.texts@.contains_key(k));
                }
                let rest = walk_children(*scene, node_id@, i + 1);
                assert(walk_children(*scene, node_id@, i as int) == w.join(rest));
                assert(acc.join(w.join(rest)).meshes =~= acc2.join(rest).meshes);
                assert(acc.join(w.join(rest)).lights =~= acc2.join(rest).lights);
                assert(acc.join(w.join(rest)).texts =~= acc2.join(rest).texts);
                assert(acc.join(w.join(rest)) == acc2.join(rest));
                acc = acc2;
            }
        }
        proof {
            assert(walk_children(*scene, node_id@, n as int) == WalkInstances::empty());
            let wf = walk_instances(*scene, node_id@);
            assert(wf.meshes =~= acc.meshes);
            assert(wf.lights =~= acc.lights);
            assert(wf.texts =~= acc.texts);
        }
    }


    /// Replaces the registered scene: clears every per-instance record, then
    /// walks the scene from its root, registering every mesh, light and text
    /// node it reaches. The handle-keyed content caches are reused, so only
    /// assets never seen before cost GPU resource creation.
    pub fn set_scene(&mut self, scene_handle: Handle<Scene>, server: &AssetServer)
        requires
            old(self).wf_for(*server),
            server.wf(),
            server.scene_valid(scene_handle),
            scene_assets_ok(server.scenes@[scene_handle@], *server),
        ensures
            final(self).wf_for(*server),
            final(self).mesh_instances@.dom() =~= walk_instances(
                server.scenes@[scene_handle@],
                server.scenes@[scene_handle@].root@,
            ).meshes.dom(),
            forall|k: u64|
                #[trigger] final(self).mesh_instances@.contains_key(k) ==> final(self).mesh_instances@[k].mesh == walk_instances(
                    server.scenes@[scene_handle@],
                    server.scenes@[scene_handle@].root@,
                ).meshes[k],
            final(self).lights@.dom() =~= walk_instances(
                server.scenes@[scene_handle@],
                server.scenes@[scene_handle@].root@,
            ).lights,
            final(self).texts@.dom() =~= walk_instances(
                server.scenes@[scene_handle@],
                server.scenes@[scene_handle@].root@,
            ).texts.dom(),
            forall|k: u64|
                #[trigger] final(self).texts@.contains_key(k) ==> final(self).texts@[k].instance_count == walk_instances(
                    server.scenes@[scene_handle@],
                    server.scenes@[scene_handle@].root@,
                ).texts[k],
            map_grows(old(self).meshes@, final(self).meshes@),
            map_grows(old(self).materials@, final(self).materials@),
            map_grows(old(self).textures@, final(self).textures@),
            commands_extended(old(self).commands@, final(self).commands@),
            final(self).font_handle == old(self).font_handle,
            final(self).default_material == old(self).default_material,
            final(self).quad_mesh == old(self).quad_mesh,
    {
        self.reset_scene();
        let scene = server.get_scene(scene_handle);
        let root = scene.root;
        proof {
            crate::arena::lemma_handle_view_bounds(root);
        }
        self.register_node_recursive(affine_identity(), root, scene, server);
        proof {
            let w = walk_instances(server.scenes@[scene_handle@], root@);
            assert(self.mesh_instances@.dom() =~= w.meshes.dom());
            assert(self.lights@.dom() =~= w.lights);
            assert(self.texts@.dom() =~= w.texts.dom());
        }
    }

}

} // verus!

verus! {

/// Asset soundness only reads the mesh, material and image arenas, so it
/// survives any change that leaves those three alone (such as registering a
/// scene).
pub proof fn lemma_scene_assets_ok_same_assets(s: Scene, a: AssetServer, b: AssetServer)
    requires
        scene_assets_ok(s, a),
        b.meshes == a.meshes,
        b.materials == a.materials,
        b.images == a.images,
    ensures
        scene_assets_ok(s, b),
    decreases s,
{
    crate::arena::lemma_arena_decreases_to_view(s.nodes);
    assert(decreases_to!(s => s.nodes));
    assert(decreases_to!(s => s.nodes@));
    lemma_nodes_assets_ok_same_assets(s.nodes@, a, b);
}

/// `lemma_scene_assets_ok_same_assets`, sequence form.
pub proof fn lemma_nodes_assets_ok_same_assets(
    nodes: Seq<crate::scene::Node>,
    a: AssetServer,
    b: AssetServer,
)
    requires
        nodes_assets_ok(nodes, a),
        b.meshes == a.meshes,
        b.materials == a.materials,
        b.images == a.images,
    ensures
        nodes_assets_ok(nodes, b),
    decreases nodes,
{
    if nodes.len() > 0 {
        lemma_node_assets_ok_same_assets(nodes[0], a, b);
        lemma_nodes_assets_ok_same_assets(nodes.drop_first(), a, b);
    }
}

/// `lemma_scene_assets_ok_same_assets`, single node form.
pub proof fn lemma_node_assets_ok_same_assets(n: crate::scene::Node, a: AssetServer, b: AssetServer)
    requires
        node_assets_ok(n, a),
        b.meshes == a.meshes,
        b.materials == a.materials,
        b.images == a.images,
    ensures
        node_assets_ok(n, b),
    decreases n,
{
    match n.data {
        NodeData::Scene(sub) => {
            lemma_scene_assets_ok_same_assets(*sub, a, b);
        },
        _ => {},
    }
}

} // verus!

verus! {

/// The per-instance records one walk of a (sub-)scene creates: which unique
/// node keys get a mesh instance (and for which mesh), a light, or a text
/// (and with how many glyphs). Later visits override earlier ones, exactly as
/// the walk's upserts do.
pub struct WalkInstances {
    pub meshes: Map<u64, Handle<Mesh>>,
    pub lights: Set<u64>,
    pub texts: Map<u64, int>,
}

impl WalkInstances {
    /// No records.
    pub open spec fn empty() -> WalkInstances {
        WalkInstances { meshes: Map::empty(), lights: Set::empty(), texts: Map::empty() }
    }

    /// The records of two walk parts, the `later` one overriding.
    pub open spec fn join(self, later: WalkInstances) -> WalkInstances {
        WalkInstances {
            meshes: self.meshes.union_prefer_right(later.meshes),
            lights: self.lights.union(later.lights),
            texts: self.texts.union_prefer_right(later.texts),
        }
    }
}

/// The per-instance map key of node `n` of a registered scene: its unique
/// node id, packed.
pub open spec fn node_key(s: Scene, n: int) -> u64 {
    match s.handle {
        Some(h) => (h@ * 0x1_0000_0000 + n) as u64,
        None => 0,
    }
}

/// What the walk registers for node `n` of scene `s` and everything below it:
/// the node's own record (a sub-scene payload contributes its whole walk),
/// overridden by the records of its children, in order. Text nodes whose
/// byte length exceeds the 32-bit instance count contribute nothing, as the
/// walk skips them.
pub open spec fn walk_instances(s: Scene, n: int) -> WalkInstances
    decreases s, s.nodes@.len() - n, s.children_view()[n].len() + 1,
        when scene_wf_deep(s) && 0 <= n < s.nodes@.len()
    via walk_instances_dec
{
    walk_own(s, n).join(walk_children(s, n, 0))
}

#[via_fn]
proof fn walk_instances_dec(s: Scene, n: int) {
}

/// The record node `n` of scene `s` contributes itself: a sub-scene payload
/// contributes its whole walk.
pub open spec fn walk_own(s: Scene, n: int) -> WalkInstances
    decreases s, s.nodes@.len() - n, 0int,
        when scene_wf_deep(s) && 0 <= n < s.nodes@.len()
    via walk_own_dec
{
    match s.nodes@[n].data {
        NodeData::Mesh(mh) => WalkInstances {
            meshes: Map::<u64, Handle<Mesh>>::empty().insert(node_key(s, n), mh),
            lights: Set::empty(),
            texts: Map::empty(),
        },
        NodeData::Light(_) => WalkInstances {
            meshes: Map::empty(),
            lights: Set::<u64>::empty().insert(node_key(s, n)),
            texts: Map::empty(),
        },
        NodeData::Text(t, _) => if t@.len() <= u32::MAX {
            WalkInstances {
                meshes: Map::empty(),
                lights: Set::empty(),
                texts: Map::<u64, int>::empty().insert(node_key(s, n), t@.len() as int),
            }
        } else {
            WalkInstances::empty()
        },
        NodeData::Scene(sub) => walk_instances(*sub, sub.root@),
        _ => WalkInstances::empty(),
    }
}

#[via_fn]
proof fn walk_own_dec(s: Scene, n: int) {
    crate::arena::lemma_arena_decreases_to_view(s.nodes);
    assert(decreases_to!(s => s.nodes));
    assert(decreases_to!(s => s.nodes@));
    assert(decreases_to!(s => s.nodes@[n]));
    crate::scene::lemma_nodes_wf_deep_index(s.nodes@);
    match s.nodes@[n].data {
        NodeData::Scene(sub) => {
            assert(crate::scene::node_wf_deep(s.nodes@[n]));
            assert(scene_wf_deep(*sub));
        },
        _ => {},
    }
}

/// `walk_instances`, over the children of node `n` from child position `i`
/// on.
pub open spec fn walk_children(s: Scene, n: int, i: int) -> WalkInstances
    decreases s, s.nodes@.len() - n, s.children_view()[n].len() - i,
        when scene_wf_deep(s) && 0 <= n < s.nodes@.len() && 0 <= i
    via walk_children_dec
{
    if i < s.children_view()[n].len() {
        walk_instances(s, s.children_view()[n][i]@).join(walk_children(s, n, i + 1))
    } else {
        WalkInstances::empty()
    }
}

#[via_fn]
proof fn walk_children_dec(s: Scene, n: int, i: int) {
    if i < s.children_view()[n].len() {
        assert(crate::scene::children_ok(s.children_view()[n], n, s.nodes@.len() as int));
        assert(n < s.children_view()[n][i]@ < s.nodes@.len());
    }
}

} // verus!
