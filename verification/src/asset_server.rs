//! The asset server: one append-only arena per concrete asset type, per-handle
//! metadata (source path, load options, load timestamp), a change-set of
//! handles whose content changed, and a queue of load requests for the host's
//! background workers.
//!
//! The server itself never touches the file system or a thread: loading is
//! split into decisions (made here, verified) and work (reading and decoding
//! files, done by the host). `load_*` registers a placeholder and enqueues a
//! request; the host performs the request and hands the outcome to
//! `install_load_result`, which swaps the slot's content in place and records
//! the handle in the change-set. `update` decides when tracked files are due
//! for a re-check, and `record_file_modified` turns one stat result into at
//! most one reload.
use vstd::prelude::*;

use crate::arena::{Arena, AssetKey, Handle, TypeErasedHandle};
use crate::image::Image;
use crate::material::Material;
use crate::mesh::Mesh;
use crate::scene::{scene_wf_deep, Scene};
use crate::shader_source::ShaderSource;
use crate::timestamp::Timestamp;

verus! {

/// How often tracked files are re-checked for on-disk changes, in
/// milliseconds.
pub const FILES_CHECK_POLL_INTERVAL_MILLIS: u64 = 250;

/// Per-handle bookkeeping, created when the handle is first registered and
/// never deleted.
#[derive(Debug, Clone)]
pub struct Metadata {
    pub path: Option<String>,
    pub timestamp: Timestamp,
    pub load_options: String,
}

impl Metadata {
    /// Fresh metadata: no source path, no options, stamped with the given
    /// time.
    pub fn new(now: Timestamp) -> (m: Metadata)
        ensures
            m.path is None,
            m.timestamp == now,
            m.load_options@ == Seq::<char>::empty(),
    {
        Metadata { path: None, timestamp: now, load_options: String::new() }
    }
}

/// The set of type-erased handles whose asset content changed since the set
/// was last drained. Kept duplicate-free, so consumers rebuild each dependent
/// resource exactly once.
#[derive(Debug)]
pub struct AssetChanges {
    pub assets: Vec<TypeErasedHandle>,
}

impl AssetChanges {
    /// Whether the set holds a handle with the given view.
    pub open spec fn contains_spec(self, e: (int, u64)) -> bool {
        exists|i: int| 0 <= i < self.assets@.len() && (#[trigger] self.assets@[i])@ == e
    }

    /// No handle is recorded twice.
    pub open spec fn wf(self) -> bool {
        forall|i: int, j: int|
            0 <= i < j < self.assets@.len() ==> (#[trigger] self.assets@[i])@ != (
            #[trigger] self.assets@[j])@
    }

    /// An empty change-set.
    pub fn new() -> (c: AssetChanges)
        ensures
            c.wf(),
            c.assets@.len() == 0,
    {
        AssetChanges { assets: Vec::new() }
    }

    /// How many handles are recorded.
    pub fn len(&self) -> (n: usize)
        ensures
            n == self.assets@.len(),
    {
        self.assets.len()
    }

    /// Whether the given erased handle is recorded.
    pub fn contains_erased(&self, e: TypeErasedHandle) -> (r: bool)
        ensures
            r == self.contains_spec(e@),
    {
        let n = self.assets.len();
        for i in 0..n
            invariant
                n == self.assets@.len(),
                forall|j: int| 0 <= j < i ==> (#[trigger] self.assets@[j])@ != e@,
        {
            if self.assets[i] == e {
                return true;
            }
        }
        false
    }

    /// Whether the given typed handle is recorded.
    pub fn contains<A: AssetKey>(&self, handle: Handle<A>) -> (r: bool)
        ensures
            r == self.contains_spec((handle@, A::type_key_spec())),
    {
        self.contains_erased(handle.to_type_erased())
    }

    /// Records a handle; recording one already present changes nothing.
    pub(crate) fn insert(&mut self, e: TypeErasedHandle) -> (inserted: bool)
        requires
            old(self).wf(),
        ensures
            final(self).wf(),
            final(self).contains_spec(e@),
            forall|x: (int, u64)|
                #[trigger] final(self).contains_spec(x) == (old(self).contains_spec(x) || x == e@),
            inserted == !old(self).contains_spec(e@),
            inserted ==> final(self).assets@ == old(self).assets@.push(e),
            !inserted ==> final(self).assets@ == old(self).assets@,
    {
        if self.contains_erased(e) {
            false
        } else {
            self.assets.push(e);
            proof {
                assert(self.assets@[self.assets@.len() - 1]@ == e@);
                assert forall|x: (int, u64)| #[trigger]
                    self.contains_spec(x) == (old(self).contains_spec(x) || x == e@) by {
                    if old(self).contains_spec(x) {
                        let i = choose|i: int|
                            0 <= i < old(self).assets@.len() && (#[trigger] old(self).assets@[i])@ == x;
                        assert(self.assets@[i]@ == x);
                    }
                    if self.contains_spec(x) {
                        let i = choose|i: int|
                            0 <= i < self.assets@.len() && (#[trigger] self.assets@[i])@ == x;
                        if i < old(self).assets@.len() {
                            assert(old(self).assets@[i]@ == x);
                        }
                    }
                }
            }
            true
        }
    }

    /// The recorded handles of one asset type, in recording order; each once,
    /// when the set is duplicate-free.
    pub fn iter<A: AssetKey>(&self) -> (r: Vec<Handle<A>>)
        ensures
            forall|j: int|
                0 <= j < r@.len() ==> self.contains_spec(((#[trigger] r@[j])@, A::type_key_spec())),
            forall|i: int|
                0 <= i < self.assets@.len() && (#[trigger] self.assets@[i])@.1
                    == A::type_key_spec() ==> exists|j: int|
                    0 <= j < r@.len() && (#[trigger] r@[j])@ == self.assets@[i]@.0,
            self.wf() ==> forall|p: int, q: int|
                0 <= p < q < r@.len() ==> (#[trigger] r@[p])@ != (#[trigger] r@[q])@,
    {
        let mut r: Vec<Handle<A>> = Vec::new();
        let ghost mut srcs: Seq<int> = Seq::empty();
        let n = self.assets.len();
        for i in 0..n
            invariant
                n == self.assets@.len(),
                srcs.len() == r@.len(),
                forall|p: int|
                    0 <= p < r@.len() ==> 0 <= #[trigger] srcs[p] < i && (self.assets@[srcs[p]])@
                        == ((r@[p])@, A::type_key_spec()),
                forall|p: int, q: int| 0 <= p < q < srcs.len() ==> srcs[p] < srcs[q],
                forall|j: int|
                    0 <= j < r@.len() ==> self.contains_spec(
                        ((#[trigger] r@[j])@, A::type_key_spec()),
                    ),
                forall|k: int|
                    0 <= k < i && (#[trigger] self.assets@[k])@.1 == A::type_key_spec() ==> exists|
                        j: int,
                    | 0 <= j < r@.len() && (#[trigger] r@[j])@ == self.assets@[k]@.0,
        {
            let ghost r_before = r@;
            match self.assets[i].downcast::<A>() {
                Ok(h) => {
                    proof {
                        assert(self.assets@[i as int]@ == (h@, A::type_key_spec()));
                        srcs = srcs.push(i as int);
                    }
                    r.push(h);
                },
                Err(_) => {},
            }
            proof {
                assert forall|k: int|
                    0 <= k < i + 1 && (#[trigger] self.assets@[k])@.1
                        == A::type_key_spec() implies exists|j: int|
                    0 <= j < r@.len() && (#[trigger] r@[j])@ == self.assets@[k]@.0 by {
                    if k < i {
                        let j = choose|j: int|
                            0 <= j < r_before.len() && (#[trigger] r_before[j])@
                                == self.assets@[k]@.0;
                        assert(r@[j]@ == self.assets@[k]@.0);
                    } else {
                        assert(r@[r@.len() - 1]@ == self.assets@[k]@.0);
                    }
                }
            }
        }
        proof {
            if self.wf() {
                assert forall|p: int, q: int|
                    0 <= p < q < r@.len() implies (#[trigger] r@[p])@ != (#[trigger] r@[q])@ by {
                    assert((self.assets@[srcs[p]])@ == ((r@[p])@, A::type_key_spec()));
                    assert((self.assets@[srcs[q]])@ == ((r@[q])@, A::type_key_spec()));
                    assert(srcs[p] < srcs[q]);
                }
            }
        }
        r
    }
}

/// One unit of loading work for the host: read the file at `path` and decode
/// it for the asset type the handle was erased from, honoring `options`, then
/// hand the outcome to `install_load_result`.
#[derive(Debug)]
pub struct LoadRequest {
    pub handle: TypeErasedHandle,
    pub path: String,
    pub options: String,
}

/// A successfully decoded asset coming back from a load request. Only
/// path-loadable asset types appear here.
#[derive(Debug)]
pub enum LoadedAsset {
    Image(Image),
    ShaderSource(ShaderSource),
}

/// The type key a loaded value installs under.
pub open spec fn loaded_kind(v: LoadedAsset) -> u64 {
    match v {
        LoadedAsset::Image(_) => Image::type_key_spec(),
        LoadedAsset::ShaderSource(_) => ShaderSource::type_key_spec(),
    }
}

/// Owns every loaded asset. See the module documentation for how loading is
/// split between the server and its host.
#[derive(Debug)]
pub struct AssetServer {
    pub images: Arena<Image>,
    pub image_meta: Vec<Metadata>,
    pub shader_sources: Arena<ShaderSource>,
    pub shader_source_meta: Vec<Metadata>,
    pub meshes: Arena<Mesh>,
    pub mesh_meta: Vec<Metadata>,
    pub materials: Arena<Material>,
    pub material_meta: Vec<Metadata>,
    pub scenes: Arena<Scene>,
    pub scene_meta: Vec<Metadata>,
    pub changes: AssetChanges,
    pub last_changes_check: Timestamp,
    pub pending_loads: Vec<LoadRequest>,
}

/// All timestamps of a metadata column are well-formed.
pub open spec fn metas_wf(ms: Seq<Metadata>) -> bool {
    forall|i: int| 0 <= i < ms.len() ==> (#[trigger] ms[i]).timestamp.wf()
}

impl AssetServer {
    /// Structural soundness: one metadata record per slot of each arena, all
    /// timestamps well-formed, a duplicate-free change-set, and every stored
    /// scene stamped with its own handle and deeply well-formed.
    pub open spec fn wf(self) -> bool {
        &&& self.images@.len() <= u32::MAX
        &&& self.shader_sources@.len() <= u32::MAX
        &&& self.meshes@.len() <= u32::MAX
        &&& self.materials@.len() <= u32::MAX
        &&& self.scenes@.len() <= u32::MAX
        &&& self.image_meta@.len() == self.images@.len()
        &&& self.shader_source_meta@.len() == self.shader_sources@.len()
        &&& self.mesh_meta@.len() == self.meshes@.len()
        &&& self.material_meta@.len() == self.materials@.len()
        &&& self.scene_meta@.len() == self.scenes@.len()
        &&& metas_wf(self.image_meta@)
        &&& metas_wf(self.shader_source_meta@)
        &&& metas_wf(self.mesh_meta@)
        &&& metas_wf(self.material_meta@)
        &&& metas_wf(self.scene_meta@)
        &&& self.last_changes_check.wf()
        &&& self.changes.wf()
        &&& forall|i: int|
            0 <= i < self.scenes@.len() ==> ((#[trigger] self.scenes@[i]).handle matches Some(h)
                && h@ == i && scene_wf_deep(self.scenes@[i]))
    }

    /// Whether a typed image handle points at a slot of this server.
    pub open spec fn image_valid(self, h: Handle<Image>) -> bool {
        0 <= h@ < self.images@.len()
    }

    /// Whether a typed shader source handle points at a slot of this server.
    pub open spec fn shader_source_valid(self, h: Handle<ShaderSource>) -> bool {
        0 <= h@ < self.shader_sources@.len()
    }

    /// Whether a typed mesh handle points at a slot of this server.
    pub open spec fn mesh_valid(self, h: Handle<Mesh>) -> bool {
        0 <= h@ < self.meshes@.len()
    }

    /// Whether a typed material handle points at a slot of this server.
    pub open spec fn material_valid(self, h: Handle<Material>) -> bool {
        0 <= h@ < self.materials@.len()
    }

    /// Whether a typed scene handle points at a slot of this server.
    pub open spec fn scene_valid(self, h: Handle<Scene>) -> bool {
        0 <= h@ < self.scenes@.len()
    }

    /// Whether an erased handle points at a slot of the arena its type key
    /// names.
    pub open spec fn erased_valid(self, e: (int, u64)) -> bool {
        if e.1 == Image::type_key_spec() {
            0 <= e.0 < self.images@.len()
        } else if e.1 == ShaderSource::type_key_spec() {
            0 <= e.0 < self.shader_sources@.len()
        } else if e.1 == Mesh::type_key_spec() {
            0 <= e.0 < self.meshes@.len()
        } else if e.1 == Material::type_key_spec() {
            0 <= e.0 < self.materials@.len()
        } else if e.1 == Scene::type_key_spec() {
            0 <= e.0 < self.scenes@.len()
        } else {
            false
        }
    }

    /// The metadata record an erased handle names.
    pub open spec fn metadata_spec(self, e: (int, u64)) -> Metadata {
        if e.1 == Image::type_key_spec() {
            self.image_meta@[e.0]
        } else if e.1 == ShaderSource::type_key_spec() {
            self.shader_source_meta@[e.0]
        } else if e.1 == Mesh::type_key_spec() {
            self.mesh_meta@[e.0]
        } else if e.1 == Material::type_key_spec() {
            self.material_meta@[e.0]
        } else {
            self.scene_meta@[e.0]
        }
    }

    /// A server with no assets, no pending work and an empty change-set.
    pub fn new() -> (s: AssetServer)
        ensures
            s.wf(),
            s.images@.len() == 0,
            s.shader_sources@.len() == 0,
            s.meshes@.len() == 0,
            s.materials@.len() == 0,
            s.scenes@.len() == 0,
            s.changes.assets@.len() == 0,
            s.pending_loads@.len() == 0,
    {
        AssetServer {
            images: Arena::new(),
            image_meta: Vec::new(),
            shader_sources: Arena::new(),
            shader_source_meta: Vec::new(),
            meshes: Arena::new(),
            mesh_meta: Vec::new(),
            materials: Arena::new(),
            material_meta: Vec::new(),
            scenes: Arena::new(),
            scene_meta: Vec::new(),
            changes: AssetChanges::new(),
            last_changes_check: Timestamp::now(),
            pending_loads: Vec::new(),
        }
    }

    /// Registers a fully formed image and returns its handle.
    pub fn add_image(&mut self, asset: Image) -> (h: Handle<Image>)
        requires
            old(self).wf(),
            old(self).images@.len() < u32::MAX,
        ensures
            final(self).wf(),
            h@ == old(self).images@.len(),
            final(self).images@ == old(self).images@.push(asset),
            final(self).image_meta@.len() == old(self).image_meta@.len() + 1,
            forall|j: int|
                0 <= j < old(self).image_meta@.len() ==> final(self).image_meta@[j]
                    == old(self).image_meta@[j],
            final(self).image_meta@[h@].path is None,
            final(self).image_meta@[h@].load_options@ == Seq::<char>::empty(),
            final(self).image_meta@[h@].timestamp.wf(),
            final(self).shader_sources == old(self).shader_sources,
            final(self).shader_source_meta == old(self).shader_source_meta,
            final(self).meshes == old(self).meshes,
            final(self).mesh_meta == old(self).mesh_meta,
            final(self).materials == old(self).materials,
            final(self).material_meta == old(self).material_meta,
            final(self).scenes == old(self).scenes,
            final(self).scene_meta == old(self).scene_meta,
            final(self).changes == old(self).changes,
            final(self).last_changes_check == old(self).last_changes_check,
            final(self).pending_loads == old(self).pending_loads,
    {
        let h = self.images.allocate(asset);
        self.image_meta.push(Metadata::new(Timestamp::now()));
        h
    }

    /// Registers a fully formed shader source and returns its handle.
    pub fn add_shader_source(&mut self, asset: ShaderSource) -> (h: Handle<ShaderSource>)
        requires
            old(self).wf(),
            old(self).shader_sources@.len() < u32::MAX,
        ensures
            final(self).wf(),
            h@ == old(self).shader_sources@.len(),
            final(self).shader_sources@ == old(self).shader_sources@.push(asset),
            final(self).shader_source_meta@.len() == old(self).shader_source_meta@.len() + 1,
            forall|j: int|
                0 <= j < old(self).shader_source_meta@.len() ==> final(self).shader_source_meta@[j]
                    == old(self).shader_source_meta@[j],
            final(self).shader_source_meta@[h@].path is None,
            final(self).shader_source_meta@[h@].load_options@ == Seq::<char>::empty(),
            final(self).shader_source_meta@[h@].timestamp.wf(),
            final(self).images == old(self).images,
            final(self).image_meta == old(self).image_meta,
            final(self).meshes == old(self).meshes,
            final(self).mesh_meta == old(self).mesh_meta,
            final(self).materials == old(self).materials,
            final(self).material_meta == old(self).material_meta,
            final(self).scenes == old(self).scenes,
            final(self).scene_meta == old(self).scene_meta,
            final(self).changes == old(self).changes,
            final(self).last_changes_check == old(self).last_changes_check,
            final(self).pending_loads == old(self).pending_loads,
    {
        let h = self.shader_sources.allocate(asset);
        self.shader_source_meta.push(Metadata::new(Timestamp::now()));
        h
    }

    /// Registers a fully formed mesh and returns its handle.
    pub fn add_mesh(&mut self, asset: Mesh) -> (h: Handle<Mesh>)
        requires
            old(self).wf(),
            old(self).meshes@.len() < u32::MAX,
        ensures
            final(self).wf(),
            h@ == old(self).meshes@.len(),
            final(self).meshes@ == old(self).meshes@.push(asset),
            final(self).mesh_meta@.len() == old(self).mesh_meta@.len() + 1,
            final(self).mesh_meta@[h@].path is None,
            final(self).mesh_meta@[h@].load_options@ == Seq::<char>::empty(),
            final(self).mesh_meta@[h@].timestamp.wf(),
            final(self).images == old(self).images,
            final(self).image_meta == old(self).image_meta,
            final(self).shader_sources == old(self).shader_sources,
            final(self).shader_source_meta == old(self).shader_source_meta,
            final(self).materials == old(self).materials,
            final(self).material_meta == old(self).material_meta,
            final(self).scenes == old(self).scenes,
            final(self).scene_meta == old(self).scene_meta,
            final(self).changes == old(self).changes,
            final(self).last_changes_check == old(self).last_changes_check,
            final(self).pending_loads == old(self).pending_loads,
    {
        let h = self.meshes.allocate(asset);
        self.mesh_meta.push(Metadata::new(Timestamp::now()));
        h
    }

    /// Registers a fully formed material and returns its handle.
    pub fn add_material(&mut self, asset: Material) -> (h: Handle<Material>)
        requires
            old(self).wf(),
            old(self).materials@.len() < u32::MAX,
        ensures
            final(self).wf(),
            h@ == old(self).materials@.len(),
            final(self).materials@ == old(self).materials@.push(asset),
            final(self).material_meta@.len() == old(self).material_meta@.len() + 1,
            final(self).material_meta@[h@].path is None,
            final(self).material_meta@[h@].load_options@ == Seq::<char>::empty(),
            final(self).material_meta@[h@].timestamp.wf(),
            final(self).images == old(self).images,
            final(self).image_meta == old(self).image_meta,
            final(self).shader_sources == old(self).shader_sources,
            final(self).shader_source_meta == old(self).shader_source_meta,
            final(self).meshes == old(self).meshes,
            final(self).mesh_meta == old(self).mesh_meta,
            final(self).scenes == old(self).scenes,
            final(self).scene_meta == old(self).scene_meta,
            final(self).changes == old(self).changes,
            final(self).last_changes_check == old(self).last_changes_check,
            final(self).pending_loads == old(self).pending_loads,
    {
        let h = self.materials.allocate(asset);
        self.material_meta.push(Metadata::new(Timestamp::now()));
        h
    }

    /// Registers a scene and returns its handle. The stored copy is stamped
    /// with that handle, so unique node ids minted from it never collide with
    /// another registered scene's.
    pub fn add_scene(&mut self, scene: Scene) -> (h: Handle<Scene>)
        requires
            old(self).wf(),
            scene_wf_deep(scene),
            old(self).scenes@.len() < u32::MAX,
        ensures
            final(self).wf(),
            h@ == old(self).scenes@.len(),
            final(self).scenes@.len() == old(self).scenes@.len() + 1,
            forall|j: int|
                0 <= j < old(self).scenes@.len() ==> final(self).scenes@[j] == old(self).scenes@[j],
            final(self).scenes@[h@].handle == Some(h),
            final(self).scenes@[h@].nodes == scene.nodes,
            final(self).scenes@[h@].root == scene.root,
            final(self).scenes@[h@].children == scene.children,
            final(self).scene_meta@.len() == old(self).scene_meta@.len() + 1,
            final(self).scene_meta@[h@].path is None,
            final(self).scene_meta@[h@].load_options@ == Seq::<char>::empty(),
            final(self).scene_meta@[h@].timestamp.wf(),
            final(self).images == old(self).images,
            final(self).image_meta == old(self).image_meta,
            final(self).shader_sources == old(self).shader_sources,
            final(self).shader_source_meta == old(self).shader_source_meta,
            final(self).meshes == old(self).meshes,
            final(self).mesh_meta == old(self).mesh_meta,
            final(self).materials == old(self).materials,
            final(self).material_meta == old(self).material_meta,
            final(self).changes == old(self).changes,
            final(self).last_changes_check == old(self).last_changes_check,
            final(self).pending_loads == old(self).pending_loads,
    {
        let h = self.scenes.allocate(scene);
        self.scene_meta.push(Metadata::new(Timestamp::now()));
        let slot = self.scenes.get_mut(h);
        slot.handle = Some(h);
        proof {
            assert forall|i: int|
                0 <= i < self.scenes@.len() implies ((#[trigger] self.scenes@[i]).handle matches Some(hh)
                && hh@ == i && scene_wf_deep(self.scenes@[i])) by {
                if i < old(self).scenes@.len() {
                    assert(self.scenes@[i] == old(self).scenes@[i]);
                } else {
                    assert(self.scenes@[i].nodes@ == scene.nodes@);
                }
            }
        }
        h
    }

    /// The image a handle refers to.
    pub fn get_image(&self, h: Handle<Image>) -> (r: &Image)
        requires
            self.image_valid(h),
        ensures
            *r == self.images@[h@],
    {
        self.images.get(h)
    }

    /// Mutable access to the image a handle refers to.
    pub fn get_image_mut(&mut self, h: Handle<Image>) -> (r: &mut Image)
        requires
            old(self).image_valid(h),
        ensures
            *r == old(self).images@[h@],
            final(self).images@ == old(self).images@.update(h@, *final(r)),
            final(self).image_meta == old(self).image_meta,
            final(self).shader_sources == old(self).shader_sources,
            final(self).shader_source_meta == old(self).shader_source_meta,
            final(self).meshes == old(self).meshes,
            final(self).mesh_meta == old(self).mesh_meta,
            final(self).materials == old(self).materials,
            final(self).material_meta == old(self).material_meta,
            final(self).scenes == old(self).scenes,
            final(self).scene_meta == old(self).scene_meta,
            final(self).changes == old(self).changes,
            final(self).last_changes_check == old(self).last_changes_check,
            final(self).pending_loads == old(self).pending_loads,
    {
        self.images.get_mut(h)
    }

    /// The shader source a handle refers to.
    pub fn get_shader_source(&self, h: Handle<ShaderSource>) -> (r: &ShaderSource)
        requires
            self.shader_source_valid(h),
        ensures
            *r == self.shader_sources@[h@],
    {
        self.shader_sources.get(h)
    }

    /// The mesh a handle refers to.
    pub fn get_mesh(&self, h: Handle<Mesh>) -> (r: &Mesh)
        requires
            self.mesh_valid(h),
        ensures
            *r == self.meshes@[h@],
    {
        self.meshes.get(h)
    }

    /// The material a handle refers to.
    pub fn get_material(&self, h: Handle<Material>) -> (r: &Material)
        requires
            self.material_valid(h),
        ensures
            *r == self.materials@[h@],
    {
        self.materials.get(h)
    }

    /// Mutable access to the material a handle refers to.
    pub fn get_material_mut(&mut self, h: Handle<Material>) -> (r: &mut Material)
        requires
            old(self).material_valid(h),
        ensures
            *r == old(self).materials@[h@],
            final(self).materials@ == old(self).materials@.update(h@, *final(r)),
            final(self).material_meta == old(self).material_meta,
            final(self).images == old(self).images,
            final(self).image_meta == old(self).image_meta,
            final(self).shader_sources == old(self).shader_sources,
            final(self).shader_source_meta == old(self).shader_source_meta,
            final(self).meshes == old(self).meshes,
            final(self).mesh_meta == old(self).mesh_meta,
            final(self).scenes == old(self).scenes,
            final(self).scene_meta == old(self).scene_meta,
            final(self).changes == old(self).changes,
            final(self).last_changes_check == old(self).last_changes_check,
            final(self).pending_loads == old(self).pending_loads,
    {
        self.materials.get_mut(h)
    }

    /// The scene a handle refers to. Scenes are read-only once registered:
    /// mutating one in place could un-stamp its handle, and instances are
    /// clones anyway.
    pub fn get_scene(&self, h: Handle<Scene>) -> (r: &Scene)
        requires
            self.scene_valid(h),
        ensures
            *r == self.scenes@[h@],
    {
        self.scenes.get(h)
    }
}

} // verus!

verus! {

impl AssetServer {
    /// Registers a placeholder image for the file at `path` and queues a load
    /// request for it, stamped with the given time. The handle is usable at
    /// once; its content is the placeholder until the host installs the load's
    /// result.
    pub fn load_image_with_options(&mut self, path: &str, options: &str, now: Timestamp) -> (h:
        Handle<Image>)
        requires
            old(self).wf(),
            now.wf(),
            old(self).images@.len() < u32::MAX,
        ensures
            final(self).wf(),
            h@ == old(self).images@.len(),
            final(self).images@.len() == old(self).images@.len() + 1,
            forall|j: int|
                0 <= j < old(self).images@.len() ==> final(self).images@[j] == old(self).images@[j],
            final(self).images@[h@].is_placeholder(),
            final(self).image_meta@.len() == old(self).image_meta@.len() + 1,
            forall|j: int|
                0 <= j < old(self).image_meta@.len() ==> final(self).image_meta@[j] == old(self).image_meta@[j],
            final(self).image_meta@[h@].path matches Some(p) && p@ == path@,
            final(self).image_meta@[h@].load_options@ == options@,
            final(self).image_meta@[h@].timestamp == now,
            final(self).pending_loads@.len() == old(self).pending_loads@.len() + 1,
            final(self).pending_loads@.drop_last() == old(self).pending_loads@,
            final(self).pending_loads@.last().handle@ == (h@, Image::type_key_spec()),
            final(self).pending_loads@.last().path@ == path@,
            final(self).pending_loads@.last().options@ == options@,
            final(self).shader_sources == old(self).shader_sources,
            final(self).shader_source_meta == old(self).shader_source_meta,
            final(self).meshes == old(self).meshes,
            final(self).mesh_meta == old(self).mesh_meta,
            final(self).materials == old(self).materials,
            final(self).material_meta == old(self).material_meta,
            final(self).scenes == old(self).scenes,
            final(self).scene_meta == old(self).scene_meta,
            final(self).changes == old(self).changes,
            final(self).last_changes_check == old(self).last_changes_check,
    {
        let h = self.add_image(Image::new_dummy());
        let idx = h.raw_index() as usize;
        let meta = &mut self.image_meta[idx];
        meta.path = Some(path.to_owned());
        meta.load_options = options.to_owned();
        meta.timestamp = now;
        self.pending_loads.push(
            LoadRequest {
                handle: h.to_type_erased(),
                path: path.to_owned(),
                options: options.to_owned(),
            },
        );
        proof {
            assert(self.pending_loads@.drop_last() =~= old(self).pending_loads@);
        }
        h
    }

    /// `load_image_with_options` with no options.
    pub fn load_image(&mut self, path: &str, now: Timestamp) -> (h: Handle<Image>)
        requires
            old(self).wf(),
            now.wf(),
            old(self).images@.len() < u32::MAX,
        ensures
            final(self).wf(),
            h@ == old(self).images@.len(),
            final(self).images@.len() == old(self).images@.len() + 1,
            forall|j: int|
                0 <= j < old(self).images@.len() ==> final(self).images@[j] == old(self).images@[j],
            final(self).images@[h@].is_placeholder(),
            final(self).image_meta@.len() == old(self).image_meta@.len() + 1,
            forall|j: int|
                0 <= j < old(self).image_meta@.len() ==> final(self).image_meta@[j]
                    == old(self).image_meta@[j],
            final(self).image_meta@[h@].path matches Some(p) && p@ == path@,
            final(self).image_meta@[h@].load_options@ == Seq::<char>::empty(),
            final(self).image_meta@[h@].timestamp == now,
            final(self).pending_loads@.len() == old(self).pending_loads@.len() + 1,
            final(self).pending_loads@.drop_last() == old(self).pending_loads@,
            final(self).pending_loads@.last().handle@ == (h@, Image::type_key_spec()),
            final(self).pending_loads@.last().path@ == path@,
            final(self).pending_loads@.last().options@ == Seq::<char>::empty(),
            final(self).shader_sources == old(self).shader_sources,
            final(self).shader_source_meta == old(self).shader_source_meta,
            final(self).meshes == old(self).meshes,
            final(self).mesh_meta == old(self).mesh_meta,
            final(self).materials == old(self).materials,
            final(self).material_meta == old(self).material_meta,
            final(self).scenes == old(self).scenes,
            final(self).scene_meta == old(self).scene_meta,
            final(self).changes == old(self).changes,
            final(self).last_changes_check == old(self).last_changes_check,
    {
        proof {
            reveal_strlit("");
            assert(""@ =~= Seq::<char>::empty());
        }
        self.load_image_with_options(path, "", now)
    }

    /// Registers a placeholder (empty) shader source for the file at `path`
    /// and queues a load request carrying the loader options (a comma
    /// separated define list). Shader loads are meant to run synchronously:
    /// the host should perform the request and install its result before
    /// using the handle, so validation errors surface deterministically.
    pub fn load_shader_source(&mut self, path: &str, options: &str, now: Timestamp) -> (h: Handle<
        ShaderSource,
    >)
        requires
            old(self).wf(),
            now.wf(),
            old(self).shader_sources@.len() < u32::MAX,
        ensures
            final(self).wf(),
            h@ == old(self).shader_sources@.len(),
            final(self).shader_sources@.len() == old(self).shader_sources@.len() + 1,
            forall|j: int|
                0 <= j < old(self).shader_sources@.len() ==> final(self).shader_sources@[j] == old(self).shader_sources@[j],
            final(self).shader_sources@[h@].src@ == Seq::<char>::empty(),
            final(self).shader_source_meta@.len() == old(self).shader_source_meta@.len() + 1,
            forall|j: int|
                0 <= j < old(self).shader_source_meta@.len() ==> final(self).shader_source_meta@[j]
                    == old(self).shader_source_meta@[j],
            final(self).shader_source_meta@[h@].path matches Some(p) && p@ == path@,
            final(self).shader_source_meta@[h@].load_options@ == options@,
            final(self).shader_source_meta@[h@].timestamp == now,
            final(self).pending_loads@.len() == old(self).pending_loads@.len() + 1,
            final(self).pending_loads@.drop_last() == old(self).pending_loads@,
            final(self).pending_loads@.last().handle@ == (h@, ShaderSource::type_key_spec()),
            final(self).pending_loads@.last().path@ == path@,
            final(self).pending_loads@.last().options@ == options@,
            final(self).images == old(self).images,
            final(self).image_meta == old(self).image_meta,
            final(self).meshes == old(self).meshes,
            final(self).mesh_meta == old(self).mesh_meta,
            final(self).materials == old(self).materials,
            final(self).material_meta == old(self).material_meta,
            final(self).scenes == old(self).scenes,
            final(self).scene_meta == old(self).scene_meta,
            final(self).changes == old(self).changes,
            final(self).last_changes_check == old(self).last_changes_check,
    {
        let h = self.add_shader_source(ShaderSource::new_placeholder());
        let idx = h.raw_index() as usize;
        let meta = &mut self.shader_source_meta[idx];
        meta.path = Some(path.to_owned());
        meta.load_options = options.to_owned();
        meta.timestamp = now;
        self.pending_loads.push(
            LoadRequest {
                handle: h.to_type_erased(),
                path: path.to_owned(),
                options: options.to_owned(),
            },
        );
        proof {
            assert(self.pending_loads@.drop_last() =~= old(self).pending_loads@);
        }
        h
    }

    /// Stamps a fresh load time on the image and queues a new load request
    /// for its recorded path and options. The stamp is taken before the load
    /// runs, so a file modified while loading still reads as newer on the
    /// next poll. Only path-backed assets can be reloaded.
    pub fn reload_image(&mut self, h: Handle<Image>, now: Timestamp)
        requires
            old(self).wf(),
            now.wf(),
            old(self).image_valid(h),
            old(self).image_meta@[h@].path is Some,
        ensures
            final(self).wf(),
            final(self).image_meta@.len() == old(self).image_meta@.len(),
            final(self).image_meta@[h@].timestamp == now,
            final(self).image_meta@[h@].path == old(self).image_meta@[h@].path,
            final(self).image_meta@[h@].load_options == old(self).image_meta@[h@].load_options,
            forall|j: int|
                0 <= j < old(self).image_meta@.len() && j != h@ ==> final(self).image_meta@[j]
                    == old(self).image_meta@[j],
            final(self).pending_loads@.len() == old(self).pending_loads@.len() + 1,
            final(self).pending_loads@.drop_last() == old(self).pending_loads@,
            final(self).pending_loads@.last().handle@ == (h@, Image::type_key_spec()),
            old(self).image_meta@[h@].path matches Some(p) ==> final(self).pending_loads@.last().path@ == p@,
            final(self).pending_loads@.last().options@ == old(self).image_meta@[h@].load_options@,
            final(self).images == old(self).images,
            final(self).shader_sources == old(self).shader_sources,
            final(self).shader_source_meta == old(self).shader_source_meta,
            final(self).meshes == old(self).meshes,
            final(self).mesh_meta == old(self).mesh_meta,
            final(self).materials == old(self).materials,
            final(self).material_meta == old(self).material_meta,
            final(self).scenes == old(self).scenes,
            final(self).scene_meta == old(self).scene_meta,
            final(self).changes == old(self).changes,
            final(self).last_changes_check == old(self).last_changes_check,
    {
        let idx = h.raw_index() as usize;
        let path = match &self.image_meta[idx].path {
            Some(p) => p.clone(),
            None => vstd::pervasive::unreached(),
        };
        let options = self.image_meta[idx].load_options.clone();
        let meta = &mut self.image_meta[idx];
        meta.timestamp = now;
        self.pending_loads.push(
            LoadRequest { handle: h.to_type_erased(), path, options },
        );
        proof {
            assert(self.pending_loads@.drop_last() =~= old(self).pending_loads@);
        }
    }

    /// Stamps a fresh load time on the shader source and queues a new load
    /// request for its recorded path and options.
    pub fn reload_shader_source(&mut self, h: Handle<ShaderSource>, now: Timestamp)
        requires
            old(self).wf(),
            now.wf(),
            old(self).shader_source_valid(h),
            old(self).shader_source_meta@[h@].path is Some,
        ensures
            final(self).wf(),
            final(self).shader_source_meta@.len() == old(self).shader_source_meta@.len(),
            final(self).shader_source_meta@[h@].timestamp == now,
            final(self).shader_source_meta@[h@].path == old(self).shader_source_meta@[h@].path,
            final(self).shader_source_meta@[h@].load_options == old(self).shader_source_meta@[h@].load_options,
            forall|j: int|
                0 <= j < old(self).shader_source_meta@.len() && j != h@ ==> final(self).shader_source_meta@[j] == old(self).shader_source_meta@[j],
            final(self).pending_loads@.len() == old(self).pending_loads@.len() + 1,
            final(self).pending_loads@.drop_last() == old(self).pending_loads@,
            final(self).pending_loads@.last().handle@ == (h@, ShaderSource::type_key_spec()),
            old(self).shader_source_meta@[h@].path matches Some(p) ==> final(self).pending_loads@.last().path@ == p@,
            final(self).pending_loads@.last().options@ == old(self).shader_source_meta@[h@].load_options@,
            final(self).images == old(self).images,
            final(self).image_meta == old(self).image_meta,
            final(self).shader_sources == old(self).shader_sources,
            final(self).meshes == old(self).meshes,
            final(self).mesh_meta == old(self).mesh_meta,
            final(self).materials == old(self).materials,
            final(self).material_meta == old(self).material_meta,
            final(self).scenes == old(self).scenes,
            final(self).scene_meta == old(self).scene_meta,
            final(self).changes == old(self).changes,
            final(self).last_changes_check == old(self).last_changes_check,
    {
        let idx = h.raw_index() as usize;
        let path = match &self.shader_source_meta[idx].path {
            Some(p) => p.clone(),
            None => vstd::pervasive::unreached(),
        };
        let options = self.shader_source_meta[idx].load_options.clone();
        let meta = &mut self.shader_source_meta[idx];
        meta.timestamp = now;
        self.pending_loads.push(
            LoadRequest { handle: h.to_type_erased(), path, options },
        );
        proof {
            assert(self.pending_loads@.drop_last() =~= old(self).pending_loads@);
        }
    }

    /// Hands the queued load requests to the host, leaving the queue empty.
    pub fn take_pending_loads(&mut self) -> (work: Vec<LoadRequest>)
        ensures
            work@ == old(self).pending_loads@,
            final(self).pending_loads@.len() == 0,
            final(self).images == old(self).images,
            final(self).image_meta == old(self).image_meta,
            final(self).shader_sources == old(self).shader_sources,
            final(self).shader_source_meta == old(self).shader_source_meta,
            final(self).meshes == old(self).meshes,
            final(self).mesh_meta == old(self).mesh_meta,
            final(self).materials == old(self).materials,
            final(self).material_meta == old(self).material_meta,
            final(self).scenes == old(self).scenes,
            final(self).scene_meta == old(self).scene_meta,
            final(self).changes == old(self).changes,
            final(self).last_changes_check == old(self).last_changes_check,
    {
        let mut work: Vec<LoadRequest> = Vec::new();
        core::mem::swap(&mut self.pending_loads, &mut work);
        work
    }

    /// Installs the outcome of one load request. A successful load replaces
    /// the slot's content in place (other handles are untouched) and records
    /// the handle in the change-set; a failed one changes nothing and hands
    /// the error back for the host to report, leaving the previous content
    /// (at worst the placeholder) visible.
    pub fn install_load_result(
        &mut self,
        handle: TypeErasedHandle,
        result: Result<LoadedAsset, String>,
    ) -> (err: Option<String>)
        requires
            old(self).wf(),
            result matches Ok(v) ==> old(self).erased_valid(handle@) && loaded_kind(v)
                == handle@.1,
        ensures
            final(self).wf(),
            result matches Err(m) ==> err == Some(m) && *final(self) == *old(self),
            result matches Ok(v) ==> {
                &&& err is None
                &&& forall|x: (int, u64)|
                    #[trigger] final(self).changes.contains_spec(x) == (old(self).changes.contains_spec(x) || x == handle@)
                &&& (v matches LoadedAsset::Image(img) ==> final(self).images@ == old(self).images@.update(handle@.0, img) && final(self).shader_sources == old(self).shader_sources)
                &&& (v matches LoadedAsset::ShaderSource(ss) ==> final(self).shader_sources@
                    == old(self).shader_sources@.update(handle@.0, ss) && final(self).images
                    == old(self).images)
                &&& final(self).image_meta == old(self).image_meta
                &&& final(self).shader_source_meta == old(self).shader_source_meta
                &&& final(self).meshes == old(self).meshes
                &&& final(self).mesh_meta == old(self).mesh_meta
                &&& final(self).materials == old(self).materials
                &&& final(self).material_meta == old(self).material_meta
                &&& final(self).scenes == old(self).scenes
                &&& final(self).scene_meta == old(self).scene_meta
                &&& final(self).last_changes_check == old(self).last_changes_check
                &&& final(self).pending_loads == old(self).pending_loads
            },
    {
        match result {
            Err(m) => Some(m),
            Ok(LoadedAsset::Image(img)) => {
                match handle.downcast::<Image>() {
                    Ok(h) => {
                        let _ = self.images.replace(h, img);
                    },
                    Err(_) => {
                        proof {
                            assert(false);
                        }
                    },
                }
                self.changes.insert(handle);
                None
            },
            Ok(LoadedAsset::ShaderSource(ss)) => {
                match handle.downcast::<ShaderSource>() {
                    Ok(h) => {
                        let _ = self.shader_sources.replace(h, ss);
                    },
                    Err(_) => {
                        proof {
                            assert(false);
                        }
                    },
                }
                self.changes.insert(handle);
                None
            },
        }
    }

    /// Drains the accumulated change-set, leaving it empty; called once per
    /// frame before the render registration pass.
    pub fn take_asset_changes(&mut self) -> (c: AssetChanges)
        requires
            old(self).wf(),
        ensures
            final(self).wf(),
            c == old(self).changes,
            final(self).changes.assets@.len() == 0,
            final(self).images == old(self).images,
            final(self).image_meta == old(self).image_meta,
            final(self).shader_sources == old(self).shader_sources,
            final(self).shader_source_meta == old(self).shader_source_meta,
            final(self).meshes == old(self).meshes,
            final(self).mesh_meta == old(self).mesh_meta,
            final(self).materials == old(self).materials,
            final(self).material_meta == old(self).material_meta,
            final(self).scenes == old(self).scenes,
            final(self).scene_meta == old(self).scene_meta,
            final(self).last_changes_check == old(self).last_changes_check,
            final(self).pending_loads == old(self).pending_loads,
    {
        let mut c = AssetChanges::new();
        core::mem::swap(&mut self.changes, &mut c);
        c
    }

    /// Decides whether tracked files are due for a re-check: true when more
    /// than the poll interval has passed since the last check, in which case
    /// the check time is stamped and the host should stat every path-backed
    /// asset's file and report each result through `record_file_modified`.
    pub fn update(&mut self, now: Timestamp) -> (check_files: bool)
        requires
            old(self).wf(),
            now.wf(),
        ensures
            final(self).wf(),
            check_files == (now.as_millis() - old(self).last_changes_check.as_millis()
                > FILES_CHECK_POLL_INTERVAL_MILLIS),
            final(self).last_changes_check == if check_files {
                now
            } else {
                old(self).last_changes_check
            },
            final(self).images == old(self).images,
            final(self).image_meta == old(self).image_meta,
            final(self).shader_sources == old(self).shader_sources,
            final(self).shader_source_meta == old(self).shader_source_meta,
            final(self).meshes == old(self).meshes,
            final(self).mesh_meta == old(self).mesh_meta,
            final(self).materials == old(self).materials,
            final(self).material_meta == old(self).material_meta,
            final(self).scenes == old(self).scenes,
            final(self).scene_meta == old(self).scene_meta,
            final(self).changes == old(self).changes,
            final(self).pending_loads == old(self).pending_loads,
    {
        let elapsed = self.last_changes_check.millis_until(now);
        if elapsed > FILES_CHECK_POLL_INTERVAL_MILLIS {
            self.last_changes_check = now;
            true
        } else {
            false
        }
    }

    /// The erased handles of every path-backed asset: the images and shader
    /// sources loaded from a file, whose file the host should stat on each
    /// poll.
    pub fn path_backed_assets(&self) -> (r: Vec<TypeErasedHandle>)
        requires
            self.wf(),
        ensures
            forall|j: int|
                0 <= j < r@.len() ==> {
                    &&& self.erased_valid((#[trigger] r@[j])@)
                    &&& (r@[j]@.1 == Image::type_key_spec() || r@[j]@.1
                        == ShaderSource::type_key_spec())
                    &&& self.metadata_spec(r@[j]@).path is Some
                },
            forall|i: int|
                0 <= i < self.images@.len() && (#[trigger] self.image_meta@[i]).path is Some
                    ==> exists|j: int|
                    0 <= j < r@.len() && (#[trigger] r@[j])@ == (i, Image::type_key_spec()),
            forall|i: int|
                0 <= i < self.shader_sources@.len() && (
                #[trigger] self.shader_source_meta@[i]).path is Some ==> exists|j: int|
                    0 <= j < r@.len() && (#[trigger] r@[j])@ == (i, ShaderSource::type_key_spec()),
            forall|p: int, q: int|
                0 <= p < q < r@.len() ==> (#[trigger] r@[p])@ != (#[trigger] r@[q])@,
    {
        let mut r: Vec<TypeErasedHandle> = Vec::new();
        let image_handles = self.images.handles();
        let n = image_handles.len();
        for i in 0..n
            invariant
                self.wf(),
                n == self.images@.len(),
                image_handles@.len() == n,
                forall|k: int| 0 <= k < n ==> (#[trigger] image_handles@[k])@ == k,
                forall|j: int|
                    0 <= j < r@.len() ==> {
                        &&& self.erased_valid((#[trigger] r@[j])@)
                        &&& r@[j]@.1 == Image::type_key_spec()
                        &&& self.metadata_spec(r@[j]@).path is Some
                        &&& 0 <= r@[j]@.0 < i
                    },
                forall|p: int, q: int|
                    0 <= p < q < r@.len() ==> (#[trigger] r@[p])@ != (#[trigger] r@[q])@,
                forall|k: int|
                    0 <= k < i && (#[trigger] self.image_meta@[k]).path is Some ==> exists|j: int|
                        0 <= j < r@.len() && (#[trigger] r@[j])@ == (k, Image::type_key_spec()),
        {
            let ghost r_before = r@;
            let has_path = self.image_meta[i].path.is_some();
            if has_path {
                r.push(image_handles[i].to_type_erased());
            }
            proof {
                assert forall|p: int, q: int|
                    0 <= p < q < r@.len() implies (#[trigger] r@[p])@ != (#[trigger] r@[q])@ by {
                    if q < r_before.len() {
                        assert(r_before[p]@ != r_before[q]@);
                    } else {
                        assert(r@[p] == r_before[p]);
                        assert(r@[p]@.0 < i);
                        assert(r@[q]@.0 == i);
                    }
                }
                assert forall|k: int|
                    0 <= k < i + 1 && (#[trigger] self.image_meta@[k]).path is Some implies exists|
                    j: int,
                | 0 <= j < r@.len() && (#[trigger] r@[j])@ == (k, Image::type_key_spec()) by {
                    if k < i {
                        let j = choose|j: int|
                            0 <= j < r_before.len() && (#[trigger] r_before[j])@ == (
                                k,
                                Image::type_key_spec(),
                            );
                        assert(r@[j]@ == (k, Image::type_key_spec()));
                    } else {
                        assert(r@[r@.len() - 1]@ == (k, Image::type_key_spec()));
                    }
                }
            }
        }
        let ghost r_images = r@;
        let shader_handles = self.shader_sources.handles();
        let m = shader_handles.len();
        for i in 0..m
            invariant
                self.wf(),
                m == self.shader_sources@.len(),
                shader_handles@.len() == m,
                forall|k: int| 0 <= k < m ==> (#[trigger] shader_handles@[k])@ == k,
                r@.len() >= r_images.len(),
                forall|j: int| 0 <= j < r_images.len() ==> r@[j] == r_images[j],
                forall|j: int|
                    0 <= j < r@.len() ==> {
                        &&& self.erased_valid((#[trigger] r@[j])@)
                        &&& (r@[j]@.1 == Image::type_key_spec() || r@[j]@.1
                            == ShaderSource::type_key_spec())
                        &&& self.metadata_spec(r@[j]@).path is Some
                    },
                forall|j: int|
                    0 <= j < r_images.len() ==> (#[trigger] r_images[j])@.1
                        == Image::type_key_spec(),
                forall|j: int|
                    r_images.len() <= j < r@.len() ==> (#[trigger] r@[j])@.1
                        == ShaderSource::type_key_spec() && 0 <= r@[j]@.0 < i,
                forall|p: int, q: int|
                    0 <= p < q < r@.len() ==> (#[trigger] r@[p])@ != (#[trigger] r@[q])@,
                forall|k: int|
                    0 <= k < self.images@.len() && (#[trigger] self.image_meta@[k]).path is Some
                        ==> exists|j: int|
                        0 <= j < r@.len() && (#[trigger] r@[j])@ == (k, Image::type_key_spec()),
                forall|k: int|
                    0 <= k < i && (#[trigger] self.shader_source_meta@[k]).path is Some ==> exists|
                        j: int,
                    | 0 <= j < r@.len() && (#[trigger] r@[j])@ == (
                        k,
                        ShaderSource::type_key_spec(),
                    ),
        {
            let ghost r_before = r@;
            let has_path = self.shader_source_meta[i].path.is_some();
            if has_path {
                r.push(shader_handles[i].to_type_erased());
            }
            proof {
                assert forall|p: int, q: int|
                    0 <= p < q < r@.len() implies (#[trigger] r@[p])@ != (#[trigger] r@[q])@ by {
                    if q < r_before.len() {
                        assert(r_before[p]@ != r_before[q]@);
                    } else {
                        assert(r@[p] == r_before[p]);
                        assert(r@[q]@.1 == ShaderSource::type_key_spec());
                        assert(r@[q]@.0 == i);
                        if p < r_images.len() {
                            assert(r@[p] == r_images[p]);
                            assert(r_images[p]@.1 == Image::type_key_spec());
                        } else {
                            assert(r@[p]@.0 < i);
                        }
                    }
                }
                assert forall|k: int|
                    0 <= k < i + 1 && (
                    #[trigger] self.shader_source_meta@[k]).path is Some implies exists|j: int|
                    0 <= j < r@.len() && (#[trigger] r@[j])@ == (
                        k,
                        ShaderSource::type_key_spec(),
                    ) by {
                    if k < i {
                        let j = choose|j: int|
                            0 <= j < r_before.len() && (#[trigger] r_before[j])@ == (
                                k,
                                ShaderSource::type_key_spec(),
                            );
                        assert(r@[j]@ == (k, ShaderSource::type_key_spec()));
                    } else {
                        assert(r@[r@.len() - 1]@ == (k, ShaderSource::type_key_spec()));
                    }
                }
                assert forall|k: int|
                    0 <= k < self.images@.len() && (
                    #[trigger] self.image_meta@[k]).path is Some implies exists|j: int|
                    0 <= j < r@.len() && (#[trigger] r@[j])@ == (k, Image::type_key_spec()) by {
                    let j = choose|j: int|
                        0 <= j < r_before.len() && (#[trigger] r_before[j])@ == (
                            k,
                            Image::type_key_spec(),
                        );
                    assert(r@[j]@ == (k, Image::type_key_spec()));
                }
            }
        }
        r
    }

    /// The metadata record of any registered asset, looked up by erased
    /// handle.
    pub fn metadata(&self, e: TypeErasedHandle) -> (r: &Metadata)
        requires
            self.wf(),
            self.erased_valid(e@),
        ensures
            *r == self.metadata_spec(e@),
    {
        let key = e.erased_type_id();
        let idx = e.raw_index() as usize;
        if key == Image::type_key() {
            &self.image_meta[idx]
        } else if key == ShaderSource::type_key() {
            &self.shader_source_meta[idx]
        } else if key == Mesh::type_key() {
            &self.mesh_meta[idx]
        } else if key == Material::type_key() {
            &self.material_meta[idx]
        } else {
            &self.scene_meta[idx]
        }
    }

    /// Feeds back one stat result for a tracked file: when the file's
    /// modified time is strictly newer than the asset's recorded load time,
    /// exactly one reload is triggered (stamping the new time and queueing
    /// one request); otherwise nothing changes at all.
    pub fn record_file_modified(
        &mut self,
        e: TypeErasedHandle,
        modified: Timestamp,
        now: Timestamp,
    ) -> (reloaded: bool)
        requires
            old(self).wf(),
            now.wf(),
            modified.wf(),
            old(self).erased_valid(e@),
            e@.1 == Image::type_key_spec() || e@.1 == ShaderSource::type_key_spec(),
            old(self).metadata_spec(e@).path is Some,
        ensures
            final(self).wf(),
            reloaded == (old(self).metadata_spec(e@).timestamp.as_millis()
                < modified.as_millis()),
            !reloaded ==> *final(self) == *old(self),
            reloaded ==> {
                &&& final(self).metadata_spec(e@).timestamp == now
                &&& final(self).metadata_spec(e@).path == old(self).metadata_spec(e@).path
                &&& final(self).pending_loads@.len() == old(self).pending_loads@.len() + 1
                &&& final(self).pending_loads@.drop_last() == old(self).pending_loads@
                &&& final(self).pending_loads@.last().handle@ == e@
                &&& final(self).images == old(self).images
                &&& final(self).shader_sources == old(self).shader_sources
                &&& final(self).meshes == old(self).meshes
                &&& final(self).materials == old(self).materials
                &&& final(self).scenes == old(self).scenes
                &&& final(self).changes == old(self).changes
                &&& final(self).last_changes_check == old(self).last_changes_check
            },
    {
        if e.erased_type_id() == Image::type_key() {
            let h = match e.downcast::<Image>() {
                Ok(h) => h,
                Err(_) => vstd::pervasive::unreached(),
            };
            let idx = h.raw_index() as usize;
            if self.image_meta[idx].timestamp.lt(modified) {
                self.reload_image(h, now);
                true
            } else {
                false
            }
        } else {
            let h = match e.downcast::<ShaderSource>() {
                Ok(h) => h,
                Err(_) => vstd::pervasive::unreached(),
            };
            let idx = h.raw_index() as usize;
            if self.shader_source_meta[idx].timestamp.lt(modified) {
                self.reload_shader_source(h, now);
                true
            } else {
                false
            }
        }
    }
}

} // verus!
