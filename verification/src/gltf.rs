//! Registration of a decoded glTF document into the asset server.
//!
//! The host parses the file and decodes buffers and accessors; what arrives
//! here is plain data: texture sources, materials, meshes with their vertices
//! already extracted, and the node forest. Registration preallocates every
//! image, material and mesh — images referenced by path are registered as
//! placeholders with a queued load, embedded ones are added directly — and
//! then builds the scene, wiring nodes to the preallocated handles, so the
//! scene only ever references assets that exist.
use vstd::prelude::*;

use crate::arena::{AssetKey, Handle};
use crate::asset_server::AssetServer;
use crate::color::Color;
use crate::image::Image;
use crate::material::{BillboardMode, Material};
use crate::mesh::{Mesh, Submesh, Vertex};
use crate::scene::{nodes_wf_deep, Node, NodeData, Scene};
use crate::timestamp::Timestamp;
use crate::visual_server::{material_ok, mesh_ok, node_assets_ok, nodes_assets_ok, scene_assets_ok};

verus! {

/// Where a texture's pixels come from: a file next to the document, or bytes
/// already decoded from an embedded buffer view.
pub enum GltfTextureSource {
    Path(String),
    Decoded(Image),
}

/// One material of the document; the texture index points into the document's
/// texture list.
pub struct GltfMaterial {
    pub base_color: Color,
    pub base_color_texture: Option<usize>,
}

/// One triangle primitive, its vertex and index data already decoded; the
/// material index points into the document's material list.
pub struct GltfPrimitive {
    pub vertices: Vec<Vertex>,
    pub indices: Vec<u32>,
    pub material: Option<usize>,
}

/// One mesh of the document.
pub struct GltfMesh {
    pub primitives: Vec<GltfPrimitive>,
}

/// One node of the document's forest; the mesh index points into the
/// document's mesh list.
pub struct GltfNode {
    pub transform: glam::Affine3A,
    pub mesh: Option<usize>,
    pub children: Vec<GltfNode>,
}

/// A decoded glTF document: the flat asset lists and the default scene's root
/// nodes, when the document has a scene.
pub struct GltfDocument {
    pub textures: Vec<GltfTextureSource>,
    pub materials: Vec<GltfMaterial>,
    pub meshes: Vec<GltfMesh>,
    pub roots: Option<Vec<GltfNode>>,
}

/// Internal indices stay inside the document's own lists, embedded images are
/// sound, and index counts fit a draw call.
pub open spec fn doc_wf(doc: GltfDocument) -> bool {
    &&& forall|i: int|
        0 <= i < doc.textures@.len() ==> match #[trigger] doc.textures@[i] {
            GltfTextureSource::Decoded(img) => img.wf(),
            GltfTextureSource::Path(_) => true,
        }
    &&& forall|i: int, j: int|
        0 <= i < doc.meshes@.len() && 0 <= j < doc.meshes@[i].primitives@.len() ==> {
            &&& (#[trigger] doc.meshes@[i].primitives@[j]).indices@.len() <= u32::MAX
            &&& match doc.meshes@[i].primitives@[j].material {
                Some(m) => m < doc.materials@.len(),
                None => true,
            }
        }
    &&& match doc.roots {
        Some(roots) => gltf_nodes_wf(roots@, doc.meshes@.len() as int),
        None => true,
    }
}

/// Every node of the forest points at an existing mesh, if it points at one.
pub open spec fn gltf_nodes_wf(nodes: Seq<GltfNode>, mesh_count: int) -> bool
    decreases nodes,
{
    if nodes.len() == 0 {
        true
    } else {
        gltf_node_wf(nodes[0], mesh_count) && gltf_nodes_wf(nodes.drop_first(), mesh_count)
    }
}

/// One node's indices are in range, recursively.
pub open spec fn gltf_node_wf(node: GltfNode, mesh_count: int) -> bool
    decreases node,
{
    &&& match node.mesh {
        Some(m) => m < mesh_count,
        None => true,
    }
    &&& gltf_nodes_wf(node.children@, mesh_count)
}

/// Sequence-level node soundness coincides with elementwise soundness.
pub proof fn lemma_gltf_nodes_wf_index(nodes: Seq<GltfNode>, mesh_count: int)
    requires
        gltf_nodes_wf(nodes, mesh_count),
    ensures
        forall|i: int| 0 <= i < nodes.len() ==> gltf_node_wf(#[trigger] nodes[i], mesh_count),
    decreases nodes,
{
    if nodes.len() > 0 {
        lemma_gltf_nodes_wf_index(nodes.drop_first(), mesh_count);
        assert forall|i: int|
            0 <= i < nodes.len() implies gltf_node_wf(#[trigger] nodes[i], mesh_count) by {
            if i > 0 {
                assert(nodes.drop_first()[i - 1] == nodes[i]);
            }
        }
    }
}

/// One node's subtree, flattened in walk order: the node itself (its
/// transform and mesh index), then its children's subtrees in order. This is
/// exactly the order registration appends scene nodes in.
pub open spec fn gltf_node_flat(n: GltfNode) -> Seq<(glam::Affine3A, Option<int>)>
    decreases n,
{
    seq![
        (
            n.transform,
            match n.mesh {
                Some(m) => Some(m as int),
                None => None,
            },
        ),
    ] + gltf_forest_flat(n.children@)
}

/// A forest, flattened in walk order.
pub open spec fn gltf_forest_flat(nodes: Seq<GltfNode>) -> Seq<(glam::Affine3A, Option<int>)>
    decreases nodes,
{
    if nodes.len() == 0 {
        Seq::empty()
    } else {
        gltf_node_flat(nodes[0]) + gltf_forest_flat(nodes.drop_first())
    }
}

/// A scene node mirrors one flattened document node: same transform, and a
/// mesh payload pointing at the `mi`-th preallocated mesh handle, or an empty
/// payload.
pub open spec fn node_mirrors(
    node: Node,
    flat: (glam::Affine3A, Option<int>),
    hs: Seq<Handle<Mesh>>,
) -> bool {
    &&& node.transform == flat.0
    &&& match flat.1 {
        Some(mi) => 0 <= mi < hs.len() && node.data == NodeData::Mesh(hs[mi]),
        None => node.data is Empty,
    }
}

/// Appending a node whose payload is sound keeps a node sequence sound.
proof fn lemma_nodes_assets_ok_push(
    nodes: Seq<Node>,
    child: Node,
    server: AssetServer,
)
    requires
        nodes_assets_ok(nodes, server),
        node_assets_ok(child, server),
    ensures
        nodes_assets_ok(nodes.push(child), server),
{
    crate::visual_server::lemma_nodes_assets_ok_index(nodes, server);
    lemma_nodes_assets_ok_from_index(nodes.push(child), server);
}

/// Elementwise soundness establishes the sequence-level form.
proof fn lemma_nodes_assets_ok_from_index(nodes: Seq<Node>, server: AssetServer)
    requires
        forall|i: int| 0 <= i < nodes.len() ==> node_assets_ok(#[trigger] nodes[i], server),
    ensures
        nodes_assets_ok(nodes, server),
    decreases nodes,
{
    if nodes.len() > 0 {
        assert forall|i: int|
            0 <= i < nodes.drop_first().len() implies node_assets_ok(
            #[trigger] nodes.drop_first()[i],
            server,
        ) by {
            assert(nodes.drop_first()[i] == nodes[i + 1]);
        }
        lemma_nodes_assets_ok_from_index(nodes.drop_first(), server);
    }
}

/// Adds a document node and its descendants under `parent`, wiring mesh
/// payloads to the preallocated mesh handles. Fails only when the scene would
/// outgrow its 32-bit node indices.
fn add_gltf_node(
    scene: &mut Scene,
    parent: crate::scene::NodeId,
    node: &GltfNode,
    mesh_handles: &Vec<Handle<Mesh>>,
    server: &AssetServer,
) -> (r: Result<(), String>)
    requires
        old(scene).wf(),
        nodes_wf_deep(old(scene).nodes@),
        nodes_assets_ok(old(scene).nodes@, *server),
        parent@ < old(scene).nodes@.len(),
        gltf_node_wf(*node, mesh_handles@.len() as int),
        forall|j: int| 0 <= j < mesh_handles@.len() ==> mesh_ok(*server, #[trigger] mesh_handles@[j]),
    ensures
        final(scene).wf(),
        nodes_wf_deep(final(scene).nodes@),
        nodes_assets_ok(final(scene).nodes@, *server),
        final(scene).nodes@.len() >= old(scene).nodes@.len(),
        final(scene).handle == old(scene).handle,
        final(scene).root == old(scene).root,
        forall|j: int|
            0 <= j < old(scene).nodes@.len() ==> final(scene).nodes@[j] == old(scene).nodes@[j],
        forall|p: int|
            0 <= p < old(scene).nodes@.len() && p != parent@ ==> final(scene).children_view()[p]
                == old(scene).children_view()[p],
        r is Ok ==> final(scene).children_view()[parent@].len() == old(scene).children_view()[
            parent@
        ].len() + 1,
        final(scene).children_view()[parent@].len() >= old(scene).children_view()[parent@].len(),
        r is Ok <==> old(scene).nodes@.len() + gltf_node_flat(*node).len() <= u32::MAX,
        r is Ok ==> {
            &&& final(scene).nodes@.len() == old(scene).nodes@.len() + gltf_node_flat(
                *node,
            ).len()
            &&& forall|i: int|
                0 <= i < gltf_node_flat(*node).len() ==> node_mirrors(
                    #[trigger] final(scene).nodes@[old(scene).nodes@.len() + i],
                    gltf_node_flat(*node)[i],
                    mesh_handles@,
                )
        },
    decreases *node,
{
    proof {
        crate::arena::lemma_handle_view_bounds(parent);
    }
    if scene.nodes.len() >= (u32::MAX as usize) {
        proof {
            assert(gltf_node_flat(*node).len() >= 1);
        }
        return Err("scene has too many nodes".to_owned());
    }
    let child_node = match node.mesh {
        Some(m) => Node::new_mesh(mesh_handles[m]),
        None => Node::new_empty(),
    };
    let child_node = child_node.with_transform(node.transform);
    proof {
        crate::scene::lemma_nodes_wf_deep_push(scene.nodes@, child_node);
        lemma_nodes_assets_ok_push(scene.nodes@, child_node, *server);
    }
    let id = scene.add_allocate_child(parent, child_node);
    proof {
        assert(scene.children_view()[parent@] =~= old(scene).children_view()[parent@].push(id));
        assert forall|p: int|
            0 <= p < old(scene).nodes@.len() && p != parent@ implies scene.children_view()[p]
            == old(scene).children_view()[p] by {
            assert(scene.children_view()[p] =~= old(scene).children_view()[p]);
        }
    }
    let ghost own: (glam::Affine3A, Option<int>) = (
        node.transform,
        match node.mesh {
            Some(m) => Some(m as int),
            None => None,
        },
    );
    let ghost mut flat_done: Seq<(glam::Affine3A, Option<int>)> = Seq::empty();
    proof {
        assert(gltf_node_flat(*node) == seq![own] + gltf_forest_flat(node.children@));
        assert(node.children@.subrange(0, node.children@.len() as int) =~= node.children@);
        assert(seq![own] + flat_done =~= seq![own]);
        assert(node_mirrors(child_node, own, mesh_handles@));
    }
    let n = node.children.len();
    for i in 0..n
        invariant
            n == node.children@.len(),
            scene.wf(),
            nodes_wf_deep(scene.nodes@),
            nodes_assets_ok(scene.nodes@, *server),
            id@ == old(scene).nodes@.len(),
            id@ < scene.nodes@.len(),
            scene.nodes@.len() <= u32::MAX,
            scene.nodes@.len() >= old(scene).nodes@.len(),
            scene.handle == old(scene).handle,
            scene.root == old(scene).root,
            gltf_node_wf(*node, mesh_handles@.len() as int),
            forall|j: int|
                0 <= j < mesh_handles@.len() ==> mesh_ok(*server, #[trigger] mesh_handles@[j]),
            forall|j: int|
                0 <= j < old(scene).nodes@.len() ==> scene.nodes@[j] == old(scene).nodes@[j],
            0 <= parent@ < old(scene).nodes@.len(),
            forall|p: int|
                0 <= p < old(scene).nodes@.len() && p != parent@ ==> scene.children_view()[p]
                    == old(scene).children_view()[p],
            scene.children_view()[parent@].len() == old(scene).children_view()[parent@].len() + 1,
            gltf_node_flat(*node) == seq![own] + flat_done + gltf_forest_flat(
                node.children@.subrange(i as int, n as int),
            ),
            scene.nodes@.len() == old(scene).nodes@.len() + 1 + flat_done.len(),
            node_mirrors(scene.nodes@[id@], own, mesh_handles@),
            forall|j: int|
                0 <= j < flat_done.len() ==> node_mirrors(
                    #[trigger] scene.nodes@[old(scene).nodes@.len() + 1 + j],
                    flat_done[j],
                    mesh_handles@,
                ),
    {
        let ghost suffix = node.children@.subrange(i as int, n as int);
        proof {
            lemma_gltf_nodes_wf_index(node.children@, mesh_handles@.len() as int);
            assert(decreases_to!(*node => node.children));
            assert(decreases_to!(*node => node.children@));
            assert(decreases_to!(*node => node.children@[i as int]));
            assert(suffix[0] == node.children@[i as int]);
            assert(suffix.drop_first() =~= node.children@.subrange(i + 1, n as int));
            assert(gltf_forest_flat(suffix) == gltf_node_flat(node.children@[i as int])
                + gltf_forest_flat(node.children@.subrange(i + 1, n as int)));
        }
        let child = &node.children[i];
        let ghost nodes_pre = scene.nodes@;
        match add_gltf_node(scene, id, child, mesh_handles, server) {
            Ok(_) => {},
            Err(e) => {
                proof {
                    assert(gltf_node_flat(*node).len() >= 1 + flat_done.len() + gltf_node_flat(
                        *child,
                    ).len());
                    assert(scene.children_view()[parent@].len() == old(scene).children_view()[
                        parent@
                    ].len() + 1);
                }
                return Err(e);
            },
        }
        proof {
            let cf = gltf_node_flat(node.children@[i as int]);
            assert forall|j: int|
                0 <= j < (flat_done + cf).len() implies node_mirrors(
                #[trigger] scene.nodes@[old(scene).nodes@.len() + 1 + j],
                (flat_done + cf)[j],
                mesh_handles@,
            ) by {
                if j < flat_done.len() {
                    assert(scene.nodes@[old(scene).nodes@.len() + 1 + j] == nodes_pre[old(
                        scene,
                    ).nodes@.len() + 1 + j]);
                    assert((flat_done + cf)[j] == flat_done[j]);
                } else {
                    assert((flat_done + cf)[j] == cf[j - flat_done.len()]);
                    assert(node_mirrors(
                        scene.nodes@[nodes_pre.len() + (j - flat_done.len())],
                        cf[j - flat_done.len()],
                        mesh_handles@,
                    ));
                }
            }
            assert(seq![own] + flat_done + gltf_forest_flat(suffix) =~= seq![own] + (flat_done
                + cf) + gltf_forest_flat(node.children@.subrange(i + 1, n as int)));
            flat_done = flat_done + cf;
        }
    }
    proof {
        assert(node.children@.subrange(n as int, n as int) =~= Seq::<GltfNode>::empty());
        assert(gltf_forest_flat(Seq::<GltfNode>::empty()) =~= Seq::<
            (glam::Affine3A, Option<int>),
        >::empty());
        assert(gltf_node_flat(*node) =~= seq![own] + flat_done);
        assert forall|j: int|
            0 <= j < gltf_node_flat(*node).len() implies node_mirrors(
            #[trigger] scene.nodes@[old(scene).nodes@.len() + j],
            gltf_node_flat(*node)[j],
            mesh_handles@,
        ) by {
            if j == 0 {
                assert(gltf_node_flat(*node)[0] == own);
                assert(node_mirrors(scene.nodes@[id@], own, mesh_handles@));
            } else {
                assert(gltf_node_flat(*node)[j] == flat_done[j - 1]);
                assert(node_mirrors(
                    scene.nodes@[old(scene).nodes@.len() + 1 + (j - 1)],
                    flat_done[j - 1],
                    mesh_handles@,
                ));
            }
        }
    }
    Ok(())
}

/// The first `upto` textures of the document are registered: an embedded
/// image is stored as given; a path texture is stored as the placeholder with
/// one load request queued at or after `pending_base`, carrying the texture's
/// path and no options.
pub open spec fn images_registered(
    textures: Seq<GltfTextureSource>,
    images: Seq<Image>,
    pending: Seq<crate::asset_server::LoadRequest>,
    img_base: int,
    pending_base: int,
    upto: int,
) -> bool {
    forall|i: int|
        0 <= i < upto ==> match #[trigger] textures[i] {
            GltfTextureSource::Decoded(img) => images[img_base + i] == img,
            GltfTextureSource::Path(p) => images[img_base + i].is_placeholder() && exists|j: int|
                pending_base <= j < pending.len() && (#[trigger] pending[j]).handle@ == (
                    img_base + i,
                    crate::image::Image::type_key_spec(),
                ) && pending[j].path@ == p@ && pending[j].options@ == Seq::<char>::empty(),
        }
}

/// The first `upto` materials of the document are registered after the
/// default material: same base color, plain billboard and lighting flags, and
/// the base color image mapped to the registered image of its texture index
/// (out-of-range indices fall back to no image, as in the original loader's
/// lookup).
pub open spec fn materials_registered(
    doc_materials: Seq<GltfMaterial>,
    materials: Seq<Material>,
    mat_base: int,
    img_base: int,
    texture_count: int,
    upto: int,
) -> bool {
    forall|i: int|
        0 <= i < upto ==> {
            &&& (#[trigger] materials[mat_base + 1 + i]).base_color == doc_materials[i].base_color
            &&& materials[mat_base + 1 + i].billboard_mode == BillboardMode::Off
            &&& !materials[mat_base + 1 + i].unlit
            &&& match doc_materials[i].base_color_texture {
                Some(ti) => if ti < texture_count {
                    materials[mat_base + 1 + i].base_color_image matches Some(ih) && ih@ == img_base
                        + ti
                } else {
                    materials[mat_base + 1 + i].base_color_image is None
                },
                None => materials[mat_base + 1 + i].base_color_image is None,
            }
        }
}

/// The first `upto` meshes of the document are registered: one submesh per
/// primitive, with the primitive's vertex and index data verbatim and its
/// material mapped to the registered material (the default material where the
/// primitive names none).
pub open spec fn meshes_registered(
    doc_meshes: Seq<GltfMesh>,
    meshes: Seq<Mesh>,
    mesh_base: int,
    mat_base: int,
    upto: int,
) -> bool {
    forall|i: int, j: int|
        0 <= i < upto && 0 <= j < doc_meshes[i].primitives@.len() ==> {
            &&& meshes[mesh_base + i].submeshes@.len() == doc_meshes[i].primitives@.len()
            &&& (#[trigger] meshes[mesh_base + i].submeshes@[j]).vertices@ == doc_meshes[
                i
            ].primitives@[j].vertices@
            &&& meshes[mesh_base + i].submeshes@[j].indices@ == doc_meshes[i].primitives@[
                j
            ].indices@
            &&& meshes[mesh_base + i].submeshes@[j].material matches Some(mh) && mh@ == match
                doc_meshes[i].primitives@[j].material {
                Some(mi) => mat_base + 1 + mi,
                None => mat_base,
            }
        }
}

/// Registers a whole document: preallocates one image per texture (embedded
/// ones directly, path-backed ones as placeholders with a queued load), one
/// material per document material plus the default material, and one mesh per
/// document mesh; then builds the scene from the node forest and registers
/// it. Returns the scene's handle, or an error when the document has no scene
/// or is too large for the arenas. The registered scene only references
/// assets this call registered.
pub fn register_gltf_document(
    server: &mut AssetServer,
    doc: GltfDocument,
    now: Timestamp,
) -> (r: Result<Handle<Scene>, String>)
    requires
        old(server).wf(),
        now.wf(),
        doc_wf(doc),
        old(server).images@.len() + doc.textures@.len() < u32::MAX,
        old(server).materials@.len() + doc.materials@.len() + 1 < u32::MAX,
        old(server).meshes@.len() + doc.meshes@.len() < u32::MAX,
        old(server).scenes@.len() < u32::MAX,
    ensures
        final(server).wf(),
        r is Ok <==> (doc.roots matches Some(roots) && 1 + gltf_forest_flat(roots@).len()
            <= u32::MAX),
        final(server).images@.len() == old(server).images@.len() + doc.textures@.len(),
        final(server).materials@.len() == old(server).materials@.len() + doc.materials@.len() + 1,
        final(server).meshes@.len() == old(server).meshes@.len() + doc.meshes@.len(),
        forall|j: int|
            0 <= j < old(server).images@.len() ==> final(server).images@[j] == old(
                server,
            ).images@[j],
        images_registered(
            doc.textures@,
            final(server).images@,
            final(server).pending_loads@,
            old(server).images@.len() as int,
            old(server).pending_loads@.len() as int,
            doc.textures@.len() as int,
        ),
        final(server).materials@[old(server).materials@.len() as int] == Material::default_spec(),
        materials_registered(
            doc.materials@,
            final(server).materials@,
            old(server).materials@.len() as int,
            old(server).images@.len() as int,
            doc.textures@.len() as int,
            doc.materials@.len() as int,
        ),
        meshes_registered(
            doc.meshes@,
            final(server).meshes@,
            old(server).meshes@.len() as int,
            old(server).materials@.len() as int,
            doc.meshes@.len() as int,
        ),
        r matches Ok(h) ==> final(server).scene_valid(h) && scene_assets_ok(
            final(server).scenes@[h@],
            *final(server),
        ),
        r matches Ok(h) ==> (doc.roots matches Some(roots) && {
            &&& final(server).scenes@[h@].nodes@.len() == 1 + gltf_forest_flat(roots@).len()
            &&& final(server).scenes@[h@].nodes@[0].data is Empty
            &&& final(server).scenes@[h@].root@ == 0
            &&& final(server).scenes@[h@].children_view()[0].len() == roots@.len()
            &&& forall|i: int|
                0 <= i < gltf_forest_flat(roots@).len() ==> {
                    &&& (#[trigger] final(server).scenes@[h@].nodes@[1 + i]).transform
                        == gltf_forest_flat(roots@)[i].0
                    &&& match gltf_forest_flat(roots@)[i].1 {
                        Some(mi) => final(server).scenes@[h@].nodes@[1 + i].data matches
                            NodeData::Mesh(mh) && mh@ == old(server).meshes@.len() + mi,
                        None => final(server).scenes@[h@].nodes@[1 + i].data is Empty,
                    }
                }
        }),
    {
        let ghost img_base = old(server).images@.len() as int;
        let ghost pending_base = old(server).pending_loads@.len() as int;
        let ghost mat_base = old(server).materials@.len() as int;
        let ghost mesh_base = old(server).meshes@.len() as int;
        let GltfDocument { mut textures, mut materials, mut meshes, roots } = doc;
        let ghost textures_full = textures@;
        let mut image_handles: Vec<Handle<Image>> = Vec::new();
        let texture_count = textures.len();
        for i in 0..texture_count
            invariant
                texture_count == textures_full.len(),
                textures_full == doc.textures@,
                img_base == old(server).images@.len(),
                pending_base == old(server).pending_loads@.len(),
                old(server).images@.len() + texture_count < u32::MAX,
                old(server).materials@.len() + doc.materials@.len() + 1 < u32::MAX,
                old(server).meshes@.len() + doc.meshes@.len() < u32::MAX,
                old(server).scenes@.len() < u32::MAX,
                textures@ =~= textures_full.subrange(i as int, texture_count as int),
                forall|k: int|
                    0 <= k < textures_full.len() ==> match #[trigger] textures_full[k] {
                        GltfTextureSource::Decoded(img) => img.wf(),
                        GltfTextureSource::Path(_) => true,
                    },
                server.wf(),
                now.wf(),
                image_handles@.len() == i,
                server.images@.len() == old(server).images@.len() + i,
                server.pending_loads@.len() >= pending_base,
                forall|j: int|
                    0 <= j < old(server).images@.len() ==> server.images@[j] == old(
                        server,
                    ).images@[j],
                forall|j: int|
                    0 <= j < i ==> (#[trigger] image_handles@[j])@ == img_base + j,
                images_registered(
                    doc.textures@,
                    server.images@,
                    server.pending_loads@,
                    img_base,
                    pending_base,
                    i as int,
                ),
                server.materials@.len() == old(server).materials@.len(),
                server.meshes@.len() == old(server).meshes@.len(),
                server.scenes@.len() == old(server).scenes@.len(),
        {
            proof {
                assert(textures@[0] == textures_full[i as int]);
            }
            let ghost images_pre = server.images@;
            let ghost pending_pre = server.pending_loads@;
            let source = textures.remove(0);
            let handle = match source {
                GltfTextureSource::Path(path) => server.load_image(path.as_str(), now),
                GltfTextureSource::Decoded(img) => server.add_image(img),
            };
            image_handles.push(handle);
            proof {
                assert(textures@ =~= textures_full.subrange(i + 1, texture_count as int));
                assert forall|x: int|
                    0 <= x < pending_pre.len() implies server.pending_loads@[x]
                    == pending_pre[x] by {
                    if server.pending_loads@.len() > pending_pre.len() {
                        assert(server.pending_loads@.drop_last() == pending_pre);
                        assert(server.pending_loads@.drop_last()[x] == server.pending_loads@[x]);
                    }
                }
                assert forall|k: int|
                    0 <= k < i + 1 implies match #[trigger] doc.textures@[k] {
                    GltfTextureSource::Decoded(img) => server.images@[img_base + k] == img,
                    GltfTextureSource::Path(p) => server.images@[img_base
                        + k].is_placeholder() && exists|j: int|
                        pending_base <= j < server.pending_loads@.len() && (
                        #[trigger] server.pending_loads@[j]).handle@ == (
                            img_base + k,
                            crate::image::Image::type_key_spec(),
                        ) && server.pending_loads@[j].path@ == p@
                            && server.pending_loads@[j].options@ == Seq::<char>::empty(),
                } by {
                    if k < i {
                        assert(server.images@[img_base + k] == images_pre[img_base + k]);
                        match doc.textures@[k] {
                            GltfTextureSource::Path(p) => {
                                let j = choose|j: int|
                                    pending_base <= j < pending_pre.len() && (
                                    #[trigger] pending_pre[j]).handle@ == (
                                        img_base + k,
                                        crate::image::Image::type_key_spec(),
                                    ) && pending_pre[j].path@ == p@ && pending_pre[j].options@
                                        == Seq::<char>::empty();
                                assert(server.pending_loads@[j] == pending_pre[j]);
                            },
                            _ => {},
                        }
                    } else {
                        match doc.textures@[k] {
                            GltfTextureSource::Path(p) => {
                                assert(server.pending_loads@[server.pending_loads@.len()
                                    - 1].handle@ == (
                                    img_base + k,
                                    crate::image::Image::type_key_spec(),
                                ));
                            },
                            _ => {},
                        }
                    }
                }
            }
        }
        let ghost pending_done = server.pending_loads@;
        let default_material = server.add_material(Material::default());
        let ghost materials_full = materials@;
        let mut material_handles: Vec<Handle<Material>> = Vec::new();
        let material_count = materials.len();
        for i in 0..material_count
            invariant
                material_count == materials_full.len(),
                materials_full == doc.materials@,
                materials@ =~= materials_full.subrange(i as int, material_count as int),
                texture_count == doc.textures@.len(),
                img_base == old(server).images@.len(),
                pending_base == old(server).pending_loads@.len(),
                mat_base == old(server).materials@.len(),
                old(server).images@.len() + texture_count < u32::MAX,
                old(server).materials@.len() + material_count + 1 < u32::MAX,
                old(server).meshes@.len() + doc.meshes@.len() < u32::MAX,
                old(server).scenes@.len() < u32::MAX,
                server.wf(),
                material_handles@.len() == i,
                server.materials@.len() == old(server).materials@.len() + 1 + i,
                server.images@.len() == old(server).images@.len() + texture_count,
                forall|j: int|
                    0 <= j < old(server).images@.len() ==> server.images@[j] == old(
                        server,
                    ).images@[j],
                server.pending_loads@ == pending_done,
                images_registered(
                    doc.textures@,
                    server.images@,
                    server.pending_loads@,
                    img_base,
                    pending_base,
                    texture_count as int,
                ),
                image_handles@.len() == texture_count,
                forall|j: int|
                    0 <= j < texture_count ==> (#[trigger] image_handles@[j])@ == img_base + j,
                forall|j: int|
                    0 <= j < texture_count ==> server.image_valid(#[trigger] image_handles@[j]),
                default_material@ == mat_base,
                server.materials@[mat_base] == Material::default_spec(),
                forall|j: int|
                    0 <= j < i ==> (#[trigger] material_handles@[j])@ == mat_base + 1 + j,
                forall|j: int|
                    0 <= j < i ==> material_ok(*server, #[trigger] material_handles@[j]),
                material_ok(*server, default_material),
                materials_registered(
                    doc.materials@,
                    server.materials@,
                    mat_base,
                    img_base,
                    texture_count as int,
                    i as int,
                ),
                server.meshes@.len() == old(server).meshes@.len(),
                server.scenes@.len() == old(server).scenes@.len(),
        {
            proof {
                assert(materials@[0] == materials_full[i as int]);
            }
            let ghost materials_pre = server.materials@;
            let m = materials.remove(0);
            let base_color_image: Option<Handle<Image>> = match m.base_color_texture {
                Some(idx) => {
                    if idx < image_handles.len() {
                        Some(image_handles[idx])
                    } else {
                        None
                    }
                },
                None => None,
            };
            let handle = server.add_material(
                Material {
                    base_color: m.base_color,
                    base_color_image,
                    billboard_mode: BillboardMode::Off,
                    unlit: false,
                },
            );
            material_handles.push(handle);
            proof {
                assert(materials@ =~= materials_full.subrange(i + 1, material_count as int));
                assert forall|j: int|
                    0 <= j < i + 1 implies material_ok(*server, #[trigger] material_handles@[j]) by {
                    if j < i {
                        assert(material_ok(*server, material_handles@[j]));
                    }
                }
                assert forall|k: int|
                    0 <= k < i + 1 implies {
                    &&& (#[trigger] server.materials@[mat_base + 1 + k]).base_color
                        == doc.materials@[k].base_color
                    &&& server.materials@[mat_base + 1 + k].billboard_mode == BillboardMode::Off
                    &&& !server.materials@[mat_base + 1 + k].unlit
                    &&& match doc.materials@[k].base_color_texture {
                        Some(ti) => if ti < texture_count {
                            server.materials@[mat_base + 1 + k].base_color_image matches Some(ih)
                                && ih@ == img_base + ti
                        } else {
                            server.materials@[mat_base + 1 + k].base_color_image is None
                        },
                        None => server.materials@[mat_base + 1 + k].base_color_image is None,
                    }
                } by {
                    if k < i {
                        assert(server.materials@[mat_base + 1 + k] == materials_pre[mat_base + 1
                            + k]);
                    }
                }
            }
        }
        let ghost meshes_full = meshes@;
        let mut mesh_handles: Vec<Handle<Mesh>> = Vec::new();
        let mesh_count = meshes.len();
        for i in 0..mesh_count
            invariant
                mesh_count == meshes_full.len(),
                meshes_full == doc.meshes@,
                meshes@ =~= meshes_full.subrange(i as int, mesh_count as int),
                texture_count == doc.textures@.len(),
                material_count == doc.materials@.len(),
                img_base == old(server).images@.len(),
                pending_base == old(server).pending_loads@.len(),
                mat_base == old(server).materials@.len(),
                mesh_base == old(server).meshes@.len(),
                old(server).meshes@.len() + mesh_count < u32::MAX,
                old(server).scenes@.len() < u32::MAX,
                forall|k: int, j: int|
                    0 <= k < meshes_full.len() && 0 <= j < meshes_full[k].primitives@.len() ==> {
                        &&& (#[trigger] meshes_full[k].primitives@[j]).indices@.len() <= u32::MAX
                        &&& match meshes_full[k].primitives@[j].material {
                            Some(m) => m < material_count,
                            None => true,
                        }
                    },
                server.wf(),
                mesh_handles@.len() == i,
                server.meshes@.len() == old(server).meshes@.len() + i,
                server.materials@.len() == old(server).materials@.len() + 1 + material_count,
                server.images@.len() == old(server).images@.len() + texture_count,
                forall|j: int|
                    0 <= j < old(server).images@.len() ==> server.images@[j] == old(
                        server,
                    ).images@[j],
                server.pending_loads@ == pending_done,
                images_registered(
                    doc.textures@,
                    server.images@,
                    server.pending_loads@,
                    img_base,
                    pending_base,
                    texture_count as int,
                ),
                server.materials@[mat_base] == Material::default_spec(),
                materials_registered(
                    doc.materials@,
                    server.materials@,
                    mat_base,
                    img_base,
                    texture_count as int,
                    material_count as int,
                ),
                material_handles@.len() == material_count,
                default_material@ == mat_base,
                forall|j: int|
                    0 <= j < material_count ==> (#[trigger] material_handles@[j])@ == mat_base + 1
                        + j,
                forall|j: int|
                    0 <= j < material_count ==> material_ok(
                        *server,
                        #[trigger] material_handles@[j],
                    ),
                material_ok(*server, default_material),
                forall|j: int|
                    0 <= j < i ==> (#[trigger] mesh_handles@[j])@ == mesh_base + j,
                forall|j: int| 0 <= j < i ==> mesh_ok(*server, #[trigger] mesh_handles@[j]),
                meshes_registered(
                    doc.meshes@,
                    server.meshes@,
                    mesh_base,
                    mat_base,
                    i as int,
                ),
                server.scenes@.len() == old(server).scenes@.len(),
        {
            proof {
                assert(meshes@[0] == meshes_full[i as int]);
            }
            let ghost meshes_pre = server.meshes@;
            let gltf_mesh = meshes.remove(0);
            let mut primitives = gltf_mesh.primitives;
            let ghost primitives_full = primitives@;
            let mut submeshes: Vec<Submesh> = Vec::new();
            let primitive_count = primitives.len();
            for p in 0..primitive_count
                invariant
                    primitive_count == primitives_full.len(),
                    primitives@ =~= primitives_full.subrange(p as int, primitive_count as int),
                    primitives_full == meshes_full[i as int].primitives@,
                    mat_base == old(server).materials@.len(),
                    forall|j: int|
                        0 <= j < primitives_full.len() ==> {
                            &&& (#[trigger] primitives_full[j]).indices@.len() <= u32::MAX
                            &&& match primitives_full[j].material {
                                Some(m) => m < material_count,
                                None => true,
                            }
                        },
                    material_handles@.len() == material_count,
                    default_material@ == mat_base,
                    forall|j: int|
                        0 <= j < material_count ==> (#[trigger] material_handles@[j])@ == mat_base
                            + 1 + j,
                    submeshes@.len() == p,
                    forall|j: int|
                        0 <= j < p ==> {
                            &&& (#[trigger] submeshes@[j]).indices@.len() <= u32::MAX
                            &&& submeshes@[j].vertices@ == primitives_full[j].vertices@
                            &&& submeshes@[j].indices@ == primitives_full[j].indices@
                            &&& submeshes@[j].material matches Some(m) && (material_ok(
                                *server,
                                m,
                            )) && m@ == match primitives_full[j].material {
                                Some(mi) => mat_base + 1 + mi,
                                None => mat_base,
                            }
                        },
                    server.wf(),
                    forall|j: int|
                        0 <= j < material_count ==> material_ok(
                            *server,
                            #[trigger] material_handles@[j],
                        ),
                    material_ok(*server, default_material),
            {
                proof {
                    assert(primitives@[0] == primitives_full[p as int]);
                }
                let prim = primitives.remove(0);
                let material = match prim.material {
                    Some(idx) => material_handles[idx],
                    None => default_material,
                };
                submeshes.push(
                    Submesh { vertices: prim.vertices, indices: prim.indices, material: Some(material) },
                );
                proof {
                    assert(primitives@ =~= primitives_full.subrange(
                        p + 1,
                        primitive_count as int,
                    ));
                }
            }
            let handle = server.add_mesh(Mesh { submeshes });
            mesh_handles.push(handle);
            proof {
                assert(meshes@ =~= meshes_full.subrange(i + 1, mesh_count as int));
                assert forall|j: int|
                    0 <= j < i + 1 implies mesh_ok(*server, #[trigger] mesh_handles@[j]) by {
                    if j < i {
                        assert(mesh_ok(*server, mesh_handles@[j]));
                    } else {
                        assert(server.meshes@[handle@].submeshes@ == submeshes@);
                    }
                }
                assert forall|k: int, j: int|
                    0 <= k < i + 1 && 0 <= j < doc.meshes@[k].primitives@.len() implies {
                    &&& server.meshes@[mesh_base + k].submeshes@.len() == doc.meshes@[
                        k
                    ].primitives@.len()
                    &&& (#[trigger] server.meshes@[mesh_base + k].submeshes@[j]).vertices@
                        == doc.meshes@[k].primitives@[j].vertices@
                    &&& server.meshes@[mesh_base + k].submeshes@[j].indices@ == doc.meshes@[
                        k
                    ].primitives@[j].indices@
                    &&& server.meshes@[mesh_base + k].submeshes@[j].material matches Some(mh)
                        && mh@ == match doc.meshes@[k].primitives@[j].material {
                        Some(mi) => mat_base + 1 + mi,
                        None => mat_base,
                    }
                } by {
                    if k < i {
                        assert(server.meshes@[mesh_base + k] == meshes_pre[mesh_base + k]);
                    }
                }
            }
        }
        match roots {
            None => Err("no scene in file".to_owned()),
            Some(root_nodes) => {
                let mut scene = Scene::new_empty();
                proof {
                    assert(nodes_wf_deep(scene.nodes@)) by {
                        crate::scene::lemma_nodes_wf_deep_from_index(scene.nodes@);
                    }
                    assert(nodes_assets_ok(scene.nodes@, *server)) by {
                        lemma_nodes_assets_ok_from_index(scene.nodes@, *server);
                    }
                }
                let root = scene.root;
                let root_count = root_nodes.len();
                let ghost roots_full = root_nodes@;
                let ghost mut flat_done: Seq<(glam::Affine3A, Option<int>)> = Seq::empty();
                let mut remaining = root_nodes;
                proof {
                    crate::arena::lemma_handle_view_bounds(root);
                    assert(roots_full.subrange(0, root_count as int) =~= roots_full);
                }
                for i in 0..root_count
                    invariant
                        root_count == roots_full.len(),
                        (match doc.roots {
                            Some(rn) => rn@ == roots_full,
                            None => false,
                        }),
                        remaining@ =~= roots_full.subrange(i as int, root_count as int),
                        gltf_nodes_wf(roots_full, mesh_handles@.len() as int),
                        texture_count == doc.textures@.len(),
                        material_count == doc.materials@.len(),
                        mesh_count == doc.meshes@.len(),
                        img_base == old(server).images@.len(),
                        pending_base == old(server).pending_loads@.len(),
                        mat_base == old(server).materials@.len(),
                        mesh_base == old(server).meshes@.len(),
                        old(server).scenes@.len() < u32::MAX,
                        scene.wf(),
                        nodes_wf_deep(scene.nodes@),
                        nodes_assets_ok(scene.nodes@, *server),
                        scene.root == root,
                        root@ == 0,
                        0 <= root@ < scene.nodes@.len(),
                        scene.handle is None,
                        scene.nodes@.len() <= u32::MAX,
                        scene.nodes@.len() == 1 + flat_done.len(),
                        scene.nodes@[0].data is Empty,
                        gltf_forest_flat(roots_full) == flat_done + gltf_forest_flat(
                            roots_full.subrange(i as int, root_count as int),
                        ),
                        forall|j: int|
                            0 <= j < flat_done.len() ==> node_mirrors(
                                #[trigger] scene.nodes@[1 + j],
                                flat_done[j],
                                mesh_handles@,
                            ),
                        scene.children_view()[0].len() == i,
                        server.wf(),
                        mesh_handles@.len() == mesh_count,
                        forall|j: int|
                            0 <= j < mesh_count ==> (#[trigger] mesh_handles@[j])@ == mesh_base
                                + j,
                        forall|j: int|
                            0 <= j < mesh_count ==> mesh_ok(*server, #[trigger] mesh_handles@[j]),
                        server.scenes@.len() == old(server).scenes@.len(),
                        server.images@.len() == old(server).images@.len() + texture_count,
                        forall|j: int|
                            0 <= j < old(server).images@.len() ==> server.images@[j] == old(
                                server,
                            ).images@[j],
                        server.pending_loads@ == pending_done,
                        images_registered(
                            doc.textures@,
                            server.images@,
                            server.pending_loads@,
                            img_base,
                            pending_base,
                            texture_count as int,
                        ),
                        server.materials@.len() == old(server).materials@.len() + 1
                            + material_count,
                        server.materials@[mat_base] == Material::default_spec(),
                        materials_registered(
                            doc.materials@,
                            server.materials@,
                            mat_base,
                            img_base,
                            texture_count as int,
                            material_count as int,
                        ),
                        server.meshes@.len() == old(server).meshes@.len() + mesh_count,
                        meshes_registered(
                            doc.meshes@,
                            server.meshes@,
                            mesh_base,
                            mat_base,
                            mesh_count as int,
                        ),
                {
                    let ghost suffix = roots_full.subrange(i as int, root_count as int);
                    proof {
                        lemma_gltf_nodes_wf_index(roots_full, mesh_handles@.len() as int);
                        assert(remaining@[0] == roots_full[i as int]);
                        assert(suffix[0] == roots_full[i as int]);
                        assert(suffix.drop_first() =~= roots_full.subrange(
                            i + 1,
                            root_count as int,
                        ));
                        assert(gltf_forest_flat(suffix) == gltf_node_flat(roots_full[i as int])
                            + gltf_forest_flat(roots_full.subrange(i + 1, root_count as int)));
                    }
                    let node = remaining.remove(0);
                    let ghost nodes_pre = scene.nodes@;
                    match add_gltf_node(&mut scene, root, &node, &mesh_handles, server) {
                        Ok(_) => {},
                        Err(e) => {
                            proof {
                                assert(gltf_forest_flat(roots_full).len() >= flat_done.len()
                                    + gltf_node_flat(node).len());
                                assert(1 + flat_done.len() + gltf_node_flat(node).len()
                                    > u32::MAX);
                                assert(1 + gltf_forest_flat(roots_full).len() > u32::MAX);
                            }
                            return Err(e);
                        },
                    }
                    proof {
                        let nf = gltf_node_flat(node);
                        assert forall|j: int|
                            0 <= j < (flat_done + nf).len() implies node_mirrors(
                            #[trigger] scene.nodes@[1 + j],
                            (flat_done + nf)[j],
                            mesh_handles@,
                        ) by {
                            if j < flat_done.len() {
                                assert(scene.nodes@[1 + j] == nodes_pre[1 + j]);
                                assert((flat_done + nf)[j] == flat_done[j]);
                            } else {
                                assert((flat_done + nf)[j] == nf[j - flat_done.len()]);
                                assert(node_mirrors(
                                    scene.nodes@[nodes_pre.len() + (j - flat_done.len())],
                                    nf[j - flat_done.len()],
                                    mesh_handles@,
                                ));
                            }
                        }
                        assert(flat_done + gltf_forest_flat(suffix) =~= (flat_done + nf)
                            + gltf_forest_flat(roots_full.subrange(i + 1, root_count as int)));
                        flat_done = flat_done + nf;
                    }
                }
                proof {
                    assert(roots_full.subrange(root_count as int, root_count as int) =~= Seq::<
                        GltfNode,
                    >::empty());
                    assert(gltf_forest_flat(Seq::<GltfNode>::empty()) =~= Seq::<
                        (glam::Affine3A, Option<int>),
                    >::empty());
                    assert(gltf_forest_flat(roots_full) =~= flat_done);
                }
                let ghost scene_nodes = scene.nodes@;
                let ghost scene_children_view = scene.children_view();
                let ghost server_before = *server;
                proof {
                    assert(crate::scene::scene_wf_deep(scene));
                }
                let handle = server.add_scene(scene);
                proof {
                    crate::visual_server::lemma_nodes_assets_ok_same_assets(
                        scene_nodes,
                        server_before,
                        *server,
                    );
                    assert(server.scenes@[handle@].nodes@ == scene_nodes);
                    assert(server.scenes@[handle@].children_view() == scene_children_view);
                    assert forall|i: int|
                        0 <= i < gltf_forest_flat(roots_full).len() implies {
                        &&& (#[trigger] server.scenes@[handle@].nodes@[1 + i]).transform
                            == gltf_forest_flat(roots_full)[i].0
                        &&& match gltf_forest_flat(roots_full)[i].1 {
                            Some(mi) => server.scenes@[handle@].nodes@[1 + i].data matches
                                NodeData::Mesh(mh) && mh@ == mesh_base + mi,
                            None => server.scenes@[handle@].nodes@[1 + i].data is Empty,
                        }
                    } by {
                        assert(node_mirrors(
                            scene_nodes[1 + i],
                            gltf_forest_flat(roots_full)[i],
                            mesh_handles@,
                        ));
                    }
                }
                Ok(handle)
            },
        }
    }


} // verus!
