//! The scene graph: an arena of nodes forming a forest through an explicit
//! parent-to-children adjacency list.
//!
//! Every node carries a local transform and a payload. Children are recorded
//! per parent, and a child's index is always strictly greater than its
//! parent's, so the graph has no cycles and every traversal terminates. A
//! scene is a value: instancing a template clones its node storage wholesale,
//! so two instances never share mutable state.
use vstd::prelude::*;

use crate::arena::{Arena, AssetKey, Handle};
use crate::camera::Camera;
use crate::light::Light;
use crate::mesh::Mesh;
use crate::transform::affine_identity;

verus! {

/// A handle into a scene's node arena.
pub type NodeId = Handle<Node>;

/// Identifies one node of one scene instance: the scene's own asset handle
/// paired with the node's handle. Two instances registered under different
/// scene handles can never collide, whatever node indices they share.
#[derive(Debug, Clone, Copy)]
pub struct UniqueNodeId {
    pub scene: Handle<Scene>,
    pub node: NodeId,
}

impl PartialEq for UniqueNodeId {
    fn eq(&self, other: &Self) -> bool {
        self.scene.raw_index() == other.scene.raw_index() && self.node.raw_index()
            == other.node.raw_index()
    }
}

impl Eq for UniqueNodeId {}

impl vstd::std_specs::cmp::PartialEqSpecImpl for UniqueNodeId {
    open spec fn obeys_eq_spec() -> bool {
        true
    }

    open spec fn eq_spec(&self, other: &Self) -> bool {
        self.scene@ == other.scene@ && self.node@ == other.node@
    }
}

impl UniqueNodeId {
    /// The id packed into one integer, scene handle in the high half, node
    /// handle in the low half. Injective, so it can key hash maps.
    pub open spec fn encode_spec(self) -> int {
        self.scene@ * 0x1_0000_0000 + self.node@
    }

    /// The packed key, for the visual server's per-instance maps.
    pub fn encode(&self) -> (k: u64)
        ensures
            k == self.encode_spec(),
    {
        proof {
            crate::arena::lemma_handle_view_bounds(self.scene);
            crate::arena::lemma_handle_view_bounds(self.node);
        }
        (self.scene.raw_index() as u64) * 0x1_0000_0000 + (self.node.raw_index() as u64)
    }
}

/// Packing a scene index and a node index into one 64-bit key is injective.
pub proof fn lemma_encode_injective(a: UniqueNodeId, b: UniqueNodeId)
    requires
        a.encode_spec() == b.encode_spec(),
    ensures
        a.scene@ == b.scene@,
        a.node@ == b.node@,
{
    crate::arena::lemma_handle_view_bounds(a.scene);
    crate::arena::lemma_handle_view_bounds(a.node);
    crate::arena::lemma_handle_view_bounds(b.scene);
    crate::arena::lemma_handle_view_bounds(b.node);
    assert(a.scene@ == b.scene@ && a.node@ == b.node@) by (nonlinear_arith)
        requires
            a.scene@ * 0x1_0000_0000 + a.node@ == b.scene@ * 0x1_0000_0000 + b.node@,
            0 <= a.scene@ <= u32::MAX,
            0 <= a.node@ <= u32::MAX,
            0 <= b.scene@ <= u32::MAX,
            0 <= b.node@ <= u32::MAX,
    ;
}

/// Law (scene instancing independence, identity half): nodes of two scene
/// instances registered under different scene handles have disjoint unique
/// ids, whatever raw node indices the instances share.
pub proof fn lemma_instance_ids_disjoint(a: UniqueNodeId, b: UniqueNodeId)
    requires
        a.scene@ != b.scene@,
    ensures
        a.encode_spec() != b.encode_spec(),
{
    if a.encode_spec() == b.encode_spec() {
        lemma_encode_injective(a, b);
    }
}

/// A scene node: a local transform, a payload, and an optional per-frame
/// update hook. The hook names a behaviour of the host (the host maps the tag
/// to the code it runs before each frame's walk); the core carries it
/// untouched.
#[derive(Debug)]
pub struct Node {
    pub transform: glam::Affine3A,
    pub data: NodeData,
    pub update_tag: Option<u64>,
}

/// What a node contributes to the scene.
#[derive(Debug)]
pub enum NodeData {
    Empty,
    Camera(Camera),
    Light(Light),
    Mesh(Handle<Mesh>),
    Scene(Box<Scene>),
    Text(Vec<u8>, u32),
}

impl Node {
    /// A node with the given payload, the identity transform and no update
    /// hook.
    pub fn with_data(data: NodeData) -> (n: Node)
        ensures
            n.data == data,
            n.update_tag is None,
    {
        Node { transform: affine_identity(), data, update_tag: None }
    }

    /// An empty node.
    pub fn new_empty() -> (n: Node)
        ensures
            n.data is Empty,
    {
        Node::with_data(NodeData::Empty)
    }

    /// A camera node.
    pub fn new_camera(camera: Camera) -> (n: Node)
        ensures
            n.data == NodeData::Camera(camera),
    {
        Node::with_data(NodeData::Camera(camera))
    }

    /// A light node.
    pub fn new_light(light: Light) -> (n: Node)
        ensures
            n.data == NodeData::Light(light),
    {
        Node::with_data(NodeData::Light(light))
    }

    /// A node that draws a mesh.
    pub fn new_mesh(mesh: Handle<Mesh>) -> (n: Node)
        ensures
            n.data == NodeData::Mesh(mesh),
    {
        Node::with_data(NodeData::Mesh(mesh))
    }

    /// A node holding a whole sub-scene instance.
    pub fn new_scene(scene: Scene) -> (n: Node)
        ensures
            n.data matches NodeData::Scene(s) && *s == scene,
    {
        Node::with_data(NodeData::Scene(Box::new(scene)))
    }

    /// A text node; `size` is the glyph size as a float bit pattern.
    pub fn new_text(text: Vec<u8>, size: u32) -> (n: Node)
        ensures
            n.data matches NodeData::Text(t, s) && t@ == text@ && s == size,
    {
        Node::with_data(NodeData::Text(text, size))
    }

    /// The same node with another local transform.
    pub fn with_transform(self, transform: glam::Affine3A) -> (n: Node)
        ensures
            n.transform == transform,
            n.data == self.data,
            n.update_tag == self.update_tag,
    {
        Node { transform, ..self }
    }

    /// The same node with a per-frame update hook, named by a tag the host
    /// resolves to behaviour.
    pub fn with_update(self, tag: u64) -> (n: Node)
        ensures
            n.transform == self.transform,
            n.data == self.data,
            n.update_tag == Some(tag),
    {
        Node { update_tag: Some(tag), ..self }
    }
}

/// A scene: a node arena rooted at `root`, with the children of each node
/// listed per parent. `handle` is the scene's own slot in the asset server,
/// stamped when the scene is registered; it makes node ids unique across
/// instances.
#[derive(Debug)]
pub struct Scene {
    pub handle: Option<Handle<Scene>>,
    pub nodes: Arena<Node>,
    pub root: NodeId,
    pub children: Vec<Vec<NodeId>>,
}

/// Every child index lies strictly between its parent's index and the node
/// count: children always point forward, so traversal terminates, and always
/// at an existing node.
pub open spec fn children_ok(cs: Seq<NodeId>, parent: int, count: int) -> bool {
    forall|j: int| 0 <= j < cs.len() ==> parent < (#[trigger] cs[j])@ < count
}

impl Scene {
    /// The adjacency list: element `i` holds the children of node `i`, in
    /// insertion order.
    pub open spec fn children_view(self) -> Seq<Seq<NodeId>> {
        Seq::new(self.children@.len(), |i: int| self.children@[i]@)
    }

    /// Structural soundness: one children list per node, a root inside the
    /// arena, and every child edge pointing forward to an existing node.
    pub open spec fn wf(self) -> bool {
        &&& self.children_view().len() == self.nodes@.len()
        &&& 0 <= self.root@ < self.nodes@.len()
        &&& forall|i: int|
            0 <= i < self.children_view().len() ==> children_ok(
                #[trigger] self.children_view()[i],
                i,
                self.nodes@.len() as int,
            )
    }

    /// A scene holding a single empty root node.
    pub fn new_empty() -> (s: Scene)
        ensures
            s.wf(),
            s.handle is None,
            s.nodes@.len() == 1,
            s.root@ == 0,
            s.nodes@[0].data is Empty,
            s.children_view() =~= seq![Seq::<NodeId>::empty()],
    {
        let mut nodes: Arena<Node> = Arena::new();
        let root = nodes.allocate(Node::new_empty());
        let mut children: Vec<Vec<NodeId>> = Vec::new();
        children.push(Vec::new());
        let s = Scene { handle: None, nodes, root, children };
        proof {
            assert(s.children_view() =~= seq![Seq::<NodeId>::empty()]);
        }
        s
    }

    /// Appends the node to the arena and records it as the last child of
    /// `parent`; returns the new node's id. Existing nodes, ids and sibling
    /// lists are untouched.
    pub fn add_allocate_child(&mut self, parent: NodeId, child: Node) -> (id: NodeId)
        requires
            old(self).wf(),
            parent@ < old(self).nodes@.len(),
            old(self).nodes@.len() < u32::MAX,
        ensures
            final(self).wf(),
            id@ == old(self).nodes@.len(),
            final(self).nodes@ == old(self).nodes@.push(child),
            final(self).handle == old(self).handle,
            final(self).root == old(self).root,
            final(self).children_view() =~= old(self).children_view().update(
                parent@,
                old(self).children_view()[parent@].push(id),
            ).push(Seq::<NodeId>::empty()),
    {
        let id = self.nodes.allocate(child);
        self.children.push(Vec::new());
        let parent_index = parent.raw_index() as usize;
        self.children[parent_index].push(id);
        proof {
            let post = old(self).children_view().update(
                parent@,
                old(self).children_view()[parent@].push(id),
            ).push(Seq::<NodeId>::empty());
            assert(self.children_view() =~~= post);
            assert forall|i: int| 0 <= i < self.children_view().len() implies children_ok(
                #[trigger] self.children_view()[i],
                i,
                self.nodes@.len() as int,
            ) by {
                assert(children_ok(old(self).children_view()[parent@], parent@, old(
                    self,
                ).nodes@.len() as int));
            }
        }
        id
    }

    /// The recorded children of a node, oldest first. An id with no recorded
    /// children list yields no children: absence is a valid state, unlike a
    /// bad handle.
    pub fn children_of(&self, node_id: NodeId) -> (cs: Vec<NodeId>)
        ensures
            node_id@ < self.children@.len() ==> cs@ == self.children_view()[node_id@],
            node_id@ >= self.children@.len() ==> cs@ == Seq::<NodeId>::empty(),
    {
        let idx = node_id.raw_index() as usize;
        if idx < self.children.len() {
            clone_handle_vec(&self.children[idx])
        } else {
            Vec::new()
        }
    }

    /// The unique id of one of this scene's nodes. The scene must have been
    /// registered (its handle stamped) first.
    pub fn make_unique_node_id(&self, node_id: NodeId) -> (uid: UniqueNodeId)
        requires
            self.handle is Some,
        ensures
            Some(uid.scene) == self.handle,
            uid.node == node_id,
    {
        match self.handle {
            Some(h) => UniqueNodeId { scene: h, node: node_id },
            None => vstd::pervasive::unreached(),
        }
    }
}

/// Structural equality of scenes up to storage identity: same handle, root,
/// adjacency and, node for node, equivalent payloads. This is what cloning a
/// scene preserves; plain `==` cannot be preserved because the node storage
/// itself is duplicated.
pub open spec fn scene_equiv(a: Scene, b: Scene) -> bool
    decreases a,
    via scene_equiv_dec
{
    &&& a.handle == b.handle
    &&& a.root == b.root
    &&& a.children_view() == b.children_view()
    &&& nodes_equiv(a.nodes@, b.nodes@)
}

#[via_fn]
proof fn scene_equiv_dec(a: Scene, b: Scene) {
    crate::arena::lemma_arena_decreases_to_view(a.nodes);
    assert(decreases_to!(a => a.nodes));
    assert(decreases_to!(a => a.nodes@));
}

/// Pointwise node equivalence of two node sequences.
pub open spec fn nodes_equiv(a: Seq<Node>, b: Seq<Node>) -> bool
    decreases a,
{
    if a.len() == 0 {
        b.len() == 0
    } else {
        &&& a.len() == b.len()
        &&& node_equiv(a[0], b[0])
        &&& nodes_equiv(a.drop_first(), b.drop_first())
    }
}

/// Node equivalence: equal transforms and equivalent payloads.
pub open spec fn node_equiv(a: Node, b: Node) -> bool
    decreases a,
{
    a.transform == b.transform && a.update_tag == b.update_tag && node_data_equiv(a.data, b.data)
}

/// Payload equivalence: equality, except that nested sub-scenes are compared
/// by scene equivalence and texts by their bytes.
pub open spec fn node_data_equiv(a: NodeData, b: NodeData) -> bool
    decreases a,
{
    match (a, b) {
        (NodeData::Scene(sa), NodeData::Scene(sb)) => scene_equiv(*sa, *sb),
        (NodeData::Text(ta, sa), NodeData::Text(tb, sb)) => ta@ == tb@ && sa == sb,
        _ => a == b,
    }
}

/// Pointwise equivalence coincides with elementwise equivalence.
pub proof fn lemma_nodes_equiv_index(a: Seq<Node>, b: Seq<Node>)
    requires
        nodes_equiv(a, b),
    ensures
        a.len() == b.len(),
        forall|i: int| 0 <= i < a.len() ==> node_equiv(#[trigger] a[i], b[i]),
    decreases a,
{
    if a.len() > 0 {
        lemma_nodes_equiv_index(a.drop_first(), b.drop_first());
        assert forall|i: int| 0 <= i < a.len() implies node_equiv(#[trigger] a[i], b[i]) by {
            if i > 0 {
                assert(a.drop_first()[i - 1] == a[i]);
                assert(b.drop_first()[i - 1] == b[i]);
            }
        }
    }
}

/// Elementwise equivalence establishes pointwise equivalence.
pub proof fn lemma_nodes_equiv_from_index(a: Seq<Node>, b: Seq<Node>)
    requires
        a.len() == b.len(),
        forall|i: int| 0 <= i < a.len() ==> node_equiv(#[trigger] a[i], b[i]),
    ensures
        nodes_equiv(a, b),
    decreases a,
{
    if a.len() > 0 {
        assert forall|i: int| 0 <= i < a.drop_first().len() implies node_equiv(
            #[trigger] a.drop_first()[i],
            b.drop_first()[i],
        ) by {
            assert(a.drop_first()[i] == a[i + 1]);
            assert(b.drop_first()[i] == b[i + 1]);
        }
        lemma_nodes_equiv_from_index(a.drop_first(), b.drop_first());
    }
}

fn clone_bytes(v: &Vec<u8>) -> (r: Vec<u8>)
    ensures
        r@ == v@,
{
    let mut r: Vec<u8> = Vec::new();
    let n = v.len();
    for i in 0..n
        invariant
            n == v@.len(),
            r@ =~= v@.subrange(0, i as int),
    {
        r.push(v[i]);
    }
    proof {
        assert(r@ =~= v@);
    }
    r
}

fn clone_handle_vec<T>(v: &Vec<Handle<T>>) -> (r: Vec<Handle<T>>)
    ensures
        r@ == v@,
{
    let mut r: Vec<Handle<T>> = Vec::new();
    let n = v.len();
    for i in 0..n
        invariant
            n == v@.len(),
            r@ =~= v@.subrange(0, i as int),
    {
        r.push(v[i]);
    }
    proof {
        assert(r@ =~= v@);
    }
    r
}

fn clone_node_data(d: &NodeData) -> (r: NodeData)
    ensures
        node_data_equiv(*d, r),
    decreases *d,
{
    match d {
        NodeData::Empty => NodeData::Empty,
        NodeData::Camera(c) => NodeData::Camera(*c),
        NodeData::Light(l) => NodeData::Light(*l),
        NodeData::Mesh(h) => NodeData::Mesh(*h),
        NodeData::Scene(sub) => NodeData::Scene(Box::new(clone_scene(sub))),
        NodeData::Text(bytes, size) => NodeData::Text(clone_bytes(bytes), *size),
    }
}

fn clone_node(n: &Node) -> (r: Node)
    ensures
        node_equiv(*n, r),
    decreases *n,
{
    Node { transform: n.transform, data: clone_node_data(&n.data), update_tag: n.update_tag }
}

fn clone_scene(s: &Scene) -> (r: Scene)
    ensures
        scene_equiv(*s, r),
    decreases *s,
{
    let node_count = s.nodes.len();
    let mut nodes_vec: Vec<Node> = Vec::new();
    for i in 0..node_count
        invariant
            node_count == s.nodes@.len(),
            nodes_vec@.len() == i,
            forall|j: int| 0 <= j < i ==> node_equiv(s.nodes@[j], #[trigger] nodes_vec@[j]),
    {
        let node = s.nodes.at_index(i);
        proof {
            crate::arena::lemma_arena_decreases_to_view(s.nodes);
            assert(decreases_to!(*s => s.nodes));
            assert(decreases_to!(*s => s.nodes@));
            assert(decreases_to!(*s => s.nodes@[i as int]));
        }
        let cloned_node = clone_node(node);
        nodes_vec.push(cloned_node);
    }
    let nodes = Arena::from_vec(nodes_vec);
    let child_count = s.children.len();
    let mut children: Vec<Vec<NodeId>> = Vec::new();
    for i in 0..child_count
        invariant
            child_count == s.children@.len(),
            children@.len() == i,
            forall|j: int| 0 <= j < i ==> (#[trigger] children@[j])@ == s.children@[j]@,
    {
        children.push(clone_handle_vec(&s.children[i]));
    }
    let r = Scene { handle: s.handle, nodes, root: s.root, children };
    proof {
        assert(r.children_view() =~~= s.children_view());
        lemma_nodes_equiv_from_index(s.nodes@, r.nodes@);
    }
    r
}

impl Clone for Scene {
    /// Duplicates the scene's node storage wholesale: the clone is equivalent
    /// to the original but shares nothing with it, so mutating one instance's
    /// nodes cannot affect the other.
    fn clone(&self) -> (r: Scene)
        ensures
            scene_equiv(*self, r),
    {
        clone_scene(self)
    }
}

/// Scene equivalence preserves well-formedness.
pub proof fn lemma_scene_equiv_wf(a: Scene, b: Scene)
    requires
        scene_equiv(a, b),
        a.wf(),
    ensures
        b.wf(),
{
    lemma_nodes_equiv_index(a.nodes@, b.nodes@);
}

} // verus!

verus! {

impl AssetKey for Scene {
    open spec fn type_key_spec() -> u64 {
        5
    }

    fn type_key() -> u64 {
        5
    }
}

/// Deep well-formedness: the scene itself is well-formed and so is every
/// nested sub-scene instance, each carrying the handle it was registered
/// under.
pub open spec fn scene_wf_deep(s: Scene) -> bool
    decreases s,
    via scene_wf_deep_dec
{
    s.wf() && nodes_wf_deep(s.nodes@)
}

#[via_fn]
proof fn scene_wf_deep_dec(s: Scene) {
    crate::arena::lemma_arena_decreases_to_view(s.nodes);
    assert(decreases_to!(s => s.nodes));
    assert(decreases_to!(s => s.nodes@));
}

/// Deep well-formedness of every node of a sequence.
pub open spec fn nodes_wf_deep(nodes: Seq<Node>) -> bool
    decreases nodes,
{
    if nodes.len() == 0 {
        true
    } else {
        node_wf_deep(nodes[0]) && nodes_wf_deep(nodes.drop_first())
    }
}

/// Deep well-formedness of one node: a sub-scene payload is itself deeply
/// well-formed and has been registered (its handle stamped).
pub open spec fn node_wf_deep(n: Node) -> bool
    decreases n,
{
    match n.data {
        NodeData::Scene(sub) => sub.handle is Some && scene_wf_deep(*sub),
        _ => true,
    }
}

/// Sequence-level deep well-formedness coincides with elementwise deep
/// well-formedness.
pub proof fn lemma_nodes_wf_deep_index(nodes: Seq<Node>)
    requires
        nodes_wf_deep(nodes),
    ensures
        forall|i: int| 0 <= i < nodes.len() ==> node_wf_deep(#[trigger] nodes[i]),
    decreases nodes,
{
    if nodes.len() > 0 {
        lemma_nodes_wf_deep_index(nodes.drop_first());
        assert forall|i: int| 0 <= i < nodes.len() implies node_wf_deep(#[trigger] nodes[i]) by {
            if i > 0 {
                assert(nodes.drop_first()[i - 1] == nodes[i]);
            }
        }
    }
}

/// Elementwise deep well-formedness establishes the sequence-level form.
pub proof fn lemma_nodes_wf_deep_from_index(nodes: Seq<Node>)
    requires
        forall|i: int| 0 <= i < nodes.len() ==> node_wf_deep(#[trigger] nodes[i]),
    ensures
        nodes_wf_deep(nodes),
    decreases nodes,
{
    if nodes.len() > 0 {
        assert forall|i: int|
            0 <= i < nodes.drop_first().len() implies node_wf_deep(
            #[trigger] nodes.drop_first()[i],
        ) by {
            assert(nodes.drop_first()[i] == nodes[i + 1]);
        }
        lemma_nodes_wf_deep_from_index(nodes.drop_first());
    }
}

/// Appending a deeply well-formed node keeps a node sequence deeply
/// well-formed.
pub proof fn lemma_nodes_wf_deep_push(nodes: Seq<Node>, child: Node)
    requires
        nodes_wf_deep(nodes),
        node_wf_deep(child),
    ensures
        nodes_wf_deep(nodes.push(child)),
{
    lemma_nodes_wf_deep_index(nodes);
    assert forall|i: int|
        0 <= i < nodes.push(child).len() implies node_wf_deep(#[trigger] nodes.push(child)[i]) by {
        if i < nodes.len() {
            assert(nodes.push(child)[i] == nodes[i]);
        } else {
            assert(nodes.push(child)[i] == child);
        }
    }
    lemma_nodes_wf_deep_from_index(nodes.push(child));
}

/// Scene equivalence preserves deep well-formedness: a clone of a deeply
/// well-formed scene is deeply well-formed.
pub proof fn lemma_scene_equiv_wf_deep(a: Scene, b: Scene)
    requires
        scene_equiv(a, b),
        scene_wf_deep(a),
    ensures
        scene_wf_deep(b),
    decreases a,
{
    lemma_scene_equiv_wf(a, b);
    lemma_nodes_equiv_index(a.nodes@, b.nodes@);
    lemma_nodes_wf_deep_index(a.nodes@);
    assert forall|i: int| 0 <= i < b.nodes@.len() implies node_wf_deep(#[trigger] b.nodes@[i]) by {
        crate::arena::lemma_arena_decreases_to_view(a.nodes);
        assert(decreases_to!(a => a.nodes));
        assert(decreases_to!(a => a.nodes@));
        assert(decreases_to!(a => a.nodes@[i]));
        lemma_node_equiv_wf_deep(a.nodes@[i], b.nodes@[i]);
    }
    lemma_nodes_wf_deep_from_index(b.nodes@);
}

/// Node equivalence preserves deep well-formedness.
pub proof fn lemma_node_equiv_wf_deep(a: Node, b: Node)
    requires
        node_equiv(a, b),
        node_wf_deep(a),
    ensures
        node_wf_deep(b),
    decreases a,
{
    match (a.data, b.data) {
        (NodeData::Scene(sa), NodeData::Scene(sb)) => {
            lemma_scene_equiv_wf_deep(*sa, *sb);
        },
        _ => {},
    }
}

} // verus!
