use glam::Affine3A;
use renderer::{AssetServer, Mesh, Node, NodeData, Scene};

#[test]
fn new_empty_scene_has_one_root_node() {
    let scene = Scene::new_empty();
    assert_eq!(scene.nodes.len(), 1);
    assert!(matches!(scene.nodes.get(scene.root).data, NodeData::Empty));
    assert!(scene.children_of(scene.root).is_empty());
}

#[test]
fn children_are_recorded_in_insertion_order() {
    let mut scene = Scene::new_empty();
    let a = scene.add_allocate_child(scene.root, Node::new_empty());
    let b = scene.add_allocate_child(scene.root, Node::new_empty());
    let c = scene.add_allocate_child(a, Node::new_empty());
    assert_eq!(scene.children_of(scene.root).as_slice(), &[a, b]);
    assert_eq!(scene.children_of(a).as_slice(), &[c]);
    assert!(scene.children_of(b).is_empty());
    assert_eq!(scene.nodes.len(), 4);
}

#[test]
fn instances_get_disjoint_unique_node_ids() {
    let mut server = AssetServer::new();
    let mesh = server.add_mesh(Mesh::quad());

    // A template scene with one mesh node.
    let mut template = Scene::new_empty();
    let node = template.add_allocate_child(template.root, Node::new_mesh(mesh));
    let template_handle = server.add_scene(template);

    // Two instances: each clone is registered under its own handle.
    let clone_a = server.get_scene(template_handle).clone();
    let ha = server.add_scene(clone_a);
    let clone_b = server.get_scene(template_handle).clone();
    let hb = server.add_scene(clone_b);
    assert_ne!(ha, hb);

    let inst_a = server.get_scene(ha).clone();
    let inst_b = server.get_scene(hb).clone();

    // Same raw node indices, yet no unique id collides across the instances.
    let ua_root = inst_a.make_unique_node_id(inst_a.root);
    let ub_root = inst_b.make_unique_node_id(inst_b.root);
    assert_ne!(ua_root, ub_root);
    assert_ne!(ua_root.encode(), ub_root.encode());
    let ua_node = inst_a.make_unique_node_id(node);
    let ub_node = inst_b.make_unique_node_id(node);
    assert_ne!(ua_node, ub_node);
    assert_ne!(ua_node.encode(), ub_node.encode());
    // Within one instance, different nodes differ too.
    assert_ne!(ua_root.encode(), ua_node.encode());
}

#[test]
fn mutating_one_instance_does_not_affect_the_other() {
    let mut server = AssetServer::new();
    let mesh = server.add_mesh(Mesh::quad());
    let mut template = Scene::new_empty();
    let node = template.add_allocate_child(template.root, Node::new_mesh(mesh));
    let handle = server.add_scene(template);

    let mut inst_a = server.get_scene(handle).clone();
    let inst_b = server.get_scene(handle).clone();

    let moved = Affine3A::from_translation(glam::Vec3::new(5.0, 6.0, 7.0));
    inst_a.nodes.get_mut(node).transform = moved;

    assert_eq!(inst_a.nodes.get(node).transform, moved);
    assert_eq!(inst_b.nodes.get(node).transform, Affine3A::IDENTITY);
    // The stored template is untouched as well.
    assert_eq!(
        server.get_scene(handle).nodes.get(node).transform,
        Affine3A::IDENTITY
    );
}

#[test]
fn clone_preserves_structure_and_payloads() {
    let mut server = AssetServer::new();
    let mesh = server.add_mesh(Mesh::quad());
    let mut scene = Scene::new_empty();
    let a = scene.add_allocate_child(scene.root, Node::new_mesh(mesh));
    let b = scene.add_allocate_child(a, Node::new_text(b"hi".to_vec(), 0x41800000));
    let copy = scene.clone();
    assert_eq!(copy.nodes.len(), scene.nodes.len());
    assert_eq!(copy.root, scene.root);
    assert_eq!(copy.children_of(scene.root).as_slice(), &[a]);
    assert_eq!(copy.children_of(a).as_slice(), &[b]);
    match &copy.nodes.get(a).data {
        NodeData::Mesh(m) => assert_eq!(*m, mesh),
        _ => panic!("expected a mesh payload"),
    }
    match &copy.nodes.get(b).data {
        NodeData::Text(text, size) => {
            assert_eq!(text.as_slice(), b"hi");
            assert_eq!(*size, 0x41800000);
        },
        _ => panic!("expected a text payload"),
    }
}

#[test]
fn children_of_an_unknown_id_is_empty() {
    let mut other = Scene::new_empty();
    let foreign = other.add_allocate_child(other.root, Node::new_empty());
    let scene = Scene::new_empty();
    // `foreign` does not exist in `scene`: absence is a valid state.
    assert!(scene.children_of(foreign).is_empty());
}

#[test]
fn update_hook_tag_is_carried_and_cloned() {
    let node = Node::new_empty().with_update(7);
    assert_eq!(node.update_tag, Some(7));
    let mut scene = Scene::new_empty();
    let id = scene.add_allocate_child(scene.root, node);
    let copy = scene.clone();
    assert_eq!(copy.nodes.get(id).update_tag, Some(7));
    assert_eq!(copy.nodes.get(copy.root).update_tag, None);
}
