use glam::Affine3A;
use renderer::arena::Handle;
use renderer::color::{Color, F32_ONE};
use renderer::light::Light;
use renderer::material::{BillboardMode, Material};
use renderer::mesh::Mesh;
use renderer::scene::{Node, Scene, UniqueNodeId};
use renderer::visual_server::GpuCommand;
use renderer::{AssetServer, Image, VisualServer};

fn textured_material(server: &mut AssetServer) -> (Handle<Image>, Handle<Material>) {
    let image = server.add_image(Image::new(2, 2, vec![1u8; 16]));
    let material = server.add_material(Material {
        base_color: Color::white(),
        base_color_image: Some(image),
        billboard_mode: BillboardMode::Off,
        unlit: false,
    });
    (image, material)
}

fn one_quad_mesh(server: &mut AssetServer, material: Option<Handle<Material>>) -> Handle<Mesh> {
    let mut mesh = Mesh::quad();
    mesh.submeshes[0].material = material;
    server.add_mesh(mesh)
}

fn uid(scene: u32, node: u32) -> UniqueNodeId {
    // Mint real handles by registering as many slots as needed.
    let mut server = AssetServer::new();
    let mut scene_handle = None;
    for _ in 0..=scene {
        scene_handle = Some(server.add_scene(Scene::new_empty()));
    }
    let mut template = Scene::new_empty();
    let mut node_handle = template.root;
    for _ in 0..node {
        node_handle = template.add_allocate_child(template.root, Node::new_empty());
    }
    UniqueNodeId { scene: scene_handle.unwrap(), node: node_handle }
}

#[test]
fn register_mesh_is_idempotent() {
    let mut server = AssetServer::new();
    let mut vs = VisualServer::new(&mut server);
    let (_image, material) = textured_material(&mut server);
    let mesh = one_quad_mesh(&mut server, Some(material));

    vs.register_mesh(mesh, &server);
    let meshes_after_one = vs.meshes.len();
    let materials_after_one = vs.materials.len();
    let textures_after_one = vs.textures.len();
    let commands_after_one = vs.commands.len();
    let next_id_after_one = vs.next_resource_id;

    // Re-registering every frame is free: nothing changes at all.
    for _ in 0..5 {
        vs.register_mesh(mesh, &server);
    }
    assert_eq!(vs.meshes.len(), meshes_after_one);
    assert_eq!(vs.materials.len(), materials_after_one);
    assert_eq!(vs.textures.len(), textures_after_one);
    assert_eq!(vs.commands.len(), commands_after_one);
    assert_eq!(vs.next_resource_id, next_id_after_one);

    // One buffer pair per submesh.
    let mirror = vs.meshes.get(&mesh.raw_index()).unwrap();
    assert_eq!(mirror.submeshes.len(), 1);
    assert_ne!(
        mirror.submeshes[0].vertex_buffer,
        mirror.submeshes[0].index_buffer
    );
}

#[test]
fn mesh_instance_updates_in_place_after_first_sight() {
    let mut server = AssetServer::new();
    let mut vs = VisualServer::new(&mut server);
    let mesh = one_quad_mesh(&mut server, None);
    let id = uid(0, 1);

    vs.set_mesh_instance(id, Affine3A::IDENTITY, mesh, &server);
    assert_eq!(vs.mesh_instances.len(), 1);
    let first = *vs.mesh_instances.get(&id.encode()).unwrap();
    let next_id_after_first = vs.next_resource_id;

    // Steady state: the transform uniform is updated, nothing is allocated.
    let moved = Affine3A::from_translation(glam::Vec3::new(1.0, 0.0, 0.0));
    vs.set_mesh_instance(id, moved, mesh, &server);
    assert_eq!(vs.mesh_instances.len(), 1);
    let second = *vs.mesh_instances.get(&id.encode()).unwrap();
    assert_eq!(second.model_uniform_buffer, first.model_uniform_buffer);
    assert_eq!(second.model_bind_group, first.model_bind_group);
    assert_eq!(vs.next_resource_id, next_id_after_first);
    match vs.commands.last().unwrap() {
        GpuCommand::UpdateModelUniformBuffer { id: buf, transform } => {
            assert_eq!(*buf, first.model_uniform_buffer);
            assert_eq!(*transform, moved);
        },
        other => panic!("expected a model uniform update, got {:?}", other),
    }
}

#[test]
fn changed_image_rebuilds_its_texture_and_dependent_materials_only() {
    let mut server = AssetServer::new();
    let mut vs = VisualServer::new(&mut server);
    let (image, material) = textured_material(&mut server);
    let (other_image, other_material) = textured_material(&mut server);
    let mesh = one_quad_mesh(&mut server, Some(material));
    let other_mesh = one_quad_mesh(&mut server, Some(other_material));
    vs.register_mesh(mesh, &server);
    vs.register_mesh(other_mesh, &server);

    let old_texture = *vs.textures.get(&image.raw_index()).unwrap();
    let old_other_texture = *vs.textures.get(&other_image.raw_index()).unwrap();
    let old_material_bg = vs.materials.get(&material.raw_index()).unwrap().bind_group;
    let old_other_bg = vs
        .materials
        .get(&other_material.raw_index())
        .unwrap()
        .bind_group;

    // New content arrives for one image.
    let err = server.install_load_result(
        image.to_type_erased(),
        Ok(renderer::asset_server::LoadedAsset::Image(Image::new(4, 4, vec![9u8; 64]))),
    );
    assert!(err.is_none());
    let changes = server.take_asset_changes();
    let commands_before = vs.commands.len();
    vs.notify_asset_changes(&changes, &server);

    // The changed image's mirror and its material were rebuilt...
    let new_texture = *vs.textures.get(&image.raw_index()).unwrap();
    assert_ne!(new_texture, old_texture);
    let new_material_bg = vs.materials.get(&material.raw_index()).unwrap().bind_group;
    assert_ne!(new_material_bg, old_material_bg);
    // ...from the image's current pixels.
    let rebuilt = vs.commands[commands_before..]
        .iter()
        .find_map(|c| match c {
            GpuCommand::CreateColorTexture { id, width, height, data, .. }
                if *id == new_texture =>
            {
                Some((*width, *height, data.len()))
            },
            _ => None,
        })
        .unwrap();
    assert_eq!(rebuilt, (4, 4, 64));
    // ...exactly once...
    let texture_creates = vs.commands[commands_before..]
        .iter()
        .filter(|c| matches!(c, GpuCommand::CreateColorTexture { .. }))
        .count();
    assert_eq!(texture_creates, 1);
    let bind_group_creates = vs.commands[commands_before..]
        .iter()
        .filter(|c| matches!(c, GpuCommand::CreateMaterialBindGroup { .. }))
        .count();
    assert_eq!(bind_group_creates, 1);
    // ...and the unrelated mirrors were not touched.
    assert_eq!(
        *vs.textures.get(&other_image.raw_index()).unwrap(),
        old_other_texture
    );
    assert_eq!(
        vs.materials.get(&other_material.raw_index()).unwrap().bind_group,
        old_other_bg
    );
}

#[test]
fn reset_scene_keeps_content_caches() {
    let mut server = AssetServer::new();
    let mut vs = VisualServer::new(&mut server);
    let (_image, material) = textured_material(&mut server);
    let mesh = one_quad_mesh(&mut server, Some(material));
    vs.set_mesh_instance(uid(0, 1), Affine3A::IDENTITY, mesh, &server);
    vs.set_light(uid(0, 2), Affine3A::IDENTITY, &Light::directional());
    vs.set_text(uid(0, 3), &Affine3A::IDENTITY, b"hello", 0x41800000);
    assert_eq!(vs.mesh_instances.len(), 1);
    assert_eq!(vs.lights.len(), 1);
    assert_eq!(vs.texts.len(), 1);

    let meshes = vs.meshes.len();
    let materials = vs.materials.len();
    let textures = vs.textures.len();
    vs.reset_scene();
    assert_eq!(vs.mesh_instances.len(), 0);
    assert_eq!(vs.lights.len(), 0);
    assert_eq!(vs.texts.len(), 0);
    assert_eq!(vs.meshes.len(), meshes);
    assert_eq!(vs.materials.len(), materials);
    assert_eq!(vs.textures.len(), textures);
}

#[test]
fn set_text_clamps_glyphs_to_font_range() {
    let mut server = AssetServer::new();
    let mut vs = VisualServer::new(&mut server);
    vs.set_text(uid(0, 1), &Affine3A::IDENTITY, &[65, 127, 128, 255], 0x41800000);
    match vs.commands.last().unwrap() {
        GpuCommand::CreateTextInstanceBuffer { glyphs, .. } => {
            assert_eq!(glyphs.as_slice(), &[65, 127, 127, 127]);
        },
        other => panic!("expected a text instance buffer, got {:?}", other),
    }
    assert_eq!(vs.texts.get(&uid(0, 1).encode()).unwrap().instance_count, 4);
}

#[test]
fn set_scene_walks_the_graph_and_registers_instances() {
    let mut server = AssetServer::new();
    let mut vs = VisualServer::new(&mut server);
    let mesh = one_quad_mesh(&mut server, None);
    let mut scene = Scene::new_empty();
    let child = scene.add_allocate_child(scene.root, Node::new_mesh(mesh));
    let _grandchild = scene.add_allocate_child(
        child,
        Node::new_light(Light::point(F32_ONE)),
    );
    let handle = server.add_scene(scene);

    vs.set_scene(handle, &server);
    assert_eq!(vs.mesh_instances.len(), 1);
    assert_eq!(vs.lights.len(), 1);
    assert!(vs.meshes.contains_key(&mesh.raw_index()));

    // Walking again rebuilds instances but reuses every content cache.
    let meshes = vs.meshes.len();
    let next = vs.next_resource_id;
    vs.set_scene(handle, &server);
    assert_eq!(vs.mesh_instances.len(), 1);
    assert_eq!(vs.meshes.len(), meshes);
    // Only per-instance uniforms were created anew, no mesh buffers.
    assert!(vs.next_resource_id > next);
}

#[test]
fn sprite_creates_override_material_once() {
    let mut server = AssetServer::new();
    let mut vs = VisualServer::new(&mut server);
    let image = server.add_image(Image::new_dummy());
    let id = uid(0, 4);

    let materials_before = server.materials.len();
    vs.set_sprite(id, Affine3A::IDENTITY, image, Color::white(), &mut server);
    assert_eq!(server.materials.len(), materials_before + 1);
    let inst = *vs.mesh_instances.get(&id.encode()).unwrap();
    let override_material = inst.material_override.unwrap();

    // Steady state: the same override material is updated, none is added.
    vs.set_sprite(id, Affine3A::IDENTITY, image, Color::grey(), &mut server);
    assert_eq!(server.materials.len(), materials_before + 1);
    let updated = server.get_material(override_material);
    assert_eq!(updated.base_color, Color::grey());
    assert_eq!(updated.base_color_image, Some(image));
    assert!(updated.unlit);
    assert!(matches!(updated.billboard_mode, BillboardMode::On));
}

#[test]
fn walk_composes_parent_and_child_transforms() {
    let mut server = AssetServer::new();
    let mut vs = VisualServer::new(&mut server);
    let mesh = one_quad_mesh(&mut server, None);

    let parent_transform = Affine3A::from_translation(glam::Vec3::new(1.0, 2.0, 3.0));
    let child_transform = Affine3A::from_scale(glam::Vec3::new(2.0, 2.0, 2.0));

    let mut scene = Scene::new_empty();
    let parent = scene.add_allocate_child(
        scene.root,
        Node::new_empty().with_transform(parent_transform),
    );
    let child = scene.add_allocate_child(
        parent,
        Node::new_mesh(mesh).with_transform(child_transform),
    );
    let handle = server.add_scene(scene);
    vs.set_scene(handle, &server);

    let stored = server.get_scene(handle);
    let uid = stored.make_unique_node_id(child);
    let instance = vs.mesh_instances.get(&uid.encode()).unwrap();
    let expected = parent_transform * child_transform;
    let found = vs
        .commands
        .iter()
        .find_map(|c| match c {
            GpuCommand::CreateModelUniformBuffer { id, transform }
                if *id == instance.model_uniform_buffer =>
            {
                Some(*transform)
            },
            _ => None,
        })
        .unwrap();
    assert_eq!(found, expected);
}

#[test]
fn changed_font_image_rebuilds_the_font_texture() {
    let mut server = AssetServer::new();
    let mut vs = VisualServer::new(&mut server);
    let font = server.add_image(Image::new(2, 2, vec![3u8; 16]));
    vs.set_font_image(font, &server);
    assert_eq!(vs.font_handle, Some(font));

    let err = server.install_load_result(
        font.to_type_erased(),
        Ok(renderer::asset_server::LoadedAsset::Image(Image::new(4, 4, vec![8u8; 64]))),
    );
    assert!(err.is_none());
    let changes = server.take_asset_changes();
    let before = vs.commands.len();
    vs.notify_asset_changes(&changes, &server);
    let rebuilt = vs.commands[before..].iter().any(|c| {
        matches!(c, GpuCommand::UpdateFontTexture { .. })
    });
    assert!(rebuilt);
}

#[test]
fn light_updates_in_place_after_first_sight() {
    let mut server = AssetServer::new();
    let mut vs = VisualServer::new(&mut server);
    let id = uid(0, 1);
    vs.set_light(id, Affine3A::IDENTITY, &Light::point(F32_ONE));
    let first = *vs.lights.get(&id.encode()).unwrap();
    let next_after_first = vs.next_resource_id;

    let moved = Affine3A::from_translation(glam::Vec3::new(0.0, 1.0, 0.0));
    vs.set_light(id, moved, &Light::directional());
    assert_eq!(vs.lights.len(), 1);
    let second = *vs.lights.get(&id.encode()).unwrap();
    assert_eq!(second.uniform_buffer, first.uniform_buffer);
    assert_eq!(second.bind_group, first.bind_group);
    assert_eq!(second.shadow_map, first.shadow_map);
    assert_eq!(vs.next_resource_id, next_after_first);
    match vs.commands.last().unwrap() {
        GpuCommand::UpdateLightUniformBuffer { id: buf, uniform } => {
            assert_eq!(*buf, first.uniform_buffer);
            assert_eq!(uniform.transform, moved);
            assert_eq!(uniform.kind, 0);
            assert_eq!(uniform.radius, 0);
        },
        other => panic!("expected a light uniform update, got {:?}", other),
    }
}

#[test]
fn text_updates_in_place_after_first_sight() {
    let mut server = AssetServer::new();
    let mut vs = VisualServer::new(&mut server);
    let id = uid(0, 1);
    vs.set_text(id, &Affine3A::IDENTITY, b"one", 0x41800000);
    let first = *vs.texts.get(&id.encode()).unwrap();
    let next_after_first = vs.next_resource_id;

    vs.set_text(id, &Affine3A::IDENTITY, b"three", 0x41800000);
    assert_eq!(vs.texts.len(), 1);
    let second = *vs.texts.get(&id.encode()).unwrap();
    assert_eq!(second.instance_buffer, first.instance_buffer);
    assert_eq!(second.instance_count, 5);
    assert_eq!(vs.next_resource_id, next_after_first);
    match vs.commands.last().unwrap() {
        GpuCommand::UpdateTextInstanceBuffer { id: buf, glyphs, .. } => {
            assert_eq!(*buf, first.instance_buffer);
            assert_eq!(glyphs.as_slice(), b"three");
        },
        other => panic!("expected a text instance update, got {:?}", other),
    }
}
