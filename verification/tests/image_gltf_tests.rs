use glam::Affine3A;
use renderer::gltf::{
    register_gltf_document, GltfDocument, GltfMaterial, GltfMesh, GltfNode, GltfPrimitive,
    GltfTextureSource,
};
use renderer::color::Color;
use renderer::mesh::Vertex;
use renderer::{AssetServer, Image, NodeData, Timestamp, VisualServer};

fn png_bytes(width: u32, height: u32, channel: u8) -> Vec<u8> {
    let pixel = image::Rgba([channel, channel, channel, 255]);
    let rgba = image::RgbaImage::from_pixel(width, height, pixel);
    let mut bytes = std::io::Cursor::new(Vec::new());
    image::DynamicImage::ImageRgba8(rgba)
        .write_to(&mut bytes, image::ImageFormat::Png)
        .unwrap();
    bytes.into_inner()
}

#[test]
fn decoding_a_png_yields_its_real_dimensions() {
    let bytes = png_bytes(3, 2, 40);
    let decoded = Image::load_from_memory(&bytes).unwrap();
    assert_eq!(decoded.width(), 3);
    assert_eq!(decoded.height(), 2);
    assert_eq!(decoded.data().len(), 24);
    assert_eq!(decoded.data()[0], 40);
    assert_eq!(decoded.mip_level_count(), 1);
}

#[test]
fn garbage_bytes_do_not_decode() {
    assert!(Image::load_from_memory(&[1, 2, 3, 4]).is_err());
}

#[test]
fn mip_chain_installation_checks_shape_length_and_level_zero() {
    let mut square = Image::new(4, 4, vec![5u8; 64]);
    assert!(square.can_make_mips());
    // Levels: 4x4 + 2x2 + 1x1, 4 bytes per pixel; level 0 must be the image's
    // own pixels.
    let mut chain = vec![5u8; 64];
    chain.extend(vec![6u8; 16 + 4]);
    assert!(square.install_mips(chain).is_ok());
    assert_eq!(square.mip_level_count(), 3);
    assert_eq!(square.data().len(), 64 + 16 + 4);
    assert_eq!(&square.data()[..64], &[5u8; 64][..]);

    let mut wrong_len = Image::new(4, 4, vec![5u8; 64]);
    assert!(wrong_len.install_mips(vec![5u8; 60]).is_err());
    assert_eq!(wrong_len.mip_level_count(), 1);

    // The right length but not starting with the image's pixels.
    let mut wrong_prefix = Image::new(4, 4, vec![5u8; 64]);
    assert!(wrong_prefix.install_mips(vec![6u8; 84]).is_err());
    assert_eq!(wrong_prefix.mip_level_count(), 1);

    let mut not_square = Image::new(4, 2, vec![5u8; 32]);
    assert!(!not_square.can_make_mips());
    assert!(not_square.install_mips(vec![5u8; 44]).is_err());

    let mut not_pot = Image::new(3, 3, vec![5u8; 36]);
    assert!(!not_pot.can_make_mips());
}

fn triangle_primitive(material: Option<usize>) -> GltfPrimitive {
    let v = Vertex::new([0, 0, 0], [0, 0, 0x3f800000], [0, 0]);
    GltfPrimitive { vertices: vec![v, v, v], indices: vec![0, 1, 2], material }
}

fn small_document() -> GltfDocument {
    GltfDocument {
        textures: vec![
            GltfTextureSource::Decoded(Image::new(2, 2, vec![8u8; 16])),
            GltfTextureSource::Path("textures/wood.png".to_string()),
        ],
        materials: vec![
            GltfMaterial { base_color: Color::white(), base_color_texture: Some(0) },
            GltfMaterial { base_color: Color::grey(), base_color_texture: Some(1) },
        ],
        meshes: vec![
            GltfMesh { primitives: vec![triangle_primitive(Some(0)), triangle_primitive(None)] },
            GltfMesh { primitives: vec![triangle_primitive(Some(1))] },
        ],
        roots: Some(vec![GltfNode {
            transform: Affine3A::IDENTITY,
            mesh: Some(0),
            children: vec![GltfNode {
                transform: Affine3A::from_translation(glam::Vec3::new(1.0, 0.0, 0.0)),
                mesh: Some(1),
                children: vec![],
            }],
        }]),
    }
}

#[test]
fn registering_a_document_preallocates_every_asset() {
    let mut server = AssetServer::new();
    let now = Timestamp { seconds: 9, millis: 0 };
    let scene_handle = register_gltf_document(&mut server, small_document(), now).unwrap();

    assert_eq!(server.images.len(), 2);
    // One default material plus the document's two.
    assert_eq!(server.materials.len(), 3);
    assert_eq!(server.meshes.len(), 2);
    assert_eq!(server.scenes.len(), 1);

    // The path-backed texture queued one load.
    let work = server.take_pending_loads();
    assert_eq!(work.len(), 1);
    assert_eq!(work[0].path, "textures/wood.png");

    // The scene wires the nodes to the preallocated meshes.
    let scene = server.get_scene(scene_handle);
    assert_eq!(scene.nodes.len(), 3);
    let children = scene.children_of(scene.root).clone();
    assert_eq!(children.len(), 1);
    match scene.nodes.get(children[0]).data {
        NodeData::Mesh(m) => assert_eq!(m.raw_index(), 0),
        _ => panic!("expected a mesh node"),
    }
    let grandchildren = scene.children_of(children[0]).clone();
    assert_eq!(grandchildren.len(), 1);
    match scene.nodes.get(grandchildren[0]).data {
        NodeData::Mesh(m) => assert_eq!(m.raw_index(), 1),
        _ => panic!("expected a mesh node"),
    }
}

#[test]
fn document_without_scene_is_an_error() {
    let mut server = AssetServer::new();
    let now = Timestamp { seconds: 9, millis: 0 };
    let doc = GltfDocument { textures: vec![], materials: vec![], meshes: vec![], roots: None };
    assert!(register_gltf_document(&mut server, doc, now).is_err());
}

#[test]
fn registered_scene_renders_through_the_visual_server() {
    let mut server = AssetServer::new();
    let mut vs = VisualServer::new(&mut server);
    let now = Timestamp { seconds: 9, millis: 0 };
    let scene_handle = register_gltf_document(&mut server, small_document(), now).unwrap();

    vs.set_scene(scene_handle, &server);
    assert_eq!(vs.mesh_instances.len(), 2);
    // Both meshes and both document materials (plus nothing else new) were
    // mirrored; the gltf meshes' textures got GPU textures.
    assert_eq!(vs.meshes.len(), 3); // built-in quad + two document meshes
    assert_eq!(vs.textures.len(), 2);
}
