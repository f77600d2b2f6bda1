use renderer::arena::Arena;
use renderer::{Image, Material, Mesh};

#[test]
fn arena_allocate_get_replace() {
    let mut arena: Arena<u64> = Arena::new();
    let h1 = arena.allocate(10);
    let h2 = arena.allocate(20);
    assert_eq!(*arena.get(h1), 10);
    assert_eq!(*arena.get(h2), 20);
    let h3 = arena.allocate(30);
    // Append-only: earlier handles still see their values.
    assert_eq!(*arena.get(h1), 10);
    assert_eq!(*arena.get(h2), 20);
    assert_eq!(*arena.get(h3), 30);
    let prev = arena.replace(h2, 25);
    assert_eq!(prev, 20);
    assert_eq!(*arena.get(h1), 10);
    assert_eq!(*arena.get(h2), 25);
    assert_eq!(*arena.get(h3), 30);
    assert_eq!(arena.len(), 3);
}

#[test]
fn arena_append_only_many_allocations() {
    let mut arena: Arena<usize> = Arena::new();
    let mut handles = Vec::new();
    for value in 0..100 {
        handles.push(arena.allocate(value));
    }
    for (expected, handle) in handles.iter().enumerate() {
        assert_eq!(*arena.get(*handle), expected);
    }
}

#[test]
fn handle_round_trip_same_type() {
    let mut server = renderer::AssetServer::new();
    let h = server.add_image(Image::new_dummy());
    let erased = h.to_type_erased();
    assert_eq!(erased.downcast::<Image>(), Ok(h));
}

#[test]
fn handle_round_trip_wrong_type_returns_original() {
    let mut server = renderer::AssetServer::new();
    let h = server.add_image(Image::new_dummy());
    let erased = h.to_type_erased();
    let as_mesh = erased.downcast::<Mesh>();
    assert_eq!(as_mesh, Err(erased));
    let as_material = erased.downcast::<Material>();
    assert_eq!(as_material, Err(erased));
    // The erased handle handed back is usable for another attempt.
    assert_eq!(as_mesh.unwrap_err().downcast::<Image>(), Ok(h));
}

#[test]
fn erased_handles_carry_distinct_type_keys() {
    let mut server = renderer::AssetServer::new();
    let image = server.add_image(Image::new_dummy());
    let mesh = server.add_mesh(Mesh::quad());
    // Same slot index, different type key: the erased forms differ.
    let e_image = image.to_type_erased();
    let e_mesh = mesh.to_type_erased();
    assert_ne!(e_image, e_mesh);
    assert_ne!(e_image.erased_type_id(), e_mesh.erased_type_id());
}
