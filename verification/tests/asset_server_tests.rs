use renderer::asset_server::{LoadedAsset, FILES_CHECK_POLL_INTERVAL_MILLIS};
use renderer::{AssetServer, Image, ShaderSource, Timestamp};

fn at(seconds: u32, millis: u32) -> Timestamp {
    Timestamp { seconds, millis }
}

#[test]
fn add_image_returns_placeholder_with_one_mip_level() {
    let mut server = AssetServer::new();
    let h0 = server.add_image(Image::new_dummy());
    let image = server.get_image(h0);
    assert_eq!(image.mip_level_count(), 1);
    assert_eq!(image.width(), 1);
    assert_eq!(image.height(), 1);
    assert_eq!(image.data().as_slice(), &[128, 128, 128, 255]);
}

#[test]
fn failed_load_keeps_placeholder_visible() {
    let mut server = AssetServer::new();
    let h = server.load_image("missing.png", at(10, 0));
    let work = server.take_pending_loads();
    assert_eq!(work.len(), 1);
    // The file does not exist: the host reports the failure.
    let err = server.install_load_result(
        work[0].handle,
        Err("no such file".to_string()),
    );
    assert!(err.is_some());
    // The placeholder is still what the handle shows.
    let image = server.get_image(h);
    assert_eq!(image.width(), 1);
    assert_eq!(image.height(), 1);
    assert_eq!(image.mip_level_count(), 1);
    // A failed load records no change.
    let changes = server.take_asset_changes();
    assert_eq!(changes.len(), 0);
}

#[test]
fn successful_load_installs_real_content_and_records_change() {
    let mut server = AssetServer::new();
    let h = server.load_image("valid.png", at(10, 0));
    let work = server.take_pending_loads();
    assert_eq!(work.len(), 1);
    assert_eq!(work[0].path, "valid.png");
    let real = Image::new(2, 3, vec![7u8; 24]);
    let err = server.install_load_result(work[0].handle, Ok(LoadedAsset::Image(real)));
    assert!(err.is_none());
    let image = server.get_image(h);
    assert_eq!(image.width(), 2);
    assert_eq!(image.height(), 3);
    let changes = server.take_asset_changes();
    assert_eq!(changes.len(), 1);
    assert!(changes.contains(h));
    // Draining empties the set.
    let changes2 = server.take_asset_changes();
    assert_eq!(changes2.len(), 0);
}

#[test]
fn change_set_records_each_handle_once() {
    let mut server = AssetServer::new();
    let h = server.load_image("a.png", at(1, 0));
    let work = server.take_pending_loads();
    let e = work[0].handle;
    server
        .install_load_result(e, Ok(LoadedAsset::Image(Image::new(1, 1, vec![0u8; 4]))))
        .map(|m| panic!("{}", m));
    server
        .install_load_result(e, Ok(LoadedAsset::Image(Image::new(1, 1, vec![9u8; 4]))))
        .map(|m| panic!("{}", m));
    let changes = server.take_asset_changes();
    assert_eq!(changes.len(), 1);
    assert!(changes.contains(h));
    let image_handles = changes.iter::<Image>();
    assert_eq!(image_handles.len(), 1);
    assert_eq!(image_handles[0], h);
}

#[test]
fn update_polls_only_after_interval() {
    let mut server = AssetServer::new();
    // Pin the last check time so the test is deterministic.
    server.last_changes_check = at(100, 0);
    assert!(!server.update(at(100, 100)));
    assert!(!server.update(at(100, FILES_CHECK_POLL_INTERVAL_MILLIS as u32)));
    assert!(server.update(at(100, 251)));
    // The check time was stamped; immediately after, nothing is due.
    assert!(!server.update(at(100, 300)));
    assert!(server.update(at(101, 202)));
}

#[test]
fn newer_file_triggers_exactly_one_reload() {
    let mut server = AssetServer::new();
    let h = server.load_image("watched.png", at(50, 0));
    let _ = server.take_pending_loads();
    let watched = server.path_backed_assets();
    assert_eq!(watched.len(), 1);
    let e = watched[0];
    assert_eq!(e.downcast::<Image>(), Ok(h));

    // Unchanged file: no reload, nothing queued.
    let reloaded = server.record_file_modified(e, at(49, 500), at(51, 0));
    assert!(!reloaded);
    assert_eq!(server.take_pending_loads().len(), 0);

    // Strictly newer file: exactly one reload is queued and the stamp moves.
    let reloaded = server.record_file_modified(e, at(50, 1), at(51, 0));
    assert!(reloaded);
    let work = server.take_pending_loads();
    assert_eq!(work.len(), 1);
    assert_eq!(work[0].path, "watched.png");

    // The same modified time is no longer newer than the new stamp.
    let reloaded = server.record_file_modified(e, at(50, 1), at(52, 0));
    assert!(!reloaded);
    assert_eq!(server.take_pending_loads().len(), 0);
}

#[test]
fn reload_stamps_before_work_is_done() {
    let mut server = AssetServer::new();
    let h = server.load_image("a.png", at(10, 0));
    let _ = server.take_pending_loads();
    let e = h.to_type_erased();
    // A modification arriving while the load runs is still detected: the
    // stamp was taken at reload time, not at completion time.
    let reloaded = server.record_file_modified(e, at(10, 500), at(11, 0));
    assert!(reloaded);
    let reloaded_again = server.record_file_modified(e, at(11, 500), at(12, 0));
    assert!(reloaded_again);
}

#[test]
fn shader_source_load_queues_request_with_options() {
    let mut server = AssetServer::new();
    let h = server.load_shader_source("shader.wgsl", "LIGHTS, SHADOWS", at(5, 0));
    assert_eq!(server.get_shader_source(h).source(), "");
    let work = server.take_pending_loads();
    assert_eq!(work.len(), 1);
    assert_eq!(work[0].path, "shader.wgsl");
    assert_eq!(work[0].options, "LIGHTS, SHADOWS");
    let src = ShaderSource::new("fn helper() -> f32 { return 1.0; }".to_string());
    let err = server.install_load_result(work[0].handle, Ok(LoadedAsset::ShaderSource(src)));
    assert!(err.is_none());
    assert_eq!(
        server.get_shader_source(h).source(),
        "fn helper() -> f32 { return 1.0; }"
    );
}

#[test]
fn timestamp_ordering() {
    assert!(at(1, 999).lt(at(2, 0)));
    assert!(!at(2, 0).lt(at(1, 999)));
    assert!(at(2, 1).lt(at(2, 2)));
    assert!(!at(2, 2).lt(at(2, 2)));
    assert_eq!(at(1, 0).millis_until(at(2, 500)), 1500);
    assert_eq!(at(2, 500).millis_until(at(1, 0)), 0);
    let now = Timestamp::now();
    assert!(now.millis < 1000);
}
