use sketchbook::sketch_app::{
    local_asset_path, sketch_plugins, sketch_window, workspace_asset_path, Platform,
    WEB_CANVAS_SELECTOR,
};

#[test]
fn asset_paths_native() {
    assert_eq!(local_asset_path("/ws/sketches/slime", Platform::Native), "/ws/sketches/slime/assets");
    assert_eq!(
        workspace_asset_path("/ws/sketches/slime", Platform::Native),
        "/ws/sketches/slime/../../assets"
    );
}

#[test]
fn asset_paths_web() {
    assert_eq!(local_asset_path("/ws/sketches/slime", Platform::Web), "assets");
    assert_eq!(workspace_asset_path("/ws/sketches/slime", Platform::Web), "assets");
}

#[test]
fn native_window_has_no_canvas() {
    let window = sketch_window("Mouse Trail", 1280, 720, Platform::Native);
    assert_eq!(window.title, "Mouse Trail");
    assert_eq!((window.width, window.height), (1280, 720));
    assert_eq!(window.web_canvas, None);
    assert!(!window.fit_canvas_to_parent);
    assert!(window.prevent_default_event_handling);
}

#[test]
fn web_window_draws_into_page_canvas() {
    let window = sketch_window("Slime", 640, 480, Platform::Web);
    assert_eq!(window.web_canvas.as_deref(), Some("#bevy-canvas"));
    assert!(window.fit_canvas_to_parent);
    assert!(!window.prevent_default_event_handling);
    assert_eq!(WEB_CANVAS_SELECTOR, "#bevy-canvas");
}

#[test]
fn plugin_settings() {
    let native = sketch_plugins("Render Texture Template", 1280, 720, "dir/assets", Platform::Native);
    assert_eq!(native.asset_path, "dir/assets");
    assert!(native.audio);
    assert_eq!(native.window.title, "Render Texture Template");
    let web = sketch_plugins("Render Texture Template", 1280, 720, "assets", Platform::Web);
    assert!(!web.audio);
    assert_eq!(web.window.web_canvas.as_deref(), Some("#bevy-canvas"));
}
