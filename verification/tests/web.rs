use scenekit::raycast::{InteractionError, SelectionContainment};
use scenekit::web::canvas::{clamp_canvas_size, BrowserBackendKind, BrowserBackendPreference, WebGlCapabilityLevel};
use scenekit::web::backend::{backend_attempts, should_try_webgpu, text_contains, webgpu_allowed};
use scenekit::web::viewer::{transform_mode_from_label, transform_mode_label, ViewerState};
use scenekit::scene::editor::TransformMode;
use scenekit::ids::NodeId;
use scenekit::web::input::{
    gamepad_axis_from_standard, gamepad_button_from_standard, key_code_from_dom, pointer_button_from_dom,
    touch_phase_from_dom, GamepadAxis, GamepadButton, KeyCode, PointerButton, TouchPhase,
};

#[test]
fn canvas_size_is_at_least_one() {
    assert_eq!(clamp_canvas_size(0, 0), (1, 1));
    assert_eq!(clamp_canvas_size(0, 5), (1, 5));
    assert_eq!(clamp_canvas_size(640, 480), (640, 480));
}

#[test]
fn webgl_labels() {
    assert_eq!(WebGlCapabilityLevel::WebGl1.label(), "webgl1");
    assert_eq!(WebGlCapabilityLevel::WebGl2.label(), "webgl2");
    assert_eq!(WebGlCapabilityLevel::WebGl1.parity_label(), "reduced-fallback");
    assert_eq!(WebGlCapabilityLevel::WebGl2.parity_label(), "full-fallback");
    assert_ne!(BrowserBackendPreference::Auto, BrowserBackendPreference::WebGl);
    assert_ne!(BrowserBackendKind::WebGpu, BrowserBackendKind::CanvasFallback);
}

#[test]
fn dom_key_codes() {
    assert_eq!(key_code_from_dom("KeyW"), Some(KeyCode::KeyW));
    assert_eq!(key_code_from_dom("Space"), Some(KeyCode::Space));
    assert_eq!(key_code_from_dom("ControlRight"), Some(KeyCode::ControlRight));
    assert_eq!(key_code_from_dom("Tab"), Some(KeyCode::Tab));
    assert_eq!(key_code_from_dom("KeyZ"), None);
    assert_eq!(key_code_from_dom(""), None);
    assert_eq!(key_code_from_dom("keyw"), None);
}

#[test]
fn dom_pointer_and_touch_codes() {
    assert_eq!(pointer_button_from_dom(0), Some(PointerButton::Left));
    assert_eq!(pointer_button_from_dom(2), Some(PointerButton::Right));
    assert_eq!(pointer_button_from_dom(4), Some(PointerButton::Forward));
    assert_eq!(pointer_button_from_dom(5), None);
    assert_eq!(pointer_button_from_dom(-1), None);
    assert_eq!(touch_phase_from_dom(0), Some(TouchPhase::Started));
    assert_eq!(touch_phase_from_dom(3), Some(TouchPhase::Cancelled));
    assert_eq!(touch_phase_from_dom(4), None);
}

#[test]
fn gamepad_codes() {
    assert_eq!(gamepad_axis_from_standard(1), Some(GamepadAxis::LeftY));
    assert_eq!(gamepad_axis_from_standard(4), None);
    assert_eq!(gamepad_button_from_standard(0), Some(GamepadButton::South));
    assert_eq!(gamepad_button_from_standard(12), Some(GamepadButton::DPadUp));
    assert_eq!(gamepad_button_from_standard(16), Some(GamepadButton::Home));
    assert_eq!(gamepad_button_from_standard(17), None);
}

#[test]
fn interaction_defaults() {
    assert_eq!(SelectionContainment::default(), SelectionContainment::Intersects);
    assert_ne!(InteractionError::Locked, InteractionError::NotActive);
}

#[test]
fn text_search_finds_substrings() {
    assert!(text_contains("mozilla/5.0 firefox/120.0", "firefox"));
    assert!(text_contains("abc", ""));
    assert!(text_contains("abc", "abc"));
    assert!(!text_contains("ab", "abc"));
    assert!(!text_contains("chrom", "chrome"));
    assert!(text_contains("xxchromexx", "chrome"));
}

#[test]
fn webgpu_is_tried_only_where_it_is_likely_to_work() {
    let chrome = "Mozilla/5.0 (Windows NT 10.0) AppleWebKit/537.36 Chrome/124.0 Safari/537.36";
    let firefox = "Mozilla/5.0 (X11; Linux x86_64; rv:125.0) Gecko/20100101 Firefox/125.0";
    let safari = "Mozilla/5.0 (Macintosh) AppleWebKit/605.1.15 Version/17.4 Safari/605.1.15";
    let edge = "Mozilla/5.0 AppleWebKit/537.36 Safari/537.36 Edg/124.0";
    assert!(should_try_webgpu(chrome, true));
    assert!(!should_try_webgpu(chrome, false));
    assert!(!should_try_webgpu(firefox, true));
    assert!(!should_try_webgpu(safari, true));
    assert!(should_try_webgpu(edge, true));
    assert!(!webgpu_allowed("FIREFOX", false));
    assert!(webgpu_allowed("FIREFOX", true));
    assert!(!webgpu_allowed("safari", true));
}

#[test]
fn backend_attempt_order_follows_preference() {
    assert_eq!(backend_attempts(BrowserBackendPreference::WebGpu, false), (BrowserBackendKind::WebGpu, None));
    assert_eq!(backend_attempts(BrowserBackendPreference::WebGl, true), (BrowserBackendKind::WebGl, None));
    assert_eq!(
        backend_attempts(BrowserBackendPreference::Auto, true),
        (BrowserBackendKind::WebGpu, Some(BrowserBackendKind::WebGl))
    );
    assert_eq!(backend_attempts(BrowserBackendPreference::Auto, false), (BrowserBackendKind::WebGl, None));
}

#[test]
fn viewer_starts_running_with_helpers_and_no_selection() {
    let viewer = ViewerState::new();
    assert!(!viewer.paused && viewer.helpers_visible);
    assert!(!viewer.wireframe_enabled && !viewer.bloom_enabled && !viewer.ssao_enabled);
    assert_eq!(viewer.selected_node_id(), 0);
    assert_eq!(viewer.selected_name, "None");
    assert_eq!(viewer.active_material, "None");
    assert_eq!(viewer.transform_mode(), "translate");
}

#[test]
fn viewer_transform_mode_labels_round_trip() {
    assert_eq!(transform_mode_from_label("rotate"), TransformMode::Rotate);
    assert_eq!(transform_mode_from_label("scale"), TransformMode::Scale);
    assert_eq!(transform_mode_from_label("translate"), TransformMode::Translate);
    assert_eq!(transform_mode_from_label("Rotate"), TransformMode::Translate);
    assert_eq!(transform_mode_from_label(""), TransformMode::Translate);
    for mode in [TransformMode::Translate, TransformMode::Rotate, TransformMode::Scale] {
        assert_eq!(transform_mode_from_label(transform_mode_label(mode)), mode);
    }
    let mut viewer = ViewerState::new();
    viewer.set_transform_mode("scale");
    assert_eq!(viewer.transform_mode(), "scale");
    viewer.set_transform_mode("bogus");
    assert_eq!(viewer.transform_mode(), "translate");
}

#[test]
fn viewer_picks_and_clears_selection() {
    let mut viewer = ViewerState::new();
    viewer.record_pick(NodeId(4), Some("Torus"), None);
    assert_eq!(viewer.selected_node_id(), 4);
    assert_eq!(viewer.selected_name, "Torus");
    assert_eq!(viewer.active_material, "Unknown");
    viewer.record_pick(NodeId(5), None, Some("Toon"));
    assert_eq!(viewer.selected_name, "Unknown");
    assert_eq!(viewer.active_material, "Toon");
    viewer.clear_selection();
    assert_eq!(viewer.selected_node, None);
    assert_eq!(viewer.selected_name, "None");
    assert_eq!(viewer.active_material, "None");
}
