use sketchbook::sketch_controls::{ControlPanelState, SketchControls};

fn slime_controls() -> SketchControls<f32> {
    SketchControls::new("Slime Mold Loop")
        .with_slider("density", "cell irregularity", 1.0, 0.35, 2.0)
        .with_slider("filaments", "edge detail", 7.0, 2.0, 14.0)
        .with_slider("thickness", "wall thickness", 0.22, 0.05, 0.38)
}

#[test]
fn value_reads_declared_slider() {
    let controls = slime_controls();
    assert_eq!(controls.title(), "Slime Mold Loop");
    assert_eq!(controls.slider_count(), 3);
    assert_eq!(controls.value("density"), 1.0);
    assert_eq!(controls.value("filaments"), 7.0);
    assert_eq!(controls.value("thickness"), 0.22);
}

#[test]
fn unknown_key_has_no_position() {
    let controls = slime_controls();
    assert_eq!(controls.position("speed"), None);
    assert_eq!(controls.position("filaments"), Some(1));
}

#[test]
fn first_declared_slider_wins_for_duplicate_key() {
    let controls = SketchControls::new("dup")
        .with_slider("speed", "speed", 100, 0, 500)
        .with_slider("speed", "speed again", 7, 0, 10);
    assert_eq!(controls.position("speed"), Some(0));
    assert_eq!(controls.value("speed"), 100);
}

#[test]
fn adding_slider_keeps_other_values() {
    let controls = slime_controls().with_slider("reach", "cell movement", 0.62, 0.0, 1.6);
    assert_eq!(controls.value("reach"), 0.62);
    assert_eq!(controls.value("density"), 1.0);
    assert_eq!(controls.slider_label(3), "cell movement");
    assert_eq!(controls.slider_key(3), "reach");
    assert_eq!(controls.slider_range(3), (0.0, 1.6));
}

#[test]
fn set_then_value_reads_back() {
    let mut controls = slime_controls();
    controls.set_slider_value(1, 12.5);
    assert_eq!(controls.value("filaments"), 12.5);
    assert_eq!(controls.slider_value(1), 12.5);
    assert_eq!(controls.value("density"), 1.0);
}

#[test]
fn reset_restores_initial_values_and_is_idempotent() {
    let mut controls = slime_controls();
    controls.set_slider_value(0, 1.9);
    controls.set_slider_value(2, 0.3);
    controls.reset();
    assert_eq!(controls.value("density"), 1.0);
    assert_eq!(controls.value("thickness"), 0.22);
    controls.reset();
    assert_eq!(controls.value("density"), 1.0);
    assert_eq!(controls.value("filaments"), 7.0);
    assert_eq!(controls.slider_label(0), "cell irregularity");
}

#[test]
fn empty_controls() {
    let controls: SketchControls<f32> = SketchControls::new("Sketch");
    assert!(controls.is_empty());
    assert_eq!(controls.position("anything"), None);
    assert!(!slime_controls().is_empty());
}

#[test]
fn panel_starts_hidden_and_toggles() {
    let mut panel = ControlPanelState::new();
    assert!(!panel.is_visible());
    panel.on_toggle_key(false);
    assert!(!panel.is_visible());
    panel.on_toggle_key(true);
    assert!(panel.is_visible());
    panel.on_toggle_key(true);
    assert!(!panel.is_visible());
}
