use sketchbook::feedback_loop::{FeedbackBindings, FeedbackLoopState, INITIAL_TARGET_INDEX};

#[test]
fn new_loop_paints_into_second_texture() {
    let state = FeedbackLoopState::new(["a", "b"]);
    assert_eq!(state.target_index(), INITIAL_TARGET_INDEX);
    assert_eq!(*state.paint_target(), "b");
    assert_eq!(*state.feedback_source(), "a");
    assert_eq!(
        state.bindings(),
        FeedbackBindings { paint_target: 1, feedback_source: 0, screen: 1, recording: 1 }
    );
}

#[test]
fn advance_swaps_roles() {
    let mut state = FeedbackLoopState::new(["a", "b"]);
    state.advance();
    assert_eq!(state.target_index(), 0);
    assert_eq!(*state.paint_target(), "a");
    assert_eq!(*state.feedback_source(), "b");
    assert_eq!(
        state.bindings(),
        FeedbackBindings { paint_target: 0, feedback_source: 1, screen: 0, recording: 0 }
    );
}

#[test]
fn feedback_reads_the_frame_painted_before() {
    let mut state = FeedbackLoopState::new([10u32, 20u32]);
    for _ in 0..7 {
        let painted = *state.paint_target();
        state.advance();
        assert_eq!(*state.feedback_source(), painted);
    }
}

#[test]
fn advancing_twice_restores_the_loop() {
    let mut state = FeedbackLoopState::new(['x', 'y']);
    let before = state.bindings();
    state.advance();
    state.advance();
    assert_eq!(state.bindings(), before);
}

#[test]
fn paint_target_never_sampled_and_screen_follows_it() {
    let mut state = FeedbackLoopState::new([1u8, 2u8]);
    for _ in 0..5 {
        let b = state.bindings();
        assert_ne!(b.paint_target, b.feedback_source);
        assert_eq!(b.screen, b.paint_target);
        assert_eq!(b.recording, b.paint_target);
        assert_eq!(*state.texture(b.paint_target), *state.paint_target());
        state.advance();
    }
}
