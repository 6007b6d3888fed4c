//! Ping-pong bookkeeping of a feedback loop.
//!
//! A feedback loop owns two textures. Every frame the paint camera renders
//! into one of them (the *target*) while a feedback sprite samples the other
//! one (the *source*), which holds the previous frame. Advancing the loop swaps
//! the two roles, so the frame that was just painted becomes the next feedback
//! source. The screen sprite and the recorder always show the target.
use vstd::prelude::*;

verus! {

/// Index of the texture painted into right after a loop is spawned.
pub const INITIAL_TARGET_INDEX: usize = 1;

/// The target index after one advance of the loop.
pub open spec fn advanced_target(target: int) -> int {
    1 - target
}

/// The index of the texture the feedback sprite samples while `target` is painted.
pub open spec fn source_of(target: int) -> int {
    1 - target
}

/// Which of the two textures each consumer uses in one frame.
#[derive(Clone, Copy, Debug, PartialEq, Eq, Structural)]
pub struct FeedbackBindings {
    /// Texture the paint camera renders into.
    pub paint_target: usize,
    /// Texture drawn behind the painted content, carrying the previous frame.
    pub feedback_source: usize,
    /// Texture shown on screen.
    pub screen: usize,
    /// Texture the recorder captures.
    pub recording: usize,
}

/// The bindings of a loop whose paint target is `target`.
pub open spec fn bindings_for(target: int) -> FeedbackBindings {
    FeedbackBindings {
        paint_target: target as usize,
        feedback_source: source_of(target) as usize,
        screen: target as usize,
        recording: target as usize,
    }
}

/// The ping-pong state of a feedback loop over two textures of type `H`.
pub struct FeedbackLoopState<H> {
    textures: [H; 2],
    target_index: usize,
}

impl<H> FeedbackLoopState<H> {
    #[verifier::type_invariant]
    spec fn target_in_range(self) -> bool {
        self.target_index < 2
    }

    /// Index of the texture painted this frame.
    pub closed spec fn target(self) -> int {
        self.target_index as int
    }

    /// The two textures, in the order they were given.
    pub closed spec fn textures_view(self) -> Seq<H> {
        self.textures@
    }

    /// Starts a loop over `textures`, painting into the second one first.
    pub fn new(textures: [H; 2]) -> (state: Self)
        ensures
            state.target() == INITIAL_TARGET_INDEX,
            state.textures_view() == textures@,
    {
        FeedbackLoopState { textures, target_index: INITIAL_TARGET_INDEX }
    }

    /// Index of the texture painted this frame.
    pub fn target_index(&self) -> (index: usize)
        ensures
            index == self.target(),
            index < 2,
    {
        proof {
            use_type_invariant(self);
        }
        self.target_index
    }

    /// Swaps the roles of the two textures: the texture just painted becomes the
    /// feedback source and the other one the new target.
    pub fn advance(&mut self)
        ensures
            final(self).target() == advanced_target(old(self).target()),
            final(self).textures_view() == old(self).textures_view(),
            0 <= final(self).target() < 2,
    {
        proof {
            use_type_invariant(&*self);
        }
        let source_index = self.target_index;
        self.target_index = 1 - source_index;
    }

    /// Which texture each consumer uses this frame.
    pub fn bindings(&self) -> (b: FeedbackBindings)
        ensures
            b == bindings_for(self.target()),
            b.paint_target < 2,
            b.feedback_source < 2,
            b.screen < 2,
            b.recording < 2,
    {
        proof {
            use_type_invariant(self);
        }
        let target = self.target_index;
        FeedbackBindings {
            paint_target: target,
            feedback_source: 1 - target,
            screen: target,
            recording: target,
        }
    }

    /// The texture at `index`.
    pub fn texture(&self, index: usize) -> (t: &H)
        requires
            index < 2,
        ensures
            *t == self.textures_view()[index as int],
    {
        &self.textures[index]
    }

    /// The texture the paint camera renders into this frame.
    pub fn paint_target(&self) -> (t: &H)
        ensures
            *t == self.textures_view()[self.target()],
    {
        proof {
            use_type_invariant(self);
        }
        &self.textures[self.target_index]
    }

    /// The texture the feedback sprite samples this frame.
    pub fn feedback_source(&self) -> (t: &H)
        ensures
            *t == self.textures_view()[source_of(self.target())],
    {
        proof {
            use_type_invariant(self);
        }
        &self.textures[1 - self.target_index]
    }
}

/// The paint camera never samples the texture it renders into: in every frame
/// the feedback source and the paint target are the two different textures.
pub proof fn lemma_source_differs_from_target(target: int)
    requires
        0 <= target < 2,
    ensures
        source_of(target) != target,
        0 <= source_of(target) < 2,
        0 <= advanced_target(target) < 2,
{
}

/// After an advance, the feedback sprite samples exactly the texture that was
/// painted in the frame before.
pub proof fn lemma_feedback_reads_last_frame(target: int)
    requires
        0 <= target < 2,
    ensures
        source_of(advanced_target(target)) == target,
{
}

/// Advancing twice returns the loop to the state it started in.
pub proof fn lemma_advance_twice_restores(target: int)
    requires
        0 <= target < 2,
    ensures
        advanced_target(advanced_target(target)) == target,
{
}

/// The screen and the recorder always show the texture being painted.
pub proof fn lemma_screen_and_recording_follow_target(target: int)
    requires
        0 <= target < 2,
    ensures
        bindings_for(target).screen == bindings_for(target).paint_target,
        bindings_for(target).recording == bindings_for(target).paint_target,
{
}

} // verus!
