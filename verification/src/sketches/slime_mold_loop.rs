//! The frame clock of the slime mold sketch: a deterministic loop of
//! `LOOP_FRAMES` frames that repeats seamlessly.
use vstd::prelude::*;

verus! {

/// Length of the loop in frames.
pub const LOOP_FRAMES: u32 = 250;

/// The frame shown after one more frame of the loop.
pub open spec fn next_loop_frame(frame: int) -> int {
    (frame + 1) % (LOOP_FRAMES as int)
}

/// The frame shown `steps` frames after `start`.
pub open spec fn loop_frame_after(start: int, steps: nat) -> int
    decreases steps,
{
    if steps == 0 {
        start
    } else {
        next_loop_frame(loop_frame_after(start, (steps - 1) as nat))
    }
}

/// The position of the slime mold sketch in its loop.
pub struct LoopClock {
    frame: u32,
}

impl LoopClock {
    #[verifier::type_invariant]
    spec fn within_loop(self) -> bool {
        self.frame < LOOP_FRAMES
    }

    /// The current frame of the loop.
    pub closed spec fn frame_spec(self) -> int {
        self.frame as int
    }

    /// A clock at the first frame of the loop.
    pub fn new() -> (clock: Self)
        ensures
            clock.frame_spec() == 0,
    {
        LoopClock { frame: 0 }
    }

    /// The current frame of the loop, below `LOOP_FRAMES`.
    pub fn frame(&self) -> (f: u32)
        ensures
            f == self.frame_spec(),
            f < LOOP_FRAMES,
    {
        proof {
            use_type_invariant(self);
        }
        self.frame
    }

    /// Moves to the next frame, wrapping from the last frame to the first.
    pub fn advance(&mut self)
        ensures
            final(self).frame_spec() == next_loop_frame(old(self).frame_spec()),
            final(self).frame_spec() < LOOP_FRAMES,
    {
        proof {
            use_type_invariant(&*self);
        }
        self.frame = (self.frame + 1) % LOOP_FRAMES;
    }
}

/// After `steps` frames the clock shows `(start + steps) mod LOOP_FRAMES`.
pub proof fn lemma_loop_frame_after(start: int, steps: nat)
    requires
        0 <= start < LOOP_FRAMES,
    ensures
        loop_frame_after(start, steps) == (start + steps) % (LOOP_FRAMES as int),
    decreases steps,
{
    if steps > 0 {
        lemma_loop_frame_after(start, (steps - 1) as nat);
        let prev = (start + steps - 1) % 250;
        assert((prev + 1) % 250 == (start + steps) % 250) by (nonlinear_arith)
            requires
                prev == (start + steps - 1) % 250,
                steps > 0,
        ;
    } else {
        assert(start % 250 == start);
    }
}

/// The loop is seamless: every `LOOP_FRAMES` frames the clock is back where it
/// started, and it never leaves the loop.
pub proof fn lemma_loop_is_seamless(start: int, steps: nat)
    requires
        0 <= start < LOOP_FRAMES,
    ensures
        loop_frame_after(start, LOOP_FRAMES as nat) == start,
        0 <= loop_frame_after(start, steps) < LOOP_FRAMES,
{
    lemma_loop_frame_after(start, LOOP_FRAMES as nat);
    lemma_loop_frame_after(start, steps);
    assert((start + 250) % 250 == start);
}

} // verus!
