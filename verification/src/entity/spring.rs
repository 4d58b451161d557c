//! Springs launch whatever lands on them.

use vstd::prelude::*;

verus! {

/// What a spring does in a frame.
#[derive(Clone, Copy, PartialEq, Eq, Structural, Debug)]
pub enum SpringStep {
    /// The press timer just ran out: launch everything on the spring and
    /// show it unpressed again.
    Release,
    /// Something lands on the idle spring: compute the launch force from the
    /// landing bodies, start the press timer and show the spring pressed.
    Press,
    /// Nothing to do.
    Wait,
}

/// The step of a spring, as [`spring_step`] decides it.
pub open spec fn spring_decision(timer_just_finished: bool, timer_finished: bool, landing: bool) -> SpringStep {
    if timer_just_finished {
        SpringStep::Release
    } else if timer_finished && landing {
        SpringStep::Press
    } else {
        SpringStep::Wait
    }
}

/// A spring is released exactly in the frame its press timer runs out, and
/// pressed only when that timer had already run out and something lands on
/// it; a landing on an idle spring always presses it.
pub proof fn lemma_spring_step_rules(timer_just_finished: bool, timer_finished: bool, landing: bool)
    ensures
        (spring_decision(timer_just_finished, timer_finished, landing) == SpringStep::Release)
            <==> timer_just_finished,
        spring_decision(timer_just_finished, timer_finished, landing) == SpringStep::Press ==> timer_finished
            && landing && !timer_just_finished,
        timer_finished && landing && !timer_just_finished ==> spring_decision(
            timer_just_finished,
            timer_finished,
            landing,
        ) == SpringStep::Press,
        !timer_finished && !timer_just_finished ==> spring_decision(
            timer_just_finished,
            timer_finished,
            landing,
        ) == SpringStep::Wait,
{
}

/// Decides a spring's frame from its press timer (after this frame's tick)
/// and whether some body with a mass lands on it, not moving upwards.
pub fn spring_step(timer_just_finished: bool, timer_finished: bool, landing: bool) -> (step:
    SpringStep)
    ensures
        step == spring_decision(timer_just_finished, timer_finished, landing),
{
    if timer_just_finished {
        SpringStep::Release
    } else if timer_finished && landing {
        SpringStep::Press
    } else {
        SpringStep::Wait
    }
}

/// Whether the spring is pressed after `step`: a press presses it, a
/// release lets it go, and waiting leaves it as it was.
pub open spec fn pressed_after(pressed: bool, step: SpringStep) -> bool {
    match step {
        SpringStep::Release => false,
        SpringStep::Press => true,
        SpringStep::Wait => pressed,
    }
}

/// A spring shows unpressed exactly when its press timer has run out, after
/// every frame, if it did before the frame.
///
/// The press timer is a one-shot timer of positive duration. Its tick this
/// frame (`was_finished` before, `finished` and `just_finished` after) keeps a
/// finished timer finished without reporting it as just finished, and
/// reports a timer that runs out as just finished. A press restarts the timer,
/// which then has not run out.
pub proof fn lemma_spring_unpressed_iff_timer_finished(
    pressed: bool,
    was_finished: bool,
    finished: bool,
    just_finished: bool,
    landing: bool,
    step: SpringStep,
)
    requires
        was_finished <==> !pressed,
        was_finished ==> finished && !just_finished,
        !was_finished && finished ==> just_finished,
        just_finished ==> finished,
        step == spring_decision(just_finished, finished, landing),
    ensures
        (step != SpringStep::Press && finished) <==> !pressed_after(pressed, step),
{
}

/// The sprite-sheet index that a configured sprite number selects, converted
/// as Rust's `as` does (a negative number wraps around).
pub fn sprite_index(sprite: i32) -> (index: usize)
    ensures
        index == sprite as usize,
{
    sprite as usize
}

} // verus!
