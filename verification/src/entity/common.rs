//! Components shared by the game's characters.

use vstd::prelude::*;

verus! {

/// The way a character faces.
#[derive(Clone, Copy, PartialEq, Eq, Structural, Debug)]
pub enum Direction {
    Left,
    Right,
}

impl Direction {
    /// Whether a sprite facing this way is drawn mirrored: sprites face right.
    pub fn flip(&self) -> (flipped: bool)
        ensures
            flipped == (*self is Left),
    {
        match self {
            Direction::Left => true,
            Direction::Right => false,
        }
    }
}

/// Whether a character stands on the ground.
#[derive(Clone, Copy, Debug)]
pub struct Groundedness(bool);

impl View for Groundedness {
    type V = bool;

    closed spec fn view(&self) -> bool {
        self.0
    }
}

impl Default for Groundedness {
    /// Characters start in the air.
    fn default() -> (g: Self)
        ensures
            g@ == false,
    {
        Groundedness(false)
    }
}

impl Groundedness {
    pub fn new(grounded: bool) -> (g: Self)
        ensures
            g@ == grounded,
    {
        Groundedness(grounded)
    }

    /// Records whether the character stands on the ground.
    pub fn set(&mut self, val: bool)
        ensures
            final(self)@ == val,
    {
        self.0 = val
    }

    /// Whether the character stands on the ground.
    pub fn as_ref(&self) -> (grounded: &bool)
        ensures
            *grounded == self@,
    {
        &self.0
    }

    /// Whether a fresh ground probe changes what is recorded: the record is
    /// written only then, so that a change of groundedness is seen as one.
    pub fn needs_update(&self, grounded_now: bool) -> (changed: bool)
        ensures
            changed == (self@ != grounded_now),
    {
        self.0 != grounded_now
    }
}

/// What a system does to a timer.
#[derive(Clone, Copy, PartialEq, Eq, Structural, Debug)]
pub enum TimerCommand {
    /// Start counting again from zero.
    Reset,
    /// Jump to the end, as if the whole duration had passed.
    Finish,
}

} // verus!
