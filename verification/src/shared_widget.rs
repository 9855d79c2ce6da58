//! Shared presentation helpers: the two-stage crossfade-in revealer and
//! fixed spacers.
//!
//! The revealer is modelled by its two stage flags and its total duration;
//! the timed choreography itself is returned as steps for the presentation
//! layer to perform.

use vstd::prelude::*;

verus! {

/// One step of a reveal choreography: switch a stage, or wait.
#[derive(Clone, Copy, Debug, PartialEq, Eq, Structural)]
pub enum RevealStep {
    Slide(bool),
    Crossfade(bool),
    Wait(u64),
}

/// The timed steps that reveal or hide a crossfade-in: revealing slides in
/// first and crossfades after a sixth of the duration; hiding crossfades
/// out first and slides after half of it.
pub open spec fn spec_reveal_steps(duration_ms: u64, reveal: bool) -> Seq<RevealStep> {
    if reveal {
        seq![
            RevealStep::Slide(true),
            RevealStep::Wait((duration_ms / 6) as u64),
            RevealStep::Crossfade(true),
        ]
    } else {
        seq![
            RevealStep::Crossfade(false),
            RevealStep::Wait((duration_ms / 2) as u64),
            RevealStep::Slide(false),
        ]
    }
}

/// A two-stage revealer: an outer slide holding an inner crossfade, with
/// the total transition duration in milliseconds.
#[derive(Clone, Copy, Debug, PartialEq, Eq, Structural)]
pub struct CrossfadeIn {
    pub slidein: bool,
    pub crossfade: bool,
    pub duration_ms: u64,
}

impl CrossfadeIn {
    /// A hidden revealer pair with the given total duration.
    pub fn new(duration_ms: u64) -> (r: CrossfadeIn)
        ensures
            !r.slidein,
            !r.crossfade,
            r.duration_ms == duration_ms,
    {
        CrossfadeIn { slidein: false, crossfade: false, duration_ms }
    }

    /// Moves both stages towards `on` and returns the timed steps the
    /// presentation layer performs to get there.
    pub fn transition(&mut self, on: bool) -> (steps: Vec<RevealStep>)
        ensures
            final(self).slidein == on,
            final(self).crossfade == on,
            final(self).duration_ms == old(self).duration_ms,
            steps@ == spec_reveal_steps(old(self).duration_ms, on),
    {
        let mut steps: Vec<RevealStep> = Vec::new();
        if on {
            steps.push(RevealStep::Slide(true));
            steps.push(RevealStep::Wait(self.duration_ms / 6));
            steps.push(RevealStep::Crossfade(true));
        } else {
            steps.push(RevealStep::Crossfade(false));
            steps.push(RevealStep::Wait(self.duration_ms / 2));
            steps.push(RevealStep::Slide(false));
        }
        self.slidein = on;
        self.crossfade = on;
        proof {
            assert(steps@ =~= spec_reveal_steps(old(self).duration_ms, on));
        }
        steps
    }

    /// A revealer pair counts as revealed while either stage is on.
    pub fn revealed(&self) -> (r: bool)
        ensures
            r == (self.slidein || self.crossfade),
    {
        self.slidein || self.crossfade
    }
}

/// The margins of a fixed spacer: the given space, split evenly between
/// its two sides.
#[derive(Clone, Copy, Debug, PartialEq, Eq, Structural)]
pub struct Spacer {
    pub margin_start: i32,
    pub margin_end: i32,
}

/// A spacer for the given non-negative width.
pub fn spacer(space: i32) -> (r: Spacer)
    requires
        space >= 0,
    ensures
        r.margin_start == space / 2,
        r.margin_end == space / 2,
{
    Spacer { margin_start: space / 2, margin_end: space / 2 }
}

} // verus!
