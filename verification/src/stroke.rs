//! The sample buffer of a stroke in progress.

use vstd::prelude::*;
use crate::geometry::Point;
use crate::pen::PenEvent;
use crate::pen::PRESSURE_ONE;
use crate::pen::clamp_pressure;
use crate::pen::clamp_pressure_spec;

verus! {

/// The ordered samples of the stroke being drawn. Every pressure in it is
/// within `0 ..= PRESSURE_ONE`.
#[derive(Debug)]
pub struct StrokeInProgress {
    events: Vec<PenEvent>,
}

impl View for StrokeInProgress {
    type V = Seq<PenEvent>;

    closed spec fn view(&self) -> Seq<PenEvent> {
        self.events@
    }
}

/// The sample that a sampler stores for a reading at `point` with raw
/// pressure `pressure`.
pub open spec fn recorded_event(point: Point, pressure: i64) -> PenEvent {
    PenEvent { pos: point, pressure: clamp_pressure_spec(pressure), speed: PRESSURE_ONE }
}

/// No pressure is above full pressure.
pub open spec fn pressures_clamped(events: Seq<PenEvent>) -> bool {
    forall|i: int| 0 <= i < events.len() ==> (#[trigger] events[i]).pressure <= PRESSURE_ONE
}

impl StrokeInProgress {
    /// What holds of every stroke in progress.
    #[verifier::type_invariant]
    pub open spec fn clamped(&self) -> bool {
        pressures_clamped(self@)
    }

    /// Starts a stroke with no samples.
    pub fn new() -> (s: Self)
        ensures
            s@ == Seq::<PenEvent>::empty(),
    {
        StrokeInProgress { events: Vec::new() }
    }

    /// Appends one sample. The pressure is clamped; the position is stored as
    /// given, also where it repeats the previous one.
    pub fn move_to(&mut self, point: Point, pressure: i64)
        ensures
            final(self)@ == old(self)@.push(recorded_event(point, pressure)),
            pressures_clamped(final(self)@),
    {
        proof {
            use_type_invariant(&*self);
        }
        let mut taken = StrokeInProgress::new();
        core::mem::swap(self, &mut taken);
        let StrokeInProgress { events } = taken;
        let mut events = events;
        events.push(PenEvent { pos: point, pressure: clamp_pressure(pressure), speed: PRESSURE_ONE });
        *self = StrokeInProgress { events };
    }

    /// The number of samples recorded so far.
    pub fn len(&self) -> (n: usize)
        ensures
            n == self@.len(),
    {
        self.events.len()
    }

    /// The samples recorded so far.
    pub fn events(&self) -> (events: &Vec<PenEvent>)
        ensures
            events@ == self@,
            pressures_clamped(self@),
    {
        proof {
            use_type_invariant(self);
        }
        &self.events
    }

    /// Ends the stroke and hands over its samples.
    pub fn finish(self) -> (events: Vec<PenEvent>)
        ensures
            events@ == self@,
            pressures_clamped(events@),
    {
        proof {
            use_type_invariant(&self);
        }
        let StrokeInProgress { events } = self;
        events
    }
}

} // verus!
