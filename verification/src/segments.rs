//! Strokes as chains of straight line segments of varying width.
//!
//! This is the geometry for a renderer that strokes lines itself: one segment
//! between each pair of neighbouring samples, as wide as the mean of their
//! pressures makes it. `ActiveStroke` keeps the chain of a stroke in progress
//! and extends it by one segment for each new sample, in place of building
//! the whole chain again.

use vstd::prelude::*;
use crate::geometry::Point;
use crate::pen::PenEvent;
use crate::pen::PressureCurve;
use crate::pen::FlatCurve;
use crate::pen::PRESSURE_ONE;

verus! {

/// A straight line from `from` to `to`, stroked `width` grid units wide.
#[derive(Clone, Copy, Debug, PartialEq, Eq, Structural)]
pub struct StrokeSegment {
    pub from: Point,
    pub to: Point,
    pub width: u64,
}

/// The mean of two pressures, rounded down.
pub open spec fn mean_pressure_spec(a: u32, b: u32) -> u32 {
    ((a + b) / 2) as u32
}

/// The base width `width` scaled by the multiplier `m`, rounded down.
pub open spec fn full_width_spec(width: u32, m: u32) -> nat {
    ((width * m) / (PRESSURE_ONE as int)) as nat
}

/// The segment between two neighbouring samples.
pub open spec fn segment_between<C: PressureCurve>(
    a: PenEvent,
    b: PenEvent,
    width: u32,
    curve: C,
) -> StrokeSegment {
    StrokeSegment {
        from: a.pos,
        to: b.pos,
        width: full_width_spec(
            width,
            curve.multiplier(mean_pressure_spec(a.pressure, b.pressure)),
        ) as u64,
    }
}

/// The chain of segments through a sequence of samples.
pub open spec fn stroke_segments_spec<C: PressureCurve>(
    events: Seq<PenEvent>,
    width: u32,
    curve: C,
) -> Seq<StrokeSegment> {
    Seq::new(
        if events.len() >= 1 {
            (events.len() - 1) as nat
        } else {
            0
        },
        |i: int| segment_between(events[i], events[i + 1], width, curve),
    )
}

/// One more sample extends the chain by one segment and leaves the segments
/// before it as they were.
pub proof fn lemma_chain_extends<C: PressureCurve>(
    events: Seq<PenEvent>,
    event: PenEvent,
    width: u32,
    curve: C,
)
    ensures
        events.len() == 0 ==> stroke_segments_spec(events.push(event), width, curve)
            == Seq::<StrokeSegment>::empty(),
        events.len() >= 1 ==> stroke_segments_spec(events.push(event), width, curve)
            == stroke_segments_spec(events, width, curve).push(
            segment_between(events.last(), event, width, curve),
        ),
{
    let grown = events.push(event);
    if events.len() == 0 {
        assert(stroke_segments_spec(grown, width, curve) =~= Seq::<StrokeSegment>::empty());
    } else {
        assert(stroke_segments_spec(grown, width, curve) =~= stroke_segments_spec(
            events,
            width,
            curve,
        ).push(segment_between(events.last(), event, width, curve)));
    }
}

/// The mean of two pressures.
pub fn mean_pressure(a: u32, b: u32) -> (m: u32)
    ensures
        m == mean_pressure_spec(a, b),
{
    ((a as u64 + b as u64) / 2) as u32
}

/// The width of a stroke of base width `width` under the multiplier `m`.
pub fn full_width(width: u32, m: u32) -> (w: u64)
    ensures
        w == full_width_spec(width, m),
{
    assert(0 <= width * m <= 4294967295 * 4294967295) by (nonlinear_arith)
        requires
            0 <= width <= 4294967295,
            0 <= m <= 4294967295,
    ;
    let prod: u64 = (width as u64) * (m as u64);
    prod / 65536
}

/// The segment between two neighbouring samples.
pub fn segment_of<C: PressureCurve>(a: PenEvent, b: PenEvent, width: u32, curve: &C) -> (seg:
    StrokeSegment)
    ensures
        seg == segment_between(a, b, width, *curve),
{
    let m: u32 = curve.width_multiplier(mean_pressure(a.pressure, b.pressure));
    StrokeSegment { from: a.pos, to: b.pos, width: full_width(width, m) }
}

/// The chain of segments through the samples of a stroke.
pub fn stroke_segments<C: PressureCurve>(events: &Vec<PenEvent>, width: u32, curve: &C) -> (chain:
    Vec<StrokeSegment>)
    ensures
        chain@ == stroke_segments_spec(events@, width, *curve),
{
    let mut chain: Vec<StrokeSegment> = Vec::new();
    let n: usize = events.len();
    let mut i: usize = 1;
    while i < n
        invariant
            n == events@.len(),
            1 <= i,
            i <= n || (n == 0 && i == 1),
            chain@.len() == i - 1,
            forall|k: int|
                0 <= k < i - 1 ==> #[trigger] chain@[k] == segment_between(
                    events@[k],
                    events@[k + 1],
                    width,
                    *curve,
                ),
        decreases n - i,
    {
        chain.push(segment_of(events[i - 1], events[i], width, curve));
        i += 1;
    }
    assert(chain@ =~= stroke_segments_spec(events@, width, *curve));
    chain
}

/// A stroke in progress together with its chain of segments. The chain is
/// always the one that a full rebuild from the samples would give.
pub struct ActiveStroke {
    events: Vec<PenEvent>,
    /// The index of the last sample that the chain reaches.
    todo: usize,
    segments: Vec<StrokeSegment>,
    /// The width of the stroke at full pressure, in grid units.
    width: u32,
}

/// An active stroke as contracts see it.
pub struct ActiveStrokeView {
    pub events: Seq<PenEvent>,
    pub segments: Seq<StrokeSegment>,
    pub width: u32,
}

impl View for ActiveStroke {
    type V = ActiveStrokeView;

    closed spec fn view(&self) -> ActiveStrokeView {
        ActiveStrokeView { events: self.events@, segments: self.segments@, width: self.width }
    }
}

impl ActiveStroke {
    /// The index of the last sample that the chain reaches.
    pub closed spec fn reached(&self) -> int {
        self.todo as int
    }

    /// What holds of every active stroke.
    #[verifier::type_invariant]
    pub open spec fn in_step(&self) -> bool {
        &&& self@.segments == stroke_segments_spec(self@.events, self@.width, FlatCurve)
        &&& self.reached() == if self@.events.len() >= 1 {
            self@.events.len() - 1
        } else {
            0
        }
    }

    /// A stroke without samples.
    pub fn new(width: u32) -> (stroke: Self)
        ensures
            stroke@ == (ActiveStrokeView {
                events: Seq::empty(),
                segments: Seq::empty(),
                width,
            }),
    {
        let events: Vec<PenEvent> = Vec::new();
        let segments: Vec<StrokeSegment> = Vec::new();
        assert(segments@ =~= stroke_segments_spec(events@, width, FlatCurve));
        ActiveStroke { events, todo: 0, segments, width }
    }

    /// Records a sample and extends the chain to it.
    pub fn push_event(&mut self, event: PenEvent)
        ensures
            final(self)@.width == old(self)@.width,
            final(self)@.events == old(self)@.events.push(event),
            final(self)@.segments == stroke_segments_spec(
                old(self)@.events.push(event),
                old(self)@.width,
                FlatCurve,
            ),
            old(self)@.events.len() >= 1 ==> final(self)@.segments == old(self)@.segments.push(
                segment_between(old(self)@.events.last(), event, old(self)@.width, FlatCurve),
            ),
    {
        proof {
            use_type_invariant(&*self);
            lemma_chain_extends(self@.events, event, self@.width, FlatCurve);
        }
        let curve = FlatCurve;
        let mut taken = ActiveStroke::new(self.width);
        core::mem::swap(self, &mut taken);
        let ActiveStroke { events, todo, segments, width } = taken;
        let mut events = events;
        let mut segments = segments;
        events.push(event);
        let n: usize = events.len();
        let mut i: usize = todo + 1;
        while i < n
            invariant
                n == events@.len(),
                n >= 1,
                n - 1 <= i <= n || (n == 1 && i == 1),
                segments@.len() == i - 1,
                forall|k: int|
                    0 <= k < i - 1 ==> #[trigger] segments@[k] == segment_between(
                        events@[k],
                        events@[k + 1],
                        width,
                        FlatCurve,
                    ),
            decreases n - i,
        {
            segments.push(segment_of(events[i - 1], events[i], width, &curve));
            i += 1;
        }
        assert(segments@ =~= stroke_segments_spec(events@, width, FlatCurve));
        *self = ActiveStroke { events, todo: n - 1, segments, width };
    }

    /// The samples recorded so far.
    pub fn events(&self) -> (events: &Vec<PenEvent>)
        ensures
            events@ == self@.events,
    {
        &self.events
    }

    /// The chain of segments so far.
    pub fn get_fragment(&self) -> (chain: &Vec<StrokeSegment>)
        ensures
            chain@ == self@.segments,
            chain@ == stroke_segments_spec(self@.events, self@.width, FlatCurve),
    {
        proof {
            use_type_invariant(self);
        }
        &self.segments
    }
}

} // verus!
