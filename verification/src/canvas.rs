//! The canvas: one layer store and at most one stroke in progress.
//!
//! A stroke starts by reserving a layer. Every move records a sample and,
//! from the second sample on, replaces the reserved layer's geometry with the
//! outline of the samples so far. Ending the stroke stores the outline once
//! more and discards the samples. A stroke that ends with fewer than two
//! samples leaves its layer empty.

use vstd::prelude::*;
use crate::geometry::Point;
use crate::geometry::Vertex;
use crate::pen::PenEvent;
use crate::pen::FlatCurve;
use crate::stroke::StrokeInProgress;
use crate::stroke::recorded_event;
use crate::stroke::pressures_clamped;
use crate::outline::OutlinePolygon;
use crate::outline::StrokeData;
use crate::outline::outline;
use crate::outline::stroke_points;
use crate::outline::stroke_data_to_path;
use crate::outline::lemma_moving_stroke_has_outline;
use crate::simplify::simplified;
use crate::simplify::clean_stroke;
use crate::layers::LayerStore;
use crate::layers::LayerError;
use crate::layers::MAX_ORDER;
use crate::layers::next_key;
use crate::layers::reserved;
use crate::layers::replaced;
use crate::layers::keys_ordered;

verus! {

/// What the pointer reports to the canvas.
#[derive(Clone, Copy, Debug, PartialEq, Eq, Structural)]
pub enum StrokeInput {
    /// The pointer went down.
    StrokeStart,
    /// The pointer moved to a position, with a raw pressure reading.
    StrokeMove(Point, i64),
    /// The pointer went up.
    StrokeEnd,
}

/// The canvas as contracts see it.
pub struct CanvasView {
    /// Key and geometry of each layer, in draw order.
    pub layers: Seq<(u32, Seq<Vertex>)>,
    /// The samples of the stroke in progress, if there is one.
    pub active: Option<Seq<PenEvent>>,
    pub stroke_width: u32,
    pub simplify: bool,
}

/// The geometry a canvas draws for samples: the outline of their stroke
/// points under the identity pressure curve, thinned first if the canvas
/// simplifies.
pub open spec fn stroke_geometry(events: Seq<PenEvent>, width: u32, simplify: bool) -> Seq<Vertex> {
    let points = stroke_points(events, width, FlatCurve);
    if simplify {
        outline(simplified(points))
    } else {
        outline(points)
    }
}

impl CanvasView {
    /// A stroke in progress has a layer to draw into, and no sample of it
    /// has more than full pressure.
    pub open spec fn wf(self) -> bool {
        &&& keys_ordered(self.layers)
        &&& self.active is Some ==> self.layers.len() > 0 && pressures_clamped(self.active->0)
    }

    /// The key of the layer that the stroke in progress draws into.
    pub open spec fn active_key(self) -> u32 {
        (next_key(self.layers) - 1) as u32
    }

    /// The layers once the reserved layer shows the given samples.
    pub open spec fn drawn(self, events: Seq<PenEvent>) -> Seq<(u32, Seq<Vertex>)> {
        if events.len() >= 2 {
            replaced(
                self.layers,
                self.active_key(),
                stroke_geometry(events, self.stroke_width, self.simplify),
            )
        } else {
            self.layers
        }
    }

    /// The canvas after a stroke starts. Where no key is left the canvas
    /// stays as it is.
    pub open spec fn start(self) -> CanvasView {
        if next_key(self.layers) <= MAX_ORDER {
            CanvasView {
                layers: reserved(self.layers),
                active: Some(Seq::empty()),
                stroke_width: self.stroke_width,
                simplify: self.simplify,
            }
        } else {
            self
        }
    }

    /// The canvas after the pointer moves. Without a stroke in progress the
    /// canvas stays as it is.
    pub open spec fn moved(self, point: Point, pressure: i64) -> CanvasView {
        match self.active {
            None => self,
            Some(events) => {
                let grown = events.push(recorded_event(point, pressure));
                CanvasView {
                    layers: self.drawn(grown),
                    active: Some(grown),
                    stroke_width: self.stroke_width,
                    simplify: self.simplify,
                }
            },
        }
    }

    /// The canvas after the stroke ends. Without a stroke in progress the
    /// canvas stays as it is.
    pub open spec fn ended(self) -> CanvasView {
        match self.active {
            None => self,
            Some(events) => CanvasView {
                layers: self.drawn(events),
                active: None,
                stroke_width: self.stroke_width,
                simplify: self.simplify,
            },
        }
    }

    /// The canvas after the pointer moves through the given readings, each a
    /// position and a raw pressure, one after the other.
    pub open spec fn moved_all(self, readings: Seq<(Point, i64)>) -> CanvasView
        decreases readings.len(),
    {
        if readings.len() == 0 {
            self
        } else {
            self.moved_all(readings.drop_last()).moved(readings.last().0, readings.last().1)
        }
    }

    /// The canvas after one input.
    pub open spec fn step(self, input: StrokeInput) -> CanvasView {
        match input {
            StrokeInput::StrokeStart => self.start(),
            StrokeInput::StrokeMove(point, pressure) => self.moved(point, pressure),
            StrokeInput::StrokeEnd => self.ended(),
        }
    }
}

/// No input removes a layer or changes a key; only a start adds a layer, and
/// it adds one; moving and ending touch no layer but the one reserved last.
pub proof fn lemma_step_keeps_layers(c: CanvasView, input: StrokeInput)
    requires
        c.wf(),
    ensures
        c.step(input).wf(),
        c.step(input).layers.len() == c.layers.len() + if input == StrokeInput::StrokeStart
            && next_key(c.layers) <= MAX_ORDER {
            1int
        } else {
            0int
        },
        forall|i: int|
            0 <= i < c.layers.len() ==> (#[trigger] c.step(input).layers[i]).0 == c.layers[i].0,
        forall|i: int|
            0 <= i < c.layers.len() - 1 ==> (#[trigger] c.step(input).layers[i]) == c.layers[i],
{
}

/// The samples that a sampler stores for a sequence of readings.
pub open spec fn recorded(readings: Seq<(Point, i64)>) -> Seq<PenEvent> {
    Seq::new(readings.len(), |i: int| recorded_event(readings[i].0, readings[i].1))
}

/// While a stroke is drawn, its samples are the readings as recorded, and
/// only its own layer changes: from the second sample on it shows the
/// geometry of all samples so far.
pub proof fn lemma_moves_draw_one_layer(c: CanvasView, readings: Seq<(Point, i64)>)
    requires
        c.wf(),
        c.active == Some(Seq::<PenEvent>::empty()),
    ensures
        ({
            let m = c.moved_all(readings);
            &&& m.wf()
            &&& m.active == Some(recorded(readings))
            &&& m.stroke_width == c.stroke_width
            &&& m.simplify == c.simplify
            &&& m.layers == c.drawn(recorded(readings))
        }),
    decreases readings.len(),
{
    if readings.len() == 0 {
        assert(recorded(readings) =~= Seq::<PenEvent>::empty());
    } else {
        let init = readings.drop_last();
        lemma_moves_draw_one_layer(c, init);
        let before = c.moved_all(init);
        let m = c.moved_all(readings);
        let grown = recorded(init).push(recorded_event(readings.last().0, readings.last().1));
        assert(grown =~= recorded(readings));
        assert(before.active_key() == c.active_key());
        assert(m.layers =~= c.drawn(recorded(readings)));
    }
}

/// A stroke, from its start through any number of readings to its end, takes
/// exactly one layer: the one reserved at its start, under the next key.
/// Every older layer stays as it was. The new layer holds the geometry of
/// the recorded samples where there are two or more, and nothing else.
pub proof fn lemma_whole_stroke(c: CanvasView, readings: Seq<(Point, i64)>)
    requires
        c.wf(),
        next_key(c.layers) <= MAX_ORDER,
    ensures
        ({
            let after = c.start().moved_all(readings).ended();
            &&& after.wf()
            &&& after.active is None
            &&& after.layers.len() == c.layers.len() + 1
            &&& forall|i: int| 0 <= i < c.layers.len() ==> (#[trigger] after.layers[i]) == c.layers[i]
            &&& after.layers.last() == (
                next_key(c.layers) as u32,
                if readings.len() >= 2 {
                    stroke_geometry(recorded(readings), c.stroke_width, c.simplify)
                } else {
                    Seq::<Vertex>::empty()
                },
            )
        }),
{
    let started = c.start();
    lemma_moves_draw_one_layer(started, readings);
    let m = started.moved_all(readings);
    assert(m.active_key() == started.active_key());
    if readings.len() >= 2 {
        assert(m.drawn(recorded(readings)) =~= m.layers);
    }
}

/// A stroke that ends after a single sample leaves its reserved layer empty,
/// and ending it changes no layer.
pub proof fn lemma_single_sample_stroke_stays_empty(c: CanvasView, point: Point, pressure: i64)
    requires
        c.wf(),
        next_key(c.layers) <= MAX_ORDER,
    ensures
        ({
            let before_end = c.start().moved(point, pressure);
            let after = before_end.ended();
            &&& after.wf()
            &&& after.active is None
            &&& after.layers == before_end.layers
            &&& after.layers == reserved(c.layers)
            &&& after.layers.len() == c.layers.len() + 1
            &&& after.layers.last() == (next_key(c.layers) as u32, Seq::<Vertex>::empty())
        }),
{
}

/// Ending a stroke stores what the last move already showed: the layers do
/// not change, and none is added.
pub proof fn lemma_end_repeats_last_move(c: CanvasView, point: Point, pressure: i64)
    requires
        c.wf(),
    ensures
        c.moved(point, pressure).ended().layers == c.moved(point, pressure).layers,
{
    match c.active {
        None => {},
        Some(events) => {
            let grown = events.push(recorded_event(point, pressure));
            let m = c.moved(point, pressure);
            assert(m.active_key() == c.active_key());
            if grown.len() >= 2 {
                assert(m.drawn(grown) =~= m.layers);
            }
        },
    }
}

/// A stroke of three samples takes exactly one layer, the one reserved when
/// it started, and every older layer stays as it was. The layer holds the
/// outline of the three samples. Where the canvas does not simplify and the
/// pointer moved between two of the samples, that outline is not empty.
pub proof fn lemma_stroke_takes_one_layer(
    c: CanvasView,
    a: (Point, i64),
    b: (Point, i64),
    d: (Point, i64),
)
    requires
        c.wf(),
        next_key(c.layers) <= MAX_ORDER,
    ensures
        ({
            let after = c.start().moved(a.0, a.1).moved(b.0, b.1).moved(d.0, d.1).ended();
            let events = seq![
                recorded_event(a.0, a.1),
                recorded_event(b.0, b.1),
                recorded_event(d.0, d.1),
            ];
            &&& after.wf()
            &&& after.active is None
            &&& after.layers.len() == c.layers.len() + 1
            &&& forall|i: int| 0 <= i < c.layers.len() ==> (#[trigger] after.layers[i]) == c.layers[i]
            &&& after.layers.last() == (
                next_key(c.layers) as u32,
                stroke_geometry(events, c.stroke_width, c.simplify),
            )
            &&& !c.simplify && (a.0 != b.0 || b.0 != d.0) ==> after.layers.last().1.len() >= 4
        }),
{
    let c0 = c.start();
    let c1 = c0.moved(a.0, a.1);
    let c2 = c1.moved(b.0, b.1);
    let c3 = c2.moved(d.0, d.1);
    let after = c3.ended();
    let ea = recorded_event(a.0, a.1);
    let eb = recorded_event(b.0, b.1);
    let ed = recorded_event(d.0, d.1);
    let events = seq![ea, eb, ed];
    assert(c1.active == Some(seq![ea])) by {
        assert(Seq::<PenEvent>::empty().push(ea) =~= seq![ea]);
    }
    assert(c2.active == Some(seq![ea, eb])) by {
        assert(seq![ea].push(eb) =~= seq![ea, eb]);
    }
    assert(c3.active == Some(events)) by {
        assert(seq![ea, eb].push(ed) =~= events);
    }
    assert(c1.layers == c0.layers);
    assert(c2.active_key() == c0.active_key());
    assert(c3.active_key() == c0.active_key());
    assert(after.layers.len() == c.layers.len() + 1);
    if !c.simplify && (a.0 != b.0 || b.0 != d.0) {
        let points = stroke_points(events, c.stroke_width, FlatCurve);
        if a.0 != b.0 {
            lemma_moving_stroke_has_outline(points, 1);
        } else {
            lemma_moving_stroke_has_outline(points, 2);
        }
    }
}

/// A canvas. A stroke in progress always has its layer in the store.
pub struct Canvas {
    store: LayerStore,
    current_stroke: Option<StrokeInProgress>,
    /// The full width of a stroke at full pressure, in grid units.
    stroke_width: u32,
    /// Whether strokes are thinned before their outline is built.
    simplify: bool,
}

impl View for Canvas {
    type V = CanvasView;

    closed spec fn view(&self) -> CanvasView {
        CanvasView {
            layers: self.store@,
            active: samples_view(self.current_stroke),
            stroke_width: self.stroke_width,
            simplify: self.simplify,
        }
    }
}

/// The geometry a canvas draws for the given samples.
pub fn stroke_outline(events: &Vec<PenEvent>, width: u32, simplify: bool) -> (poly: OutlinePolygon)
    ensures
        poly@ == stroke_geometry(events@, width, simplify),
{
    let curve = FlatCurve;
    let data = StrokeData::from_events(events, width, &curve);
    if simplify {
        let cleaned = clean_stroke(data);
        stroke_data_to_path(&cleaned)
    } else {
        stroke_data_to_path(&data)
    }
}

/// The samples of a stroke in progress, if there is one.
pub open spec fn samples_view(stroke: Option<StrokeInProgress>) -> Option<Seq<PenEvent>> {
    match stroke {
        Some(stroke) => Some(stroke@),
        None => None,
    }
}

impl Canvas {
    /// What holds of every canvas.
    #[verifier::type_invariant]
    pub open spec fn sound(&self) -> bool {
        self@.wf()
    }

    /// An empty canvas that draws strokes `stroke_width` grid units wide at
    /// full pressure.
    pub fn new(stroke_width: u32, simplify: bool) -> (canvas: Self)
        ensures
            canvas@ == (CanvasView {
                layers: Seq::empty(),
                active: None,
                stroke_width,
                simplify,
            }),
    {
        Canvas { store: LayerStore::new(), current_stroke: None, stroke_width, simplify }
    }

    /// Takes the store and the stroke in progress out of the canvas, which is
    /// left empty.
    fn take_parts(&mut self) -> (parts: (LayerStore, Option<StrokeInProgress>))
        ensures
            old(self)@.wf(),
            parts.0@ == old(self)@.layers,
            samples_view(parts.1) == old(self)@.active,
            final(self)@ == (CanvasView {
                layers: Seq::empty(),
                active: None,
                stroke_width: old(self)@.stroke_width,
                simplify: old(self)@.simplify,
            }),
    {
        proof {
            use_type_invariant(&*self);
        }
        let mut taken = Canvas::new(self.stroke_width, self.simplify);
        core::mem::swap(self, &mut taken);
        let Canvas { store, current_stroke, stroke_width: _, simplify: _ } = taken;
        (store, current_stroke)
    }

    /// Puts a store and a stroke in progress into the canvas.
    fn put_parts(&mut self, store: LayerStore, current_stroke: Option<StrokeInProgress>)
        requires
            current_stroke is Some ==> store@.len() > 0,
        ensures
            final(self)@.wf(),
            final(self)@ == (CanvasView {
                layers: store@,
                active: samples_view(current_stroke),
                stroke_width: old(self)@.stroke_width,
                simplify: old(self)@.simplify,
            }),
    {
        proof {
            use_type_invariant(&store);
        }
        match &current_stroke {
            Some(stroke) => {
                proof {
                    use_type_invariant(stroke);
                }
            },
            None => {},
        }
        *self = Canvas {
            store,
            current_stroke,
            stroke_width: self.stroke_width,
            simplify: self.simplify,
        };
    }

    /// The layers of the canvas.
    pub fn store(&self) -> (store: &LayerStore)
        ensures
            store@ == self@.layers,
            self@.wf(),
    {
        proof {
            use_type_invariant(self);
        }
        &self.store
    }

    /// The samples of the stroke in progress, if there is one.
    pub fn samples(&self) -> (events: Option<&Vec<PenEvent>>)
        ensures
            self@.wf(),
            match events {
                Some(events) => self@.active == Some(events@),
                None => self@.active is None,
            },
    {
        proof {
            use_type_invariant(self);
        }
        match &self.current_stroke {
            Some(stroke) => Some(stroke.events()),
            None => None,
        }
    }

    /// The full width of a stroke at full pressure, in grid units.
    pub fn stroke_width(&self) -> (width: u32)
        ensures
            width == self@.stroke_width,
    {
        self.stroke_width
    }

    /// Whether strokes are thinned before their outline is built.
    pub fn simplifies(&self) -> (simplify: bool)
        ensures
            simplify == self@.simplify,
    {
        self.simplify
    }

    /// Reserves the next order key, with an empty layer under it.
    pub fn next_order(&mut self) -> (r: Result<u32, LayerError>)
        ensures
            old(self)@.wf(),
            final(self)@.wf(),
            final(self)@.active == old(self)@.active,
            final(self)@.stroke_width == old(self)@.stroke_width,
            final(self)@.simplify == old(self)@.simplify,
            match r {
                Ok(key) => {
                    &&& next_key(old(self)@.layers) <= MAX_ORDER
                    &&& key == next_key(old(self)@.layers)
                    &&& final(self)@.layers == reserved(old(self)@.layers)
                },
                Err(e) => {
                    &&& next_key(old(self)@.layers) > MAX_ORDER
                    &&& e == LayerError::ExceededLayerLimit
                    &&& final(self)@.layers == old(self)@.layers
                },
            },
    {
        let (mut store, current_stroke) = self.take_parts();
        let r = store.reserve_next();
        self.put_parts(store, current_stroke);
        r
    }

    /// Starts a stroke: reserves its layer and opens an empty sample buffer.
    /// A stroke that was in progress is dropped as it stands. Fails, and
    /// changes nothing, where no key is left.
    pub fn start_stroke(&mut self) -> (r: Result<u32, LayerError>)
        ensures
            old(self)@.wf(),
            final(self)@.wf(),
            final(self)@ == old(self)@.start(),
            match r {
                Ok(key) => next_key(old(self)@.layers) <= MAX_ORDER && key == next_key(
                    old(self)@.layers,
                ),
                Err(e) => next_key(old(self)@.layers) > MAX_ORDER && e
                    == LayerError::ExceededLayerLimit,
            },
    {
        let (mut store, current_stroke) = self.take_parts();
        match store.reserve_next() {
            Ok(key) => {
                self.put_parts(store, Some(StrokeInProgress::new()));
                Ok(key)
            },
            Err(e) => {
                self.put_parts(store, current_stroke);
                Err(e)
            },
        }
    }

    /// Records a sample of the stroke in progress and redraws its layer.
    pub fn move_stroke(&mut self, point: Point, pressure: i64)
        ensures
            old(self)@.wf(),
            final(self)@.wf(),
            final(self)@ == old(self)@.moved(point, pressure),
    {
        let (mut store, current_stroke) = self.take_parts();
        match current_stroke {
            None => {
                self.put_parts(store, None);
            },
            Some(mut progress) => {
                progress.move_to(point, pressure);
                if progress.len() >= 2 {
                    let geometry = stroke_outline(progress.events(), self.stroke_width, self.simplify);
                    match store.last_key() {
                        Some(key) => {
                            let _ = store.replace(key, geometry);
                        },
                        None => {},
                    }
                }
                self.put_parts(store, Some(progress));
            },
        }
    }

    /// Ends the stroke in progress: draws its layer a last time and discards
    /// the samples.
    pub fn end_stroke(&mut self)
        ensures
            old(self)@.wf(),
            final(self)@.wf(),
            final(self)@ == old(self)@.ended(),
    {
        let (mut store, current_stroke) = self.take_parts();
        match current_stroke {
            None => {},
            Some(progress) => {
                if progress.len() >= 2 {
                    let events = progress.finish();
                    let geometry = stroke_outline(&events, self.stroke_width, self.simplify);
                    match store.last_key() {
                        Some(key) => {
                            let _ = store.replace(key, geometry);
                        },
                        None => {},
                    }
                }
            },
        }
        self.put_parts(store, None);
    }

    /// Applies one input. Only a start can fail.
    pub fn handle(&mut self, input: StrokeInput) -> (r: Result<(), LayerError>)
        ensures
            old(self)@.wf(),
            final(self)@.wf(),
            final(self)@ == old(self)@.step(input),
            match r {
                Ok(_) => !(input == StrokeInput::StrokeStart && next_key(old(self)@.layers)
                    > MAX_ORDER),
                Err(e) => input == StrokeInput::StrokeStart && next_key(old(self)@.layers)
                    > MAX_ORDER && e == LayerError::ExceededLayerLimit,
            },
    {
        match input {
            StrokeInput::StrokeStart => match self.start_stroke() {
                Ok(_) => Ok(()),
                Err(e) => Err(e),
            },
            StrokeInput::StrokeMove(point, pressure) => {
                self.move_stroke(point, pressure);
                Ok(())
            },
            StrokeInput::StrokeEnd => {
                self.end_stroke();
                Ok(())
            },
        }
    }
}

} // verus!
