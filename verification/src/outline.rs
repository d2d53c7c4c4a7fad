//! Outline synthesis: from the points of a stroke to one closed ribbon.
//!
//! A stroke point carries a position and a half-width. Points that repeat the
//! position of their predecessor are dropped. Each remaining point gives two
//! vertices, one on either edge of the ribbon. The left edge is walked from
//! the first point to the last, the right edge from the last back to the
//! first; at each point the edge is offset perpendicular to the segment that
//! the walk has just come along (for the point a walk starts from: the
//! segment it is about to take).

use vstd::prelude::*;
use crate::geometry::Point;
use crate::geometry::Vertex;
use crate::geometry::MAX_THICKNESS;
use crate::geometry::perp_offset;
use crate::geometry::perp_offset_spec;
use crate::geometry::lemma_perp_offset_bound;
use crate::geometry::lemma_perp_offset_norm;
use crate::geometry::lemma_axis_aligned_offset;
use crate::geometry::left_vertex;
use crate::geometry::left_vertex_spec;
use crate::geometry::right_vertex;
use crate::geometry::right_vertex_spec;
use crate::pen::PenEvent;
use crate::pen::PressureCurve;
use crate::pen::half_width;
use crate::pen::half_width_spec;

verus! {

/// A stroke sample reduced to what the geometry reads: where it is and how
/// far the ribbon reaches to either side of it.
#[derive(Clone, Copy, Debug, PartialEq, Eq, Structural)]
pub struct StrokePoint {
    pub pos: Point,
    pub thickness: u64,
}

/// The points of one stroke, in the order they were drawn. No half-width of
/// a stroke is above `MAX_THICKNESS`.
#[derive(Debug)]
pub struct StrokeData {
    points: Vec<StrokePoint>,
}

impl View for StrokeData {
    type V = Seq<StrokePoint>;

    closed spec fn view(&self) -> Seq<StrokePoint> {
        self.points@
    }
}

/// A closed polygon: the last vertex connects back to the first.
#[derive(Debug)]
pub struct OutlinePolygon {
    pub vertices: Vec<Vertex>,
}

impl View for OutlinePolygon {
    type V = Seq<Vertex>;

    open spec fn view(&self) -> Seq<Vertex> {
        self.vertices@
    }
}

/// Every half-width is within what the outline arithmetic accepts.
pub open spec fn thickness_bounded(s: Seq<StrokePoint>) -> bool {
    forall|i: int| 0 <= i < s.len() ==> (#[trigger] s[i]).thickness <= MAX_THICKNESS
}

/// No point has the position of its predecessor.
pub open spec fn consecutive_distinct(s: Seq<StrokePoint>) -> bool {
    forall|i: int| 0 < i < s.len() ==> (#[trigger] s[i]).pos != s[i - 1].pos
}

/// The stroke point of a sample: its position, with the half-width that
/// `width` and the curve give its pressure.
pub open spec fn stroke_point<C: PressureCurve>(event: PenEvent, width: u32, curve: C) -> StrokePoint {
    StrokePoint {
        pos: event.pos,
        thickness: half_width_spec(width, curve.multiplier(event.pressure)) as u64,
    }
}

/// The stroke points of a sequence of samples, one for each.
pub open spec fn stroke_points<C: PressureCurve>(
    events: Seq<PenEvent>,
    width: u32,
    curve: C,
) -> Seq<StrokePoint> {
    Seq::new(events.len(), |i: int| stroke_point(events[i], width, curve))
}

/// The quadrilateral round a single segment: both edges offset perpendicular
/// to the segment, each end by its own half-width. Nothing where the two ends
/// share a position.
pub open spec fn segment_quad(a: StrokePoint, b: StrokePoint) -> Seq<Vertex> {
    if a.pos == b.pos {
        Seq::empty()
    } else {
        seq![
            left_vertex_spec(a.pos, perp_offset_spec(a.pos, b.pos, a.thickness as nat)),
            right_vertex_spec(a.pos, perp_offset_spec(a.pos, b.pos, a.thickness as nat)),
            right_vertex_spec(b.pos, perp_offset_spec(a.pos, b.pos, b.thickness as nat)),
            left_vertex_spec(b.pos, perp_offset_spec(a.pos, b.pos, b.thickness as nat)),
        ]
    }
}

/// The points that take part in the outline: the first point, and every later
/// point whose position differs from that of the point just before it.
pub open spec fn retained(s: Seq<StrokePoint>) -> Seq<StrokePoint>
    decreases s.len(),
{
    if s.len() <= 1 {
        s
    } else if s[s.len() - 1].pos == s[s.len() - 2].pos {
        retained(s.drop_last())
    } else {
        retained(s.drop_last()).push(s.last())
    }
}

/// The vertex that point `i` contributes to the left edge.
pub open spec fn forward_vertex(r: Seq<StrokePoint>, i: int) -> Vertex {
    let from = if i == 0 { r[0].pos } else { r[i - 1].pos };
    let to = if i == 0 { r[1].pos } else { r[i].pos };
    left_vertex_spec(r[i].pos, perp_offset_spec(from, to, r[i].thickness as nat))
}

/// The vertex that point `i` contributes to the right edge.
pub open spec fn backward_vertex(r: Seq<StrokePoint>, i: int) -> Vertex {
    let from = if i == r.len() - 1 { r[r.len() - 2].pos } else { r[i].pos };
    let to = if i == r.len() - 1 { r[r.len() - 1].pos } else { r[i + 1].pos };
    right_vertex_spec(r[i].pos, perp_offset_spec(from, to, r[i].thickness as nat))
}

/// The ribbon round points with distinct consecutive positions: the left edge
/// from first to last, then the right edge from last to first.
pub open spec fn ribbon(r: Seq<StrokePoint>) -> Seq<Vertex> {
    Seq::new(
        2 * r.len(),
        |k: int|
            if k < r.len() {
                forward_vertex(r, k)
            } else {
                backward_vertex(r, 2 * r.len() - 1 - k)
            },
    )
}

/// The outline of a stroke: the ribbon round its retained points, or nothing
/// where fewer than two are retained.
pub open spec fn outline(s: Seq<StrokePoint>) -> Seq<Vertex> {
    let r = retained(s);
    if r.len() < 2 {
        Seq::empty()
    } else {
        ribbon(r)
    }
}

/// What retaining keeps: the first point, the position of the last, no more
/// points than there were, none with the position of its predecessor, and no
/// half-width that was not there.
pub proof fn lemma_retained(s: Seq<StrokePoint>)
    ensures
        retained(s).len() <= s.len(),
        s.len() > 0 ==> retained(s).len() > 0 && retained(s)[0] == s[0] && retained(s).last().pos
            == s.last().pos,
        consecutive_distinct(retained(s)),
        thickness_bounded(s) ==> thickness_bounded(retained(s)),
    decreases s.len(),
{
    if s.len() > 1 {
        lemma_retained(s.drop_last());
    }
}

/// A stroke whose consecutive positions all differ keeps every point, and its
/// outline has two vertices for each of them.
pub proof fn lemma_distinct_stroke_keeps_all(s: Seq<StrokePoint>)
    requires
        consecutive_distinct(s),
    ensures
        retained(s) == s,
        s.len() >= 2 ==> outline(s).len() == 2 * s.len(),
    decreases s.len(),
{
    if s.len() > 1 {
        lemma_distinct_stroke_keeps_all(s.drop_last());
        assert(s.drop_last().push(s.last()) =~= s);
    }
}

/// A stroke that moves at all keeps two points at least, and so has an
/// outline.
pub proof fn lemma_moving_stroke_has_outline(s: Seq<StrokePoint>, i: int)
    requires
        0 < i < s.len(),
        s[i].pos != s[i - 1].pos,
    ensures
        retained(s).len() >= 2,
        outline(s).len() >= 4,
    decreases s.len(),
{
    lemma_retained(s.drop_last());
    if i < s.len() - 1 {
        lemma_moving_stroke_has_outline(s.drop_last(), i);
    }
}

/// A point that repeats the position of its predecessor leaves no trace: the
/// outline is that of the stroke without it.
pub proof fn lemma_repeated_point_absent(s: Seq<StrokePoint>, i: int)
    requires
        0 < i < s.len(),
        s[i].pos == s[i - 1].pos,
    ensures
        retained(s) == retained(s.remove(i)),
        outline(s) == outline(s.remove(i)),
    decreases s.len(),
{
    let t = s.remove(i);
    if i == s.len() - 1 {
        assert(t =~= s.drop_last());
    } else {
        assert(t.drop_last() =~= s.drop_last().remove(i));
        lemma_repeated_point_absent(s.drop_last(), i);
        assert(t.last() == s.last());
        if t.len() <= 1 {
            assert(retained(s.drop_last()) == retained(t.drop_last()));
        }
    }
}

/// The quadrilateral round a segment is the outline of the stroke made of its
/// two ends, walked the other way round.
pub proof fn lemma_segment_quad_is_outline(a: StrokePoint, b: StrokePoint)
    ensures
        segment_quad(a, b).len() == outline(seq![a, b]).len(),
        forall|k: int|
            0 <= k < segment_quad(a, b).len() ==> #[trigger] segment_quad(a, b)[k] == outline(
                seq![a, b],
            )[(4 - k) % 4],
{
    let s = seq![a, b];
    assert(s.drop_last() =~= seq![a]);
    assert(retained(seq![a]) == seq![a]);
    if a.pos == b.pos {
        assert(retained(s) == seq![a]);
    } else {
        assert(retained(s) =~= s);
    }
}

/// Every vertex of a ribbon lies within the half-width of the point it
/// belongs to.
pub proof fn lemma_ribbon_near_points(r: Seq<StrokePoint>, k: int)
    requires
        r.len() >= 2,
        consecutive_distinct(r),
        thickness_bounded(r),
        0 <= k < 2 * r.len(),
    ensures
        ({
            let v = ribbon(r)[k];
            let p = if k < r.len() { r[k] } else { r[2 * r.len() - 1 - k] };
            &&& p.pos.x - p.thickness <= v.x <= p.pos.x + p.thickness
            &&& p.pos.y - p.thickness <= v.y <= p.pos.y + p.thickness
            &&& (v.x - p.pos.x) * (v.x - p.pos.x) + (v.y - p.pos.y) * (v.y - p.pos.y)
                <= p.thickness * p.thickness
        }),
{
    let n = r.len() as int;
    let i = if k < n { k } else { 2 * n - 1 - k };
    let from = if k < n {
        if k == 0 { r[0].pos } else { r[k - 1].pos }
    } else {
        if i == n - 1 { r[n - 2].pos } else { r[i].pos }
    };
    let to = if k < n {
        if k == 0 { r[1].pos } else { r[k].pos }
    } else {
        if i == n - 1 { r[n - 1].pos } else { r[i + 1].pos }
    };
    assert(r[1].pos != r[0].pos);
    assert(r[n - 1].pos != r[n - 2].pos);
    assert(0 < i ==> r[i].pos != r[i - 1].pos);
    assert(i < n - 1 ==> r[i + 1].pos != r[i].pos);
    assert(r[i].thickness <= MAX_THICKNESS);
    lemma_perp_offset_bound(from, to, r[i].thickness as nat);
    lemma_perp_offset_norm(from, to, r[i].thickness as nat);
    let off = perp_offset_spec(from, to, r[i].thickness as nat);
    assert((-off.0) * (-off.0) == off.0 * off.0 && (-off.1) * (-off.1) == off.1 * off.1)
        by (nonlinear_arith);
    let v = ribbon(r)[k];
    if k < n {
        assert(v.x - r[i].pos.x == -off.0);
        assert(v.y - r[i].pos.y == -off.1);
    } else {
        assert(v.x - r[i].pos.x == off.0);
        assert(v.y - r[i].pos.y == off.1);
    }
}

/// The outline of a stroke of two points side by side, drawn left to right,
/// is the trapezium that reaches each point's half-width above and below it.
pub proof fn lemma_horizontal_stroke_outline(a: StrokePoint, b: StrokePoint)
    requires
        a.pos.y == b.pos.y,
        a.pos.x < b.pos.x,
        a.thickness <= MAX_THICKNESS,
        b.thickness <= MAX_THICKNESS,
    ensures
        outline(seq![a, b]) == seq![
            Vertex { x: a.pos.x as i64, y: (a.pos.y + a.thickness) as i64 },
            Vertex { x: b.pos.x as i64, y: (b.pos.y + b.thickness) as i64 },
            Vertex { x: b.pos.x as i64, y: (b.pos.y - b.thickness) as i64 },
            Vertex { x: a.pos.x as i64, y: (a.pos.y - a.thickness) as i64 },
        ],
{
    let s = seq![a, b];
    assert(s.drop_last() =~= seq![a]);
    assert(retained(seq![a]) == seq![a]);
    assert(retained(s) =~= s);
    lemma_axis_aligned_offset(a.pos, b.pos, a.thickness as nat);
    lemma_axis_aligned_offset(a.pos, b.pos, b.thickness as nat);
    assert(outline(s) =~= seq![
        Vertex { x: a.pos.x as i64, y: (a.pos.y + a.thickness) as i64 },
        Vertex { x: b.pos.x as i64, y: (b.pos.y + b.thickness) as i64 },
        Vertex { x: b.pos.x as i64, y: (b.pos.y - b.thickness) as i64 },
        Vertex { x: a.pos.x as i64, y: (a.pos.y - a.thickness) as i64 },
    ]);
}

impl StrokeData {
    /// What holds of every stroke.
    #[verifier::type_invariant]
    pub open spec fn bounded(&self) -> bool {
        thickness_bounded(self@)
    }

    /// The stroke points of recorded samples under a base width and a
    /// pressure curve.
    pub fn from_events<C: PressureCurve>(events: &Vec<PenEvent>, width: u32, curve: &C) -> (data:
        StrokeData)
        ensures
            data@ == stroke_points(events@, width, *curve),
    {
        let mut points: Vec<StrokePoint> = Vec::new();
        let mut i: usize = 0;
        while i < events.len()
            invariant
                i <= events.len(),
                points@.len() == i,
                thickness_bounded(points@),
                forall|k: int|
                    0 <= k < i ==> points@[k] == stroke_points(events@, width, *curve)[k],
            decreases events.len() - i,
        {
            points.push(stroke_point_of(events[i], width, curve));
            i += 1;
        }
        assert(points@ =~= stroke_points(events@, width, *curve));
        StrokeData { points }
    }

    /// A stroke of the given points, where none is thicker than
    /// `MAX_THICKNESS`.
    pub fn from_points(points: Vec<StrokePoint>) -> (data: Option<StrokeData>)
        ensures
            match data {
                Some(data) => thickness_bounded(points@) && data@ == points@,
                None => !thickness_bounded(points@),
            },
    {
        let mut i: usize = 0;
        while i < points.len()
            invariant
                i <= points.len(),
                forall|k: int| 0 <= k < i ==> (#[trigger] points@[k]).thickness <= MAX_THICKNESS,
            decreases points.len() - i,
        {
            if points[i].thickness > MAX_THICKNESS {
                return None;
            }
            i += 1;
        }
        Some(StrokeData { points })
    }

    /// A stroke of points that are known to be thin enough.
    pub(crate) fn from_bounded(points: Vec<StrokePoint>) -> (data: StrokeData)
        requires
            thickness_bounded(points@),
        ensures
            data@ == points@,
    {
        StrokeData { points }
    }

    /// The points of the stroke.
    pub fn points(&self) -> (points: &Vec<StrokePoint>)
        ensures
            points@ == self@,
            thickness_bounded(self@),
    {
        proof {
            use_type_invariant(self);
        }
        &self.points
    }

    /// Gives the points of the stroke up.
    pub fn into_points(self) -> (points: Vec<StrokePoint>)
        ensures
            points@ == self@,
            thickness_bounded(self@),
    {
        proof {
            use_type_invariant(&self);
        }
        let StrokeData { points } = self;
        points
    }

    /// The two end points of segment `i`.
    pub fn segment(&self, i: usize) -> (ends: [StrokePoint; 2])
        requires
            i + 1 < self@.len(),
        ensures
            ends[0] == self@[i as int],
            ends[1] == self@[i + 1],
    {
        let n: usize = self.points.len();
        assert(i + 1 < n);
        [self.points[i], self.points[i + 1]]
    }
}

/// The stroke point of one sample.
pub fn stroke_point_of<C: PressureCurve>(event: PenEvent, width: u32, curve: &C) -> (point: StrokePoint)
    ensures
        point == stroke_point(event, width, *curve),
        point.thickness <= MAX_THICKNESS,
{
    let m: u32 = curve.width_multiplier(event.pressure);
    StrokePoint { pos: event.pos, thickness: half_width(width, m) }
}

/// The quadrilateral round the segment between two samples.
pub fn segment_to_path<C: PressureCurve>(segment: [PenEvent; 2], width: u32, curve: &C) -> (poly:
    OutlinePolygon)
    ensures
        poly@ == segment_quad(
            stroke_point(segment[0], width, *curve),
            stroke_point(segment[1], width, *curve),
        ),
{
    let a = stroke_point_of(segment[0], width, curve);
    let b = stroke_point_of(segment[1], width, curve);
    let mut vertices: Vec<Vertex> = Vec::new();
    if a.pos != b.pos {
        let off_a = perp_offset(a.pos, b.pos, a.thickness);
        let off_b = perp_offset(a.pos, b.pos, b.thickness);
        vertices.push(left_vertex(a.pos, off_a));
        vertices.push(right_vertex(a.pos, off_a));
        vertices.push(right_vertex(b.pos, off_b));
        vertices.push(left_vertex(b.pos, off_b));
    }
    assert(vertices@ =~= segment_quad(a, b));
    OutlinePolygon { vertices }
}

/// Drops every point that repeats the position of its predecessor.
pub fn retain_distinct(points: &Vec<StrokePoint>) -> (kept: Vec<StrokePoint>)
    ensures
        kept@ == retained(points@),
{
    let mut kept: Vec<StrokePoint> = Vec::new();
    let mut i: usize = 0;
    while i < points.len()
        invariant
            i <= points.len(),
            kept@ == retained(points@.take(i as int)),
        decreases points.len() - i,
    {
        let p = points[i];
        proof {
            let t = points@.take(i + 1);
            assert(t.drop_last() =~= points@.take(i as int));
            assert(t.last() == p);
            if i == 0 {
                assert(kept@.push(p) =~= t);
            }
        }
        if i == 0 || points[i - 1].pos != p.pos {
            kept.push(p);
        }
        i += 1;
    }
    proof {
        assert(points@.take(points.len() as int) =~= points@);
    }
    kept
}

/// The outline of a stroke given by its points.
pub fn stroke_data_to_path(stroke: &StrokeData) -> (poly: OutlinePolygon)
    ensures
        poly@ == outline(stroke@),
        poly@.len() == if retained(stroke@).len() >= 2 {
            2 * retained(stroke@).len()
        } else {
            0
        },
{
    let kept = retain_distinct(stroke.points());
    proof {
        lemma_retained(stroke@);
    }
    let n: usize = kept.len();
    let mut vertices: Vec<Vertex> = Vec::new();
    if n < 2 {
        assert(vertices@ =~= outline(stroke@));
        return OutlinePolygon { vertices };
    }
    let mut i: usize = 0;
    while i < n
        invariant
            n == kept@.len(),
            n >= 2,
            i <= n,
            consecutive_distinct(kept@),
            thickness_bounded(kept@),
            vertices@.len() == i,
            forall|k: int| 0 <= k < i ==> vertices@[k] == forward_vertex(kept@, k),
        decreases n - i,
    {
        let from = if i == 0 { kept[0].pos } else { kept[i - 1].pos };
        let to = if i == 0 { kept[1].pos } else { kept[i].pos };
        assert(kept@[1].pos != kept@[0].pos);
        assert(kept@[i as int].thickness <= MAX_THICKNESS);
        let off = perp_offset(from, to, kept[i].thickness);
        vertices.push(left_vertex(kept[i].pos, off));
        i += 1;
    }
    let mut j: usize = n;
    while j > 0
        invariant
            n == kept@.len(),
            n >= 2,
            j <= n,
            consecutive_distinct(kept@),
            thickness_bounded(kept@),
            vertices@.len() == n + (n - j),
            forall|k: int| 0 <= k < n ==> vertices@[k] == forward_vertex(kept@, k),
            forall|k: int|
                n <= k < n + (n - j) ==> vertices@[k] == backward_vertex(kept@, 2 * n - 1 - k),
        decreases j,
    {
        j -= 1;
        let from = if j == n - 1 { kept[n - 2].pos } else { kept[j].pos };
        let to = if j == n - 1 { kept[n - 1].pos } else { kept[j + 1].pos };
        assert(kept@[n - 1].pos != kept@[n - 2].pos);
        assert(j < n - 1 ==> kept@[j + 1].pos != kept@[j as int].pos);
        assert(kept@[j as int].thickness <= MAX_THICKNESS);
        let off = perp_offset(from, to, kept[j].thickness);
        vertices.push(right_vertex(kept[j].pos, off));
    }
    assert(vertices@ =~= ribbon(kept@));
    OutlinePolygon { vertices }
}

/// The outline of a stroke given by its samples, a base width and a pressure
/// curve.
pub fn pen_stroke_to_path<C: PressureCurve>(stroke: &Vec<PenEvent>, width: u32, curve: &C) -> (poly:
    OutlinePolygon)
    ensures
        poly@ == outline(stroke_points(stroke@, width, *curve)),
{
    let data = StrokeData::from_events(stroke, width, curve);
    stroke_data_to_path(&data)
}

} // verus!
