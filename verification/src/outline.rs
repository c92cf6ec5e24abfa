//! Glyph outline data shaped the way a TrueType `glyf` table wants it: quadratic Bezier
//! curves only, integer coordinates, y-axis up with the baseline at y=0.

use vstd::prelude::*;

use crate::svg::{cubic_count, move_count, outline_points, quad_count, segment_points, summary_of};
use crate::svg::{OutlineSummary, Pt, RawOutline, Seg};

verus! {

/// One point of a glyph contour. `on_curve` points sit exactly on the
/// outline; the rest are quadratic control points that pull the curve
/// toward them but aren't touched by it (standard TrueType convention).
#[derive(Clone, Copy, Debug, PartialEq, Eq, Structural)]
pub struct GlyphPoint {
    pub x: i32,
    pub y: i32,
    pub on_curve: bool,
}

/// The contours of a glyph and the width that it takes up in a line of text.
#[derive(Clone, Debug)]
pub struct GlyphOutline {
    pub contours: Vec<Vec<GlyphPoint>>,
    pub advance_width: i32,
}

/// The points of a list of contours.
pub open spec fn contour_points(contours: Seq<Vec<GlyphPoint>>) -> Seq<Seq<GlyphPoint>> {
    Seq::new(contours.len(), |i: int| contours[i]@)
}

/// All points of all contours, one contour after the other.
pub open spec fn all_points(contours: Seq<Seq<GlyphPoint>>) -> Seq<GlyphPoint>
    decreases contours.len(),
{
    if contours.len() == 0 {
        Seq::empty()
    } else {
        all_points(contours.drop_last()) + contours.last()
    }
}

/// The points that sit on the outline.
pub open spec fn on_curve_points(points: Seq<GlyphPoint>) -> Seq<GlyphPoint> {
    points.filter(|p: GlyphPoint| p.on_curve)
}

proof fn all_points_grow(contours: Seq<Seq<GlyphPoint>>, i: int)
    requires
        0 <= i <= contours.len(),
    ensures
        all_points(contours.take(i)).len() <= all_points(contours).len(),
        on_curve_points(all_points(contours.take(i))).len() <= on_curve_points(
            all_points(contours),
        ).len(),
    decreases contours.len(),
{
    if i == contours.len() {
        assert(contours.take(i) =~= contours);
    } else {
        let rest = contours.drop_last();
        assert(rest.take(i) =~= contours.take(i));
        all_points_grow(rest, i);
        Seq::filter_distributes_over_add(
            all_points(rest),
            contours.last(),
            |p: GlyphPoint| p.on_curve,
        );
    }
}

proof fn on_curve_points_grow(points: Seq<GlyphPoint>, i: int)
    requires
        0 <= i < points.len(),
    ensures
        on_curve_points(points.take(i + 1)).len() == on_curve_points(points.take(i)).len() + (
        if points[i].on_curve {
            1int
        } else {
            0
        }),
        on_curve_points(points.take(i + 1)).len() <= on_curve_points(points).len(),
{
    reveal(Seq::filter);
    assert(points.take(i + 1).drop_last() =~= points.take(i));
    assert(points =~= points.take(i + 1) + points.skip(i + 1));
    Seq::filter_distributes_over_add(
        points.take(i + 1),
        points.skip(i + 1),
        |p: GlyphPoint| p.on_curve,
    );
}

impl GlyphOutline {
    /// The points of the contours.
    pub open spec fn points(self) -> Seq<Seq<GlyphPoint>> {
        contour_points(self.contours@)
    }

    /// The number of points in all contours.
    pub fn point_count(&self) -> (count: usize)
        requires
            all_points(self.points()).len() <= usize::MAX,
        ensures
            count == all_points(self.points()).len(),
    {
        let ghost contours = self.points();
        let mut count: usize = 0;
        let mut i: usize = 0;
        while i < self.contours.len()
            invariant
                i <= self.contours.len(),
                contours == self.points(),
                all_points(contours).len() <= usize::MAX,
                count == all_points(contours.take(i as int)).len(),
            decreases self.contours.len() - i,
        {
            proof {
                all_points_grow(contours, i + 1);
                assert(contours.take(i + 1).drop_last() =~= contours.take(i as int));
            }
            count += self.contours[i].len();
            i += 1;
        }
        assert(contours.take(i as int) =~= contours);
        count
    }

    /// The number of points that sit on the outline.
    pub fn on_curve_count(&self) -> (count: usize)
        requires
            on_curve_points(all_points(self.points())).len() <= usize::MAX,
        ensures
            count == on_curve_points(all_points(self.points())).len(),
    {
        let ghost contours = self.points();
        let mut count: usize = 0;
        let mut i: usize = 0;
        reveal(Seq::filter);
        while i < self.contours.len()
            invariant
                i <= self.contours.len(),
                contours == self.points(),
                on_curve_points(all_points(contours)).len() <= usize::MAX,
                count == on_curve_points(all_points(contours.take(i as int))).len(),
            decreases self.contours.len() - i,
        {
            let contour: &Vec<GlyphPoint> = &self.contours[i];
            let ghost before = count as int;
            proof {
                all_points_grow(contours, i + 1);
                assert(contours.take(i + 1).drop_last() =~= contours.take(i as int));
                assert(contours.take(i + 1).last() == contour@);
                Seq::filter_distributes_over_add(
                    all_points(contours.take(i as int)),
                    contour@,
                    |p: GlyphPoint| p.on_curve,
                );
                reveal(Seq::filter);
                assert(contour@.take(0) =~= Seq::empty());
            }
            let mut j: usize = 0;
            while j < contour.len()
                invariant
                    j <= contour.len(),
                    count == before + on_curve_points(contour@.take(j as int)).len(),
                    before + on_curve_points(contour@).len() <= usize::MAX,
                decreases contour.len() - j,
            {
                proof {
                    on_curve_points_grow(contour@, j as int);
                }
                if contour[j].on_curve {
                    count += 1;
                }
                j += 1;
            }
            assert(contour@.take(j as int) =~= contour@);
            i += 1;
        }
        assert(contours.take(i as int) =~= contours);
        count
    }
}

// ---------------------------------------------------------------------------
// What there is to draw
// ---------------------------------------------------------------------------

/// One drawing step in SVG-space coordinates.
#[derive(Clone, Copy, Debug, PartialEq, Eq, Structural)]
pub enum CurveStep {
    /// Start a contour here.
    Start(Pt),
    /// A straight line to here.
    Line(Pt),
    /// A quadratic curve by its control point and its end.
    Quad(Pt, Pt),
    /// A cubic curve by where it begins, its control points and its end. It begins at the font
    /// origin where nothing has been drawn before.
    Cubic(Option<Pt>, Pt, Pt, Pt),
}

/// Where the pen stands after path commands: the end of the last one that has an end.
pub open spec fn pen(segments: Seq<Seg>) -> Option<Pt>
    decreases segments.len(),
{
    if segments.len() == 0 {
        None
    } else {
        match segments.last() {
            Seg::MoveTo(p) => Some(p),
            Seg::LineTo(p) => Some(p),
            Seg::QuadTo(_, p) => Some(p),
            Seg::CubicTo(_, _, p) => Some(p),
            Seg::Close => pen(segments.drop_last()),
        }
    }
}

/// The drawing step that a path command asks for with the pen at a point. Closing a contour
/// draws nothing.
pub open spec fn curve_step(segment: Seg, from: Option<Pt>) -> Seq<CurveStep> {
    match segment {
        Seg::MoveTo(p) => seq![CurveStep::Start(p)],
        Seg::LineTo(p) => seq![CurveStep::Line(p)],
        Seg::QuadTo(c, p) => seq![CurveStep::Quad(c, p)],
        Seg::CubicTo(c1, c2, p) => seq![CurveStep::Cubic(from, c1, c2, p)],
        Seg::Close => Seq::empty(),
    }
}

/// The drawing steps that path commands ask for.
pub open spec fn curve_steps(segments: Seq<Seg>) -> Seq<CurveStep>
    decreases segments.len(),
{
    if segments.len() == 0 {
        Seq::empty()
    } else {
        let before = segments.drop_last();
        curve_steps(before) + curve_step(segments.last(), pen(before))
    }
}

/// Lists the drawing steps that path commands ask for.
pub fn plan_curves(segments: &[Seg]) -> (steps: Vec<CurveStep>)
    ensures
        steps@ == curve_steps(segments@),
{
    let mut steps: Vec<CurveStep> = Vec::new();
    let mut cursor: Option<Pt> = None;
    let mut i: usize = 0;
    assert(segments@.take(0) =~= Seq::empty());
    while i < segments.len()
        invariant
            i <= segments.len(),
            steps@ == curve_steps(segments@.take(i as int)),
            cursor == pen(segments@.take(i as int)),
        decreases segments.len() - i,
    {
        let ghost before = steps@;
        let ghost from = cursor;
        match segments[i] {
            Seg::MoveTo(p) => {
                steps.push(CurveStep::Start(p));
                cursor = Some(p);
            },
            Seg::LineTo(p) => {
                steps.push(CurveStep::Line(p));
                cursor = Some(p);
            },
            Seg::QuadTo(c, p) => {
                steps.push(CurveStep::Quad(c, p));
                cursor = Some(p);
            },
            Seg::CubicTo(c1, c2, p) => {
                steps.push(CurveStep::Cubic(cursor, c1, c2, p));
                cursor = Some(p);
            },
            Seg::Close => {},
        }
        assert(steps@ =~= before + curve_step(segments@[i as int], from));
        assert(segments@.take(i + 1).drop_last() =~= segments@.take(i as int));
        i += 1;
    }
    assert(segments@.take(i as int) =~= segments@);
    steps
}

// ---------------------------------------------------------------------------
// Assembling contours
// ---------------------------------------------------------------------------

/// A position in font units.
#[derive(Clone, Copy, Debug, PartialEq, Eq, Structural)]
pub struct FontPoint {
    pub x: i32,
    pub y: i32,
}

/// One drawing step in font units. A cubic curve has become one or more quadratic ones.
#[derive(Clone, Debug)]
pub enum FontStep {
    /// Start a contour here.
    Start(FontPoint),
    /// A straight line to here.
    Line(FontPoint),
    /// Quadratic curves one after the other, each given by its control point and its end.
    Quads(Vec<(FontPoint, FontPoint)>),
}

/// The glyph point at a position.
pub open spec fn glyph_point(p: FontPoint, on_curve: bool) -> GlyphPoint {
    GlyphPoint { x: p.x, y: p.y, on_curve }
}

/// The points of a run of quadratic curves: each control point, then each end.
pub open spec fn quad_points(quads: Seq<(FontPoint, FontPoint)>) -> Seq<GlyphPoint>
    decreases quads.len(),
{
    if quads.len() == 0 {
        Seq::empty()
    } else {
        quad_points(quads.drop_last()) + seq![
            glyph_point(quads.last().0, false),
            glyph_point(quads.last().1, true),
        ]
    }
}

/// The points that a drawing step adds.
pub open spec fn step_points(step: FontStep) -> Seq<GlyphPoint> {
    match step {
        FontStep::Start(p) => seq![glyph_point(p, true)],
        FontStep::Line(p) => seq![glyph_point(p, true)],
        FontStep::Quads(quads) => quad_points(quads@),
    }
}

/// What drawing steps leave: the contours that a later start has ended, and the open one.
pub open spec fn drawn(steps: Seq<FontStep>) -> (Seq<Seq<GlyphPoint>>, Seq<GlyphPoint>)
    decreases steps.len(),
{
    if steps.len() == 0 {
        (Seq::empty(), Seq::empty())
    } else {
        let (done, open) = drawn(steps.drop_last());
        if steps.last() is Start && open.len() > 0 {
            (done.push(open), step_points(steps.last()))
        } else {
            (done, open + step_points(steps.last()))
        }
    }
}

/// The contours that drawing steps make up. Each start begins a new one; what comes before the
/// first start makes up one of its own. None is empty.
pub open spec fn drawn_contours(steps: Seq<FontStep>) -> Seq<Seq<GlyphPoint>> {
    let (done, open) = drawn(steps);
    if open.len() > 0 {
        done.push(open)
    } else {
        done
    }
}

/// Puts drawing steps together into the outline of a glyph.
///
/// TrueType contours implicitly close back to their first point, so there is no step for
/// closing one.
pub fn assemble_outline(steps: &[FontStep], advance_width: i32) -> (outline: GlyphOutline)
    ensures
        outline.points() == drawn_contours(steps@),
        outline.advance_width == advance_width,
{
    let mut contours: Vec<Vec<GlyphPoint>> = Vec::new();
    let mut current: Vec<GlyphPoint> = Vec::new();
    let mut i: usize = 0;
    assert(contour_points(contours@) =~= Seq::empty());
    while i < steps.len()
        invariant
            i <= steps.len(),
            drawn(steps@.take(i as int)) == (contour_points(contours@), current@),
        decreases steps.len() - i,
    {
        let ghost done = contour_points(contours@);
        let ghost open = current@;
        assert(steps@.take(i + 1).drop_last() =~= steps@.take(i as int));
        assert(steps@.take(i + 1).last() == steps@[i as int]);
        match &steps[i] {
            FontStep::Start(p) => {
                if current.len() > 0 {
                    let mut ended: Vec<GlyphPoint> = Vec::new();
                    std::mem::swap(&mut ended, &mut current);
                    contours.push(ended);
                    assert(contour_points(contours@) =~= done.push(open));
                    assert(current@ =~= Seq::empty());
                }
                current.push(GlyphPoint { x: p.x, y: p.y, on_curve: true });
                assert(current@ =~= if open.len() > 0 {
                    step_points(steps@[i as int])
                } else {
                    open + step_points(steps@[i as int])
                });
            },
            FontStep::Line(p) => {
                current.push(GlyphPoint { x: p.x, y: p.y, on_curve: true });
                assert(current@ =~= open + step_points(steps@[i as int]));
            },
            FontStep::Quads(quads) => {
                let mut j: usize = 0;
                assert(quads@.take(0) =~= Seq::empty());
                assert(current@ =~= open + quad_points(quads@.take(0)));
                while j < quads.len()
                    invariant
                        j <= quads.len(),
                        current@ == open + quad_points(quads@.take(j as int)),
                    decreases quads.len() - j,
                {
                    let (c, p) = quads[j];
                    current.push(GlyphPoint { x: c.x, y: c.y, on_curve: false });
                    current.push(GlyphPoint { x: p.x, y: p.y, on_curve: true });
                    assert(quads@.take(j + 1).drop_last() =~= quads@.take(j as int));
                    assert(current@ =~= open + quad_points(quads@.take(j + 1)));
                    j += 1;
                }
                assert(quads@.take(j as int) =~= quads@);
                assert(current@ =~= open + step_points(steps@[i as int]));
            },
        }
        i += 1;
    }
    assert(steps@.take(i as int) =~= steps@);
    let ghost done = contour_points(contours@);
    let ghost open = current@;
    if current.len() > 0 {
        contours.push(current);
        assert(contour_points(contours@) =~= done.push(open));
    }
    GlyphOutline { contours, advance_width }
}

/// Whether a step in font units is the conversion of a step in SVG-space: a start of a start, a
/// line of a line, one quadratic curve of a quadratic curve, each with its points converted, and
/// of a cubic curve the quadratic ones that it is refitted as.
pub open spec fn converts<T: Fn(Pt) -> FontPoint, Q: Fn(Option<Pt>, Pt, Pt, Pt) -> Vec<
    (FontPoint, FontPoint),
>>(to_font: T, to_quads: Q, from: CurveStep, to: FontStep) -> bool {
    match (from, to) {
        (CurveStep::Start(p), FontStep::Start(q)) => call_ensures(to_font, (p,), q),
        (CurveStep::Line(p), FontStep::Line(q)) => call_ensures(to_font, (p,), q),
        (CurveStep::Quad(c, p), FontStep::Quads(quads)) => quads@.len() == 1 && call_ensures(
            to_font,
            (c,),
            quads@[0].0,
        ) && call_ensures(to_font, (p,), quads@[0].1),
        (CurveStep::Cubic(from, c1, c2, p), FontStep::Quads(quads)) => call_ensures(
            to_quads,
            (from, c1, c2, p),
            quads,
        ),
        _ => false,
    }
}

/// Whether steps in font units are the conversions of steps in SVG-space.
pub open spec fn converted<T: Fn(Pt) -> FontPoint, Q: Fn(Option<Pt>, Pt, Pt, Pt) -> Vec<
    (FontPoint, FontPoint),
>>(to_font: T, to_quads: Q, plan: Seq<CurveStep>, steps: Seq<FontStep>) -> bool {
    &&& steps.len() == plan.len()
    &&& forall|i: int|
        0 <= i < plan.len() ==> converts(to_font, to_quads, #[trigger] plan[i], steps[i])
}

/// Whether an outline is drawn from steps that are the conversions of what path commands ask for.
pub open spec fn draws<T: Fn(Pt) -> FontPoint, Q: Fn(Option<Pt>, Pt, Pt, Pt) -> Vec<
    (FontPoint, FontPoint),
>>(to_font: T, to_quads: Q, segments: Seq<Seg>, outline: GlyphOutline) -> bool {
    exists|steps: Seq<FontStep>| #[trigger]
        converted(to_font, to_quads, curve_steps(segments), steps) && outline.points()
            == drawn_contours(steps)
}

/// Whether path commands, where there are any, begin by starting a contour.
pub open spec fn begins_with_move(segments: Seq<Seg>) -> bool {
    segments.len() > 0 ==> segments[0] is MoveTo
}

/// Turns raw SVG geometry into a glyph outline, given the conversion of a point into font units,
/// the refitting of a cubic curve as quadratic ones in font units, and the glyph's width in them.
/// A cubic curve is given by where it begins, its control points and its end; it begins at the
/// font origin where nothing has been drawn before.
///
/// No contour is empty, each ends on the curve, and no two of its control points are neighbours.
/// Path commands that begin by starting a contour give one contour for each command that starts
/// one, in drawing order, and each begins on the curve. Without cubic curves among them, the
/// outline has all their points, and all but the control points sit on the outline.
pub fn build_glyph_outline<T: Fn(Pt) -> FontPoint, Q: Fn(Option<Pt>, Pt, Pt, Pt) -> Vec<
    (FontPoint, FontPoint),
>>(raw: &RawOutline, to_font: T, to_quads: Q, advance_width: i32) -> (outline: GlyphOutline)
    requires
        forall|p: Pt| #[trigger] call_requires(to_font, (p,)),
        forall|from: Option<Pt>, c1: Pt, c2: Pt, p: Pt| #[trigger]
            call_requires(to_quads, (from, c1, c2, p)),
    ensures
        draws(to_font, to_quads, raw.segments@, outline),
        outline.advance_width == advance_width,
        forall|i: int|
            0 <= i < outline.points().len() ==> well_drawn(#[trigger] outline.points()[i]),
        begins_with_move(raw.segments@) ==> outline.points().len() == move_count(raw.segments@),
        begins_with_move(raw.segments@) ==> forall|i: int|
            0 <= i < outline.points().len() ==> (#[trigger] outline.points()[i])[0].on_curve,
        cubic_count(raw.segments@) == 0 ==> all_points(outline.points()).len() == outline_points(
            raw.segments@,
        ).len() && on_curve_points(all_points(outline.points())).len() == outline_points(
            raw.segments@,
        ).len() - quad_count(raw.segments@),
{
    let plan: Vec<CurveStep> = plan_curves(raw.segments.as_slice());
    let mut steps: Vec<FontStep> = Vec::new();
    let mut i: usize = 0;
    while i < plan.len()
        invariant
            i <= plan.len(),
            forall|p: Pt| #[trigger] call_requires(to_font, (p,)),
            forall|from: Option<Pt>, c1: Pt, c2: Pt, p: Pt| #[trigger]
                call_requires(to_quads, (from, c1, c2, p)),
            steps@.len() == i,
            forall|k: int|
                0 <= k < i ==> converts(to_font, to_quads, #[trigger] plan@[k], steps@[k]),
        decreases plan.len() - i,
    {
        let step: FontStep = match plan[i] {
            CurveStep::Start(p) => FontStep::Start(to_font(p)),
            CurveStep::Line(p) => FontStep::Line(to_font(p)),
            CurveStep::Quad(c, p) => {
                let mut quads: Vec<(FontPoint, FontPoint)> = Vec::new();
                quads.push((to_font(c), to_font(p)));
                FontStep::Quads(quads)
            },
            CurveStep::Cubic(from, c1, c2, p) => FontStep::Quads(to_quads(from, c1, c2, p)),
        };
        assert(converts(to_font, to_quads, plan@[i as int], step));
        steps.push(step);
        i += 1;
    }
    assert(converted(to_font, to_quads, curve_steps(raw.segments@), steps@));
    proof {
        let segments = raw.segments@;
        conversions_realize(to_font, to_quads, curve_steps(segments), steps@);
        drawn_contours_are_well_formed(steps@);
        if begins_with_move(segments) {
            one_contour_for_each_move(segments, steps@);
            started_contours_begin_on_curve(segments, steps@);
        }
        if cubic_count(segments) == 0 {
            drawn_contours_keep_every_point(steps@);
            points_without_cubics(segments, steps@);
        }
    }
    assemble_outline(steps.as_slice(), advance_width)
}

/// Whether a contour is one that can be drawn: it is not empty, it ends on the curve, and no two
/// of its control points are neighbours.
pub open spec fn well_drawn(contour: Seq<GlyphPoint>) -> bool {
    &&& contour.len() > 0
    &&& contour.last().on_curve
    &&& forall|i: int|
        0 <= i < contour.len() - 1 && !(#[trigger] contour[i]).on_curve ==> contour[i + 1].on_curve
}

/// Every control point of a contour is immediately followed by the on-curve end of its curve.
pub open spec fn curves_end_on_curve(contour: Seq<GlyphPoint>) -> bool {
    forall|i: int|
        0 <= i < contour.len() && !(#[trigger] contour[i]).on_curve ==> i + 1 < contour.len()
            && contour[i + 1].on_curve
}

proof fn quads_end_on_curve(quads: Seq<(FontPoint, FontPoint)>)
    ensures
        curves_end_on_curve(quad_points(quads)),
    decreases quads.len(),
{
    if quads.len() > 0 {
        quads_end_on_curve(quads.drop_last());
        joined_curves_end_on_curve(
            quad_points(quads.drop_last()),
            seq![glyph_point(quads.last().0, false), glyph_point(quads.last().1, true)],
        );
    }
}

proof fn joined_curves_end_on_curve(a: Seq<GlyphPoint>, b: Seq<GlyphPoint>)
    requires
        curves_end_on_curve(a),
        curves_end_on_curve(b),
    ensures
        curves_end_on_curve(a + b),
{
    let s = a + b;
    assert forall|i: int| 0 <= i < s.len() && !(#[trigger] s[i]).on_curve implies i + 1 < s.len()
        && s[i + 1].on_curve by {
        if i < a.len() {
            assert(s[i] == a[i]);
        } else {
            assert(s[i] == b[i - a.len()]);
        }
    }
}

proof fn drawn_is_well_formed(steps: Seq<FontStep>)
    ensures
        ({
            let (done, open) = drawn(steps);
            &&& curves_end_on_curve(open)
            &&& forall|i: int|
                0 <= i < done.len() ==> curves_end_on_curve(#[trigger] done[i]) && done[i].len() > 0
        }),
    decreases steps.len(),
{
    if steps.len() > 0 {
        drawn_is_well_formed(steps.drop_last());
        let step = steps.last();
        if let FontStep::Quads(quads) = step {
            quads_end_on_curve(quads@);
        }
        assert(curves_end_on_curve(step_points(step)));
        let (done, open) = drawn(steps.drop_last());
        joined_curves_end_on_curve(open, step_points(step));
    }
}

/// Contours put together from drawing steps are never empty, and each control point in them is
/// immediately followed by the on-curve end of its curve.
pub proof fn drawn_contours_are_well_formed(steps: Seq<FontStep>)
    ensures
        forall|i: int|
            0 <= i < drawn_contours(steps).len() ==> {
                &&& curves_end_on_curve(#[trigger] drawn_contours(steps)[i])
                &&& well_drawn(drawn_contours(steps)[i])
            },
{
    drawn_is_well_formed(steps);
    assert forall|i: int| 0 <= i < drawn_contours(steps).len() implies {
        &&& curves_end_on_curve(#[trigger] drawn_contours(steps)[i])
        &&& well_drawn(drawn_contours(steps)[i])
    } by {
        let contour = drawn_contours(steps)[i];
        assert(curves_end_on_curve(contour));
        assert(contour[contour.len() - 1].on_curve);
    }
}

/// All points that drawing steps add, in order.
pub open spec fn added_points(steps: Seq<FontStep>) -> Seq<GlyphPoint>
    decreases steps.len(),
{
    if steps.len() == 0 {
        Seq::empty()
    } else {
        added_points(steps.drop_last()) + step_points(steps.last())
    }
}

/// Grouping points into contours neither drops, adds nor reorders any.
pub proof fn drawn_contours_keep_every_point(steps: Seq<FontStep>)
    ensures
        all_points(drawn_contours(steps)) == added_points(steps),
{
    drawn_keeps_every_point(steps);
    let (done, open) = drawn(steps);
    if open.len() > 0 {
        assert(done.push(open).drop_last() =~= done);
    } else {
        assert(all_points(done) + open =~= all_points(done));
    }
}

proof fn drawn_keeps_every_point(steps: Seq<FontStep>)
    ensures
        all_points(drawn(steps).0) + drawn(steps).1 == added_points(steps),
    decreases steps.len(),
{
    if steps.len() == 0 {
        assert(all_points(drawn(steps).0) + drawn(steps).1 =~= added_points(steps));
    } else {
        drawn_keeps_every_point(steps.drop_last());
        let (done, open) = drawn(steps.drop_last());
        assert(done.push(open).drop_last() =~= done);
        assert(all_points(drawn(steps).0) + drawn(steps).1 =~= added_points(steps));
    }
}

/// The number of contours that steps start.
pub open spec fn start_count(steps: Seq<FontStep>) -> nat
    decreases steps.len(),
{
    if steps.len() == 0 {
        0
    } else {
        start_count(steps.drop_last()) + if steps.last() is Start {
            1nat
        } else {
            0
        }
    }
}

/// Steps that begin by starting a contour make up one contour for each start.
pub proof fn one_contour_for_each_start(steps: Seq<FontStep>)
    requires
        steps.len() > 0 ==> steps[0] is Start,
    ensures
        drawn_contours(steps).len() == start_count(steps),
    decreases steps.len(),
{
    if steps.len() == 1 {
        assert(steps.drop_last() =~= Seq::empty());
        reveal_with_fuel(drawn, 2);
        reveal_with_fuel(start_count, 2);
    } else if steps.len() > 1 {
        one_contour_for_each_start(steps.drop_last());
        open_contour_is_not_empty(steps.drop_last());
    }
}

proof fn open_contour_is_not_empty(steps: Seq<FontStep>)
    requires
        steps.len() > 0,
        steps[0] is Start,
    ensures
        drawn(steps).1.len() > 0,
    decreases steps.len(),
{
    if steps.len() > 1 {
        open_contour_is_not_empty(steps.drop_last());
    } else {
        assert(steps.drop_last() =~= Seq::empty());
        assert(steps.last() == steps[0]);
    }
}

/// Whether steps in font units draw the given steps in SVG-space: starts for starts, lines for
/// lines, one quadratic curve for each quadratic curve, and quadratic curves for cubic ones.
pub open spec fn realizes(steps: Seq<FontStep>, plan: Seq<CurveStep>) -> bool {
    &&& steps.len() == plan.len()
    &&& forall|i: int| 0 <= i < plan.len() ==> realizes_step(steps[i], #[trigger] plan[i])
}

/// Whether a step in font units draws a step in SVG-space.
pub open spec fn realizes_step(step: FontStep, planned: CurveStep) -> bool {
    match planned {
        CurveStep::Start(_) => step is Start,
        CurveStep::Line(_) => step is Line,
        CurveStep::Quad(_, _) => step is Quads && step->Quads_0@.len() == 1,
        CurveStep::Cubic(_, _, _, _) => step is Quads,
    }
}

proof fn realizes_front(segments: Seq<Seg>, steps: Seq<FontStep>)
    requires
        segments.len() > 0,
        realizes(steps, curve_steps(segments)),
    ensures
        segments.last() is Close ==> realizes(steps, curve_steps(segments.drop_last())),
        !(segments.last() is Close) ==> {
            &&& steps.len() > 0
            &&& realizes(steps.drop_last(), curve_steps(segments.drop_last()))
            &&& realizes_step(steps.last(), curve_steps(segments).last())
            &&& curve_step(segments.last(), pen(segments.drop_last())) == seq![
                curve_steps(segments).last(),
            ]
        },
{
    let plan = curve_steps(segments);
    let before = segments.drop_last();
    if segments.last() is Close {
        assert(plan =~= curve_steps(before));
    } else {
        assert(plan.drop_last() =~= curve_steps(before));
        assert(realizes_step(steps[plan.len() - 1], plan[plan.len() - 1]));
        assert forall|i: int| 0 <= i < plan.drop_last().len() implies realizes_step(
            steps.drop_last()[i],
            #[trigger] plan.drop_last()[i],
        ) by {
            assert(plan[i] == plan.drop_last()[i]);
        }
        assert(curve_step(segments.last(), pen(before)) =~= seq![plan.last()]);
    }
}

proof fn conversions_realize<T: Fn(Pt) -> FontPoint, Q: Fn(Option<Pt>, Pt, Pt, Pt) -> Vec<
    (FontPoint, FontPoint),
>>(to_font: T, to_quads: Q, plan: Seq<CurveStep>, steps: Seq<FontStep>)
    requires
        converted(to_font, to_quads, plan, steps),
    ensures
        realizes(steps, plan),
{
    assert forall|i: int| 0 <= i < plan.len() implies realizes_step(
        steps[i],
        #[trigger] plan[i],
    ) by {
        assert(converts(to_font, to_quads, plan[i], steps[i]));
    }
}

proof fn starts_for_moves(segments: Seq<Seg>, steps: Seq<FontStep>)
    requires
        realizes(steps, curve_steps(segments)),
    ensures
        start_count(steps) == move_count(segments),
    decreases segments.len(),
{
    reveal(Seq::filter);
    if segments.len() > 0 {
        realizes_front(segments, steps);
        if segments.last() is Close {
            starts_for_moves(segments.drop_last(), steps);
        } else {
            starts_for_moves(segments.drop_last(), steps.drop_last());
        }
    }
}

/// Without cubic curves, drawing adds as many points as the path commands have, and all but the
/// control points are on the curve.
proof fn points_without_cubics(segments: Seq<Seg>, steps: Seq<FontStep>)
    requires
        realizes(steps, curve_steps(segments)),
        cubic_count(segments) == 0,
    ensures
        added_points(steps).len() == outline_points(segments).len(),
        on_curve_points(added_points(steps)).len() == outline_points(segments).len() - quad_count(
            segments,
        ),
    decreases segments.len(),
{
    reveal(Seq::filter);
    if segments.len() == 0 {
        assert(curve_steps(segments) =~= Seq::empty());
    } else {
        let before = segments.drop_last();
        realizes_front(segments, steps);
        if segments.last() is Close {
            points_without_cubics(before, steps);
            assert(outline_points(segments) =~= outline_points(before));
        } else {
            let added = step_points(steps.last());
            points_without_cubics(before, steps.drop_last());
            points_of_one_step(segments.last(), pen(before), steps.last());
            Seq::filter_distributes_over_add(
                added_points(steps.drop_last()),
                added,
                |p: GlyphPoint| p.on_curve,
            );
        }
    }
}

proof fn points_of_one_step(segment: Seg, from: Option<Pt>, step: FontStep)
    requires
        !(segment is Close),
        !(segment is CubicTo),
        realizes_step(step, curve_step(segment, from)[0]),
    ensures
        step_points(step).len() == segment_points(segment).len(),
        on_curve_points(step_points(step)).len() == 1,
{
    reveal_with_fuel(Seq::filter, 3);
    let points = step_points(step);
    if segment is QuadTo {
        let quads = step->Quads_0@;
        reveal_with_fuel(quad_points, 2);
        assert(quads.drop_last() =~= Seq::empty());
        assert(points =~= seq![glyph_point(quads[0].0, false), glyph_point(quads[0].1, true)]);
        assert(points.drop_last() =~= seq![glyph_point(quads[0].0, false)]);
        assert(points.drop_last().drop_last() =~= Seq::empty());
    } else {
        assert(points.drop_last() =~= Seq::empty());
    }
}

proof fn first_step(segments: Seq<Seg>)
    requires
        segments.len() > 0,
        segments[0] is MoveTo,
    ensures
        curve_steps(segments).len() > 0,
        curve_steps(segments)[0] is Start,
    decreases segments.len(),
{
    if segments.len() > 1 {
        first_step(segments.drop_last());
    } else {
        assert(segments.drop_last() =~= Seq::empty());
        assert(segments.last() == segments[0]);
        assert(curve_steps(segments.drop_last()) =~= Seq::empty());
        assert(curve_steps(segments) =~= seq![CurveStep::Start(segments[0]->MoveTo_0)]);
    }
}

proof fn started_drawing_begins_on_curve(steps: Seq<FontStep>)
    requires
        steps.len() > 0,
        steps[0] is Start,
    ensures
        ({
            let (done, open) = drawn(steps);
            &&& open.len() > 0 && open[0].on_curve
            &&& forall|i: int|
                0 <= i < done.len() ==> (#[trigger] done[i]).len() > 0 && done[i][0].on_curve
        }),
    decreases steps.len(),
{
    let (done, open) = drawn(steps.drop_last());
    let added = step_points(steps.last());
    if steps.len() > 1 {
        started_drawing_begins_on_curve(steps.drop_last());
        assert((open + added)[0] == open[0]);
    } else {
        assert(steps.drop_last() =~= Seq::empty());
        assert(steps.last() == steps[0]);
        assert(open + added =~= added);
    }
}

/// The contours drawn for path commands that begin by starting a contour all begin on the curve.
pub proof fn started_contours_begin_on_curve(segments: Seq<Seg>, steps: Seq<FontStep>)
    requires
        begins_with_move(segments),
        realizes(steps, curve_steps(segments)),
    ensures
        forall|i: int|
            0 <= i < drawn_contours(steps).len() ==> (
            #[trigger] drawn_contours(steps)[i])[0].on_curve,
{
    if segments.len() > 0 {
        first_step(segments);
        assert(curve_steps(segments)[0] is Start);
        started_drawing_begins_on_curve(steps);
    } else {
        assert(curve_steps(segments) =~= Seq::empty());
    }
}

/// The statistics of an outline without cubic curves, whose path commands begin by starting a
/// contour, are those of the glyph drawn for it: as many contours, as many points, and on the
/// curve all but one point for each quadratic curve.
pub proof fn statistics_match_the_drawing(
    s: OutlineSummary,
    segments: Seq<Seg>,
    steps: Seq<FontStep>,
)
    requires
        summary_of(s, segments),
        begins_with_move(segments),
        s.cubic_segments == 0,
        realizes(steps, curve_steps(segments)),
    ensures
        drawn_contours(steps).len() == s.contours,
        all_points(drawn_contours(steps)).len() == s.points,
        on_curve_points(all_points(drawn_contours(steps))).len() == s.points - s.quad_segments,
{
    one_contour_for_each_move(segments, steps);
    drawn_contours_keep_every_point(steps);
    points_without_cubics(segments, steps);
}

/// The outline drawn for path commands that begin by starting a contour has one contour for
/// each command that starts one.
pub proof fn one_contour_for_each_move(segments: Seq<Seg>, steps: Seq<FontStep>)
    requires
        begins_with_move(segments),
        realizes(steps, curve_steps(segments)),
    ensures
        drawn_contours(steps).len() == move_count(segments),
{
    starts_for_moves(segments, steps);
    if segments.len() > 0 {
        first_step(segments);
        assert(curve_steps(segments)[0] is Start);
    } else {
        assert(curve_steps(segments) =~= Seq::empty());
    }
    one_contour_for_each_start(steps);
}

/// Path commands without those that close a contour.
pub open spec fn without_closes(segments: Seq<Seg>) -> Seq<Seg> {
    segments.filter(|s: Seg| !(s is Close))
}

/// Commands that close a contour leave nothing to draw, and the pen where it is.
pub proof fn closing_draws_nothing(segments: Seq<Seg>)
    ensures
        curve_steps(segments) == curve_steps(without_closes(segments)),
        pen(segments) == pen(without_closes(segments)),
    decreases segments.len(),
{
    reveal(Seq::filter);
    if segments.len() > 0 {
        let before = segments.drop_last();
        closing_draws_nothing(before);
        if segments.last() is Close {
            assert(curve_steps(segments) =~= curve_steps(before));
        } else {
            assert(without_closes(segments).drop_last() =~= without_closes(before));
        }
    }
}

/// Whether conversions give one result for each argument.
pub open spec fn single_valued<T: Fn(Pt) -> FontPoint, Q: Fn(Option<Pt>, Pt, Pt, Pt) -> Vec<
    (FontPoint, FontPoint),
>>(to_font: T, to_quads: Q) -> bool {
    &&& forall|p: Pt, q: FontPoint, r: FontPoint| #[trigger]
        call_ensures(to_font, (p,), q) && #[trigger] call_ensures(to_font, (p,), r) ==> q == r
    &&& forall|
        from: Option<Pt>,
        c1: Pt,
        c2: Pt,
        p: Pt,
        q: Vec<(FontPoint, FontPoint)>,
        r: Vec<(FontPoint, FontPoint)>,
    | #[trigger]
        call_ensures(to_quads, (from, c1, c2, p), q) && #[trigger] call_ensures(
            to_quads,
            (from, c1, c2, p),
            r,
        ) ==> q@ == r@
}

/// Whether two steps draw the same.
spec fn same_drawing(a: FontStep, b: FontStep) -> bool {
    (a is Start <==> b is Start) && step_points(a) == step_points(b)
}

proof fn same_steps_same_drawing(a: Seq<FontStep>, b: Seq<FontStep>)
    requires
        a.len() == b.len(),
        forall|i: int|
            0 <= i < a.len() ==> same_drawing(#[trigger] a[i], b[i]),
    ensures
        drawn(a) == drawn(b),
    decreases a.len(),
{
    if a.len() > 0 {
        let (p, q) = (a.drop_last(), b.drop_last());
        assert forall|i: int| 0 <= i < p.len() implies same_drawing(#[trigger] p[i], q[i]) by {
            assert(a[i] == p[i] && b[i] == q[i]);
        }
        same_steps_same_drawing(p, q);
        assert(a[a.len() - 1] == a.last() && b[b.len() - 1] == b.last());
    }
}

/// TrueType contours close implicitly: adding or removing commands that close a contour, anywhere,
/// does not change the outline.
pub proof fn closing_changes_no_outline<
    T: Fn(Pt) -> FontPoint,
    Q: Fn(Option<Pt>, Pt, Pt, Pt) -> Vec<(FontPoint, FontPoint)>,
>(
    to_font: T,
    to_quads: Q,
    a: Seq<Seg>,
    b: Seq<Seg>,
    first: GlyphOutline,
    second: GlyphOutline,
)
    requires
        without_closes(a) == without_closes(b),
        single_valued(to_font, to_quads),
        draws(to_font, to_quads, a, first),
        draws(to_font, to_quads, b, second),
    ensures
        first.points() == second.points(),
{
    closing_draws_nothing(a);
    closing_draws_nothing(b);
    let plan = curve_steps(a);
    let s = choose|steps: Seq<FontStep>| #[trigger]
        converted(to_font, to_quads, plan, steps) && first.points() == drawn_contours(steps);
    let t = choose|steps: Seq<FontStep>| #[trigger]
        converted(to_font, to_quads, curve_steps(b), steps) && second.points() == drawn_contours(
            steps,
        );
    assert forall|i: int| 0 <= i < s.len() implies same_drawing(#[trigger] s[i], t[i]) by {
        assert(converts(to_font, to_quads, plan[i], s[i]));
        assert(converts(to_font, to_quads, plan[i], t[i]));
        if plan[i] is Quad {
            assert(s[i]->Quads_0@ =~= t[i]->Quads_0@);
        }
    }
    same_steps_same_drawing(s, t);
}

/// The last of a path command's points is where it ends.
pub open spec fn ends_at(segment: Seg, p: Pt) -> bool {
    segment_points(segment).len() > 0 && segment_points(segment).last() == p
}

proof fn pen_after(segments: Seq<Seg>, i: int)
    requires
        0 <= i < segments.len(),
        !(segments[i] is Close),
        forall|k: int| i < k < segments.len() ==> #[trigger] segments[k] is Close,
    ensures
        pen(segments) is Some,
        ends_at(segments[i], pen(segments)->0),
    decreases segments.len(),
{
    if i < segments.len() - 1 {
        assert(segments[segments.len() - 1] is Close);
        let rest = segments.drop_last();
        assert(rest[i] == segments[i]);
        pen_after(rest, i);
    }
}

proof fn pen_before_any(segments: Seq<Seg>)
    requires
        forall|k: int| 0 <= k < segments.len() ==> #[trigger] segments[k] is Close,
    ensures
        pen(segments) is None,
    decreases segments.len(),
{
    if segments.len() > 0 {
        assert(segments[segments.len() - 1] is Close);
        pen_before_any(segments.drop_last());
    }
}

/// How many of the commands before a place ask for a drawing step: all but those that close a
/// contour.
pub open spec fn steps_before(segments: Seq<Seg>, j: int) -> int {
    without_closes(segments.take(j)).len() as int
}

proof fn planned_step(segments: Seq<Seg>, j: int)
    requires
        0 <= j < segments.len(),
        !(segments[j] is Close),
    ensures
        curve_steps(segments).len() == without_closes(segments).len(),
        0 <= steps_before(segments, j) < curve_steps(segments).len(),
        curve_step(segments[j], pen(segments.take(j))) == seq![
            curve_steps(segments)[steps_before(segments, j)],
        ],
    decreases segments.len(),
{
    reveal(Seq::filter);
    let rest = segments.drop_last();
    plan_length(segments);
    plan_length(rest);
    if j == segments.len() - 1 {
        assert(segments.take(j) =~= rest);
        let step = curve_step(segments[j], pen(rest));
        assert(step.len() == 1);
        assert(step =~= seq![curve_steps(segments)[curve_steps(rest).len() as int]]);
    } else {
        planned_step(rest, j);
        assert(rest.take(j) =~= segments.take(j));
        assert(rest[j] == segments[j]);
        let k = steps_before(segments, j);
        assert(curve_steps(segments)[k] == curve_steps(rest)[k]);
    }
}

proof fn plan_length(segments: Seq<Seg>)
    ensures
        curve_steps(segments).len() == without_closes(segments).len(),
    decreases segments.len(),
{
    reveal(Seq::filter);
    if segments.len() > 0 {
        plan_length(segments.drop_last());
    }
}

/// Each path command that does not close a contour gives one drawing step, in order, of its own
/// kind and with its own points.
pub proof fn each_command_is_planned(segments: Seq<Seg>, j: int)
    requires
        0 <= j < segments.len(),
        !(segments[j] is Close),
    ensures
        curve_steps(segments).len() == segments.filter(|s: Seg| !(s is Close)).len(),
        ({
            let k = segments.take(j).filter(|s: Seg| !(s is Close)).len() as int;
            &&& 0 <= k < curve_steps(segments).len()
            &&& (match segments[j] {
                Seg::MoveTo(p) => curve_steps(segments)[k] == CurveStep::Start(p),
                Seg::LineTo(p) => curve_steps(segments)[k] == CurveStep::Line(p),
                Seg::QuadTo(c, p) => curve_steps(segments)[k] == CurveStep::Quad(c, p),
                Seg::CubicTo(c1, c2, p) => curve_steps(segments)[k] matches CurveStep::Cubic(
                    _,
                    d1,
                    d2,
                    q,
                ) && d1 == c1 && d2 == c2 && q == p,
                Seg::Close => false,
            })
        }),
{
    planned_step(segments, j);
    let step = curve_step(segments[j], pen(segments.take(j)));
    assert(step[0] == curve_steps(segments)[steps_before(segments, j)]);
}

/// A cubic curve begins at the end of the last command before it that has an end, whatever its
/// kind and however many commands that close a contour stand between.
pub proof fn cubic_begins_where_the_last_command_ended(segments: Seq<Seg>, i: int, j: int)
    requires
        0 <= i < j < segments.len(),
        segments[j] is CubicTo,
        !(segments[i] is Close),
        forall|k: int| i < k < j ==> #[trigger] segments[k] is Close,
    ensures
        ({
            let k = segments.take(j).filter(|s: Seg| !(s is Close)).len() as int;
            curve_steps(segments)[k] matches CurveStep::Cubic(from, _, _, _) && (
            match segments[i] {
                Seg::MoveTo(p) => from == Some(p),
                Seg::LineTo(p) => from == Some(p),
                Seg::QuadTo(_, p) => from == Some(p),
                Seg::CubicTo(_, _, p) => from == Some(p),
                Seg::Close => false,
            })
        }),
{
    let front = segments.take(j);
    assert forall|k: int| i < k < front.len() implies #[trigger] front[k] is Close by {
        assert(front[k] == segments[k]);
    }
    pen_after(front, i);
    planned_step(segments, j);
    let step = curve_step(segments[j], pen(front));
    assert(step[0] == curve_steps(segments)[steps_before(segments, j)]);
}

/// A cubic curve before which nothing has been drawn begins nowhere: at the font origin.
pub proof fn first_cubic_begins_at_the_origin(segments: Seq<Seg>, j: int)
    requires
        0 <= j < segments.len(),
        segments[j] is CubicTo,
        forall|k: int| 0 <= k < j ==> #[trigger] segments[k] is Close,
    ensures
        curve_steps(segments)[0] matches CurveStep::Cubic(from, _, _, _) && from is None,
{
    let front = segments.take(j);
    assert forall|k: int| 0 <= k < front.len() implies #[trigger] front[k] is Close by {
        assert(front[k] == segments[k]);
    }
    pen_before_any(front);
    planned_step(segments, j);
    closes_only(front);
    let step = curve_step(segments[j], pen(front));
    assert(step[0] == curve_steps(segments)[steps_before(segments, j)]);
}

proof fn closes_only(segments: Seq<Seg>)
    requires
        forall|k: int| 0 <= k < segments.len() ==> #[trigger] segments[k] is Close,
    ensures
        without_closes(segments).len() == 0,
    decreases segments.len(),
{
    reveal(Seq::filter);
    if segments.len() > 0 {
        assert(segments[segments.len() - 1] is Close);
        closes_only(segments.drop_last());
    }
}

// ---------------------------------------------------------------------------
// What drawing promises
// ---------------------------------------------------------------------------

/// A run of quadratic curves has two points for each: its control point off the curve, then its
/// end on the curve, at their own positions.
pub proof fn curves_alternate(quads: Seq<(FontPoint, FontPoint)>, i: int)
    requires
        0 <= i < quads.len(),
    ensures
        quad_points(quads).len() == 2 * quads.len(),
        quad_points(quads)[2 * i].x == quads[i].0.x,
        quad_points(quads)[2 * i].y == quads[i].0.y,
        !quad_points(quads)[2 * i].on_curve,
        quad_points(quads)[2 * i + 1].x == quads[i].1.x,
        quad_points(quads)[2 * i + 1].y == quads[i].1.y,
        quad_points(quads)[2 * i + 1].on_curve,
    decreases quads.len(),
{
    let rest = quads.drop_last();
    quad_points_len(rest);
    if i < rest.len() {
        curves_alternate(rest, i);
        assert(quad_points(quads)[2 * i] == quad_points(rest)[2 * i]);
        assert(quad_points(quads)[2 * i + 1] == quad_points(rest)[2 * i + 1]);
    }
}

proof fn quad_points_len(quads: Seq<(FontPoint, FontPoint)>)
    ensures
        quad_points(quads).len() == 2 * quads.len(),
    decreases quads.len(),
{
    if quads.len() > 0 {
        quad_points_len(quads.drop_last());
    }
}

/// A start and a line add one point on the curve, at their own position; curves add their points.
pub proof fn points_of_steps(p: FontPoint, quads: Vec<(FontPoint, FontPoint)>)
    ensures
        step_points(FontStep::Start(p)) == seq![GlyphPoint { x: p.x, y: p.y, on_curve: true }],
        step_points(FontStep::Line(p)) == seq![GlyphPoint { x: p.x, y: p.y, on_curve: true }],
        step_points(FontStep::Quads(quads)) == quad_points(quads@),
{
}

/// Steps from a start on make up contours of their own: what is drawn before them stays as it is.
pub proof fn a_start_begins_new_contours(before: Seq<FontStep>, from_start: Seq<FontStep>)
    requires
        from_start.len() > 0,
        from_start[0] is Start,
    ensures
        drawn_contours(before + from_start) == drawn_contours(before) + drawn_contours(from_start),
{
    drawn_behind(before, from_start);
    open_contour_is_not_empty(from_start);
    let (done, open) = drawn(before + from_start);
    assert(drawn_contours(before + from_start) =~= drawn_contours(before) + drawn_contours(
        from_start,
    ));
}

proof fn drawn_behind(before: Seq<FontStep>, from_start: Seq<FontStep>)
    requires
        from_start.len() > 0,
        from_start[0] is Start,
    ensures
        drawn(before + from_start).0 == drawn_contours(before) + drawn(from_start).0,
        drawn(before + from_start).1 == drawn(from_start).1,
    decreases from_start.len(),
{
    let all = before + from_start;
    let rest = from_start.drop_last();
    assert(all.drop_last() =~= before + rest);
    assert(all.last() == from_start.last());
    if rest.len() == 0 {
        assert(rest =~= Seq::empty());
        assert(all.drop_last() =~= before);
        assert(from_start.last() == from_start[0]);
        assert(drawn(rest).0 =~= Seq::<Seq<GlyphPoint>>::empty());
        assert(drawn(rest).1 =~= Seq::<GlyphPoint>::empty());
        let added = step_points(from_start.last());
        assert(drawn(before).1.len() == 0 ==> drawn(before).1 + added =~= added);
        assert(drawn(rest).1 + added =~= added);
        assert(drawn(from_start).0 =~= Seq::<Seq<GlyphPoint>>::empty());
        assert(drawn(all).0 =~= drawn_contours(before) + drawn(from_start).0);
    } else {
        drawn_behind(before, rest);
        open_contour_is_not_empty(rest);
        if from_start.last() is Start {
            assert(drawn(all).0 =~= drawn_contours(before) + drawn(from_start).0);
        }
    }
}

/// Steps of which only the first may be a start make up one contour, or none: all the points that
/// they add, in order.
pub proof fn steps_without_a_later_start_make_one_contour(steps: Seq<FontStep>)
    requires
        forall|k: int| 0 < k < steps.len() ==> !((#[trigger] steps[k]) is Start),
    ensures
        added_points(steps).len() > 0 ==> drawn_contours(steps) == seq![added_points(steps)],
        added_points(steps).len() == 0 ==> drawn_contours(steps).len() == 0,
{
    drawn_without_a_later_start(steps);
    assert(added_points(steps).len() > 0 ==> drawn_contours(steps) =~= seq![added_points(steps)]);
}

proof fn drawn_without_a_later_start(steps: Seq<FontStep>)
    requires
        forall|k: int| 0 < k < steps.len() ==> !((#[trigger] steps[k]) is Start),
    ensures
        drawn(steps).0.len() == 0,
        drawn(steps).1 == added_points(steps),
    decreases steps.len(),
{
    if steps.len() > 0 {
        let rest = steps.drop_last();
        assert forall|k: int| 0 < k < rest.len() implies !((#[trigger] rest[k]) is Start) by {
            assert(rest[k] == steps[k]);
        }
        drawn_without_a_later_start(rest);
        if steps.len() > 1 {
            assert(!(steps[steps.len() - 1] is Start));
        } else {
            assert(rest =~= Seq::empty());
        }
    }
}

/// The points that steps add are those of each, one after the other.
pub proof fn added_points_add_up(a: Seq<FontStep>, b: Seq<FontStep>, step: FontStep)
    ensures
        added_points(Seq::empty()).len() == 0,
        added_points(seq![step]) == step_points(step),
        added_points(a + b) == added_points(a) + added_points(b),
    decreases b.len(),
{
    let none = seq![step].drop_last();
    assert(none =~= Seq::<FontStep>::empty());
    assert(added_points(none) =~= Seq::<GlyphPoint>::empty());
    assert(added_points(seq![step]) =~= step_points(step));
    if b.len() == 0 {
        assert(a + b =~= a);
        assert(added_points(a) + added_points(b) =~= added_points(a));
    } else {
        added_points_add_up(a, b.drop_last(), step);
        assert((a + b).drop_last() =~= a + b.drop_last());
        assert(added_points(a + b) =~= added_points(a) + added_points(b));
    }
}

/// What a converted step is: of a start, a line or a quadratic curve the same with each point put
/// through the conversion of points, and of a cubic curve what refitting it from where it begins
/// gives.
pub proof fn steps_are_converted_point_by_point<
    T: Fn(Pt) -> FontPoint,
    Q: Fn(Option<Pt>, Pt, Pt, Pt) -> Vec<(FontPoint, FontPoint)>,
>(to_font: T, to_quads: Q, plan: Seq<CurveStep>, steps: Seq<FontStep>, i: int)
    requires
        converted(to_font, to_quads, plan, steps),
        0 <= i < plan.len(),
    ensures
        steps.len() == plan.len(),
        (match plan[i] {
            CurveStep::Start(p) => steps[i] matches FontStep::Start(q) && call_ensures(
                to_font,
                (p,),
                q,
            ),
            CurveStep::Line(p) => steps[i] matches FontStep::Line(q) && call_ensures(
                to_font,
                (p,),
                q,
            ),
            CurveStep::Quad(c, p) => steps[i] matches FontStep::Quads(quads) && quads@.len() == 1
                && call_ensures(to_font, (c,), quads@[0].0) && call_ensures(
                to_font,
                (p,),
                quads@[0].1,
            ),
            CurveStep::Cubic(from, c1, c2, p) => steps[i] matches FontStep::Quads(quads)
                && call_ensures(to_quads, (from, c1, c2, p), quads),
        }),
{
    assert(converts(to_font, to_quads, plan[i], steps[i]));
}

/// An outline is drawn from conversions of what its path commands ask for.
pub proof fn outlines_are_drawn_from_the_plan<
    T: Fn(Pt) -> FontPoint,
    Q: Fn(Option<Pt>, Pt, Pt, Pt) -> Vec<(FontPoint, FontPoint)>,
>(to_font: T, to_quads: Q, segments: Seq<Seg>, outline: GlyphOutline) -> (steps: Seq<FontStep>)
    requires
        draws(to_font, to_quads, segments, outline),
    ensures
        converted(to_font, to_quads, curve_steps(segments), steps),
        outline.points() == drawn_contours(steps),
        all_points(outline.points()) == added_points(steps),
{
    let steps = choose|steps: Seq<FontStep>| #[trigger]
        converted(to_font, to_quads, curve_steps(segments), steps) && outline.points()
            == drawn_contours(steps);
    drawn_contours_keep_every_point(steps);
    steps
}

/// The points of an outline are those of its contours, one after the other; how many there are,
/// and how many sit on the outline, adds up over the contours and over their points.
pub proof fn point_counts_add_up(
    a: Seq<Seq<GlyphPoint>>,
    b: Seq<Seq<GlyphPoint>>,
    contour: Seq<GlyphPoint>,
    p: GlyphPoint,
)
    ensures
        all_points(Seq::empty()).len() == 0,
        all_points(seq![contour]) == contour,
        all_points(a + b) == all_points(a) + all_points(b),
        on_curve_points(all_points(a + b)).len() == on_curve_points(all_points(a)).len()
            + on_curve_points(all_points(b)).len(),
        on_curve_points(Seq::empty()).len() == 0,
        on_curve_points(contour.push(p)).len() == on_curve_points(contour).len() + (
        if p.on_curve {
            1int
        } else {
            0
        }),
    decreases b.len(),
{
    let none = seq![contour].drop_last();
    assert(none =~= Seq::<Seq<GlyphPoint>>::empty());
    assert(all_points(none) =~= Seq::<GlyphPoint>::empty());
    assert(all_points(seq![contour]) =~= contour);
    reveal(Seq::filter);
    assert(contour.push(p).drop_last() =~= contour);
    if b.len() == 0 {
        assert(a + b =~= a);
        assert(all_points(a) + all_points(b) =~= all_points(a));
    } else {
        point_counts_add_up(a, b.drop_last(), contour, p);
        assert((a + b).drop_last() =~= a + b.drop_last());
        assert(all_points(a + b) =~= all_points(a) + all_points(b));
    }
    Seq::filter_distributes_over_add(all_points(a), all_points(b), |q: GlyphPoint| q.on_curve);
}

/// The points of an outline are those that its contours hold.
pub proof fn contours_hold_their_points(outline: GlyphOutline, i: int)
    requires
        0 <= i < outline.contours@.len(),
    ensures
        outline.points().len() == outline.contours@.len(),
        outline.points()[i] == outline.contours@[i]@,
{
}

} // verus!
