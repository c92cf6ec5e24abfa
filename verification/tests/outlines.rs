use iconpacker::outline::{
    assemble_outline, build_glyph_outline, plan_curves, CurveStep, FontPoint, FontStep,
    GlyphOutline, GlyphPoint,
};
use iconpacker::path::outline_to_bezpath;
use iconpacker::svg::{summarize, Pt, RawOutline, Seg};

fn pt(x: f32, y: f32) -> Pt {
    Pt { x: x.to_bits(), y: y.to_bits() }
}

fn at(x: i32, y: i32) -> FontPoint {
    FontPoint { x, y }
}

fn on(x: i32, y: i32) -> GlyphPoint {
    GlyphPoint { x, y, on_curve: true }
}

fn whole(p: Pt) -> FontPoint {
    at(f32::from_bits(p.x) as i32, f32::from_bits(p.y) as i32)
}

fn no_quads(_: Option<Pt>, _: Pt, _: Pt, _: Pt) -> Vec<(FontPoint, FontPoint)> {
    unreachable!()
}

fn off(x: i32, y: i32) -> GlyphPoint {
    GlyphPoint { x, y, on_curve: false }
}

#[test]
fn contours_begin_at_starts() {
    let steps = vec![
        FontStep::Start(at(0, 0)),
        FontStep::Line(at(10, 0)),
        FontStep::Quads(vec![(at(15, 5), at(10, 10)), (at(5, 15), at(0, 10))]),
        FontStep::Start(at(20, 20)),
        FontStep::Line(at(30, 20)),
    ];
    let outline = assemble_outline(&steps, 42);
    assert_eq!(
        outline.contours,
        vec![
            vec![on(0, 0), on(10, 0), off(15, 5), on(10, 10), off(5, 15), on(0, 10)],
            vec![on(20, 20), on(30, 20)],
        ]
    );
    assert_eq!(outline.advance_width, 42);
    assert_eq!(outline.point_count(), 8);
    assert_eq!(outline.on_curve_count(), 6);
}

#[test]
fn drawing_before_a_start_makes_a_contour() {
    let steps = vec![
        FontStep::Line(at(1, 1)),
        FontStep::Quads(vec![]),
        FontStep::Start(at(2, 2)),
        FontStep::Start(at(3, 3)),
    ];
    let outline = assemble_outline(&steps, -1);
    assert_eq!(outline.contours, vec![vec![on(1, 1)], vec![on(2, 2)], vec![on(3, 3)]]);
}

#[test]
fn nothing_drawn_is_no_contour() {
    let outline = assemble_outline(&[], 0);
    assert_eq!(outline.contours.len(), 0);
    assert_eq!(outline.point_count(), 0);
    assert_eq!(outline.on_curve_count(), 0);
    let outline = assemble_outline(&[FontStep::Quads(vec![])], 0);
    assert_eq!(outline.contours.len(), 0);
}

#[test]
fn cubic_curves_begin_at_the_pen() {
    let segments = vec![
        Seg::CubicTo(pt(1.0, 0.0), pt(2.0, 0.0), pt(3.0, 0.0)),
        Seg::MoveTo(pt(5.0, 5.0)),
        Seg::QuadTo(pt(6.0, 6.0), pt(7.0, 5.0)),
        Seg::Close,
        Seg::CubicTo(pt(8.0, 4.0), pt(9.0, 4.0), pt(10.0, 5.0)),
        Seg::LineTo(pt(0.0, 0.0)),
    ];
    assert_eq!(
        plan_curves(&segments),
        vec![
            CurveStep::Cubic(None, pt(1.0, 0.0), pt(2.0, 0.0), pt(3.0, 0.0)),
            CurveStep::Start(pt(5.0, 5.0)),
            CurveStep::Quad(pt(6.0, 6.0), pt(7.0, 5.0)),
            CurveStep::Cubic(Some(pt(7.0, 5.0)), pt(8.0, 4.0), pt(9.0, 4.0), pt(10.0, 5.0)),
            CurveStep::Line(pt(0.0, 0.0)),
        ]
    );
}

#[test]
fn one_contour_for_each_move() {
    let segments = vec![
        Seg::MoveTo(pt(0.0, 0.0)),
        Seg::LineTo(pt(1.0, 0.0)),
        Seg::Close,
        Seg::MoveTo(pt(4.0, 4.0)),
        Seg::Close,
    ];
    let raw = RawOutline { width: 0, height: 0, segments };
    let outline = build_glyph_outline(&raw, whole, no_quads, 9);
    assert_eq!(outline.contours, vec![vec![on(0, 0), on(1, 0)], vec![on(4, 4)]]);
    assert_eq!(outline.advance_width, 9);
}

#[test]
fn every_point_of_a_segment_is_converted() {
    let segments = vec![
        Seg::MoveTo(pt(1.0, 2.0)),
        Seg::LineTo(pt(3.0, 4.0)),
        Seg::QuadTo(pt(5.0, 6.0), pt(7.0, 8.0)),
        Seg::CubicTo(pt(9.0, 10.0), pt(11.0, 12.0), pt(13.0, 14.0)),
    ];
    let raw = RawOutline { width: 0, height: 0, segments };
    let to_font = |p: Pt| at(10 * whole(p).x, -whole(p).y);
    let to_quads = |from: Option<Pt>, c1: Pt, c2: Pt, p: Pt| {
        assert_eq!(from, Some(pt(7.0, 8.0)));
        vec![(whole(c1), whole(c2)), (at(0, 0), whole(p))]
    };
    let outline = build_glyph_outline(&raw, to_font, to_quads, 1);
    assert_eq!(
        outline.contours,
        vec![vec![
            on(10, -2), on(30, -4), off(50, -6), on(70, -8), off(9, 10), on(11, 12), off(0, 0),
            on(13, 14),
        ]]
    );
}

#[test]
fn a_cubic_curve_may_begin_at_the_origin() {
    let segments = vec![
        Seg::CubicTo(pt(1.0, 1.0), pt(2.0, 2.0), pt(3.0, 3.0)),
        Seg::MoveTo(pt(4.0, 4.0)),
    ];
    let raw = RawOutline { width: 0, height: 0, segments };
    let to_quads = |from: Option<Pt>, c1: Pt, _: Pt, p: Pt| {
        assert_eq!(from, None);
        vec![(whole(c1), whole(p))]
    };
    let outline = build_glyph_outline(&raw, whole, to_quads, 1);
    assert_eq!(outline.contours, vec![vec![off(1, 1), on(3, 3)], vec![on(4, 4)]]);
}

#[test]
fn statistics_match_the_drawing() {
    let segments = vec![
        Seg::MoveTo(pt(0.0, 0.0)),
        Seg::QuadTo(pt(1.0, 1.0), pt(2.0, 0.0)),
        Seg::QuadTo(pt(3.0, 1.0), pt(4.0, 0.0)),
        Seg::Close,
        Seg::MoveTo(pt(9.0, 9.0)),
        Seg::LineTo(pt(8.0, 8.0)),
    ];
    let raw = RawOutline { width: 0, height: 0, segments };
    let s = summarize(&raw);
    let outline = build_glyph_outline(&raw, whole, no_quads, 9);
    assert_eq!(outline.contours.len(), s.contours);
    assert_eq!(outline.point_count(), s.points);
    assert_eq!(outline.on_curve_count(), s.points - s.quad_segments);
    assert_eq!((s.contours, s.points, s.quad_segments), (2, 7, 2));
    for contour in &outline.contours {
        assert!(contour[0].on_curve);
        assert!(contour[contour.len() - 1].on_curve);
    }
}

#[test]
fn closing_a_contour_changes_nothing() {
    let segments = vec![
        Seg::MoveTo(pt(0.0, 0.0)),
        Seg::LineTo(pt(5.0, 0.0)),
        Seg::CubicTo(pt(6.0, 1.0), pt(7.0, 2.0), pt(8.0, 3.0)),
        Seg::MoveTo(pt(9.0, 9.0)),
        Seg::QuadTo(pt(1.0, 1.0), pt(2.0, 0.0)),
    ];
    let mut closed = vec![Seg::Close];
    for segment in &segments {
        closed.push(*segment);
        closed.push(Seg::Close);
    }
    let draw = |segments: Vec<Seg>| {
        let raw = RawOutline { width: 0, height: 0, segments };
        let to_quads = |from: Option<Pt>, c1: Pt, _: Pt, p: Pt| {
            vec![(whole(from.unwrap()), whole(c1)), (at(0, 0), whole(p))]
        };
        build_glyph_outline(&raw, whole, to_quads, 7)
    };
    let (open, shut) = (draw(segments), draw(closed));
    assert_eq!(open.contours, shut.contours);
    assert_eq!(open.advance_width, shut.advance_width);
}

#[test]
fn outlines_are_replayed_as_paths() {
    let outline = GlyphOutline {
        contours: vec![
            vec![on(0, 0), on(10, -5), off(15, 5), on(10, 10)],
            vec![],
            vec![on(7, 7)],
        ],
        advance_width: 0,
    };
    let path = outline_to_bezpath(&outline);
    let elements: Vec<kurbo::PathEl> = path.elements().to_vec();
    let p = |x: f64, y: f64| kurbo::Point::new(x, y);
    assert_eq!(
        elements,
        vec![
            kurbo::PathEl::MoveTo(p(0.0, 0.0)),
            kurbo::PathEl::LineTo(p(10.0, -5.0)),
            kurbo::PathEl::QuadTo(p(15.0, 5.0), p(10.0, 10.0)),
            kurbo::PathEl::ClosePath,
            kurbo::PathEl::MoveTo(p(7.0, 7.0)),
            kurbo::PathEl::ClosePath,
        ]
    );
}

#[test]
fn an_empty_outline_is_an_empty_path() {
    let outline = GlyphOutline { contours: vec![], advance_width: 3 };
    assert!(outline_to_bezpath(&outline).elements().is_empty());
}
