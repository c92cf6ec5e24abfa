use iconpacker::single::{max_single, min_single};
use iconpacker::svg::{
    flatten_tree, parse_svg_outline, parse_svg_raw, points_fit, summarize, summarize_parsed, Pt,
    RawOutline, Seg,
};

fn pt(x: f32, y: f32) -> Pt {
    Pt { x: x.to_bits(), y: y.to_bits() }
}

fn svg(body: &str) -> String {
    format!(
        "<svg xmlns=\"http://www.w3.org/2000/svg\" width=\"24\" height=\"48\">{}</svg>",
        body
    )
}

#[test]
fn a_path_is_read_as_it_stands() {
    let raw = parse_svg_raw(&svg("<path d=\"M1 2 L3 4 Q5 6 7 8 C1 1 2 2 3 3 Z\"/>")).unwrap();
    assert_eq!(raw.width, 24f32.to_bits());
    assert_eq!(raw.height, 48f32.to_bits());
    assert_eq!(
        raw.segments,
        vec![
            Seg::MoveTo(pt(1.0, 2.0)),
            Seg::LineTo(pt(3.0, 4.0)),
            Seg::QuadTo(pt(5.0, 6.0), pt(7.0, 8.0)),
            Seg::CubicTo(pt(1.0, 1.0), pt(2.0, 2.0), pt(3.0, 3.0)),
            Seg::Close,
        ]
    );
}

#[test]
fn transforms_are_applied() {
    let body = "<g transform=\"translate(10 20)\"><path transform=\"scale(2)\" d=\"M0 0 L1 3\"/></g>";
    let raw = parse_svg_raw(&svg(body)).unwrap();
    assert_eq!(raw.segments, vec![Seg::MoveTo(pt(10.0, 20.0)), Seg::LineTo(pt(12.0, 26.0))]);
    let body = "<path transform=\"scale(2)\" d=\"M1 1 Q2 3 4 5 C1 2 3 4 5 6 Z\"/>";
    assert_eq!(
        parse_svg_raw(&svg(body)).unwrap().segments,
        vec![
            Seg::MoveTo(pt(2.0, 2.0)),
            Seg::QuadTo(pt(4.0, 6.0), pt(8.0, 10.0)),
            Seg::CubicTo(pt(2.0, 4.0), pt(6.0, 8.0), pt(10.0, 12.0)),
            Seg::Close,
        ]
    );
}

#[test]
fn groups_are_flattened_in_drawing_order() {
    let body = "<g><path d=\"M0 0 L1 0\"/><g opacity=\"0.5\"><path d=\"M2 0 L3 0\"/></g></g><path d=\"M4 0 L5 0\"/>";
    let raw = parse_svg_raw(&svg(body)).unwrap();
    let moves: Vec<Seg> =
        raw.segments.iter().copied().filter(|s| matches!(s, Seg::MoveTo(_))).collect();
    assert_eq!(
        moves,
        vec![Seg::MoveTo(pt(0.0, 0.0)), Seg::MoveTo(pt(2.0, 0.0)), Seg::MoveTo(pt(4.0, 0.0))]
    );
}

#[test]
fn shapes_become_paths() {
    let raw = parse_svg_raw(&svg("<rect x=\"1\" y=\"2\" width=\"3\" height=\"4\"/>")).unwrap();
    assert_eq!(
        raw.segments,
        vec![
            Seg::MoveTo(pt(1.0, 2.0)),
            Seg::LineTo(pt(4.0, 2.0)),
            Seg::LineTo(pt(4.0, 6.0)),
            Seg::LineTo(pt(1.0, 6.0)),
            Seg::Close,
        ]
    );
}

#[test]
fn images_and_text_are_skipped() {
    let body = "<image href=\"nowhere.png\" width=\"5\" height=\"5\"/><text x=\"1\" y=\"9\">hi</text><path d=\"M0 0 L1 0\"/>";
    let raw = parse_svg_raw(&svg(body)).unwrap();
    assert_eq!(raw.segments.len(), 2);
}

#[test]
fn text_that_is_no_svg_is_an_error() {
    assert!(parse_svg_raw("hello").is_err());
    assert!(parse_svg_outline("<svg").is_err());
    let message = parse_svg_raw("<html/>").unwrap_err();
    let expected = match usvg::Tree::from_str("<html/>", &usvg::Options::default()) {
        Ok(_) => panic!("parsed"),
        Err(e) => e.to_string(),
    };
    assert_eq!(message, expected);
}

#[test]
fn errors_are_those_of_usvg() {
    let texts = [
        "",
        "<svg",
        "<g xmlns=\"http://www.w3.org/2000/svg\"/>",
        "<svg xmlns=\"http://www.w3.org/2000/svg\" width=\"0\" height=\"5\"/>",
        "<svg xmlns=\"http://www.w3.org/2000/svg\" width=\"-1\" height=\"5\" viewBox=\"0 0 1 1\"/>",
    ];
    for text in texts {
        let expected = match usvg::Tree::from_str(text, &usvg::Options::default()) {
            Ok(_) => panic!("parsed"),
            Err(e) => e.to_string(),
        };
        assert_eq!(parse_svg_raw(text).unwrap_err(), expected);
        assert_eq!(parse_svg_outline(text).unwrap_err(), expected);
    }
}

#[test]
fn a_parsed_tree_is_flattened() {
    let text = svg("<path d=\"M1 1 L2 2\"/>");
    let tree = usvg::Tree::from_str(&text, &usvg::Options::default()).unwrap();
    let raw = flatten_tree(&tree);
    assert_eq!(raw.segments, parse_svg_raw(&text).unwrap().segments);
    assert_eq!((raw.width, raw.height), (24f32.to_bits(), 48f32.to_bits()));
}

#[test]
fn statistics_of_an_outline() {
    let raw = RawOutline {
        width: 24f32.to_bits(),
        height: 12f32.to_bits(),
        segments: vec![
            Seg::MoveTo(pt(0.0, 1.0)),
            Seg::LineTo(pt(-4.5, 2.0)),
            Seg::QuadTo(pt(9.0, 9.0), pt(3.0, 3.0)),
            Seg::Close,
            Seg::MoveTo(pt(5.0, -0.5)),
            Seg::CubicTo(pt(1.0, 1.0), pt(2.0, 20.0), pt(3.0, 3.0)),
        ],
    };
    let s = summarize(&raw);
    assert_eq!(f32::from_bits(s.svg_width), 24.0);
    assert_eq!(f32::from_bits(s.svg_height), 12.0);
    assert_eq!(s.contours, 2);
    assert_eq!(s.points, 8);
    assert_eq!((s.line_segments, s.quad_segments, s.cubic_segments), (1, 1, 1));
    assert_eq!(f32::from_bits(s.bbox_min_x), -4.5);
    assert_eq!(f32::from_bits(s.bbox_min_y), -0.5);
    assert_eq!(f32::from_bits(s.bbox_max_x), 9.0);
    assert_eq!(f32::from_bits(s.bbox_max_y), 20.0);
}

#[test]
fn statistics_of_two_outlines_add_up() {
    let a = vec![Seg::MoveTo(pt(1.0, -2.0)), Seg::QuadTo(pt(3.0, 4.0), pt(5.0, 6.0)), Seg::Close];
    let b = vec![Seg::MoveTo(pt(-7.0, 0.5)), Seg::LineTo(pt(2.0, f32::NAN))];
    let both: Vec<Seg> = a.iter().chain(b.iter()).copied().collect();
    let stats = |segments: Vec<Seg>| summarize(&RawOutline { width: 0, height: 0, segments });
    let (s, t, u) = (stats(a), stats(b), stats(both));
    assert_eq!(u.contours, s.contours + t.contours);
    assert_eq!(u.points, s.points + t.points);
    assert_eq!(u.line_segments, s.line_segments + t.line_segments);
    assert_eq!(u.quad_segments, s.quad_segments + t.quad_segments);
    assert_eq!(u.cubic_segments, s.cubic_segments + t.cubic_segments);
    assert_eq!(u.bbox_min_x, min_single(s.bbox_min_x, t.bbox_min_x));
    assert_eq!(u.bbox_min_y, min_single(s.bbox_min_y, t.bbox_min_y));
    assert_eq!(u.bbox_max_x, max_single(s.bbox_max_x, t.bbox_max_x));
    assert_eq!(u.bbox_max_y, max_single(s.bbox_max_y, t.bbox_max_y));
    assert_eq!(f32::from_bits(u.bbox_min_x), -7.0);
}

#[test]
fn outlines_whose_points_can_be_counted() {
    assert!(points_fit(&RawOutline { width: 0, height: 0, segments: vec![Seg::Close; 9] }));
}

#[test]
fn statistics_of_nothing() {
    let s = summarize(&RawOutline { width: 0, height: 0, segments: vec![Seg::Close] });
    assert_eq!(s.points, 0);
    assert_eq!(f32::from_bits(s.bbox_min_x), f32::INFINITY);
    assert_eq!(f32::from_bits(s.bbox_min_y), f32::INFINITY);
    assert_eq!(f32::from_bits(s.bbox_max_x), f32::NEG_INFINITY);
    assert_eq!(f32::from_bits(s.bbox_max_y), f32::NEG_INFINITY);
}

#[test]
fn parsing_for_statistics_alone() {
    let s = parse_svg_outline(&svg("<path d=\"M1 2 L3 4 L1 4 Z\"/>")).unwrap();
    assert_eq!((s.contours, s.points, s.line_segments), (1, 3, 2));
    assert_eq!(f32::from_bits(s.bbox_max_y), 4.0);
}

#[test]
fn statistics_are_those_of_what_was_parsed() {
    let text = svg("<path d=\"M1 2 L3 4 Q5 6 7 8 Z\"/>");
    let parsed = parse_svg_raw(&text);
    let expected = summarize(&parse_svg_raw(&text).unwrap());
    assert_eq!(summarize_parsed(parsed), Ok(expected));
    assert_eq!(parse_svg_outline(&text), Ok(expected));
    assert_eq!(summarize_parsed(Err("no".to_string())), Err("no".to_string()));
}

#[test]
fn single_numbers_are_ordered_as_floats_are() {
    let values = [
        0.0f32, 1.0, -1.0, 0.5, -0.5, 3.4e38, -3.4e38, 1.0e-45, -1.0e-45, f32::INFINITY,
        f32::NEG_INFINITY, 24.0, 24.000002,
    ];
    for a in values {
        for b in values {
            assert_eq!(f32::from_bits(min_single(a.to_bits(), b.to_bits())), a.min(b));
            assert_eq!(f32::from_bits(max_single(a.to_bits(), b.to_bits())), a.max(b));
        }
        let nan = f32::NAN.to_bits();
        assert_eq!(min_single(nan, a.to_bits()), a.to_bits());
        assert_eq!(min_single(a.to_bits(), nan), a.to_bits());
        assert_eq!(max_single(nan, a.to_bits()), a.to_bits());
        assert_eq!(max_single(a.to_bits(), nan | 0x8000_0000), a.to_bits());
    }
}
