//! Parsing a single SVG file's geometry with `usvg`.
//!
//! [`parse_svg_raw`] gives the flattened path data, with absolute transforms applied, as a plain
//! [`RawOutline`]; [`summarize`] computes the statistics shown for it; [`plan_curves`] lists what
//! there is to draw. Coordinates are single-precision numbers, held as bit patterns (see
//! [`crate::single`]).

use vstd::prelude::*;

use crate::single::{extremes_bound, extremes_of_concat, greater, greatest, least, lesser};
use crate::single::{max_single, min_single, nan, rank, tight_extremes};
use crate::single::{INFINITY, NEG_INFINITY};
use usvg::tiny_skia_path::{PathSegment, Point};

verus! {

/// A 2D point in SVG user-space (y-down, whatever units the viewBox uses).
#[derive(Clone, Copy, Debug, PartialEq, Eq, Structural)]
pub struct Pt {
    pub x: u32,
    pub y: u32,
}

/// One path command, already flattened out of usvg's shape/group/transform tree into plain
/// SVG-space coordinates.
#[derive(Clone, Copy, Debug, PartialEq, Eq, Structural)]
pub enum Seg {
    MoveTo(Pt),
    LineTo(Pt),
    QuadTo(Pt, Pt),
    CubicTo(Pt, Pt, Pt),
    Close,
}

/// The full flattened geometry of one SVG file: its resolved size (from viewBox/width/height)
/// plus every path command across every <path>, <circle>, <rect>, etc. it contained, in drawing
/// order.
#[derive(Clone, Debug)]
pub struct RawOutline {
    pub width: u32,
    pub height: u32,
    pub segments: Vec<Seg>,
}

// ---------------------------------------------------------------------------
// The tree that usvg builds
// ---------------------------------------------------------------------------

/// A parsed SVG file.
#[verifier::external_type_specification]
#[verifier::external_body]
pub struct ExTree(usvg::Tree);

/// A group of elements.
#[verifier::external_type_specification]
#[verifier::external_body]
pub struct ExGroup(usvg::Group);

/// One element.
#[verifier::external_type_specification]
#[verifier::external_body]
pub struct ExNode(usvg::Node);

/// A shape.
#[verifier::external_type_specification]
#[verifier::external_body]
pub struct ExPath(usvg::Path);

/// A point of a shape, before any transform.
#[verifier::external_type_specification]
#[verifier::external_body]
pub struct ExPoint(usvg::tiny_skia_path::Point);

/// What an element of an SVG file holds.
pub enum SvgNode {
    /// Elements, in drawing order.
    Group(Seq<SvgNode>),
    /// A shape, as path commands in absolute coordinates.
    Path(Seq<Seg>),
    /// An image or text.
    Other,
}

/// An element by what it is.
pub enum NodeRef<'a> {
    Group(&'a usvg::Group),
    Path(&'a usvg::Path),
    Other,
}

/// One command of a shape's own path, before any transform.
pub enum PathStep {
    MoveTo(Point),
    LineTo(Point),
    QuadTo(Point, Point),
    CubicTo(Point, Point, Point),
    Close,
}

/// What an element holds.
pub uninterp spec fn node_contents(node: usvg::Node) -> SvgNode;

/// The elements that a group holds.
pub uninterp spec fn group_contents(group: usvg::Group) -> Seq<SvgNode>;

/// The commands of a shape's own path.
pub uninterp spec fn path_steps(path: usvg::Path) -> Seq<PathStep>;

/// Where a shape's absolute transform puts a point.
pub uninterp spec fn mapped_point(path: usvg::Path, p: Point) -> Pt;

/// What a shape's absolute transform makes of a command: a command of the same kind, each of its
/// points transformed.
pub open spec fn mapped_step(path: usvg::Path, step: PathStep) -> Seg {
    match step {
        PathStep::MoveTo(p) => Seg::MoveTo(mapped_point(path, p)),
        PathStep::LineTo(p) => Seg::LineTo(mapped_point(path, p)),
        PathStep::QuadTo(c, p) => Seg::QuadTo(mapped_point(path, c), mapped_point(path, p)),
        PathStep::CubicTo(c1, c2, p) => Seg::CubicTo(
            mapped_point(path, c1),
            mapped_point(path, c2),
            mapped_point(path, p),
        ),
        PathStep::Close => Seg::Close,
    }
}

/// The path commands that a shape holds, in absolute coordinates: one for each command of its own
/// path.
pub open spec fn path_contents(path: usvg::Path) -> Seq<Seg> {
    path_steps(path).map_values(|step: PathStep| mapped_step(path, step))
}

/// The elements that a parsed file holds.
pub uninterp spec fn tree_contents(tree: usvg::Tree) -> Seq<SvgNode>;

/// The resolved width and height of a parsed file.
pub uninterp spec fn tree_size(tree: usvg::Tree) -> (u32, u32);

/// The text of the error that `usvg::Tree::from_str` returns for a text, where it returns one.
pub uninterp spec fn svg_error(text: Seq<char>) -> Option<Seq<char>>;

/// Whether a parsed file is one that `usvg::Tree::from_str` gives for a text, whatever image
/// files it finds.
pub uninterp spec fn parsed_from(tree: usvg::Tree, text: Seq<char>) -> bool;

/// Whether two patterns are the same, or both stand for no number.
pub open spec fn same_number(a: u32, b: u32) -> bool {
    a == b || nan(a) && nan(b)
}

/// Whether two points have the same coordinates.
pub open spec fn same_point(a: Pt, b: Pt) -> bool {
    same_number(a.x, b.x) && same_number(a.y, b.y)
}

/// Whether two path commands are the same, up to which pattern stands for no number.
pub open spec fn same_segment(a: Seg, b: Seg) -> bool {
    match (a, b) {
        (Seg::MoveTo(p), Seg::MoveTo(q)) => same_point(p, q),
        (Seg::LineTo(p), Seg::LineTo(q)) => same_point(p, q),
        (Seg::QuadTo(c, p), Seg::QuadTo(d, q)) => same_point(c, d) && same_point(p, q),
        (Seg::CubicTo(c1, c2, p), Seg::CubicTo(d1, d2, q)) => same_point(c1, d1) && same_point(
            c2,
            d2,
        ) && same_point(p, q),
        (Seg::Close, Seg::Close) => true,
        _ => false,
    }
}

/// Whether two runs of path commands are the same, up to which pattern stands for no number.
pub open spec fn same_segments(a: Seq<Seg>, b: Seq<Seg>) -> bool {
    a.len() == b.len() && forall|i: int| 0 <= i < a.len() ==> same_segment(#[trigger] a[i], b[i])
}

/// `usvg::Tree::from_str` with `usvg::Options::default()`: parses an SVG file. Whether it fails,
/// and with which error, depends on the text alone: on its XML, on its elements, and on the
/// width, height and viewBox of the outermost one. Image files that the text names are only read
/// behind the last of these tests; so the tree depends on them too, and no more is claimed of it
/// than that it was made of this text. An error comes as its text.
#[verifier::external_body]
fn parse_tree(text: &str) -> (parsed: Result<usvg::Tree, String>)
    ensures
        (match parsed {
            Ok(tree) => svg_error(text@) == None::<Seq<char>> && parsed_from(tree, text@),
            Err(e) => svg_error(text@) == Some(e@),
        }),
{
    usvg::Tree::from_str(text, &usvg::Options::default()).map_err(|e| e.to_string())
}

/// `usvg::Tree::size`: the resolved size, as bit patterns of the width and the height.
#[verifier::external_body]
fn size_of_tree(tree: &usvg::Tree) -> (size: (u32, u32))
    ensures
        size == tree_size(*tree),
{
    (tree.size().width().to_bits(), tree.size().height().to_bits())
}

/// `usvg::Tree::root`: the group of all elements of the file.
#[verifier::external_body]
fn root_of_tree(tree: &usvg::Tree) -> (root: &usvg::Group)
    ensures
        group_contents(*root) == tree_contents(*tree),
{
    tree.root()
}

/// `usvg::Group::children`: the elements of a group, in drawing order.
#[verifier::external_body]
fn children_of_group(group: &usvg::Group) -> (children: &[usvg::Node])
    ensures
        children@.len() == group_contents(*group).len(),
        forall|i: int|
            0 <= i < children@.len() ==> node_contents(#[trigger] children@[i]) == group_contents(
                *group,
            )[i],
{
    group.children()
}

/// The variants of `usvg::Node`: a group and a shape hold what the node holds; the other two
/// variants are an image and text.
#[verifier::external_body]
fn node_ref(node: &usvg::Node) -> (r: NodeRef<'_>)
    ensures
        node_contents(*node) == (match r {
            NodeRef::Group(group) => SvgNode::Group(group_contents(*group)),
            NodeRef::Path(path) => SvgNode::Path(path_contents(*path)),
            NodeRef::Other => SvgNode::Other,
        }),
{
    match node {
        usvg::Node::Group(group) => NodeRef::Group(group),
        usvg::Node::Path(path) => NodeRef::Path(path),
        usvg::Node::Image(_) => NodeRef::Other,
        usvg::Node::Text(_) => NodeRef::Other,
    }
}

/// The segments of `usvg::Path::data`, in order.
#[verifier::external_body]
fn steps_of_path(path: &usvg::Path) -> (steps: Vec<PathStep>)
    ensures
        steps@ == path_steps(*path),
{
    let segments = path.data().segments();
    segments.map(|segment| match segment {
        PathSegment::MoveTo(p) => PathStep::MoveTo(p),
        PathSegment::LineTo(p) => PathStep::LineTo(p),
        PathSegment::QuadTo(c, p) => PathStep::QuadTo(c, p),
        PathSegment::CubicTo(c1, c2, p) => PathStep::CubicTo(c1, c2, p),
        PathSegment::Close => PathStep::Close,
    }).collect()
}

/// `map_point` of a path's `abs_transform`: where the transform puts a point, as bit patterns.
/// Which pattern stands for a coordinate that is no number is left open.
#[verifier::external_body]
fn map_point(path: &usvg::Path, p: Point) -> (mapped: Pt)
    ensures
        same_point(mapped, mapped_point(*path, p)),
{
    let mut p = p;
    path.abs_transform().map_point(&mut p);
    Pt { x: p.x.to_bits(), y: p.y.to_bits() }
}

// ---------------------------------------------------------------------------
// Flattening
// ---------------------------------------------------------------------------

/// The path commands of an element, in drawing order. Images and text have none.
pub open spec fn node_segments(node: SvgNode) -> Seq<Seg>
    decreases node,
{
    match node {
        SvgNode::Group(children) => nodes_segments(children),
        SvgNode::Path(segments) => segments,
        SvgNode::Other => Seq::empty(),
    }
}

/// The path commands of elements, in drawing order.
pub open spec fn nodes_segments(nodes: Seq<SvgNode>) -> Seq<Seg>
    decreases nodes,
{
    if nodes.len() == 0 {
        Seq::empty()
    } else {
        nodes_segments(nodes.drop_last()) + node_segments(nodes.last())
    }
}

/// Whether an outline is the geometry of a parsed file.
pub open spec fn outline_of_tree(raw: RawOutline, tree: usvg::Tree) -> bool {
    &&& raw.width == tree_size(tree).0
    &&& raw.height == tree_size(tree).1
    &&& same_segments(raw.segments@, nodes_segments(tree_contents(tree)))
}

proof fn same_segments_concat(a: Seq<Seg>, b: Seq<Seg>, c: Seq<Seg>, d: Seq<Seg>)
    requires
        same_segments(a, b),
        same_segments(c, d),
    ensures
        same_segments(a + c, b + d),
{
}

/// Puts the commands of a shape's own path through its absolute transform.
fn segments_of_path(path: &usvg::Path) -> (segments: Vec<Seg>)
    ensures
        same_segments(segments@, path_contents(*path)),
{
    let steps: Vec<PathStep> = steps_of_path(path);
    let mut segments: Vec<Seg> = Vec::new();
    let mut i: usize = 0;
    while i < steps.len()
        invariant
            i <= steps.len(),
            steps@ == path_steps(*path),
            segments@.len() == i,
            forall|k: int|
                0 <= k < i ==> same_segment(#[trigger] segments@[k], path_contents(*path)[k]),
        decreases steps.len() - i,
    {
        let segment: Seg = match &steps[i] {
            PathStep::MoveTo(p) => Seg::MoveTo(map_point(path, *p)),
            PathStep::LineTo(p) => Seg::LineTo(map_point(path, *p)),
            PathStep::QuadTo(c, p) => Seg::QuadTo(map_point(path, *c), map_point(path, *p)),
            PathStep::CubicTo(c1, c2, p) => Seg::CubicTo(
                map_point(path, *c1),
                map_point(path, *c2),
                map_point(path, *p),
            ),
            PathStep::Close => Seg::Close,
        };
        segments.push(segment);
        i += 1;
    }
    segments
}

/// Appends the path commands of a group's elements.
fn visit_children(group: &usvg::Group, segments: &mut Vec<Seg>)
    ensures
        exists|added: Seq<Seg>|
            same_segments(added, nodes_segments(group_contents(*group))) && final(segments)@
                == old(segments)@ + added,
    decreases group_contents(*group),
{
    let children = children_of_group(group);
    let ghost nodes = group_contents(*group);
    let ghost mut added: Seq<Seg> = Seq::empty();
    let mut i: usize = 0;
    assert(nodes.take(0) =~= Seq::empty());
    assert(segments@ =~= old(segments)@ + added);
    while i < children.len()
        invariant
            i <= children.len(),
            nodes == group_contents(*group),
            children@.len() == nodes.len(),
            forall|k: int|
                0 <= k < children@.len() ==> node_contents(#[trigger] children@[k]) == nodes[k],
            same_segments(added, nodes_segments(nodes.take(i as int))),
            segments@ == old(segments)@ + added,
        decreases children.len() - i,
    {
        let child: &usvg::Node = &children[i];
        let ghost before = segments@;
        assert(decreases_to!(nodes => nodes[i as int]));
        visit(child, segments);
        proof {
            let more = choose|more: Seq<Seg>|
                same_segments(more, node_segments(node_contents(*child))) && segments@ == before
                    + more;
            assert(nodes.take(i + 1).drop_last() =~= nodes.take(i as int));
            same_segments_concat(
                added,
                nodes_segments(nodes.take(i as int)),
                more,
                node_segments(nodes[i as int]),
            );
            assert(segments@ =~= old(segments)@ + (added + more));
            added = added + more;
        }
        i += 1;
    }
    assert(nodes.take(i as int) =~= nodes);
}

/// Appends the path commands of an element and all that it contains.
fn visit(node: &usvg::Node, segments: &mut Vec<Seg>)
    ensures
        exists|added: Seq<Seg>|
            same_segments(added, node_segments(node_contents(*node))) && final(segments)@ == old(
                segments,
            )@ + added,
    decreases node_contents(*node),
{
    match node_ref(node) {
        NodeRef::Group(group) => {
            assert(decreases_to!(node_contents(*node) => node_contents(*node)->Group_0));
            visit_children(group, segments);
        },
        NodeRef::Path(path) => {
            let mut added: Vec<Seg> = segments_of_path(path);
            let ghost more = added@;
            segments.append(&mut added);
            assert(segments@ =~= old(segments)@ + more);
        },
        // Images and text aren't expected in icon SVGs; skip rather than error.
        NodeRef::Other => {
            assert(segments@ =~= old(segments)@ + Seq::<Seg>::empty());
        },
    }
}

/// Walks a usvg tree, flattening every shape into path commands with each path's absolute
/// transform already applied.
pub fn flatten_tree(tree: &usvg::Tree) -> (raw: RawOutline)
    ensures
        outline_of_tree(raw, *tree),
{
    let (width, height) = size_of_tree(tree);
    let mut segments: Vec<Seg> = Vec::new();
    visit_children(root_of_tree(tree), &mut segments);
    proof {
        let added = choose|added: Seq<Seg>|
            same_segments(added, nodes_segments(tree_contents(*tree))) && segments@ == Seq::<
                Seg,
            >::empty() + added;
        assert(segments@ =~= added);
    }
    RawOutline { width, height, segments }
}

/// Whether an outline is the geometry of a file that a text is parsed into.
pub open spec fn outline_of_text(raw: RawOutline, text: Seq<char>) -> bool {
    exists|tree: usvg::Tree| parsed_from(tree, text) && #[trigger] outline_of_tree(raw, tree)
}

/// Whether an outcome is one of parsing a text: the geometry of a file that the text is parsed
/// into, or usvg's error where usvg fails on the text.
pub open spec fn parse_of_text(parsed: Result<RawOutline, String>, text: Seq<char>) -> bool {
    match parsed {
        Ok(raw) => svg_error(text) is None && outline_of_text(raw, text),
        Err(e) => svg_error(text) == Some(e@),
    }
}

/// Parses an SVG file into its flattened geometry: that of the tree that usvg makes of the text.
/// It fails exactly where usvg does, with usvg's error. Which tree the text gives is left to
/// usvg; it also depends on the image files that the text names.
pub fn parse_svg_raw(text: &str) -> (parsed: Result<RawOutline, String>)
    ensures
        parse_of_text(parsed, text@),
{
    match parse_tree(text) {
        Ok(tree) => {
            let raw: RawOutline = flatten_tree(&tree);
            assert(outline_of_tree(raw, tree));
            Ok(raw)
        },
        Err(e) => Err(e),
    }
}

// ---------------------------------------------------------------------------
// Statistics
// ---------------------------------------------------------------------------

/// Statistics of an SVG file.
#[derive(Clone, Copy, Debug, PartialEq, Eq, Structural)]
pub struct OutlineSummary {
    /// SVG's resolved viewBox/width-height size
    pub svg_width: u32,
    pub svg_height: u32,
    /// number of separate subpaths (contours), e.g. "O" has 2: outer + inner
    pub contours: usize,
    pub points: usize,
    pub line_segments: usize,
    pub quad_segments: usize,
    pub cubic_segments: usize,
    pub bbox_min_x: u32,
    pub bbox_min_y: u32,
    pub bbox_max_x: u32,
    pub bbox_max_y: u32,
}

/// The points of a path command, control points first.
pub open spec fn segment_points(segment: Seg) -> Seq<Pt> {
    match segment {
        Seg::MoveTo(p) => seq![p],
        Seg::LineTo(p) => seq![p],
        Seg::QuadTo(c, p) => seq![c, p],
        Seg::CubicTo(c1, c2, p) => seq![c1, c2, p],
        Seg::Close => Seq::empty(),
    }
}

/// The points of path commands, one after the other.
pub open spec fn outline_points(segments: Seq<Seg>) -> Seq<Pt>
    decreases segments.len(),
{
    if segments.len() == 0 {
        Seq::empty()
    } else {
        outline_points(segments.drop_last()) + segment_points(segments.last())
    }
}

/// The x coordinates of points.
pub open spec fn xs(points: Seq<Pt>) -> Seq<u32> {
    points.map_values(|p: Pt| p.x)
}

/// The y coordinates of points.
pub open spec fn ys(points: Seq<Pt>) -> Seq<u32> {
    points.map_values(|p: Pt| p.y)
}

/// How many path commands start a contour.
pub open spec fn move_count(segments: Seq<Seg>) -> nat {
    segments.filter(|s: Seg| s is MoveTo).len()
}

/// How many path commands are straight lines.
pub open spec fn line_count(segments: Seq<Seg>) -> nat {
    segments.filter(|s: Seg| s is LineTo).len()
}

/// How many path commands are quadratic curves.
pub open spec fn quad_count(segments: Seq<Seg>) -> nat {
    segments.filter(|s: Seg| s is QuadTo).len()
}

/// How many path commands are cubic curves.
pub open spec fn cubic_count(segments: Seq<Seg>) -> nat {
    segments.filter(|s: Seg| s is CubicTo).len()
}

/// Whether a summary holds the bounding box of points, control points among them.
pub open spec fn bbox_of(s: OutlineSummary, points: Seq<Pt>) -> bool {
    &&& s.bbox_min_x == least(xs(points))
    &&& s.bbox_min_y == least(ys(points))
    &&& s.bbox_max_x == greatest(xs(points))
    &&& s.bbox_max_y == greatest(ys(points))
}

/// Whether a summary holds the counts and the bounding box of path commands.
pub open spec fn summary_of(s: OutlineSummary, segments: Seq<Seg>) -> bool {
    &&& s.contours == move_count(segments)
    &&& s.points == outline_points(segments).len()
    &&& s.line_segments == line_count(segments)
    &&& s.quad_segments == quad_count(segments)
    &&& s.cubic_segments == cubic_count(segments)
    &&& bbox_of(s, outline_points(segments))
}

proof fn counts_step(segments: Seq<Seg>)
    requires
        segments.len() > 0,
    ensures
        move_count(segments) == move_count(segments.drop_last()) + if segments.last() is MoveTo {
            1nat
        } else {
            0
        },
        line_count(segments) == line_count(segments.drop_last()) + if segments.last() is LineTo {
            1nat
        } else {
            0
        },
        quad_count(segments) == quad_count(segments.drop_last()) + if segments.last() is QuadTo {
            1nat
        } else {
            0
        },
        cubic_count(segments) == cubic_count(segments.drop_last()) + if segments.last() is CubicTo {
            1nat
        } else {
            0
        },
{
    reveal(Seq::filter);
}

/// The commands of an outline are its starts, lines, curves and closing commands, and each adds
/// its own number of points: one for a start or a line, two for a quadratic curve, three for a
/// cubic one.
pub proof fn summary_counts_add_up(segments: Seq<Seg>)
    ensures
        outline_points(segments).len() == move_count(segments) + line_count(segments) + 2
            * quad_count(segments) + 3 * cubic_count(segments),
        segments.len() == move_count(segments) + line_count(segments) + quad_count(segments)
            + cubic_count(segments) + segments.filter(|s: Seg| s is Close).len(),
    decreases segments.len(),
{
    reveal(Seq::filter);
    if segments.len() > 0 {
        summary_counts_add_up(segments.drop_last());
    }
}

proof fn more_segments_more_points(segments: Seq<Seg>, k: int)
    requires
        0 <= k <= segments.len(),
    ensures
        outline_points(segments.take(k)).len() <= outline_points(segments).len(),
    decreases segments.len(),
{
    if k == segments.len() {
        assert(segments.take(k) =~= segments);
    } else {
        more_segments_more_points(segments.drop_last(), k);
        assert(segments.drop_last().take(k) =~= segments.take(k));
    }
}

fn track(p: Pt, s: &mut OutlineSummary, points: Ghost<Seq<Pt>>)
    requires
        bbox_of(*old(s), points@),
    ensures
        bbox_of(*final(s), points@.push(p)),
        final(s).svg_width == old(s).svg_width,
        final(s).svg_height == old(s).svg_height,
        final(s).contours == old(s).contours,
        final(s).points == old(s).points,
        final(s).line_segments == old(s).line_segments,
        final(s).quad_segments == old(s).quad_segments,
        final(s).cubic_segments == old(s).cubic_segments,
{
    s.bbox_min_x = min_single(s.bbox_min_x, p.x);
    s.bbox_min_y = min_single(s.bbox_min_y, p.y);
    s.bbox_max_x = max_single(s.bbox_max_x, p.x);
    s.bbox_max_y = max_single(s.bbox_max_y, p.y);
    assert(xs(points@.push(p)).drop_last() =~= xs(points@));
    assert(ys(points@.push(p)).drop_last() =~= ys(points@));
}

/// Summarizes raw SVG-space geometry for the human/--json table (stats only, no font-unit
/// conversion).
pub fn summarize(raw: &RawOutline) -> (s: OutlineSummary)
    requires
        outline_points(raw.segments@).len() <= usize::MAX,
    ensures
        s.svg_width == raw.width,
        s.svg_height == raw.height,
        summary_of(s, raw.segments@),
{
    let mut s = OutlineSummary {
        svg_width: raw.width,
        svg_height: raw.height,
        contours: 0,
        points: 0,
        line_segments: 0,
        quad_segments: 0,
        cubic_segments: 0,
        bbox_min_x: INFINITY,
        bbox_min_y: INFINITY,
        bbox_max_x: NEG_INFINITY,
        bbox_max_y: NEG_INFINITY,
    };
    let ghost segments = raw.segments@;
    let mut i: usize = 0;
    proof {
        assert(segments.take(0) =~= Seq::empty());
        reveal(Seq::filter);
    }
    while i < raw.segments.len()
        invariant
            i <= raw.segments.len(),
            segments == raw.segments@,
            outline_points(segments).len() <= usize::MAX,
            s.svg_width == raw.width,
            s.svg_height == raw.height,
            summary_of(s, segments.take(i as int)),
        decreases raw.segments.len() - i,
    {
        let ghost seen = segments.take(i as int);
        let ghost points = outline_points(seen);
        proof {
            assert(segments.take(i + 1).drop_last() =~= seen);
            counts_step(segments.take(i + 1));
            more_segments_more_points(segments, i + 1);
            summary_counts_add_up(seen);
        }
        match raw.segments[i] {
            Seg::MoveTo(p) => {
                s.contours += 1;
                s.points += 1;
                track(p, &mut s, Ghost(points));
                assert(points.push(p) =~= outline_points(segments.take(i + 1)));
            },
            Seg::LineTo(p) => {
                s.line_segments += 1;
                s.points += 1;
                track(p, &mut s, Ghost(points));
                assert(points.push(p) =~= outline_points(segments.take(i + 1)));
            },
            Seg::QuadTo(c, p) => {
                s.quad_segments += 1;
                s.points += 2;
                track(c, &mut s, Ghost(points));
                track(p, &mut s, Ghost(points.push(c)));
                assert(points.push(c).push(p) =~= outline_points(segments.take(i + 1)));
            },
            Seg::CubicTo(c1, c2, p) => {
                s.cubic_segments += 1;
                s.points += 3;
                track(c1, &mut s, Ghost(points));
                track(c2, &mut s, Ghost(points.push(c1)));
                track(p, &mut s, Ghost(points.push(c1).push(c2)));
                assert(points.push(c1).push(c2).push(p) =~= outline_points(segments.take(i + 1)));
            },
            Seg::Close => {
                assert(points =~= outline_points(segments.take(i + 1)));
            },
        }
        i += 1;
    }
    assert(segments.take(i as int) =~= segments);
    s
}

/// Whether a summary is that of an outline.
pub open spec fn summarizes(s: OutlineSummary, raw: RawOutline) -> bool {
    &&& s.svg_width == raw.width
    &&& s.svg_height == raw.height
    &&& summary_of(s, raw.segments@)
}

/// Whether an outline has more points than `usize` can count.
pub open spec fn vast(raw: RawOutline) -> bool {
    outline_points(raw.segments@).len() > usize::MAX
}

/// Whether `usize` can count the points of an outline.
pub fn points_fit(raw: &RawOutline) -> (fit: bool)
    ensures
        fit == !vast(*raw),
{
    let ghost segments = raw.segments@;
    let mut count: usize = 0;
    let mut i: usize = 0;
    assert(segments.take(0) =~= Seq::empty());
    while i < raw.segments.len()
        invariant
            i <= raw.segments.len(),
            segments == raw.segments@,
            count == outline_points(segments.take(i as int)).len(),
        decreases raw.segments.len() - i,
    {
        proof {
            assert(segments.take(i + 1).drop_last() =~= segments.take(i as int));
            more_segments_more_points(segments, i + 1);
        }
        let added: usize = match raw.segments[i] {
            Seg::MoveTo(_) => 1,
            Seg::LineTo(_) => 1,
            Seg::QuadTo(_, _) => 2,
            Seg::CubicTo(_, _, _) => 3,
            Seg::Close => 0,
        };
        match count.checked_add(added) {
            Some(sum) => {
                count = sum;
            },
            None => {
                return false;
            },
        }
        i += 1;
    }
    assert(segments.take(i as int) =~= segments);
    true
}

/// Whether an outcome is the summary of what parsing gave: of an outline, its summary, unless it
/// has more points than `usize` can count; of an error, the same error.
pub open spec fn summarizes_parse(
    outcome: Result<OutlineSummary, String>,
    parsed: Result<RawOutline, String>,
) -> bool {
    match (parsed, outcome) {
        (Ok(raw), Ok(s)) => !vast(raw) && summarizes(s, raw),
        (Ok(raw), Err(e)) => vast(raw) && e@ == "too many points"@,
        (Err(e), Err(f)) => f@ == e@,
        (Err(_), Ok(_)) => false,
    }
}

/// The summary of what [`parse_svg_raw`] gave.
pub fn summarize_parsed(parsed: Result<RawOutline, String>) -> (outcome: Result<
    OutlineSummary,
    String,
>)
    ensures
        summarizes_parse(outcome, parsed),
{
    match parsed {
        Ok(raw) => {
            if points_fit(&raw) {
                Ok(summarize(&raw))
            } else {
                Err("too many points".to_owned())
            }
        },
        Err(e) => Err(e),
    }
}

/// Whether an outcome is the summary of an outcome of parsing a text.
pub open spec fn summary_of_text(outcome: Result<OutlineSummary, String>, text: Seq<char>) -> bool {
    exists|parsed: Result<RawOutline, String>|
        parse_of_text(parsed, text) && #[trigger] summarizes_parse(outcome, parsed)
}

/// Parse + summarize in one call, for anything that only wants stats: [`summarize_parsed`] of
/// what [`parse_svg_raw`] gives for the text.
pub fn parse_svg_outline(text: &str) -> (outcome: Result<OutlineSummary, String>)
    ensures
        summary_of_text(outcome, text@),
{
    let parsed: Result<RawOutline, String> = parse_svg_raw(text);
    let ghost given = parsed;
    let outcome: Result<OutlineSummary, String> = summarize_parsed(parsed);
    assert(summarizes_parse(outcome, given));
    outcome
}

/// Parsing a text for its statistics fails where parsing it does, with the same error; otherwise
/// it fails only where there are more points than `usize` can count.
pub proof fn statistics_fail_where_parsing_does(
    parsed: Result<RawOutline, String>,
    outcome: Result<OutlineSummary, String>,
    text: Seq<char>,
)
    requires
        parse_of_text(parsed, text),
        summary_of_text(outcome, text),
    ensures
        parsed is Err ==> outcome is Err && outcome->Err_0@ == parsed->Err_0@,
        parsed is Ok && outcome is Err ==> outcome->Err_0@ == "too many points"@,
{
}

/// A shape gives one path command for each command of its own path, of the same kind and with as
/// many points, each put through the shape's absolute transform.
pub proof fn one_command_for_each_step(path: usvg::Path, i: int)
    requires
        0 <= i < path_steps(path).len(),
    ensures
        node_segments(SvgNode::Path(path_contents(path))).len() == path_steps(path).len(),
        node_segments(SvgNode::Path(path_contents(path)))[i] == mapped_step(
            path,
            path_steps(path)[i],
        ),
{
}

proof fn outline_points_of_concat(a: Seq<Seg>, b: Seq<Seg>)
    ensures
        outline_points(a + b) == outline_points(a) + outline_points(b),
    decreases b.len(),
{
    if b.len() == 0 {
        assert(a + b =~= a);
        assert(outline_points(a) + outline_points(b) =~= outline_points(a));
    } else {
        outline_points_of_concat(a, b.drop_last());
        assert((a + b).drop_last() =~= a + b.drop_last());
        assert(outline_points(a + b) =~= outline_points(a) + outline_points(b));
    }
}

/// The statistics of two outlines put together are those of the two put together: the counts add
/// up, and the bounding box is the one around both.
pub proof fn statistics_add_up(
    s: OutlineSummary,
    t: OutlineSummary,
    both: OutlineSummary,
    a: Seq<Seg>,
    b: Seq<Seg>,
)
    requires
        summary_of(s, a),
        summary_of(t, b),
        summary_of(both, a + b),
    ensures
        both.contours == s.contours + t.contours,
        both.points == s.points + t.points,
        both.line_segments == s.line_segments + t.line_segments,
        both.quad_segments == s.quad_segments + t.quad_segments,
        both.cubic_segments == s.cubic_segments + t.cubic_segments,
        both.bbox_min_x == lesser(s.bbox_min_x, t.bbox_min_x),
        both.bbox_min_y == lesser(s.bbox_min_y, t.bbox_min_y),
        both.bbox_max_x == greater(s.bbox_max_x, t.bbox_max_x),
        both.bbox_max_y == greater(s.bbox_max_y, t.bbox_max_y),
{
    Seq::filter_distributes_over_add(a, b, |s: Seg| s is MoveTo);
    Seq::filter_distributes_over_add(a, b, |s: Seg| s is LineTo);
    Seq::filter_distributes_over_add(a, b, |s: Seg| s is QuadTo);
    Seq::filter_distributes_over_add(a, b, |s: Seg| s is CubicTo);
    outline_points_of_concat(a, b);
    let (p, q) = (outline_points(a), outline_points(b));
    assert(xs(p + q) =~= xs(p) + xs(q));
    assert(ys(p + q) =~= ys(p) + ys(q));
    extremes_of_concat(xs(p), xs(q));
    extremes_of_concat(ys(p), ys(q));
}

/// The bounding box that a summary holds encloses every point, control points among them: a
/// coordinate that is a number lies between its least and its greatest.
pub proof fn summary_bbox_encloses(s: OutlineSummary, segments: Seq<Seg>, i: int)
    requires
        summary_of(s, segments),
        0 <= i < outline_points(segments).len(),
    ensures
        ({
            let p = outline_points(segments)[i];
            &&& !nan(p.x) ==> rank(s.bbox_min_x) <= rank(p.x) <= rank(s.bbox_max_x)
            &&& !nan(p.y) ==> rank(s.bbox_min_y) <= rank(p.y) <= rank(s.bbox_max_y)
        }),
{
    let points = outline_points(segments);
    extremes_bound(xs(points));
    extremes_bound(ys(points));
    assert(xs(points)[i] == points[i].x);
    assert(ys(points)[i] == points[i].y);
}

// ---------------------------------------------------------------------------
// What flattening and summarizing promise
// ---------------------------------------------------------------------------

/// Patterns that stand for no number are those whose eight exponent bits are all set and whose
/// fraction is not zero.
pub proof fn patterns_of_no_number(bits: u32)
    ensures
        nan(bits) <==> 0x7f80_0000 < bits < 0x8000_0000 || 0xff80_0000 < bits,
{
}

/// Path commands that are the same and whose coordinates are numbers are equal.
pub proof fn same_numbers_are_equal(a: Seg, b: Seg)
    requires
        same_segment(a, b),
        forall|k: int|
            0 <= k < segment_points(b).len() ==> !nan((#[trigger] segment_points(b)[k]).x) && !nan(
                segment_points(b)[k].y,
            ),
    ensures
        a == b,
{
    match b {
        Seg::MoveTo(p) => {
            assert(segment_points(b)[0] == p);
        },
        Seg::LineTo(p) => {
            assert(segment_points(b)[0] == p);
        },
        Seg::QuadTo(c, p) => {
            assert(segment_points(b)[0] == c);
            assert(segment_points(b)[1] == p);
        },
        Seg::CubicTo(c1, c2, p) => {
            assert(segment_points(b)[0] == c1);
            assert(segment_points(b)[1] == c2);
            assert(segment_points(b)[2] == p);
        },
        Seg::Close => {},
    }
}

/// Path commands that are the same are of the same kind; a coordinate that is a number is the same
/// number, and one that is none is none.
pub proof fn same_commands_have_the_same_points(a: Seg, b: Seg, k: int)
    requires
        same_segment(a, b),
        0 <= k < segment_points(b).len(),
    ensures
        a is MoveTo <==> b is MoveTo,
        a is LineTo <==> b is LineTo,
        a is QuadTo <==> b is QuadTo,
        a is CubicTo <==> b is CubicTo,
        a is Close <==> b is Close,
        segment_points(a).len() == segment_points(b).len(),
        ({
            let (p, q) = (segment_points(a)[k], segment_points(b)[k]);
            &&& !nan(q.x) ==> p.x == q.x
            &&& !nan(q.y) ==> p.y == q.y
            &&& nan(q.x) ==> nan(p.x)
            &&& nan(q.y) ==> nan(p.y)
        }),
{
}

/// The points of each kind of path command: a start and a line have their end, a quadratic curve
/// also a control point in front of it, a cubic curve two, and closing a contour has none.
pub proof fn points_of_commands(a: Pt, b: Pt, c: Pt)
    ensures
        segment_points(Seg::MoveTo(a)) == seq![a],
        segment_points(Seg::LineTo(a)) == seq![a],
        segment_points(Seg::QuadTo(a, b)) == seq![a, b],
        segment_points(Seg::CubicTo(a, b, c)) == seq![a, b, c],
        segment_points(Seg::Close).len() == 0,
{
}

/// The points of an outline are those of its path commands, one after the other.
pub proof fn points_of_outlines(segment: Seg, s: Seq<Seg>, t: Seq<Seg>)
    ensures
        outline_points(Seq::empty()).len() == 0,
        outline_points(seq![segment]) == segment_points(segment),
        outline_points(s + t) == outline_points(s) + outline_points(t),
{
    let none = seq![segment].drop_last();
    assert(none =~= Seq::<Seg>::empty());
    assert(outline_points(none) =~= Seq::<Pt>::empty());
    assert(outline_points(seq![segment]) =~= segment_points(segment));
    outline_points_of_concat(s, t);
}

/// The outline of a parsed file has the width and the height that usvg resolved, each whatever the
/// other is, and as many path commands as the file's elements have.
pub proof fn outline_has_the_size_of_the_file(raw: RawOutline, tree: usvg::Tree)
    requires
        outline_of_tree(raw, tree),
    ensures
        raw.width == tree_size(tree).0,
        raw.height == tree_size(tree).1,
        raw.segments@.len() == nodes_segments(tree_contents(tree)).len(),
        forall|i: int|
            0 <= i < raw.segments@.len() ==> same_segment(
                #[trigger] raw.segments@[i],
                nodes_segments(tree_contents(tree))[i],
            ),
{
}

/// An outcome of parsing a text has the width and the height that usvg resolved for a tree that it
/// makes of the text.
pub proof fn parsed_outline_has_the_size_of_the_file(
    parsed: Result<RawOutline, String>,
    text: Seq<char>,
)
    requires
        parse_of_text(parsed, text),
    ensures
        svg_error(text) matches Some(e) ==> parsed is Err && parsed->Err_0@ == e,
        svg_error(text) is None ==> parsed is Ok && exists|tree: usvg::Tree| #[trigger]
            parsed_from(tree, text) && parsed->Ok_0.width == tree_size(tree).0
                && parsed->Ok_0.height == tree_size(tree).1,
{
    if let Ok(raw) = parsed {
        let tree = choose|tree: usvg::Tree|
            parsed_from(tree, text) && #[trigger] outline_of_tree(raw, tree);
        assert(parsed_from(tree, text));
    }
}

/// Elements are drawn one after the other: a shape gives its path commands, a group those of what
/// it holds, however deep, and an image or a text gives none.
pub proof fn elements_are_drawn_in_order(
    first: Seq<SvgNode>,
    second: Seq<SvgNode>,
    shape: Seq<Seg>,
)
    ensures
        nodes_segments(first + second) == nodes_segments(first) + nodes_segments(second),
        nodes_segments(seq![SvgNode::Path(shape)]) == shape,
        nodes_segments(seq![SvgNode::Group(first)]) == nodes_segments(first),
        nodes_segments(seq![SvgNode::Other]).len() == 0,
{
    nodes_segments_of_concat(first, second);
    one_node(SvgNode::Path(shape));
    one_node(SvgNode::Group(first));
    one_node(SvgNode::Other);
}

proof fn one_node(node: SvgNode)
    ensures
        nodes_segments(seq![node]) == node_segments(node),
{
    let none = seq![node].drop_last();
    assert(none =~= Seq::<SvgNode>::empty());
    assert(nodes_segments(none) =~= Seq::<Seg>::empty());
    assert(nodes_segments(seq![node]) =~= node_segments(node));
}

proof fn nodes_segments_of_concat(a: Seq<SvgNode>, b: Seq<SvgNode>)
    ensures
        nodes_segments(a + b) == nodes_segments(a) + nodes_segments(b),
    decreases b.len(),
{
    if b.len() == 0 {
        assert(a + b =~= a);
        assert(nodes_segments(a) + nodes_segments(b) =~= nodes_segments(a));
    } else {
        nodes_segments_of_concat(a, b.drop_last());
        assert((a + b).drop_last() =~= a + b.drop_last());
        assert(nodes_segments(a + b) =~= nodes_segments(a) + nodes_segments(b));
    }
}

/// A shape's path commands are those of its own path, in order and each of its own kind, every
/// point put through the shape's absolute transform once.
pub proof fn every_point_is_transformed(path: usvg::Path, i: int)
    requires
        0 <= i < path_steps(path).len(),
    ensures
        path_contents(path).len() == path_steps(path).len(),
        (match path_steps(path)[i] {
            PathStep::MoveTo(p) => path_contents(path)[i] == Seg::MoveTo(mapped_point(path, p)),
            PathStep::LineTo(p) => path_contents(path)[i] == Seg::LineTo(mapped_point(path, p)),
            PathStep::QuadTo(c, p) => path_contents(path)[i] == Seg::QuadTo(
                mapped_point(path, c),
                mapped_point(path, p),
            ),
            PathStep::CubicTo(c, d, p) => path_contents(path)[i] == Seg::CubicTo(
                mapped_point(path, c),
                mapped_point(path, d),
                mapped_point(path, p),
            ),
            PathStep::Close => path_contents(path)[i] == Seg::Close,
        }),
{
}

/// The bounding box that a summary holds is tight: where any x coordinate is a number, the least
/// and the greatest are coordinates of points, and likewise for y.
pub proof fn summary_bbox_is_tight(s: OutlineSummary, segments: Seq<Seg>)
    requires
        summary_of(s, segments),
    ensures
        ({
            let points = outline_points(segments);
            &&& (exists|i: int| 0 <= i < points.len() && !nan((#[trigger] points[i]).x)) ==> {
                &&& exists|i: int| 0 <= i < points.len() && (#[trigger] points[i]).x == s.bbox_min_x
                &&& exists|i: int| 0 <= i < points.len() && (#[trigger] points[i]).x == s.bbox_max_x
            }
            &&& (exists|i: int| 0 <= i < points.len() && !nan((#[trigger] points[i]).y)) ==> {
                &&& exists|i: int| 0 <= i < points.len() && (#[trigger] points[i]).y == s.bbox_min_y
                &&& exists|i: int| 0 <= i < points.len() && (#[trigger] points[i]).y == s.bbox_max_y
            }
            &&& (forall|i: int| 0 <= i < points.len() ==> nan((#[trigger] points[i]).x)) ==>
                s.bbox_min_x == 0x7f80_0000 && s.bbox_max_x == 0xff80_0000
            &&& (forall|i: int| 0 <= i < points.len() ==> nan((#[trigger] points[i]).y)) ==>
                s.bbox_min_y == 0x7f80_0000 && s.bbox_max_y == 0xff80_0000
        }),
{
    let points = outline_points(segments);
    tight_extremes(xs(points));
    tight_extremes(ys(points));
    if exists|i: int| 0 <= i < points.len() && !nan((#[trigger] points[i]).x) {
        let i = choose|i: int| 0 <= i < points.len() && !nan((#[trigger] points[i]).x);
        assert(!nan(xs(points)[i]));
        let low = choose|k: int| 0 <= k < xs(points).len() && xs(points)[k] == s.bbox_min_x;
        let high = choose|k: int| 0 <= k < xs(points).len() && xs(points)[k] == s.bbox_max_x;
        assert(points[low].x == s.bbox_min_x);
        assert(points[high].x == s.bbox_max_x);
    }
    if exists|i: int| 0 <= i < points.len() && !nan((#[trigger] points[i]).y) {
        let i = choose|i: int| 0 <= i < points.len() && !nan((#[trigger] points[i]).y);
        assert(!nan(ys(points)[i]));
        let low = choose|k: int| 0 <= k < ys(points).len() && ys(points)[k] == s.bbox_min_y;
        let high = choose|k: int| 0 <= k < ys(points).len() && ys(points)[k] == s.bbox_max_y;
        assert(points[low].y == s.bbox_min_y);
        assert(points[high].y == s.bbox_max_y);
    }
    if forall|i: int| 0 <= i < points.len() ==> nan((#[trigger] points[i]).x) {
        assert forall|i: int| 0 <= i < xs(points).len() implies nan(#[trigger] xs(points)[i]) by {
            assert(nan(points[i].x));
        }
    }
    if forall|i: int| 0 <= i < points.len() ==> nan((#[trigger] points[i]).y) {
        assert forall|i: int| 0 <= i < ys(points).len() implies nan(#[trigger] ys(points)[i]) by {
            assert(nan(points[i].y));
        }
    }
}

/// What a single path command counts for.
pub proof fn statistics_of_one_command(s: OutlineSummary, segment: Seg)
    requires
        summary_of(s, seq![segment]),
    ensures
        s.contours == (if segment is MoveTo {
            1int
        } else {
            0
        }),
        s.line_segments == (if segment is LineTo {
            1int
        } else {
            0
        }),
        s.quad_segments == (if segment is QuadTo {
            1int
        } else {
            0
        }),
        s.cubic_segments == (if segment is CubicTo {
            1int
        } else {
            0
        }),
        (match segment {
            Seg::MoveTo(_) => s.points == 1,
            Seg::LineTo(_) => s.points == 1,
            Seg::QuadTo(_, _) => s.points == 2,
            Seg::CubicTo(_, _, _) => s.points == 3,
            Seg::Close => s.points == 0,
        }),
{
    let one = seq![segment];
    assert(one.drop_last() =~= Seq::<Seg>::empty());
    reveal(Seq::filter);
    counts_step(one);
    points_of_outlines(segment, one, one);
}

/// The statistics of nothing are all zero.
pub proof fn statistics_of_no_command(s: OutlineSummary)
    requires
        summary_of(s, Seq::empty()),
    ensures
        s.contours == 0,
        s.points == 0,
        s.line_segments == 0,
        s.quad_segments == 0,
        s.cubic_segments == 0,
{
    reveal(Seq::filter);
}

/// The summary of an outline has the outline's size.
pub proof fn summary_has_the_size_of_the_outline(s: OutlineSummary, raw: RawOutline)
    requires
        summarizes(s, raw),
    ensures
        s.svg_width == raw.width,
        s.svg_height == raw.height,
        summary_of(s, raw.segments@),
{
}

/// The summary of what parsing gave keeps its size; it fails where parsing did.
pub proof fn summary_of_a_parse(
    outcome: Result<OutlineSummary, String>,
    parsed: Result<RawOutline, String>,
)
    requires
        summarizes_parse(outcome, parsed),
    ensures
        parsed is Err ==> outcome is Err && outcome->Err_0@ == parsed->Err_0@,
        parsed is Ok && outline_points(parsed->Ok_0.segments@).len() <= usize::MAX ==> outcome is Ok
            && outcome->Ok_0.svg_width == parsed->Ok_0.width && outcome->Ok_0.svg_height
            == parsed->Ok_0.height && summary_of(outcome->Ok_0, parsed->Ok_0.segments@),
{
}

} // verus!
