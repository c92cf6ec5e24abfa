//! Replaying glyph outlines as path commands, the shape that building a `glyf` entry starts from.

use vstd::prelude::*;

use crate::outline::{all_points, curves_end_on_curve, GlyphOutline, GlyphPoint};

verus! {

/// A path made of lines and curves.
#[verifier::external_type_specification]
#[verifier::external_body]
pub struct ExBezPath(kurbo::BezPath);

/// One element of a path.
pub enum PathCommand {
    MoveTo(i32, i32),
    LineTo(i32, i32),
    /// A quadratic curve by its control point and its end.
    QuadTo(i32, i32, i32, i32),
    Close,
    /// A cubic curve, or an element with a coordinate that is no integer of 32 bits.
    Other,
}

/// The elements that a path holds.
pub uninterp spec fn path_commands(path: kurbo::BezPath) -> Seq<PathCommand>;

/// Whether elements begin by starting a contour.
pub open spec fn started(commands: Seq<PathCommand>) -> bool {
    commands.len() > 0 && commands[0] is MoveTo
}

/// `kurbo::BezPath::new`: a path without elements.
pub assume_specification[ kurbo::BezPath::new ]() -> (path: kurbo::BezPath)
    ensures
        path_commands(path) == Seq::<PathCommand>::empty(),
;

/// `kurbo::BezPath::close_path`: pushes an element that closes the contour. A path that does not
/// begin by starting one is refused with a panic.
pub assume_specification[ kurbo::BezPath::close_path ](path: &mut kurbo::BezPath)
    requires
        started(path_commands(*old(path))),
    ensures
        path_commands(*final(path)) == path_commands(*old(path)).push(PathCommand::Close),
;

/// `kurbo::BezPath::move_to`: pushes an element that starts a contour. A path that has elements
/// and does not begin by starting one is refused with a panic.
#[verifier::external_body]
fn move_to(path: &mut kurbo::BezPath, x: i32, y: i32)
    requires
        path_commands(*old(path)).len() == 0 || started(path_commands(*old(path))),
    ensures
        path_commands(*final(path)) == path_commands(*old(path)).push(PathCommand::MoveTo(x, y)),
{
    path.move_to(kurbo::Point::new(x.into(), y.into()))
}

/// `kurbo::BezPath::line_to`: pushes a straight line. A path that does not begin by starting a
/// contour is refused with a panic.
#[verifier::external_body]
fn line_to(path: &mut kurbo::BezPath, x: i32, y: i32)
    requires
        started(path_commands(*old(path))),
    ensures
        path_commands(*final(path)) == path_commands(*old(path)).push(PathCommand::LineTo(x, y)),
{
    path.line_to(kurbo::Point::new(x.into(), y.into()))
}

/// `kurbo::BezPath::quad_to`: pushes a quadratic curve. A path that does not begin by starting a
/// contour is refused with a panic.
#[verifier::external_body]
fn quad_to(path: &mut kurbo::BezPath, cx: i32, cy: i32, x: i32, y: i32)
    requires
        started(path_commands(*old(path))),
    ensures
        path_commands(*final(path)) == path_commands(*old(path)).push(
            PathCommand::QuadTo(cx, cy, x, y),
        ),
{
    path.quad_to(
        kurbo::Point::new(cx.into(), cy.into()),
        kurbo::Point::new(x.into(), y.into()),
    )
}

// ---------------------------------------------------------------------------
// Replaying
// ---------------------------------------------------------------------------

/// The elements that draw a contour from its point `i` on: a line to each on-curve point, and a
/// curve for each control point and the point after it.
pub open spec fn replay(contour: Seq<GlyphPoint>, i: int) -> Seq<PathCommand>
    decreases contour.len() + 1 - i,
{
    if i < 0 || i >= contour.len() {
        Seq::empty()
    } else if contour[i].on_curve {
        seq![PathCommand::LineTo(contour[i].x, contour[i].y)] + replay(contour, i + 1)
    } else {
        seq![
            PathCommand::QuadTo(
                contour[i].x,
                contour[i].y,
                contour[i + 1].x,
                contour[i + 1].y,
            ),
        ] + replay(contour, i + 2)
    }
}

/// Whether, drawing a contour from its point `i` on, each control point that is reached has a
/// point after it.
pub open spec fn replayable_from(contour: Seq<GlyphPoint>, i: int) -> bool
    decreases contour.len() + 1 - i,
{
    if i < 0 || i >= contour.len() {
        true
    } else if contour[i].on_curve {
        replayable_from(contour, i + 1)
    } else {
        i + 1 < contour.len() && replayable_from(contour, i + 2)
    }
}

/// Whether every contour can be drawn: each control point that is reached has a point after it.
pub open spec fn replayable(contours: Seq<Seq<GlyphPoint>>) -> bool {
    forall|k: int| 0 <= k < contours.len() ==> replayable_from(#[trigger] contours[k], 1)
}

/// The elements that draw a contour, starting at its first point. An empty contour has none.
pub open spec fn contour_commands(contour: Seq<GlyphPoint>) -> Seq<PathCommand> {
    if contour.len() == 0 {
        Seq::empty()
    } else {
        seq![PathCommand::MoveTo(contour[0].x, contour[0].y)] + replay(contour, 1) + seq![
            PathCommand::Close,
        ]
    }
}

/// The elements that draw contours, one after the other.
pub open spec fn outline_commands(contours: Seq<Seq<GlyphPoint>>) -> Seq<PathCommand>
    decreases contours.len(),
{
    if contours.len() == 0 {
        Seq::empty()
    } else {
        outline_commands(contours.drop_last()) + contour_commands(contours.last())
    }
}

/// The elements that draw an outline start a contour first, where there are any, and hold
/// nothing but moves, lines, quadratic curves and closing elements.
pub proof fn outline_commands_are_plain(contours: Seq<Seq<GlyphPoint>>)
    ensures
        outline_commands(contours).len() == 0 || started(outline_commands(contours)),
        !outline_commands(contours).contains(PathCommand::Other),
    decreases contours.len(),
{
    if contours.len() > 0 {
        outline_commands_are_plain(contours.drop_last());
        let before = outline_commands(contours.drop_last());
        let more = contour_commands(contours.last());
        replay_is_plain(contours.last(), 1);
        let all = before + more;
        if all.contains(PathCommand::Other) {
            let k = choose|k: int| 0 <= k < all.len() && all[k] == PathCommand::Other;
            if k < before.len() {
                assert(before[k] == PathCommand::Other);
            } else {
                let j = k - before.len();
                assert(more[j] == PathCommand::Other);
                assert(1 <= j < more.len() - 1);
                assert(replay(contours.last(), 1)[j - 1] == PathCommand::Other);
            }
            assert(false);
        }
        if before.len() > 0 {
            assert(all[0] == before[0]);
        } else if more.len() > 0 {
            assert(all[0] == more[0]);
        }
    }
}

proof fn replay_is_plain(contour: Seq<GlyphPoint>, i: int)
    ensures
        !replay(contour, i).contains(PathCommand::Other),
    decreases contour.len() + 1 - i,
{
    if 0 <= i < contour.len() {
        let skip = if contour[i].on_curve {
            1int
        } else {
            2
        };
        replay_is_plain(contour, i + skip);
        let rest = replay(contour, i + skip);
        let all = replay(contour, i);
        if all.contains(PathCommand::Other) {
            let k = choose|k: int| 0 <= k < all.len() && all[k] == PathCommand::Other;
            assert(k > 0);
            assert(rest[k - 1] == PathCommand::Other);
            assert(false);
        }
    }
}

/// Turns an outline's contours into a path. Each control point is followed by the end of its
/// curve, so this just replays that sequence as path commands.
pub fn outline_to_bezpath(outline: &GlyphOutline) -> (path: kurbo::BezPath)
    requires
        replayable(outline.points()),
    ensures
        path_commands(path) == outline_commands(outline.points()),
{
    let mut path = kurbo::BezPath::new();
    let ghost contours = outline.points();
    let mut k: usize = 0;
    assert(contours.take(0) =~= Seq::empty());
    while k < outline.contours.len()
        invariant
            k <= outline.contours.len(),
            contours == outline.points(),
            contours.len() == outline.contours.len(),
            replayable(contours),
            path_commands(path) == outline_commands(contours.take(k as int)),
        decreases outline.contours.len() - k,
    {
        let contour: &Vec<GlyphPoint> = &outline.contours[k];
        let ghost before = path_commands(path);
        assert(contours[k as int] == contour@);
        assert(contours.take(k + 1).drop_last() =~= contours.take(k as int));
        proof {
            outline_commands_are_plain(contours.take(k as int));
        }
        if contour.len() > 0 {
            let first: GlyphPoint = contour[0];
            move_to(&mut path, first.x, first.y);
            let ghost start = before.push(PathCommand::MoveTo(first.x, first.y));
            let mut i: usize = 1;
            assert(start + replay(contour@, 1) =~= path_commands(path) + replay(contour@, 1));
            while i < contour.len()
                invariant
                    1 <= i,
                    replayable_from(contour@, i as int),
                    started(path_commands(path)),
                    path_commands(path) + replay(contour@, i as int) == start + replay(contour@, 1),
                decreases contour.len() - i,
            {
                let ghost so_far = path_commands(path);
                let p: GlyphPoint = contour[i];
                if p.on_curve {
                    line_to(&mut path, p.x, p.y);
                    assert(path_commands(path) + replay(contour@, i + 1) =~= so_far + replay(
                        contour@,
                        i as int,
                    ));
                    i += 1;
                } else {
                    let end: GlyphPoint = contour[i + 1];
                    quad_to(&mut path, p.x, p.y, end.x, end.y);
                    assert(path_commands(path) + replay(contour@, i + 2) =~= so_far + replay(
                        contour@,
                        i as int,
                    ));
                    i += 2;
                }
            }
            assert(path_commands(path) =~= start + replay(contour@, 1));
            path.close_path();
            assert(path_commands(path) =~= before + contour_commands(contour@));
        } else {
            assert(path_commands(path) =~= before + contour_commands(contour@));
        }
        k += 1;
    }
    assert(contours.take(k as int) =~= contours);
    path
}

// ---------------------------------------------------------------------------
// What a replayed outline keeps
// ---------------------------------------------------------------------------

/// The positions that an element names, control points first.
pub open spec fn command_positions(command: PathCommand) -> Seq<(i32, i32)> {
    match command {
        PathCommand::MoveTo(x, y) => seq![(x, y)],
        PathCommand::LineTo(x, y) => seq![(x, y)],
        PathCommand::QuadTo(cx, cy, x, y) => seq![(cx, cy), (x, y)],
        PathCommand::Close => Seq::empty(),
        PathCommand::Other => Seq::empty(),
    }
}

/// The positions that elements name, one after the other.
pub open spec fn positions(commands: Seq<PathCommand>) -> Seq<(i32, i32)>
    decreases commands.len(),
{
    if commands.len() == 0 {
        Seq::empty()
    } else {
        positions(commands.drop_last()) + command_positions(commands.last())
    }
}

/// The position of each point.
pub open spec fn point_positions(points: Seq<GlyphPoint>) -> Seq<(i32, i32)> {
    points.map_values(|p: GlyphPoint| (p.x, p.y))
}

proof fn positions_of_concat(a: Seq<PathCommand>, b: Seq<PathCommand>)
    ensures
        positions(a + b) == positions(a) + positions(b),
    decreases b.len(),
{
    if b.len() == 0 {
        assert(a + b =~= a);
        assert(positions(a) + positions(b) =~= positions(a));
    } else {
        positions_of_concat(a, b.drop_last());
        assert((a + b).drop_last() =~= a + b.drop_last());
        assert(positions(a + b) =~= positions(a) + positions(b));
    }
}

proof fn positions_of_one(command: PathCommand)
    ensures
        positions(seq![command]) == command_positions(command),
{
    let one = seq![command];
    assert(one.drop_last() =~= Seq::empty());
    assert(positions(one.drop_last()) =~= Seq::empty());
    assert(positions(one) =~= command_positions(command));
}

proof fn replay_keeps_positions(contour: Seq<GlyphPoint>, i: int)
    requires
        0 <= i <= contour.len(),
        replayable_from(contour, i),
    ensures
        positions(replay(contour, i)) == point_positions(contour.skip(i)),
    decreases contour.len() + 1 - i,
{
    if i < contour.len() {
        let step = if contour[i].on_curve {
            1int
        } else {
            2
        };
        replay_keeps_positions(contour, i + step);
        let head = replay(contour, i)[0];
        positions_of_one(head);
        positions_of_concat(seq![head], replay(contour, i + step));
        assert(replay(contour, i) =~= seq![head] + replay(contour, i + step));
        assert(point_positions(contour.skip(i)) =~= command_positions(head) + point_positions(
            contour.skip(i + step),
        ));
    } else {
        assert(point_positions(contour.skip(i)) =~= Seq::empty());
    }
}

/// A replayed outline names the position of every point of its contours, in order, and no other.
pub proof fn replay_keeps_every_position(contours: Seq<Seq<GlyphPoint>>)
    requires
        replayable(contours),
    ensures
        positions(outline_commands(contours)) == point_positions(all_points(contours)),
    decreases contours.len(),
{
    if contours.len() == 0 {
        assert(point_positions(all_points(contours)) =~= Seq::empty());
    } else {
        let contour = contours.last();
        assert(contours[contours.len() - 1] == contour);
        assert forall|k: int| 0 <= k < contours.drop_last().len() implies replayable_from(
            #[trigger] contours.drop_last()[k],
            1,
        ) by {
            assert(contours[k] == contours.drop_last()[k]);
        }
        replay_keeps_every_position(contours.drop_last());
        positions_of_concat(outline_commands(contours.drop_last()), contour_commands(contour));
        if contour.len() > 0 {
            let start = PathCommand::MoveTo(contour[0].x, contour[0].y);
            replay_keeps_positions(contour, 1);
            positions_of_one(start);
            positions_of_one(PathCommand::Close);
            positions_of_concat(seq![start], replay(contour, 1));
            positions_of_concat(seq![start] + replay(contour, 1), seq![PathCommand::Close]);
        }
        assert(positions(contour_commands(contour)) =~= point_positions(contour));
        assert(point_positions(all_points(contours)) =~= point_positions(
            all_points(contours.drop_last()),
        ) + point_positions(contour));
    }
}

/// Contours in which each control point is followed by the on-curve end of its curve can be
/// replayed.
pub proof fn well_formed_contours_are_replayable(contours: Seq<Seq<GlyphPoint>>)
    requires
        forall|k: int| 0 <= k < contours.len() ==> curves_end_on_curve(#[trigger] contours[k]),
    ensures
        replayable(contours),
{
    assert forall|k: int| 0 <= k < contours.len() implies replayable_from(
        #[trigger] contours[k],
        1,
    ) by {
        replayable_after(contours[k], 1);
    }
}

proof fn replayable_after(contour: Seq<GlyphPoint>, i: int)
    requires
        curves_end_on_curve(contour),
        0 <= i,
    ensures
        replayable_from(contour, i),
    decreases contour.len() + 1 - i,
{
    if i < contour.len() {
        if contour[i].on_curve {
            replayable_after(contour, i + 1);
        } else {
            replayable_after(contour, i + 2);
        }
    }
}

/// How many elements start a contour.
pub open spec fn start_commands(commands: Seq<PathCommand>) -> nat {
    commands.filter(|c: PathCommand| c is MoveTo).len()
}

proof fn replay_starts_nothing(contour: Seq<GlyphPoint>, i: int)
    ensures
        start_commands(replay(contour, i)) == 0,
    decreases contour.len() + 1 - i,
{
    reveal(Seq::filter);
    let starts = |c: PathCommand| c is MoveTo;
    if 0 <= i < contour.len() {
        let step = if contour[i].on_curve {
            1int
        } else {
            2
        };
        let head = seq![replay(contour, i)[0]];
        replay_starts_nothing(contour, i + step);
        assert(replay(contour, i) =~= head + replay(contour, i + step));
        Seq::filter_distributes_over_add(head, replay(contour, i + step), starts);
        assert(head.drop_last() =~= Seq::empty());
        assert(head.drop_last().filter(starts).len() == 0);
        assert(!starts(head.last()));
        assert(head.filter(starts).len() == 0);
    }
}

/// A replayed outline starts no more contours than it has.
pub proof fn replay_starts_each_contour(contours: Seq<Seq<GlyphPoint>>)
    ensures
        start_commands(outline_commands(contours)) <= contours.len(),
        (forall|k: int| 0 <= k < contours.len() ==> (#[trigger] contours[k]).len() > 0)
            ==> start_commands(outline_commands(contours)) == contours.len(),
    decreases contours.len(),
{
    reveal(Seq::filter);
    let starts = |c: PathCommand| c is MoveTo;
    if contours.len() > 0 {
        let rest = contours.drop_last();
        let contour = contours.last();
        replay_starts_each_contour(rest);
        Seq::filter_distributes_over_add(
            outline_commands(rest),
            contour_commands(contour),
            starts,
        );
        if contour.len() > 0 {
            let head = seq![PathCommand::MoveTo(contour[0].x, contour[0].y)];
            let end = seq![PathCommand::Close];
            replay_starts_nothing(contour, 1);
            Seq::filter_distributes_over_add(head, replay(contour, 1), starts);
            Seq::filter_distributes_over_add(head + replay(contour, 1), end, starts);
            assert(head.drop_last() =~= Seq::empty());
            assert(end.drop_last() =~= Seq::empty());
            assert(head.filter(starts).len() == 1);
            assert(end.filter(starts).len() == 0);
        } else {
            assert(contour_commands(contour).filter(starts).len() == 0);
        }
        assert(contours[contours.len() - 1] == contour);
        if forall|k: int| 0 <= k < contours.len() ==> (#[trigger] contours[k]).len() > 0 {
            assert forall|k: int| 0 <= k < rest.len() implies (#[trigger] rest[k]).len() > 0 by {
                assert(rest[k] == contours[k]);
            }
        }
    }
}

// ---------------------------------------------------------------------------
// Reading a path back
// ---------------------------------------------------------------------------

/// The points that an element draws: on the curve where it starts a contour or ends a line or a
/// curve, off the curve for a control point.
pub open spec fn drawn_by(command: PathCommand) -> Seq<GlyphPoint> {
    match command {
        PathCommand::MoveTo(x, y) => seq![GlyphPoint { x, y, on_curve: true }],
        PathCommand::LineTo(x, y) => seq![GlyphPoint { x, y, on_curve: true }],
        PathCommand::QuadTo(cx, cy, x, y) => seq![
            GlyphPoint { x: cx, y: cy, on_curve: false },
            GlyphPoint { x, y, on_curve: true },
        ],
        PathCommand::Close => Seq::empty(),
        PathCommand::Other => Seq::empty(),
    }
}

/// The points that elements draw, one after the other.
pub open spec fn drawn_points(commands: Seq<PathCommand>) -> Seq<GlyphPoint>
    decreases commands.len(),
{
    if commands.len() == 0 {
        Seq::empty()
    } else {
        drawn_by(commands[0]) + drawn_points(commands.skip(1))
    }
}

proof fn drawn_points_of_concat(a: Seq<PathCommand>, b: Seq<PathCommand>)
    ensures
        drawn_points(a + b) == drawn_points(a) + drawn_points(b),
    decreases a.len(),
{
    if a.len() == 0 {
        assert(a + b =~= b);
        assert(drawn_points(a) + drawn_points(b) =~= drawn_points(b));
    } else {
        drawn_points_of_concat(a.skip(1), b);
        assert((a + b).skip(1) =~= a.skip(1) + b);
        assert((a + b)[0] == a[0]);
        assert(drawn_points(a + b) =~= drawn_points(a) + drawn_points(b));
    }
}

proof fn drawn_points_of_one(command: PathCommand)
    ensures
        drawn_points(seq![command]) == drawn_by(command),
{
    let rest = seq![command].skip(1);
    assert(rest =~= Seq::<PathCommand>::empty());
    assert(drawn_points(rest) =~= Seq::<GlyphPoint>::empty());
    assert(drawn_points(seq![command]) =~= drawn_by(command));
}

proof fn replay_draws_the_points(contour: Seq<GlyphPoint>, i: int)
    requires
        0 <= i <= contour.len(),
        curves_end_on_curve(contour),
    ensures
        drawn_points(replay(contour, i)) == contour.skip(i),
    decreases contour.len() + 1 - i,
{
    if i < contour.len() {
        let step = if contour[i].on_curve {
            1int
        } else {
            2
        };
        if !contour[i].on_curve {
            assert(i + 1 < contour.len() && contour[i + 1].on_curve);
        }
        replay_draws_the_points(contour, i + step);
        let all = replay(contour, i);
        let head = all[0];
        assert(all =~= seq![head] + replay(contour, i + step));
        drawn_points_of_one(head);
        drawn_points_of_concat(seq![head], replay(contour, i + step));
        assert(drawn_by(head) + contour.skip(i + step) =~= contour.skip(i));
    } else {
        assert(contour.skip(i) =~= Seq::empty());
    }
}

/// A contour that begins on the curve, and in which each control point is followed by the end of
/// its curve, is drawn by its elements as it is: reading them back gives its points. The first
/// element starts the contour, no other does, and the last one closes it.
pub proof fn replayed_contour_reads_back(contour: Seq<GlyphPoint>)
    requires
        contour.len() > 0,
        contour[0].on_curve,
        curves_end_on_curve(contour),
    ensures
        drawn_points(contour_commands(contour)) == contour,
        contour_commands(contour).len() >= 2,
        contour_commands(contour)[0] is MoveTo,
        contour_commands(contour).last() == PathCommand::Close,
        forall|k: int|
            0 < k < contour_commands(contour).len() - 1 ==> ((#[trigger] contour_commands(
                contour,
            )[k]) is LineTo || contour_commands(contour)[k] is QuadTo),
{
    let start = PathCommand::MoveTo(contour[0].x, contour[0].y);
    let body = replay(contour, 1);
    replay_draws_the_points(contour, 1);
    drawn_points_of_one(start);
    drawn_points_of_one(PathCommand::Close);
    drawn_points_of_concat(seq![start], body);
    drawn_points_of_concat(seq![start] + body, seq![PathCommand::Close]);
    assert(drawn_by(start) + contour.skip(1) + drawn_by(PathCommand::Close) =~= contour);
    replay_lines_and_curves(contour, 1);
}

proof fn replay_lines_and_curves(contour: Seq<GlyphPoint>, i: int)
    ensures
        forall|k: int|
            0 <= k < replay(contour, i).len() ==> ((#[trigger] replay(contour, i)[k]) is LineTo
                || replay(contour, i)[k] is QuadTo),
    decreases contour.len() + 1 - i,
{
    if 0 <= i < contour.len() {
        let step = if contour[i].on_curve {
            1int
        } else {
            2
        };
        replay_lines_and_curves(contour, i + step);
        let all = replay(contour, i);
        let rest = replay(contour, i + step);
        assert forall|k: int| 0 <= k < all.len() implies ((#[trigger] all[k]) is LineTo
            || all[k] is QuadTo) by {
            if k > 0 {
                assert(all[k] == rest[k - 1]);
            }
        }
    }
}

/// Contours are drawn one after the other, and an empty one not at all.
pub proof fn contours_are_replayed_in_order(
    a: Seq<Seq<GlyphPoint>>,
    b: Seq<Seq<GlyphPoint>>,
    contour: Seq<GlyphPoint>,
)
    ensures
        outline_commands(a + b) == outline_commands(a) + outline_commands(b),
        outline_commands(seq![contour]) == contour_commands(contour),
        contour.len() == 0 ==> contour_commands(contour).len() == 0,
    decreases b.len(),
{
    let none = seq![contour].drop_last();
    assert(none =~= Seq::<Seq<GlyphPoint>>::empty());
    assert(outline_commands(none) =~= Seq::<PathCommand>::empty());
    assert(outline_commands(seq![contour]) =~= contour_commands(contour));
    if b.len() == 0 {
        assert(a + b =~= a);
        assert(outline_commands(a) + outline_commands(b) =~= outline_commands(a));
    } else {
        contours_are_replayed_in_order(a, b.drop_last(), contour);
        assert((a + b).drop_last() =~= a + b.drop_last());
        assert(outline_commands(a + b) =~= outline_commands(a) + outline_commands(b));
    }
}

/// Whether a contour can be replayed shows at its end: a point on the outline behind it changes
/// nothing, neither does a control point with another point after it, but a control point with none
/// is one too many. A contour of one point can always be replayed.
pub proof fn control_points_need_a_point_after_them(
    contour: Seq<GlyphPoint>,
    p: GlyphPoint,
    q: GlyphPoint,
)
    requires
        contour.len() > 0,
    ensures
        replayable_from(seq![p], 1),
        replayable_from(contour, 1) && p.on_curve ==> replayable_from(contour.push(p), 1),
        replayable_from(contour, 1) && !p.on_curve ==> !replayable_from(contour.push(p), 1),
        replayable_from(contour, 1) && !p.on_curve ==> replayable_from(
            contour.push(p).push(q),
            1,
        ),
{
    if replayable_from(contour, 1) {
        assert(contour.push(p).take(contour.len() as int) =~= contour);
        assert(contour.push(p).push(q).take(contour.len() as int) =~= contour);
        replays_up_to_the_end(contour, contour.push(p), 1);
        replays_up_to_the_end(contour, contour.push(p).push(q), 1);
        let n = contour.len() as int;
        reveal_with_fuel(replayable_from, 3);
        assert(contour.push(p)[n] == p);
        assert(contour.push(p).push(q)[n] == p);
    }
}

proof fn replays_up_to_the_end(contour: Seq<GlyphPoint>, longer: Seq<GlyphPoint>, i: int)
    requires
        0 <= i <= contour.len(),
        replayable_from(contour, i),
        contour.len() <= longer.len(),
        longer.take(contour.len() as int) == contour,
    ensures
        replayable_from(longer, i) == replayable_from(longer, contour.len() as int),
    decreases contour.len() + 1 - i,
{
    if i < contour.len() {
        assert(longer[i] == longer.take(contour.len() as int)[i]);
        if contour[i].on_curve {
            replays_up_to_the_end(contour, longer, i + 1);
        } else {
            replays_up_to_the_end(contour, longer, i + 2);
        }
    }
}

/// Replaying a contour gives an element for each point or pair of points behind the first: what
/// stands at its end is drawn last, a point on the outline as a line to it, and a control point
/// with the point after it as a curve. The first point starts the contour wherever it lies.
pub proof fn replay_grows_by_lines_and_curves(
    contour: Seq<GlyphPoint>,
    p: GlyphPoint,
    q: GlyphPoint,
)
    requires
        contour.len() > 0,
        replayable_from(contour, 1),
    ensures
        contour_commands(seq![p]) == seq![PathCommand::MoveTo(p.x, p.y), PathCommand::Close],
        p.on_curve ==> contour_commands(contour.push(p)) == contour_commands(
            contour,
        ).drop_last().push(PathCommand::LineTo(p.x, p.y)).push(PathCommand::Close),
        !p.on_curve ==> contour_commands(contour.push(p).push(q)) == contour_commands(
            contour,
        ).drop_last().push(PathCommand::QuadTo(p.x, p.y, q.x, q.y)).push(PathCommand::Close),
{
    let n = contour.len() as int;
    let (one, two) = (contour.push(p), contour.push(p).push(q));
    assert(replay(seq![p], 1) =~= Seq::<PathCommand>::empty());
    assert(contour_commands(seq![p]) =~= seq![
        PathCommand::MoveTo(p.x, p.y),
        PathCommand::Close,
    ]);
    assert(one.take(n) =~= contour && two.take(n) =~= contour);
    replay_of_longer_contours(contour, one, 1);
    replay_of_longer_contours(contour, two, 1);
    assert(one[0] == contour[0] && two[0] == contour[0]);
    if p.on_curve {
        assert(replay(one, n + 1) =~= Seq::<PathCommand>::empty());
        assert(replay(one, n) =~= seq![PathCommand::LineTo(p.x, p.y)]);
        assert(contour_commands(one) =~= contour_commands(contour).drop_last().push(
            PathCommand::LineTo(p.x, p.y),
        ).push(PathCommand::Close));
    } else {
        assert(two[n] == p && two[n + 1] == q);
        assert(replay(two, n + 2) =~= Seq::<PathCommand>::empty());
        assert(replay(two, n) =~= seq![PathCommand::QuadTo(p.x, p.y, q.x, q.y)]);
        assert(contour_commands(two) =~= contour_commands(contour).drop_last().push(
            PathCommand::QuadTo(p.x, p.y, q.x, q.y),
        ).push(PathCommand::Close));
    }
}

proof fn replay_of_longer_contours(contour: Seq<GlyphPoint>, longer: Seq<GlyphPoint>, i: int)
    requires
        0 <= i <= contour.len(),
        replayable_from(contour, i),
        contour.len() <= longer.len(),
        longer.take(contour.len() as int) == contour,
    ensures
        replay(longer, i) == replay(contour, i) + replay(longer, contour.len() as int),
    decreases contour.len() + 1 - i,
{
    let n = contour.len() as int;
    if i < n {
        assert(longer[i] == longer.take(n)[i]);
        let step = if contour[i].on_curve {
            1int
        } else {
            2
        };
        if !contour[i].on_curve {
            assert(longer[i + 1] == longer.take(n)[i + 1]);
        }
        replay_of_longer_contours(contour, longer, i + step);
        assert(replay(longer, i) =~= replay(contour, i) + replay(longer, n));
    } else {
        assert(replay(contour, i) =~= Seq::<PathCommand>::empty());
        assert(replay(longer, i) =~= replay(contour, i) + replay(longer, n));
    }
}

} // verus!
