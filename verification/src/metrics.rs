//! The numbers that a font's tables hold about its glyphs.

use vstd::prelude::*;

use crate::extremes::{extremes_bound, highest_of, lowest_of};
use crate::extremes::{highest_i16, highest_u16, highest_usize, lowest_i16, lowest_u16};
use crate::extremes::{ints_i16, ints_u16, ints_usize};
use crate::font::FontGlyph;
use crate::glyf::{fits16, Bbox};
use crate::tables::LongMetric;

verus! {

/// The 16-bit number that the low 16 bits of a number stand for.
pub open spec fn wrap16(v: int) -> i16 {
    if v % 0x1_0000 < 0x8000 {
        (v % 0x1_0000) as i16
    } else {
        (v % 0x1_0000 - 0x1_0000) as i16
    }
}

/// The bounding box of every glyph.
pub open spec fn boxes_of(glyphs: Seq<FontGlyph>) -> Seq<Bbox> {
    glyphs.map_values(|g: FontGlyph| g.bbox())
}

/// The smallest box around boxes; all zero where there are none.
pub open spec fn union_box(boxes: Seq<Bbox>) -> Bbox {
    Bbox {
        x_min: lowest_of(boxes.map_values(|b: Bbox| b.x_min as int)) as i16,
        y_min: lowest_of(boxes.map_values(|b: Bbox| b.y_min as int)) as i16,
        x_max: highest_of(boxes.map_values(|b: Bbox| b.x_max as int)) as i16,
        y_max: highest_of(boxes.map_values(|b: Bbox| b.y_max as int)) as i16,
    }
}

/// The bounding box of the font; all zero where it has no glyphs.
pub open spec fn font_box(glyphs: Seq<FontGlyph>) -> Bbox {
    union_box(boxes_of(glyphs))
}

/// The least right side bearing of the glyphs.
pub open spec fn least_right_bearing(glyphs: Seq<FontGlyph>) -> i16 {
    lowest_of(glyphs.map_values(|g: FontGlyph| g.right_side_bearing() as int)) as i16
}

/// The metrics of all glyphs: first those of the empty ".notdef" glyph, which are zero, then
/// each glyph's advance width and the left edge of its bounding box.
pub open spec fn metrics_of(glyphs: Seq<FontGlyph>) -> Seq<LongMetric> {
    seq![LongMetric { advance: 0, side_bearing: 0 }] + glyphs.map_values(
        |g: FontGlyph| LongMetric { advance: g.advance(), side_bearing: g.bbox().x_min },
    )
}

/// The advance widths of metrics.
pub open spec fn advances(metrics: Seq<LongMetric>) -> Seq<int> {
    metrics.map_values(|m: LongMetric| m.advance as int)
}

/// The sum of advance widths.
pub open spec fn advance_total(metrics: Seq<LongMetric>) -> int
    decreases metrics.len(),
{
    if metrics.len() == 0 {
        0
    } else {
        advance_total(metrics.drop_last()) + metrics.last().advance
    }
}

/// The average advance width, rounded down, as a 16-bit number.
pub open spec fn average_advance(metrics: Seq<LongMetric>) -> i16 {
    wrap16(advance_total(metrics) / (metrics.len() % 0x1_0000_0000) as int)
}

/// The number of points of each glyph.
pub open spec fn point_counts(glyphs: Seq<FontGlyph>) -> Seq<int> {
    glyphs.map_values(|g: FontGlyph| g.points().len() as int)
}

/// The number of contours of each glyph.
pub open spec fn contour_counts(glyphs: Seq<FontGlyph>) -> Seq<int> {
    glyphs.map_values(|g: FontGlyph| g.outline.contours@.len() as int)
}

/// The low 16 bits of each glyph's codepoint.
pub open spec fn short_codes(glyphs: Seq<FontGlyph>) -> Seq<int> {
    glyphs.map_values(|g: FontGlyph| g.codepoint as int % 0x1_0000)
}

// ---------------------------------------------------------------------------
// Computing them
// ---------------------------------------------------------------------------

/// The smallest box around boxes; all zero where there are none.
pub fn enclose(boxes: &[Bbox]) -> (union: Bbox)
    ensures
        union == union_box(boxes@),
{
    let mut x_mins: Vec<i16> = Vec::new();
    let mut y_mins: Vec<i16> = Vec::new();
    let mut x_maxs: Vec<i16> = Vec::new();
    let mut y_maxs: Vec<i16> = Vec::new();
    let mut i: usize = 0;
    while i < boxes.len()
        invariant
            i <= boxes.len(),
            x_mins@ == boxes@.take(i as int).map_values(|b: Bbox| b.x_min),
            y_mins@ == boxes@.take(i as int).map_values(|b: Bbox| b.y_min),
            x_maxs@ == boxes@.take(i as int).map_values(|b: Bbox| b.x_max),
            y_maxs@ == boxes@.take(i as int).map_values(|b: Bbox| b.y_max),
        decreases boxes.len() - i,
    {
        x_mins.push(boxes[i].x_min);
        y_mins.push(boxes[i].y_min);
        x_maxs.push(boxes[i].x_max);
        y_maxs.push(boxes[i].y_max);
        i += 1;
    }
    proof {
        assert(ints_i16(x_mins@) =~= boxes@.map_values(|b: Bbox| b.x_min as int));
        assert(ints_i16(y_mins@) =~= boxes@.map_values(|b: Bbox| b.y_min as int));
        assert(ints_i16(x_maxs@) =~= boxes@.map_values(|b: Bbox| b.x_max as int));
        assert(ints_i16(y_maxs@) =~= boxes@.map_values(|b: Bbox| b.y_max as int));
    }
    Bbox {
        x_min: lowest_i16(x_mins.as_slice()),
        y_min: lowest_i16(y_mins.as_slice()),
        x_max: highest_i16(x_maxs.as_slice()),
        y_max: highest_i16(y_maxs.as_slice()),
    }
}

/// The width that a glyph takes up, cut off at what 16 bits can hold.
fn clamped_advance(glyph: &FontGlyph) -> (advance: u16)
    ensures
        advance == glyph.advance(),
{
    let width: i32 = glyph.outline.advance_width;
    if width < 0 {
        0
    } else if width > u16::MAX as i32 {
        u16::MAX
    } else {
        width as u16
    }
}

/// The space from the end of a bounding box to the end of a glyph's width.
fn right_bearing(advance: u16, bbox: Bbox) -> (bearing: i16)
    requires
        fits16(bbox.x_max - bbox.x_min),
    ensures
        bearing == wrap16(advance - bbox.x_max),
{
    let glyph_width: i32 = (bbox.x_max - bbox.x_min) as i32;
    let space: i32 = advance as i32 - (bbox.x_min as i32 + glyph_width);
    if space > i16::MAX as i32 {
        (space - 0x1_0000) as i16
    } else {
        space as i16
    }
}

/// The metrics of all glyphs, given their bounding boxes.
pub fn horizontal_metrics(glyphs: &[FontGlyph], boxes: &[Bbox]) -> (metrics: Vec<LongMetric>)
    requires
        boxes@ == boxes_of(glyphs@),
    ensures
        metrics@ == metrics_of(glyphs@),
{
    // .notdef: zero advance, zero side bearing (empty glyph)
    let mut metrics: Vec<LongMetric> = vec![LongMetric { advance: 0, side_bearing: 0 }];
    assert(metrics@ =~= metrics_of(glyphs@.take(0)));
    let mut i: usize = 0;
    while i < glyphs.len()
        invariant
            i <= glyphs.len(),
            boxes@ == boxes_of(glyphs@),
            metrics@ == metrics_of(glyphs@.take(i as int)),
        decreases glyphs.len() - i,
    {
        // Standard TrueType convention: left-side-bearing is the glyph's own bbox.x_min
        // (distance from the glyph origin to its leftmost pixel), not a flat 0 - a glyph that
        // doesn't start flush at x=0 needs this to sit correctly next to whatever comes before.
        metrics.push(
            LongMetric { advance: clamped_advance(&glyphs[i]), side_bearing: boxes[i].x_min },
        );
        assert(metrics@ =~= metrics_of(glyphs@.take(i + 1)));
        i += 1;
    }
    assert(glyphs@.take(i as int) =~= glyphs@);
    metrics
}

/// The least right side bearing of the glyphs, given their bounding boxes.
pub fn min_right_bearing(glyphs: &[FontGlyph], boxes: &[Bbox]) -> (bearing: i16)
    requires
        boxes@ == boxes_of(glyphs@),
        forall|i: int|
            0 <= i < boxes@.len() ==> fits16((#[trigger] boxes@[i]).x_max - boxes@[i].x_min),
    ensures
        bearing == least_right_bearing(glyphs@),
{
    let mut bearings: Vec<i16> = Vec::new();
    let mut i: usize = 0;
    while i < glyphs.len()
        invariant
            i <= glyphs.len(),
            boxes@ == boxes_of(glyphs@),
            forall|k: int|
                0 <= k < boxes@.len() ==> fits16((#[trigger] boxes@[k]).x_max - boxes@[k].x_min),
            bearings@.len() == i,
            forall|k: int|
                0 <= k < i ==> #[trigger] bearings@[k] == glyphs@[k].right_side_bearing(),
        decreases glyphs.len() - i,
    {
        assert(boxes@[i as int] == glyphs@[i as int].bbox());
        bearings.push(right_bearing(clamped_advance(&glyphs[i]), boxes[i]));
        i += 1;
    }
    assert(ints_i16(bearings@) =~= glyphs@.map_values(
        |g: FontGlyph| g.right_side_bearing() as int,
    ));
    lowest_i16(bearings.as_slice())
}

/// The greatest advance width.
pub fn max_advance(metrics: &[LongMetric]) -> (advance: u16)
    ensures
        advance == highest_of(advances(metrics@)),
{
    let mut widths: Vec<u16> = Vec::new();
    let mut i: usize = 0;
    while i < metrics.len()
        invariant
            i <= metrics.len(),
            widths@ == metrics@.take(i as int).map_values(|m: LongMetric| m.advance),
        decreases metrics.len() - i,
    {
        widths.push(metrics[i].advance);
        i += 1;
    }
    assert(ints_u16(widths@) =~= advances(metrics@));
    highest_u16(widths.as_slice())
}

proof fn advance_total_grows(metrics: Seq<LongMetric>, i: int)
    requires
        0 <= i <= metrics.len(),
    ensures
        0 <= advance_total(metrics.take(i)) <= advance_total(metrics),
    decreases metrics.len(),
{
    if i == metrics.len() {
        assert(metrics.take(i) =~= metrics);
        if i > 0 {
            advance_total_grows(metrics.drop_last(), i - 1);
        }
    } else {
        advance_total_grows(metrics.drop_last(), i);
        assert(metrics.drop_last().take(i) =~= metrics.take(i));
    }
}

/// The 16-bit number that the low 16 bits of a number stand for.
fn wrap(v: u32) -> (w: i16)
    ensures
        w == wrap16(v as int),
{
    let low: u32 = v % 0x1_0000;
    if low < 0x8000 {
        low as i16
    } else {
        (low as i32 - 0x1_0000) as i16
    }
}

/// The average advance width, rounded down.
pub fn avg_advance(metrics: &[LongMetric]) -> (average: i16)
    requires
        advance_total(metrics@) <= u32::MAX,
        metrics@.len() % 0x1_0000_0000 != 0,
    ensures
        average == average_advance(metrics@),
{
    let mut total: u32 = 0;
    let mut i: usize = 0;
    while i < metrics.len()
        invariant
            i <= metrics.len(),
            advance_total(metrics@) <= u32::MAX,
            total == advance_total(metrics@.take(i as int)),
        decreases metrics.len() - i,
    {
        proof {
            advance_total_grows(metrics@, i + 1);
            assert(metrics@.take(i + 1).drop_last() =~= metrics@.take(i as int));
        }
        total += metrics[i].advance as u32;
        i += 1;
    }
    assert(metrics@.take(i as int) =~= metrics@);
    let count: u32 = (metrics.len() as u64 % 0x1_0000_0000) as u32;
    wrap(total / count)
}

/// The greatest number of points of a glyph, and the greatest number of contours, both as
/// 16-bit numbers.
pub fn max_counts(glyphs: &[FontGlyph]) -> (counts: (u16, u16))
    requires
        forall|i: int|
            0 <= i < glyphs@.len() ==> (#[trigger] glyphs@[i]).points().len() <= usize::MAX,
    ensures
        counts.0 == highest_of(point_counts(glyphs@)) % 0x1_0000,
        counts.1 == highest_of(contour_counts(glyphs@)) % 0x1_0000,
{
    let mut points: Vec<usize> = Vec::new();
    let mut contours: Vec<usize> = Vec::new();
    let mut i: usize = 0;
    while i < glyphs.len()
        invariant
            i <= glyphs.len(),
            forall|k: int|
                0 <= k < glyphs@.len() ==> (#[trigger] glyphs@[k]).points().len() <= usize::MAX,
            points@.len() == i,
            contours@.len() == i,
            forall|k: int| 0 <= k < i ==> #[trigger] points@[k] == glyphs@[k].points().len(),
            forall|k: int|
                0 <= k < i ==> #[trigger] contours@[k] == glyphs@[k].outline.contours@.len(),
        decreases glyphs.len() - i,
    {
        assert(glyphs@[i as int].points().len() <= usize::MAX);
        points.push(glyphs[i].outline.point_count());
        contours.push(glyphs[i].outline.contours.len());
        i += 1;
    }
    assert(ints_usize(points@) =~= point_counts(glyphs@));
    assert(ints_usize(contours@) =~= contour_counts(glyphs@));
    let max_points: usize = highest_usize(points.as_slice());
    let max_contours: usize = highest_usize(contours.as_slice());
    ((max_points % 0x1_0000) as u16, (max_contours % 0x1_0000) as u16)
}

/// The least and the greatest codepoint, by their low 16 bits.
pub fn char_range(glyphs: &[FontGlyph]) -> (range: (u16, u16))
    ensures
        range.0 == lowest_of(short_codes(glyphs@)),
        range.1 == highest_of(short_codes(glyphs@)),
{
    let mut codes: Vec<u16> = Vec::new();
    let mut i: usize = 0;
    while i < glyphs.len()
        invariant
            i <= glyphs.len(),
            codes@.len() == i,
            forall|k: int|
                0 <= k < i ==> #[trigger] codes@[k] == glyphs@[k].codepoint as int % 0x1_0000,
        decreases glyphs.len() - i,
    {
        codes.push((glyphs[i].codepoint % 0x1_0000) as u16);
        i += 1;
    }
    assert(ints_u16(codes@) =~= short_codes(glyphs@));
    (lowest_u16(codes.as_slice()), highest_u16(codes.as_slice()))
}

// ---------------------------------------------------------------------------
// What holds of them
// ---------------------------------------------------------------------------

/// What 16 bits stand for differs from the number by a multiple of 2^16; a number that they can
/// hold stays as it is.
pub proof fn low_bits_stand_for_a_number(v: int)
    ensures
        (wrap16(v) - v) % 0x1_0000 == 0,
        -0x8000 <= v < 0x8000 ==> wrap16(v) == v,
{
}

/// The box around boxes holds each of them, and is tight: each side is that of one of them.
pub proof fn box_around_boxes_is_tight(boxes: Seq<Bbox>)
    ensures
        forall|i: int|
            0 <= i < boxes.len() ==> union_box(boxes).x_min <= (#[trigger] boxes[i]).x_min
                && union_box(boxes).y_min <= boxes[i].y_min && union_box(boxes).x_max
                >= boxes[i].x_max && union_box(boxes).y_max >= boxes[i].y_max,
        boxes.len() > 0 ==> {
            &&& exists|i: int|
                0 <= i < boxes.len() && union_box(boxes).x_min == (#[trigger] boxes[i]).x_min
            &&& exists|i: int|
                0 <= i < boxes.len() && union_box(boxes).y_min == (#[trigger] boxes[i]).y_min
            &&& exists|i: int|
                0 <= i < boxes.len() && union_box(boxes).x_max == (#[trigger] boxes[i]).x_max
            &&& exists|i: int|
                0 <= i < boxes.len() && union_box(boxes).y_max == (#[trigger] boxes[i]).y_max
        },
        boxes.len() == 0 ==> union_box(boxes).x_min == 0 && union_box(boxes).y_min == 0
            && union_box(boxes).x_max == 0 && union_box(boxes).y_max == 0,
{
    let x_mins = boxes.map_values(|b: Bbox| b.x_min as int);
    let y_mins = boxes.map_values(|b: Bbox| b.y_min as int);
    let x_maxs = boxes.map_values(|b: Bbox| b.x_max as int);
    let y_maxs = boxes.map_values(|b: Bbox| b.y_max as int);
    if boxes.len() > 0 {
        extremes_bound(x_mins);
        extremes_bound(y_mins);
        extremes_bound(x_maxs);
        extremes_bound(y_maxs);
        let a = choose|k: int| 0 <= k < x_mins.len() && x_mins[k] == lowest_of(x_mins);
        let b = choose|k: int| 0 <= k < y_mins.len() && y_mins[k] == lowest_of(y_mins);
        let c = choose|k: int| 0 <= k < x_maxs.len() && x_maxs[k] == highest_of(x_maxs);
        let d = choose|k: int| 0 <= k < y_maxs.len() && y_maxs[k] == highest_of(y_maxs);
        assert(x_mins[a] == boxes[a].x_min);
        assert(y_mins[b] == boxes[b].y_min);
        assert(x_maxs[c] == boxes[c].x_max);
        assert(y_maxs[d] == boxes[d].y_max);
        assert forall|i: int| 0 <= i < boxes.len() implies union_box(boxes).x_min <= (
        #[trigger] boxes[i]).x_min && union_box(boxes).y_min <= boxes[i].y_min && union_box(
            boxes,
        ).x_max >= boxes[i].x_max && union_box(boxes).y_max >= boxes[i].y_max by {
            assert(x_mins[i] == boxes[i].x_min && y_mins[i] == boxes[i].y_min);
            assert(x_maxs[i] == boxes[i].x_max && y_maxs[i] == boxes[i].y_max);
        }
    }
}

/// Advance widths add up.
pub proof fn advance_widths_add_up(a: Seq<LongMetric>, b: Seq<LongMetric>, m: LongMetric)
    ensures
        advance_total(Seq::empty()) == 0,
        advance_total(seq![m]) == m.advance,
        advance_total(a + b) == advance_total(a) + advance_total(b),
    decreases b.len(),
{
    let none = seq![m].drop_last();
    assert(none =~= Seq::<LongMetric>::empty());
    assert(advance_total(none) == 0);
    assert(seq![m].last() == m);
    if b.len() == 0 {
        assert(a + b =~= a);
    } else {
        advance_widths_add_up(a, b.drop_last(), m);
        assert((a + b).drop_last() =~= a + b.drop_last());
        assert((a + b).last() == b.last());
    }
}

/// The average advance width, taken as many times as there are metrics, is the sum of the advance
/// widths, but for what is left over from rounding down. Of an average that 16 bits cannot hold,
/// the low ones are kept.
pub proof fn average_is_rounded_down(metrics: Seq<LongMetric>)
    requires
        0 < metrics.len() < 0x1_0000_0000,
    ensures
        advance_total(metrics) < 0x8000 * metrics.len() ==> average_advance(metrics)
            * metrics.len() <= advance_total(metrics) < (average_advance(metrics) + 1)
            * metrics.len(),
        average_advance(metrics) as int % 0x1_0000 == advance_total(metrics) / (
        metrics.len() as int) % 0x1_0000,
{
    advance_total_grows(metrics, 0);
    let total = advance_total(metrics);
    let n = metrics.len() as int;
    low_bits_stand_for_a_number(total / n);
    if total < 0x8000 * n {
        assert((total / n) * n <= total < (total / n + 1) * n && 0 <= total / n < 0x8000)
            by (nonlinear_arith)
            requires
                0 <= total < 0x8000 * n,
                n > 0,
        ;
        assert(average_advance(metrics) == total / n);
    }
}

/// The metrics are the advance widths and the left sides of the bounding boxes of the glyphs, in
/// order, behind two zeros for ".notdef".
pub proof fn metrics_are_those_of_the_glyphs(glyphs: Seq<FontGlyph>, i: int)
    requires
        0 <= i < glyphs.len(),
    ensures
        metrics_of(glyphs).len() == glyphs.len() + 1,
        metrics_of(glyphs)[0].advance == 0,
        metrics_of(glyphs)[0].side_bearing == 0,
        metrics_of(glyphs)[i + 1].advance == glyphs[i].advance(),
        metrics_of(glyphs)[i + 1].side_bearing == glyphs[i].bbox().x_min,
        advances(metrics_of(glyphs))[i + 1] == glyphs[i].advance(),
        boxes_of(glyphs).len() == glyphs.len(),
        boxes_of(glyphs)[i] == glyphs[i].bbox(),
{
}

} // verus!
