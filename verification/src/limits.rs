//! Finding out whether the numbers that describe a font can be computed.

use vstd::prelude::*;

use crate::extremes::{highest_of, lowest_of};
use crate::font::{buildable, measurable, nameable, FontGlyph};
use crate::glyf::{box_of_positions, clamp16, position_xs};
use crate::metrics::{advance_total, metrics_of};
use crate::outline::{all_points, GlyphOutline, GlyphPoint};
use crate::path::{point_positions, replayable, replayable_from};
use crate::tables::{utf16_len, LongMetric};
use crate::text::chars_of;

verus! {

fn contour_replays(contour: &[GlyphPoint]) -> (replays: bool)
    ensures
        replays == replayable_from(contour@, 1),
{
    let mut i: usize = 1;
    while i < contour.len()
        invariant
            1 <= i,
            replayable_from(contour@, 1) == replayable_from(contour@, i as int),
        decreases contour.len() - i,
    {
        if contour[i].on_curve {
            i += 1;
        } else if i + 1 < contour.len() {
            i += 2;
        } else {
            return false;
        }
    }
    true
}

/// Whether each control point of an outline that is reached has a point after it.
pub fn replays(outline: &GlyphOutline) -> (replays: bool)
    ensures
        replays == replayable(outline.points()),
{
    let mut k: usize = 0;
    while k < outline.contours.len()
        invariant
            k <= outline.contours.len(),
            forall|j: int| 0 <= j < k ==> replayable_from(#[trigger] outline.points()[j], 1),
        decreases outline.contours.len() - k,
    {
        if !contour_replays(outline.contours[k].as_slice()) {
            assert(!replayable_from(outline.points()[k as int], 1));
            return false;
        }
        k += 1;
    }
    true
}

/// The least and the greatest x coordinate of an outline, cut off at what 16 bits can hold, and
/// whether `usize` can count its points.
fn x_range(outline: &GlyphOutline) -> (range: (i16, i16, bool))
    ensures
        range.0 == box_of_positions(point_positions(all_points(outline.points()))).x_min,
        range.1 == box_of_positions(point_positions(all_points(outline.points()))).x_max,
        range.2 == (all_points(outline.points()).len() <= usize::MAX),
{
    let ghost contours = outline.points();
    let mut low: i32 = 0;
    let mut high: i32 = 0;
    let mut count: Option<usize> = Some(0);
    let mut any: bool = false;
    let mut k: usize = 0;
    assert(contours.take(0) =~= Seq::empty());
    assert(position_xs(point_positions(Seq::empty())) =~= Seq::empty());
    while k < outline.contours.len()
        invariant
            k <= outline.contours.len(),
            contours == outline.points(),
            any == (all_points(contours.take(k as int)).len() > 0),
            low == lowest_of(position_xs(point_positions(all_points(contours.take(k as int))))),
            high == highest_of(position_xs(point_positions(all_points(contours.take(k as int))))),
            count == (if all_points(contours.take(k as int)).len() <= usize::MAX {
                Some(all_points(contours.take(k as int)).len() as usize)
            } else {
                None
            }),
        decreases outline.contours.len() - k,
    {
        let contour: &Vec<GlyphPoint> = &outline.contours[k];
        let ghost before = all_points(contours.take(k as int));
        assert(contours.take(k + 1).drop_last() =~= contours.take(k as int));
        let mut i: usize = 0;
        assert(before + contour@.take(0) =~= before);
        while i < contour.len()
            invariant
                i <= contour.len(),
                any == ((before + contour@.take(i as int)).len() > 0),
                low == lowest_of(position_xs(point_positions(before + contour@.take(i as int)))),
                high == highest_of(position_xs(point_positions(before + contour@.take(i as int)))),
            decreases contour.len() - i,
        {
            let x: i32 = contour[i].x;
            proof {
                let now = position_xs(point_positions(before + contour@.take(i as int)));
                let next = position_xs(point_positions(before + contour@.take(i + 1)));
                assert(next.drop_last() =~= now);
                assert(next.last() == x);
            }
            if !any || x < low {
                low = x;
            }
            if !any || x > high {
                high = x;
            }
            any = true;
            i += 1;
        }
        assert(before + contour@.take(i as int) =~= before + contour@);
        count = match count {
            Some(n) => n.checked_add(contour.len()),
            None => None,
        };
        k += 1;
    }
    assert(contours.take(k as int) =~= contours);
    (clamp(low), clamp(high), count.is_some())
}

fn clamp(v: i32) -> (c: i16)
    ensures
        c == clamp16(v as int),
{
    if v < i16::MIN as i32 {
        i16::MIN
    } else if v > i16::MAX as i32 {
        i16::MAX
    } else {
        v as i16
    }
}

/// Whether the numbers that describe a glyph can be computed.
pub fn is_measurable(glyph: &FontGlyph) -> (fits: bool)
    ensures
        fits == measurable(*glyph),
{
    let (x_min, x_max, countable) = x_range(&glyph.outline);
    let width: i32 = x_max as i32 - x_min as i32;
    replays(&glyph.outline) && countable && i16::MIN as i32 <= width && width <= i16::MAX as i32
}

/// Whether a 16-bit number can count the bytes of a font's names in UTF-16.
pub fn is_nameable(family: &str) -> (fits: bool)
    ensures
        fits == nameable(family@),
{
    let chars: Vec<char> = chars_of(family);
    let mut len: usize = 0;
    let mut i: usize = 0;
    assert(chars@.take(0) =~= Seq::empty());
    while i < chars.len()
        invariant
            i <= chars.len(),
            chars@ == family@,
            len == utf16_len(chars@.take(i as int)),
            len <= 0x7fff,
        decreases chars.len() - i,
    {
        proof {
            utf16_len_grows(chars@, i + 1);
            assert(chars@.take(i + 1).drop_last() =~= chars@.take(i as int));
        }
        len += units(chars[i]);
        if len > 0x7fff {
            return false;
        }
        i += 1;
    }
    assert(chars@.take(i as int) =~= chars@);
    true
}

fn units(c: char) -> (n: usize)
    ensures
        n == (if (c as int) < 0x1_0000 {
            1int
        } else {
            2
        }),
{
    if (c as u32) < 0x1_0000 {
        1
    } else {
        2
    }
}

proof fn utf16_len_grows(text: Seq<char>, i: int)
    requires
        0 <= i <= text.len(),
    ensures
        utf16_len(text.take(i)) <= utf16_len(text),
    decreases text.len(),
{
    if i == text.len() {
        assert(text.take(i) =~= text);
    } else {
        utf16_len_grows(text.drop_last(), i);
        assert(text.drop_last().take(i) =~= text.take(i));
    }
}

proof fn total_of_first(glyphs: Seq<FontGlyph>, i: int)
    requires
        0 <= i < glyphs.len(),
    ensures
        advance_total(metrics_of(glyphs.take(i + 1))) == advance_total(metrics_of(glyphs.take(i)))
            + glyphs[i].advance(),
        advance_total(metrics_of(glyphs.take(i + 1))) <= advance_total(metrics_of(glyphs)),
    decreases glyphs.len() - i,
{
    let next = metrics_of(glyphs.take(i + 1));
    assert(next.drop_last() =~= metrics_of(glyphs.take(i)));
    assert(next.last().advance == glyphs[i].advance());
    if i + 1 < glyphs.len() {
        total_of_first(glyphs, i + 1);
    } else {
        assert(glyphs.take(i + 1) =~= glyphs);
    }
}

fn advances_fit(glyphs: &[FontGlyph]) -> (fit: bool)
    ensures
        fit == (advance_total(metrics_of(glyphs@)) <= u32::MAX),
{
    let mut total: u64 = 0;
    let mut i: usize = 0;
    proof {
        let none = metrics_of(glyphs@.take(0));
        assert(none.drop_last() =~= Seq::empty());
        assert(none.last() == (LongMetric { advance: 0, side_bearing: 0 }));
        assert(advance_total(none.drop_last()) == 0);
        assert(advance_total(none) == 0);
    }
    while i < glyphs.len()
        invariant
            i <= glyphs.len(),
            total == advance_total(metrics_of(glyphs@.take(i as int))),
            total <= u32::MAX,
        decreases glyphs.len() - i,
    {
        proof {
            total_of_first(glyphs@, i as int);
        }
        let width: i32 = glyphs[i].outline.advance_width;
        let advance: u64 = if width < 0 {
            0
        } else if width > u16::MAX as i32 {
            u16::MAX as u64
        } else {
            width as u64
        };
        total = total + advance;
        if total > u32::MAX as u64 {
            return false;
        }
        i += 1;
    }
    assert(glyphs@.take(i as int) =~= glyphs@);
    true
}

/// Whether the numbers that describe a font can be computed.
pub fn is_buildable(glyphs: &[FontGlyph]) -> (fits: bool)
    ensures
        fits == buildable(glyphs@),
{
    if glyphs.len() == usize::MAX || (glyphs.len() as u64 + 1) % 0x1_0000_0000 == 0 {
        return false;
    }
    let mut i: usize = 0;
    while i < glyphs.len()
        invariant
            i <= glyphs.len(),
            forall|k: int| 0 <= k < i ==> measurable(#[trigger] glyphs@[k]),
        decreases glyphs.len() - i,
    {
        if !is_measurable(&glyphs[i]) {
            assert(!measurable(glyphs@[i as int]));
            return false;
        }
        i += 1;
    }
    advances_fit(glyphs)
}

} // verus!
