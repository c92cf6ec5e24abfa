//! What becomes of each glyph of a config, and how it is shown.

use vstd::prelude::*;

use crate::config::{codepoint_hex, codepoint_of, codepoint_text};
use crate::config::{codepoint_text_reads_back, parse_codepoint};
use crate::font::FontGlyph;
use crate::outline::{all_points, contour_points, on_curve_points, GlyphOutline, GlyphPoint};
use crate::svg::OutlineSummary;
use crate::text::{decimal_text, push_decimal, push_signed, signed_text};

verus! {

/// One glyph of a config with everything that was found out about it.
#[derive(Debug)]
pub struct ResolvedGlyph {
    pub key: String,
    pub codepoint: Option<u32>,
    pub codepoint_hex: Option<String>,
    pub src: String,
    pub resolved_path: String,
    pub exists: bool,
    pub outline: Option<OutlineSummary>,
    pub glyph: Option<GlyphOutline>,
    pub parse_error: Option<String>,
}

/// What looking for a glyph's SVG file gave.
#[derive(Debug)]
pub enum Source {
    /// There is no such file.
    Missing,
    /// The file could not be read or parsed.
    Broken(String),
    /// The file's statistics, and the outline drawn for it.
    Parsed(OutlineSummary, GlyphOutline),
}

/// Whether this is what was found out about a glyph.
pub open spec fn resolution(
    resolved: ResolvedGlyph,
    key: Seq<char>,
    src: Seq<char>,
    resolved_path: Seq<char>,
    source: Source,
) -> bool {
    &&& resolved.key@ == key
    &&& resolved.codepoint == codepoint_of(key)
    &&& (match resolved.codepoint_hex {
        Some(hex) => codepoint_of(key) is Some && hex@ == codepoint_text(codepoint_of(key)->0),
        None => codepoint_of(key) is None,
    })
    &&& resolved.src@ == src
    &&& resolved.resolved_path@ == resolved_path
    &&& resolved.exists == !(source is Missing)
    &&& (match source {
        Source::Missing => resolved.outline is None && resolved.glyph is None
            && resolved.parse_error is None,
        Source::Broken(error) => resolved.outline is None && resolved.glyph is None
            && resolved.parse_error == Some(error),
        Source::Parsed(outline, glyph) => resolved.outline == Some(outline) && resolved.glyph
            == Some(glyph) && resolved.parse_error is None,
    })
}

/// Puts together what was found out about a glyph.
pub fn resolve_glyph(key: &str, src: &str, resolved_path: String, source: Source) -> (resolved:
    ResolvedGlyph)
    ensures
        resolved.key@ == key@,
        resolved.codepoint == codepoint_of(key@),
        resolved.codepoint_hex is Some <==> codepoint_of(key@) is Some,
        codepoint_of(key@) is Some ==> resolved.codepoint_hex->0@ == codepoint_text(
            codepoint_of(key@)->0,
        ),
        resolved.src@ == src@,
        resolved.resolved_path == resolved_path,
        resolved.exists == !(source is Missing),
        (match source {
            Source::Missing => resolved.outline is None && resolved.glyph is None
                && resolved.parse_error is None,
            Source::Broken(error) => resolved.outline is None && resolved.glyph is None
                && resolved.parse_error == Some(error),
            Source::Parsed(outline, glyph) => resolved.outline == Some(outline) && resolved.glyph
                == Some(glyph) && resolved.parse_error is None,
        }),
        resolution(resolved, key@, src@, resolved_path@, source),
{
    let codepoint: Option<u32> = parse_codepoint(key);
    let shown: Option<String> = match codepoint {
        Some(cp) => Some(codepoint_hex(cp)),
        None => None,
    };
    let (exists, outline, glyph, parse_error) = match source {
        Source::Missing => (false, None, None, None),
        Source::Broken(error) => (true, None, None, Some(error)),
        Source::Parsed(outline, glyph) => (true, Some(outline), Some(glyph), None),
    };
    ResolvedGlyph {
        key: key.to_owned(),
        codepoint,
        codepoint_hex: shown,
        src: src.to_owned(),
        resolved_path,
        exists,
        outline,
        glyph,
        parse_error,
    }
}

/// How many glyphs there are whose SVG file is missing.
pub open spec fn missing_count(resolved: Seq<ResolvedGlyph>) -> nat {
    resolved.filter(|g: ResolvedGlyph| !g.exists).len()
}

/// Counts the glyphs whose SVG file is missing.
pub fn count_missing(resolved: &[ResolvedGlyph]) -> (missing: usize)
    ensures
        missing == resolved@.filter(|g: ResolvedGlyph| !g.exists).len(),
        missing == missing_count(resolved@),
{
    let ghost absent = |g: ResolvedGlyph| !g.exists;
    let mut missing: usize = 0;
    let mut i: usize = 0;
    proof {
        reveal(Seq::filter);
        assert(resolved@.take(0) =~= Seq::empty());
    }
    while i < resolved.len()
        invariant
            i <= resolved.len(),
            absent == (|g: ResolvedGlyph| !g.exists),
            missing == resolved@.take(i as int).filter(absent).len(),
            missing <= i,
        decreases resolved.len() - i,
    {
        proof {
            reveal(Seq::filter);
            assert(resolved@.take(i + 1).drop_last() =~= resolved@.take(i as int));
        }
        if !resolved[i].exists {
            missing += 1;
        }
        i += 1;
    }
    assert(resolved@.take(i as int) =~= resolved@);
    missing
}

// ---------------------------------------------------------------------------
// Choosing the glyphs of the font
// ---------------------------------------------------------------------------

/// What a glyph of the font is made of: its codepoint, the points of its contours, and its
/// advance width.
pub open spec fn glyph_data(glyph: FontGlyph) -> (u32, Seq<Seq<GlyphPoint>>, i32) {
    (glyph.codepoint, glyph.outline.points(), glyph.outline.advance_width)
}

/// What glyphs of the font are made of.
pub open spec fn glyphs_data(glyphs: Seq<FontGlyph>) -> Seq<(u32, Seq<Seq<GlyphPoint>>, i32)> {
    glyphs.map_values(|g: FontGlyph| glyph_data(g))
}

/// The glyphs that go into the font, in order: those that have a codepoint and an outline.
pub open spec fn chosen(resolved: Seq<ResolvedGlyph>) -> Seq<(u32, Seq<Seq<GlyphPoint>>, i32)>
    decreases resolved.len(),
{
    if resolved.len() == 0 {
        Seq::empty()
    } else {
        let before = chosen(resolved.drop_last());
        match (resolved.last().codepoint, resolved.last().glyph) {
            (Some(codepoint), Some(glyph)) => before.push(
                (codepoint, glyph.points(), glyph.advance_width),
            ),
            _ => before,
        }
    }
}

/// A copy of an outline.
pub fn copy_outline(outline: &GlyphOutline) -> (copy: GlyphOutline)
    ensures
        copy.points() == outline.points(),
        copy.advance_width == outline.advance_width,
{
    let mut contours: Vec<Vec<GlyphPoint>> = Vec::new();
    let mut i: usize = 0;
    while i < outline.contours.len()
        invariant
            i <= outline.contours.len(),
            contour_points(contours@) == outline.points().take(i as int),
        decreases outline.contours.len() - i,
    {
        let mut contour: Vec<GlyphPoint> = Vec::new();
        contour.extend_from_slice(outline.contours[i].as_slice());
        assert(contour@ =~= outline.contours@[i as int]@);
        let ghost before = contours@;
        contours.push(contour);
        assert(contour_points(contours@) =~= contour_points(before).push(contour@));
        assert(contour_points(contours@) =~= outline.points().take(i + 1));
        i += 1;
    }
    assert(outline.points().take(i as int) =~= outline.points());
    GlyphOutline { contours, advance_width: outline.advance_width }
}

/// The glyphs that go into the font, in order: those that have a codepoint and an outline.
pub fn font_glyphs(resolved: &[ResolvedGlyph]) -> (glyphs: Vec<FontGlyph>)
    ensures
        glyphs_data(glyphs@) == chosen(resolved@),
{
    let mut glyphs: Vec<FontGlyph> = Vec::new();
    let mut i: usize = 0;
    assert(resolved@.take(0) =~= Seq::empty());
    assert(glyphs_data(glyphs@) =~= Seq::empty());
    while i < resolved.len()
        invariant
            i <= resolved.len(),
            glyphs_data(glyphs@) == chosen(resolved@.take(i as int)),
        decreases resolved.len() - i,
    {
        assert(resolved@.take(i + 1).drop_last() =~= resolved@.take(i as int));
        let ghost before = glyphs@;
        if let Some(codepoint) = resolved[i].codepoint {
            if let Some(glyph) = &resolved[i].glyph {
                let chosen_glyph = FontGlyph { codepoint, outline: copy_outline(glyph) };
                glyphs.push(chosen_glyph);
                assert(glyphs_data(glyphs@) =~= glyphs_data(before).push(
                    glyph_data(chosen_glyph),
                ));
            }
        }
        i += 1;
    }
    assert(resolved@.take(i as int) =~= resolved@);
    glyphs
}

// ---------------------------------------------------------------------------
// Showing
// ---------------------------------------------------------------------------

/// A text with spaces behind it, up to a width in characters.
pub open spec fn padded(text: Seq<char>, width: nat) -> Seq<char> {
    if text.len() < width {
        text + Seq::new((width - text.len()) as nat, |i: int| ' ')
    } else {
        text
    }
}

fn push_padded(out: &mut String, text: &str, width: usize)
    ensures
        final(out)@ == old(out)@ + padded(text@, width as nat),
{
    let ghost start = out@ + text@;
    out.append(text);
    let mut len: usize = crate::text::chars_of(text).len();
    let ghost first = len;
    assert(out@ =~= start + Seq::new(0, |i: int| ' '));
    while len < width
        invariant
            first <= len,
            first < width ==> len <= width,
            first >= width ==> len == first,
            out@ == start + Seq::new((len - first) as nat, |i: int| ' '),
        decreases width - len,
    {
        out.push(' ');
        assert(out@ =~= start + Seq::new((len + 1 - first) as nat, |i: int| ' '));
        len += 1;
    }
    assert(out@ =~= old(out)@ + padded(text@, width as nat));
}

/// How a glyph's codepoint is shown: its hexadecimal form, or its key behind a question mark.
pub open spec fn shown_codepoint(glyph: ResolvedGlyph) -> Seq<char> {
    match glyph.codepoint_hex {
        Some(hex) => hex@,
        None => "? ("@ + glyph.key@ + ")"@,
    }
}

/// The line of a glyph in the table: its codepoint, whether its SVG file exists, its key and the
/// file, in columns.
pub open spec fn row_text(glyph: ResolvedGlyph) -> Seq<char> {
    padded(shown_codepoint(glyph), 10) + " "@ + padded(
        if glyph.exists {
            "ok"@
        } else {
            "MISSING"@
        },
        8,
    ) + " "@ + padded(glyph.key@, 7) + " "@ + glyph.resolved_path@
}

/// The line of a glyph in the table.
pub fn glyph_row(glyph: &ResolvedGlyph) -> (row: String)
    ensures
        row@ == row_text(*glyph),
{
    let mut cp: String = String::new();
    match &glyph.codepoint_hex {
        Some(hex) => {
            cp.append(hex.as_str());
            assert(cp@ =~= hex@);
        },
        None => {
            cp.append("? (");
            cp.append(glyph.key.as_str());
            cp.append(")");
            assert(cp@ =~= "? ("@ + glyph.key@ + ")"@);
        },
    }
    let status: &str = if glyph.exists {
        "ok"
    } else {
        "MISSING"
    };
    let mut row: String = String::new();
    push_padded(&mut row, cp.as_str(), 10);
    row.append(" ");
    push_padded(&mut row, status, 8);
    row.append(" ");
    push_padded(&mut row, glyph.key.as_str(), 7);
    row.append(" ");
    row.append(glyph.resolved_path.as_str());
    assert(row@ =~= row_text(*glyph));
    row
}

/// The line that describes an outline.
pub open spec fn outline_text(outline: GlyphOutline) -> Seq<char> {
    "           glyph: contours: "@ + decimal_text(outline.contours@.len()) + "   points: "@
        + decimal_text(all_points(outline.points()).len()) + " (on-curve: "@ + decimal_text(
        on_curve_points(all_points(outline.points())).len(),
    ) + ")   advance: "@ + signed_text(outline.advance_width as int)
}

/// The line that describes an outline.
pub fn outline_row(outline: &GlyphOutline) -> (row: String)
    requires
        all_points(outline.points()).len() <= usize::MAX,
    ensures
        row@ == outline_text(*outline),
{
    let mut row: String = "           glyph: contours: ".to_owned();
    push_decimal(&mut row, outline.contours.len() as u64);
    row.append("   points: ");
    push_decimal(&mut row, outline.point_count() as u64);
    row.append(" (on-curve: ");
    push_decimal(&mut row, outline.on_curve_count() as u64);
    row.append(")   advance: ");
    push_signed(&mut row, outline.advance_width);
    assert(row@ =~= outline_text(*outline));
    row
}

/// Where every glyph has a codepoint and an outline, all of them go into the font.
pub proof fn complete_glyphs_are_all_chosen(resolved: Seq<ResolvedGlyph>)
    requires
        forall|i: int|
            0 <= i < resolved.len() ==> (#[trigger] resolved[i]).codepoint is Some
                && resolved[i].glyph is Some,
    ensures
        chosen(resolved).len() == resolved.len(),
        forall|i: int|
            0 <= i < resolved.len() ==> #[trigger] chosen(resolved)[i] == (
                resolved[i].codepoint->0,
                resolved[i].glyph->0.points(),
                resolved[i].glyph->0.advance_width,
            ),
    decreases resolved.len(),
{
    if resolved.len() > 0 {
        let rest = resolved.drop_last();
        assert forall|i: int| 0 <= i < rest.len() implies (#[trigger] rest[i]).codepoint is Some
            && rest[i].glyph is Some by {
            assert(rest[i] == resolved[i]);
        }
        complete_glyphs_are_all_chosen(rest);
        let last = resolved[resolved.len() - 1];
        assert(last.codepoint is Some && last.glyph is Some);
    }
}

/// The glyphs of a config are chosen one by one, in order: one that has a codepoint and an outline
/// goes into the font with just these, and any other is left out.
pub proof fn glyphs_are_chosen_one_by_one(
    a: Seq<ResolvedGlyph>,
    b: Seq<ResolvedGlyph>,
    glyph: ResolvedGlyph,
)
    ensures
        chosen(Seq::empty()).len() == 0,
        chosen(a + b) == chosen(a) + chosen(b),
        glyph.codepoint is None || glyph.glyph is None ==> chosen(seq![glyph]).len() == 0,
        glyph.codepoint is Some && glyph.glyph is Some ==> {
            &&& chosen(seq![glyph]).len() == 1
            &&& chosen(seq![glyph])[0].0 == glyph.codepoint->0
            &&& chosen(seq![glyph])[0].1 == glyph.glyph->0.points()
            &&& chosen(seq![glyph])[0].2 == glyph.glyph->0.advance_width
        },
    decreases b.len(),
{
    let none = seq![glyph].drop_last();
    assert(none =~= Seq::<ResolvedGlyph>::empty());
    assert(chosen(none) =~= Seq::empty());
    assert(seq![glyph].last() == glyph);
    if b.len() == 0 {
        assert(a + b =~= a);
        assert(chosen(a) + chosen(b) =~= chosen(a));
    } else {
        glyphs_are_chosen_one_by_one(a, b.drop_last(), glyph);
        assert((a + b).drop_last() =~= a + b.drop_last());
        assert((a + b).last() == b.last());
        assert(chosen(a + b) =~= chosen(a) + chosen(b));
    }
}

/// What a glyph of the font is made of is read off its fields.
pub proof fn glyphs_are_made_of_their_fields(glyphs: Seq<FontGlyph>, i: int)
    requires
        0 <= i < glyphs.len(),
    ensures
        glyphs_data(glyphs).len() == glyphs.len(),
        glyphs_data(glyphs)[i].0 == glyphs[i].codepoint,
        glyphs_data(glyphs)[i].1 == glyphs[i].outline.points(),
        glyphs_data(glyphs)[i].2 == glyphs[i].outline.advance_width,
{
}

/// Each glyph whose file is missing counts once.
pub proof fn missing_glyphs_add_up(
    a: Seq<ResolvedGlyph>,
    b: Seq<ResolvedGlyph>,
    glyph: ResolvedGlyph,
)
    ensures
        missing_count(Seq::empty()) == 0,
        missing_count(a + b) == missing_count(a) + missing_count(b),
        glyph.exists ==> missing_count(seq![glyph]) == 0,
        !glyph.exists ==> missing_count(seq![glyph]) == 1,
        missing_count(a) <= a.len(),
{
    reveal(Seq::filter);
    let absent = |g: ResolvedGlyph| !g.exists;
    let none = seq![glyph].drop_last();
    assert(none =~= Seq::<ResolvedGlyph>::empty());
    assert(none.filter(absent) =~= Seq::<ResolvedGlyph>::empty());
    assert(seq![glyph].last() == glyph);
    Seq::filter_distributes_over_add(a, b, absent);
    filter_is_no_longer(a, absent);
}

proof fn filter_is_no_longer(s: Seq<ResolvedGlyph>, keep: spec_fn(ResolvedGlyph) -> bool)
    ensures
        s.filter(keep).len() <= s.len(),
    decreases s.len(),
{
    reveal(Seq::filter);
    if s.len() > 0 {
        filter_is_no_longer(s.drop_last(), keep);
    }
}

/// A padded text is the text with nothing but spaces behind it, as wide as asked for; one that is
/// wider already stays as it is.
pub proof fn padding_is_spaces(text: Seq<char>, width: nat)
    ensures
        padded(text, width).len() == (if text.len() < width {
            width
        } else {
            text.len()
        }),
        padded(text, width).take(text.len() as int) == text,
        forall|i: int|
            text.len() <= i < padded(text, width).len() ==> #[trigger] padded(text, width)[i]
                == ' ',
{
    assert(padded(text, width).take(text.len() as int) =~= text);
}

/// A glyph without a codepoint is shown by its key, in brackets behind a question mark; any other
/// one by its codepoint.
pub proof fn codepoints_are_shown(glyph: ResolvedGlyph)
    ensures
        glyph.codepoint_hex matches Some(hex) ==> shown_codepoint(glyph) == hex@,
        glyph.codepoint_hex is None ==> shown_codepoint(glyph) == seq!['?', ' ', '('] + glyph.key@
            + seq![')'],
{
    reveal_strlit("? (");
    reveal_strlit(")");
    assert("? ("@ =~= seq!['?', ' ', '(']);
    assert(")"@ =~= seq![')']);
}

/// A line of the table has four columns: what is shown for the codepoint, 10 characters wide, then
/// whether the file exists, 8 wide, then the key, 7 wide, and the file; with a space between them.
/// A wider codepoint or key pushes what follows to the right.
pub proof fn lines_have_columns(glyph: ResolvedGlyph)
    ensures
        ({
            let row = row_text(glyph);
            let first = if shown_codepoint(glyph).len() > 10 {
                shown_codepoint(glyph).len() as int
            } else {
                10
            };
            let third = if glyph.key@.len() > 7 {
                glyph.key@.len() as int
            } else {
                7
            };
            &&& row.len() == first + 1 + 8 + 1 + third + 1 + glyph.resolved_path@.len()
            &&& row.take(shown_codepoint(glyph).len() as int) == shown_codepoint(glyph)
            &&& row[first] == ' '
            &&& glyph.exists ==> row.subrange(first + 1, first + 9) == seq![
                'o',
                'k',
                ' ',
                ' ',
                ' ',
                ' ',
                ' ',
                ' ',
            ]
            &&& !glyph.exists ==> row.subrange(first + 1, first + 9) == seq![
                'M',
                'I',
                'S',
                'S',
                'I',
                'N',
                'G',
                ' ',
            ]
            &&& row[first + 9] == ' '
            &&& row.subrange(first + 10, first + 10 + glyph.key@.len()) == glyph.key@
            &&& row[first + 10 + third] == ' '
            &&& row.skip(first + 11 + third) == glyph.resolved_path@
        }),
{
    reveal_strlit("ok");
    reveal_strlit("MISSING");
    reveal_strlit(" ");
    let row = row_text(glyph);
    let status = if glyph.exists {
        "ok"@
    } else {
        "MISSING"@
    };
    let (a, b, c) = (padded(shown_codepoint(glyph), 10), padded(status, 8), padded(glyph.key@, 7));
    padding_is_spaces(shown_codepoint(glyph), 10);
    padding_is_spaces(status, 8);
    padding_is_spaces(glyph.key@, 7);
    let first = a.len() as int;
    let third = c.len() as int;
    assert(row == a + " "@ + b + " "@ + c + " "@ + glyph.resolved_path@);
    assert(row.take(shown_codepoint(glyph).len() as int) =~= a.take(
        shown_codepoint(glyph).len() as int,
    ));
    assert(row.subrange(first + 1, first + 9) =~= b);
    assert(b.take(status.len() as int) == status);
    assert forall|i: int| 0 <= i < status.len() implies b[i] == #[trigger] status[i] by {
        assert(b.take(status.len() as int)[i] == b[i]);
    }
    assert(row.subrange(first + 10, first + 10 + glyph.key@.len()) =~= c.take(
        glyph.key@.len() as int,
    ));
    assert(row.skip(first + 11 + third) =~= glyph.resolved_path@);
}

/// The line that describes an outline says how many contours it has, how many points, how many of
/// them sit on the outline, and how wide the glyph is.
pub proof fn outlines_are_described_by_their_counts(
    outline: GlyphOutline,
    contours: nat,
    points: nat,
    on_curve: nat,
)
    requires
        outline.points().len() == contours,
        all_points(outline.points()).len() == points,
        on_curve_points(all_points(outline.points())).len() == on_curve,
    ensures
        outline_text(outline) == "           glyph: contours: "@ + decimal_text(contours)
            + "   points: "@ + decimal_text(points) + " (on-curve: "@ + decimal_text(on_curve)
            + ")   advance: "@ + signed_text(outline.advance_width as int),
{
}

/// What becomes of a glyph by what looking for its file gave: a missing file counts as missing, is
/// shown as such, and leaves nothing for the font; one that could not be read or parsed leaves the
/// error and nothing for the font; of one that was parsed, the outline goes into the font under the
/// codepoint that the key names, if it names one.
pub proof fn sources_decide_about_glyphs(
    resolved: ResolvedGlyph,
    key: Seq<char>,
    src: Seq<char>,
    resolved_path: Seq<char>,
    source: Source,
)
    requires
        resolution(resolved, key, src, resolved_path, source),
    ensures
        resolved.key@ == key,
        resolved.src@ == src,
        resolved.resolved_path@ == resolved_path,
        missing_count(seq![resolved]) == (if source is Missing {
            1nat
        } else {
            0
        }),
        resolved.parse_error is Some <==> source is Broken,
        source matches Source::Broken(error) ==> resolved.parse_error->0 == error,
        resolved.outline is Some <==> source is Parsed,
        source matches Source::Parsed(outline, glyph) ==> resolved.outline->0 == outline,
        chosen(seq![resolved]).len() == (if source is Parsed && codepoint_of(key) is Some {
            1nat
        } else {
            0
        }),
        source matches Source::Parsed(outline, glyph) ==> (codepoint_of(key) matches Some(codepoint)
            ==> chosen(seq![resolved])[0].0 == codepoint && chosen(seq![resolved])[0].1
            == glyph.points() && chosen(seq![resolved])[0].2 == glyph.advance_width),
        codepoint_of(key) matches Some(codepoint) ==> codepoint_of(shown_codepoint(resolved))
            == Some(codepoint) && shown_codepoint(resolved)[0] == 'U',
        codepoint_of(key) is None ==> shown_codepoint(resolved)[0] == '?',
{
    missing_glyphs_add_up(Seq::empty(), Seq::empty(), resolved);
    glyphs_are_chosen_one_by_one(Seq::empty(), Seq::empty(), resolved);
    codepoints_are_shown(resolved);
    if let Some(codepoint) = codepoint_of(key) {
        codepoint_text_reads_back(codepoint);
    }
}

} // verus!
