//! Assembling a minimal, valid TrueType (.ttf) font from a set of glyph outlines: table
//! construction (head, hhea, maxp, hmtx, cmap, OS/2, post, name, glyf, loca) via the
//! `write-fonts` crate.

use vstd::prelude::*;

use crate::bytes::{be16_len, concat, concat_splits, read16, read32};
use crate::config::codepoint_hex;
use crate::extremes::{extremes_bound, highest_of, lowest_of};
use crate::glyf::{add_empty_glyph, add_glyph, bbox_of, box_encloses, box_of_positions};
use crate::glyf::{build_glyphs, clamp16};
use crate::glyf::{encodable, even_runs};
use crate::glyf::{builder_runs, fits16, format_of, from_bezpath, glyf_bytes, glyph_contents};
use crate::glyf::{dump_glyf, dump_loca, glyph_run, loca_bytes, loca_offsets, run_offsets};
use crate::glyf::{contours_of, is_encodable, joined, none_empty, run_bound, run_length};
use crate::glyf::{begins_with_its_box, small_contours_are_encodable, stand_at};
use crate::glyf::{simple_contours, Bbox, CurvePoint, GlyphContents, LocaFormat};
use crate::metrics::{advance_total, advances, average_advance, avg_advance, boxes_of, char_range};
use crate::metrics::{contour_counts, enclose, font_box, horizontal_metrics, least_right_bearing};
use crate::metrics::{max_advance, max_counts, metrics_of, min_right_bearing, point_counts};
use crate::metrics::{short_codes, wrap16};
use crate::outline::{all_points, drawn_contours, drawn_contours_are_well_formed};
use crate::outline::{FontStep, GlyphOutline, GlyphPoint};
use crate::path::{outline_commands, outline_commands_are_plain, outline_to_bezpath};
use crate::path::{point_positions, replay_keeps_every_position, replayable};
use crate::path::{replay_starts_each_contour, well_formed_contours_are_replayable};
use crate::sfnt::{assemble_sfnt, distinct_tags, is_font_of, CFF, CFF2};
use crate::tables::{as_map, cmap_conflict, cmap_contents, cmap_gives, cmap_of_mappings};
use crate::tables::{consistent, from_mappings, in_order, name_says, name_size};
use crate::tables::{cmap_bytes, dump_cmap, dump_head, dump_hhea, dump_hmtx, dump_maxp, dump_name};
use crate::tables::{dump_os2, dump_post, head_bytes, hhea_bytes, hmtx_bytes, hmtx_failure};
use crate::tables::{maxp_bytes, name_bytes, name_entries, os2_bytes, post_bytes, utf16_bytes};
use crate::tables::utf16_len;
use crate::tables::{Head, Hhea, Hmtx, LongMetric, Maxp, NameEntry, NameRecord, Os2, Panose, Post};
use crate::tag::{Tag, CMAP, GLYF, HEAD, HHEA, HMTX, LOCA, MAXP, NAME, OS2, POST};
use crate::text::{strip_white_space, white_space, without_white_space};
use crate::woff2::{padded_total, padded_total_grows, sfnt_size, table_contents};
use crate::woff2::{table_within_total, tag_index, woff2_file, woff2_header_reads_back};

verus! {

/// One glyph to include in the font: its Unicode codepoint and outline.
#[derive(Clone, Debug)]
pub struct FontGlyph {
    pub codepoint: u32,
    pub outline: GlyphOutline,
}

impl FontGlyph {
    /// All points of the glyph's contours.
    pub open spec fn points(self) -> Seq<GlyphPoint> {
        all_points(self.outline.points())
    }

    /// The bounding box of the glyph's points, control points among them.
    pub open spec fn bbox(self) -> Bbox {
        box_of_positions(point_positions(self.points()))
    }

    /// The width that the glyph takes up, cut off at what 16 bits can hold.
    pub open spec fn advance(self) -> u16 {
        if self.outline.advance_width < 0 {
            0
        } else if self.outline.advance_width > u16::MAX {
            u16::MAX
        } else {
            self.outline.advance_width as u16
        }
    }

    /// The glyph as the `glyf` table holds it.
    pub open spec fn contents(self) -> GlyphContents {
        GlyphContents {
            bbox: self.bbox(),
            contours: simple_contours(outline_commands(self.outline.points()))->Ok_0,
            instructions: Seq::empty(),
            overlaps: false,
        }
    }

    /// The space from the end of the bounding box to the end of the glyph's width, as a 16-bit
    /// number.
    pub open spec fn right_side_bearing(self) -> i16 {
        wrap16(self.advance() - self.bbox().x_max)
    }
}


// ---------------------------------------------------------------------------
// What the tables hold
// ---------------------------------------------------------------------------

/// The bytes of every glyph: none for ".notdef", then those of each glyph in order.
pub open spec fn runs_of(glyphs: Seq<FontGlyph>) -> Seq<Seq<u8>> {
    seq![Seq::<u8>::empty()] + glyphs.map_values(|g: FontGlyph| glyph_run(g.contents()))
}

/// The top of the font's bounding box.
pub open spec fn ascender_of(glyphs: Seq<FontGlyph>) -> i16 {
    font_box(glyphs).y_max
}

/// The bottom of the font's bounding box, or the baseline where that is lower.
pub open spec fn descender_of(glyphs: Seq<FontGlyph>) -> i16 {
    if font_box(glyphs).y_min < 0 {
        font_box(glyphs).y_min
    } else {
        0
    }
}

/// What the `head` table says: revision 1.0, the units per em, the font's bounding box, 8 pixels
/// as the least readable size, and the form of the `loca` table.
pub open spec fn head_of(glyphs: Seq<FontGlyph>, upm: u16) -> Head {
    Head {
        font_revision: 0x1_0000,
        checksum_adjustment: 0,
        flags: 0,
        units_per_em: upm,
        created: 0,
        modified: 0,
        x_min: font_box(glyphs).x_min,
        y_min: font_box(glyphs).y_min,
        x_max: font_box(glyphs).x_max,
        y_max: font_box(glyphs).y_max,
        mac_style: 0,
        lowest_rec_ppem: 8,
        index_to_loc_format: if format_of(run_offsets(runs_of(glyphs))) is Short {
            0
        } else {
            1
        },
    }
}

/// What the `hhea` table says: ascender and descender, the extremes of the glyphs' metrics, an
/// upright caret, and one metric for each glyph.
pub open spec fn hhea_of(glyphs: Seq<FontGlyph>) -> Hhea {
    Hhea {
        ascender: ascender_of(glyphs),
        descender: descender_of(glyphs),
        line_gap: 0,
        advance_width_max: highest_of(advances(metrics_of(glyphs))) as u16,
        min_left_side_bearing: font_box(glyphs).x_min,
        min_right_side_bearing: least_right_bearing(glyphs),
        x_max_extent: font_box(glyphs).x_max,
        caret_slope_rise: 1,
        caret_slope_run: 0,
        caret_offset: 0,
        number_of_h_metrics: (metrics_of(glyphs).len() % 0x1_0000) as u16,
    }
}

/// What the `maxp` table says: the number of glyphs, the most points and the most contours of
/// one, and a single zone.
pub open spec fn maxp_of(glyphs: Seq<FontGlyph>) -> Maxp {
    Maxp {
        num_glyphs: (metrics_of(glyphs).len() % 0x1_0000) as u16,
        max_points: (highest_of(point_counts(glyphs)) % 0x1_0000) as u16,
        max_contours: (highest_of(contour_counts(glyphs)) % 0x1_0000) as u16,
        max_composite_points: 0,
        max_composite_contours: 0,
        max_zones: 1,
        max_twilight_points: 0,
        max_storage: 0,
        max_function_defs: 0,
        max_instruction_defs: 0,
        max_stack_elements: 0,
        max_size_of_instructions: 0,
        max_component_elements: 0,
        max_component_depth: 0,
    }
}

/// Whether a number is that of a character.
pub open spec fn scalar(code: u32) -> bool {
    code < 0xd800 || 0xe000 <= code <= 0x10_ffff
}

/// The character of each glyph whose codepoint is one, with the glyph's number. ".notdef" is
/// glyph 0; the others are numbered from 1 on, in order.
pub open spec fn mappings_of(glyphs: Seq<FontGlyph>) -> Seq<(char, u32)>
    decreases glyphs.len(),
{
    if glyphs.len() == 0 {
        Seq::empty()
    } else if scalar(glyphs.last().codepoint) {
        mappings_of(glyphs.drop_last()).push(
            (glyphs.last().codepoint as char, (glyphs.len() % 0x1_0000_0000) as u32),
        )
    } else {
        mappings_of(glyphs.drop_last())
    }
}

/// An entry of the `name` table for Windows, Unicode BMP, US English.
pub open spec fn english_name(id: u16, string: Seq<char>) -> NameEntry {
    NameEntry { platform_id: 3, encoding_id: 1, language_id: 0x0409, name_id: id, string }
}

/// What the `name` table says: the family, the style, a unique name, the full name, the version
/// and the PostScript name, which is the family without white space.
pub open spec fn names_of(family: Seq<char>) -> Seq<NameEntry> {
    seq![
        english_name(1, family),
        english_name(2, "Regular"@),
        english_name(3, family),
        english_name(4, family),
        english_name(5, "Version 1.0"@),
        english_name(6, without_white_space(family)),
    ]
}

/// What the `post` table says: version 3.0, which holds no glyph names.
pub open spec fn plain_post() -> Post {
    Post {
        major_version: 3,
        minor_version: 0,
        italic_angle: 0,
        underline_position: 0,
        underline_thickness: 0,
        is_fixed_pitch: 0,
        min_mem_type42: 0,
        max_mem_type42: 0,
        min_mem_type1: 0,
        max_mem_type1: 0,
    }
}

/// A classification that says nothing.
pub open spec fn no_panose() -> Panose {
    Panose {
        family_type: 0,
        serif_style: 0,
        weight: 0,
        proportion: 0,
        contrast: 0,
        stroke_variation: 0,
        arm_style: 0,
        letterform: 0,
        midline: 0,
        x_height: 0,
    }
}

/// The vendor that stands for none: the tag `NONE`.
pub const NO_VENDOR: u32 = 0x4e4f_4e45;

/// What the `OS/2` table says: the average width, regular weight and width, no vendor, the range
/// of codepoints, and ascender and descender.
pub open spec fn os2_of(glyphs: Seq<FontGlyph>) -> Os2 {
    Os2 {
        x_avg_char_width: average_advance(metrics_of(glyphs)),
        us_weight_class: 400,
        us_width_class: 5,
        fs_type: 0,
        y_subscript_x_size: 0,
        y_subscript_y_size: 0,
        y_subscript_x_offset: 0,
        y_subscript_y_offset: 0,
        y_superscript_x_size: 0,
        y_superscript_y_size: 0,
        y_superscript_x_offset: 0,
        y_superscript_y_offset: 0,
        y_strikeout_size: 0,
        y_strikeout_position: 0,
        s_family_class: 0,
        panose_10: no_panose(),
        ul_unicode_range_1: 0,
        ul_unicode_range_2: 0,
        ul_unicode_range_3: 0,
        ul_unicode_range_4: 0,
        ach_vend_id: Tag { code: NO_VENDOR },
        fs_selection: 0x40,
        us_first_char_index: lowest_of(short_codes(glyphs)) as u16,
        us_last_char_index: highest_of(short_codes(glyphs)) as u16,
        s_typo_ascender: ascender_of(glyphs),
        s_typo_descender: descender_of(glyphs),
        s_typo_line_gap: 0,
        us_win_ascent: if ascender_of(glyphs) > 0 {
            ascender_of(glyphs) as u16
        } else {
            0
        },
        us_win_descent: (-descender_of(glyphs)) as u16,
    }
}

/// Every top-level table needed for a complete font, before it's either assembled into a .ttf
/// ([`build_font`]) or dumped to raw bytes for WOFF2 ([`build_font_tables`]).
pub struct Tables {
    pub head: Head,
    pub hhea: Hhea,
    pub maxp: Maxp,
    pub hmtx: Hmtx,
    pub cmap: write_fonts::tables::cmap::Cmap,
    pub name: Vec<NameRecord>,
    pub post: Post,
    pub os2: Os2,
    pub glyf: write_fonts::tables::glyf::Glyf,
    pub loca: write_fonts::tables::loca::Loca,
}

impl Tables {
    /// Whether the tables are those of a font with these glyphs, units per em and family.
    pub open spec fn describe(self, glyphs: Seq<FontGlyph>, upm: u16, family: Seq<char>) -> bool {
        &&& self.head == head_of(glyphs, upm)
        &&& self.hhea == hhea_of(glyphs)
        &&& self.maxp == maxp_of(glyphs)
        &&& self.hmtx.h_metrics@ == metrics_of(glyphs)
        &&& self.hmtx.left_side_bearings@.len() == 0
        &&& cmap_of_mappings(self.cmap)
        &&& cmap_contents(self.cmap) == as_map(mappings_of(glyphs))
        &&& name_entries(self.name@) == names_of(family)
        &&& self.post == plain_post()
        &&& self.os2 == os2_of(glyphs)
        &&& glyf_bytes(self.glyf) == concat(runs_of(glyphs))
        &&& loca_offsets(self.loca) == run_offsets(runs_of(glyphs))
    }
}

// ---------------------------------------------------------------------------
// Which fonts can be built
// ---------------------------------------------------------------------------

/// Whether the numbers that describe a glyph can be computed: its contours can be replayed, its
/// points can be counted, and its bounding box is no wider than 16 bits can say.
pub open spec fn measurable(glyph: FontGlyph) -> bool {
    &&& replayable(glyph.outline.points())
    &&& glyph.points().len() <= usize::MAX
    &&& fits16(glyph.bbox().x_max - glyph.bbox().x_min)
}

/// Whether the `glyf` table holds a glyph with no more contours and points than its outline has.
pub open spec fn no_larger(glyph: FontGlyph) -> bool {
    &&& glyph.contents().contours.len() <= glyph.outline.contours@.len()
    &&& joined(glyph.contents().contours).len() <= glyph.points().len()
}

/// Whether the `glyf` table holds a glyph as its outline has it: with no more contours and points,
/// no contour empty, and each point at the position of one of the outline's.
pub open spec fn faithful(glyph: FontGlyph) -> bool {
    &&& no_larger(glyph)
    &&& none_empty(glyph.contents().contours)
    &&& stand_at(joined(glyph.contents().contours), point_positions(glyph.points()))
    &&& (forall|k: int|
        0 <= k < glyph.outline.points().len() ==> (#[trigger] glyph.outline.points()[k]).len() > 0)
        ==> glyph.contents().contours.len() == glyph.outline.points().len()
}

/// Whether the `glyf` table holds a glyph as its outline has it, its bytes beginning with the
/// number of its contours and its bounding box.
pub open spec fn well_stored(glyph: FontGlyph) -> bool {
    faithful(glyph) && begins_with_its_box(glyph.contents())
}

/// Whether the numbers that describe a font can be computed.
pub open spec fn buildable(glyphs: Seq<FontGlyph>) -> bool {
    &&& forall|i: int| 0 <= i < glyphs.len() ==> measurable(#[trigger] glyphs[i])
    &&& glyphs.len() < usize::MAX
    &&& (glyphs.len() + 1) % 0x1_0000_0000 != 0
    &&& advance_total(metrics_of(glyphs)) <= u32::MAX
}

/// Whether a 16-bit number can count the bytes of a font's names in UTF-16.
pub open spec fn nameable(family: Seq<char>) -> bool {
    2 * utf16_len(family) <= u16::MAX
}

/// Whether storing the tables of a font gets as far as its names: no two glyphs have the same
/// character, and the glyphs can be counted.
pub open spec fn stores_names(glyphs: Seq<FontGlyph>) -> bool {
    consistent(mappings_of(glyphs)) && metrics_of(glyphs).len() <= u16::MAX
}

/// Whether the `glyf` table can hold every glyph.
pub open spec fn encodable_glyphs(glyphs: Seq<FontGlyph>) -> bool {
    forall|i: int| 0 <= i < glyphs.len() ==> encodable((#[trigger] glyphs[i]).contents().contours)
}

// ---------------------------------------------------------------------------
// Building the tables
// ---------------------------------------------------------------------------

/// `char::from_u32`: the character of a number, where the number is one's.
pub assume_specification[ char::from_u32 ](i: u32) -> (c: Option<char>)
    ensures
        c == (if scalar(i) {
            Some(i as char)
        } else {
            None
        }),
;

/// Makes a path of a glyph's outline, and a glyph of the path.
fn simple_glyph(glyph: &FontGlyph) -> (made: Result<
    write_fonts::tables::glyf::SimpleGlyph,
    String,
>)
    requires
        replayable(glyph.outline.points()),
    ensures
        made is Ok,
        glyph_contents(made->Ok_0) == glyph.contents(),
        faithful(*glyph),
{
    let path = outline_to_bezpath(&glyph.outline);
    proof {
        outline_commands_are_plain(glyph.outline.points());
        replay_keeps_every_position(glyph.outline.points());
        replay_starts_each_contour(glyph.outline.points());
    }
    match from_bezpath(&path) {
        Ok(simple) => {
            assert(glyph_contents(simple).instructions =~= Seq::empty());
            Ok(simple)
        },
        Err(e) => {
            let mut text: String = "glyph ".to_owned();
            text.append(codepoint_hex(glyph.codepoint).as_str());
            text.append(": ");
            text.append(e.as_str());
            Err(text)
        },
    }
}

/// Builds the `glyf` and `loca` tables: .notdef (empty) first, then every glyph in order. Also
/// gives the bounding box of each glyph.
fn build_outlines(glyphs: &[FontGlyph]) -> (built: Result<
    (
        write_fonts::tables::glyf::Glyf,
        write_fonts::tables::loca::Loca,
        LocaFormat,
        Vec<Bbox>,
    ),
    String,
>)
    requires
        forall|i: int| 0 <= i < glyphs@.len() ==> measurable(#[trigger] glyphs@[i]),
        encodable_glyphs(glyphs@),
    ensures
        built is Ok,
        glyf_bytes(built->Ok_0.0) == concat(runs_of(glyphs@)),
        loca_offsets(built->Ok_0.1) == run_offsets(runs_of(glyphs@)),
        built->Ok_0.2 == format_of(run_offsets(runs_of(glyphs@))),
        built->Ok_0.3@ == boxes_of(glyphs@),
        forall|i: int| 0 <= i < glyphs@.len() ==> well_stored(#[trigger] glyphs@[i]),
{
    let mut builder = write_fonts::tables::glyf::GlyfLocaBuilder::new();
    let mut boxes: Vec<Bbox> = Vec::new();
    match add_empty_glyph(&mut builder) {
        Ok(_) => {},
        Err(e) => {
            return Err(e);
        },
    }
    let mut i: usize = 0;
    assert(builder_runs(builder) =~= runs_of(glyphs@.take(0)));
    while i < glyphs.len()
        invariant
            i <= glyphs.len(),
            forall|k: int| 0 <= k < glyphs@.len() ==> measurable(#[trigger] glyphs@[k]),
            encodable_glyphs(glyphs@),
            even_runs(builder_runs(builder)),
            builder_runs(builder) == runs_of(glyphs@.take(i as int)),
            forall|k: int| 0 <= k < i ==> well_stored(#[trigger] glyphs@[k]),
            boxes@ == boxes_of(glyphs@.take(i as int)),
        decreases glyphs.len() - i,
    {
        let glyph: &FontGlyph = &glyphs[i];
        assert(measurable(glyphs@[i as int]));
        assert(encodable(glyphs@[i as int].contents().contours));
        match simple_glyph(glyph) {
            Ok(simple) => {
                boxes.push(bbox_of(&simple));
                match add_glyph(&mut builder, &simple) {
                    Ok(_) => {},
                    Err(e) => {
                        return Err(e);
                    },
                }
            },
            Err(e) => {
                return Err(e);
            },
        }
        assert(builder_runs(builder).last() == glyph_run(glyphs@[i as int].contents()));
        assert(boxes@ =~= boxes_of(glyphs@.take(i + 1)));
        assert(builder_runs(builder) =~= runs_of(glyphs@.take(i + 1)));
        i += 1;
    }
    assert(glyphs@.take(i as int) =~= glyphs@);
    let (glyf, loca, format) = build_glyphs(builder);
    Ok((glyf, loca, format, boxes))
}

/// Lists the character of each glyph whose codepoint is one, with the glyph's number.
pub fn char_mappings(glyphs: &[FontGlyph]) -> (mappings: Vec<(char, u32)>)
    requires
        glyphs@.len() < usize::MAX,
    ensures
        mappings@ == mappings_of(glyphs@),
{
    let mut mappings: Vec<(char, u32)> = Vec::new();
    let mut i: usize = 0;
    assert(glyphs@.take(0) =~= Seq::empty());
    while i < glyphs.len()
        invariant
            i <= glyphs.len(),
            glyphs@.len() < usize::MAX,
            mappings@ == mappings_of(glyphs@.take(i as int)),
        decreases glyphs.len() - i,
    {
        assert(glyphs@.take(i + 1).drop_last() =~= glyphs@.take(i as int));
        let number: u32 = ((i + 1) as u64 % 0x1_0000_0000) as u32;
        if let Some(ch) = char::from_u32(glyphs[i].codepoint) {
            mappings.push((ch, number));
        }
        i += 1;
    }
    assert(glyphs@.take(i as int) =~= glyphs@);
    mappings
}

/// Whether storing the tables of a font gets as far as its names.
pub fn reaches_names(glyphs: &[FontGlyph]) -> (reaches: bool)
    requires
        glyphs@.len() < usize::MAX,
    ensures
        reaches == stores_names(glyphs@),
{
    glyphs.len() < u16::MAX as usize && from_mappings(char_mappings(glyphs).as_slice()).is_ok()
}

fn name_record(id: u16, s: &str) -> (record: NameRecord)
    ensures
        record@ == english_name(id, s@),
{
    NameRecord {
        platform_id: 3,
        encoding_id: 1,
        language_id: 0x0409,
        name_id: id,
        string: s.to_owned(),
    }
}

/// The entries of the `name` table (Windows, Unicode BMP, US English - the widely-supported
/// minimum).
pub fn name_records(family: &str) -> (records: Vec<NameRecord>)
    ensures
        name_entries(records@) == names_of(family@),
{
    let postscript_name: String = strip_white_space(family);
    let records: Vec<NameRecord> = vec![
        name_record(1, family),
        name_record(2, "Regular"),
        name_record(3, family),
        name_record(4, family),
        name_record(5, "Version 1.0"),
        name_record(6, postscript_name.as_str()),
    ];
    assert(name_entries(records@) =~= names_of(family@));
    records
}

fn short_len(len: usize) -> (short: u16)
    ensures
        short == len as int % 0x1_0000,
{
    (len % 0x1_0000) as u16
}

/// Builds every table for a font from a set of glyphs.
///
/// Glyph ID 0 is always the required, empty ".notdef" glyph; the rest are assigned IDs in the
/// order given and mapped in `cmap` by their codepoint. Two glyphs cannot have the same
/// character.
pub fn build_tables(glyphs: &[FontGlyph], upm: u16, family: &str) -> (built: Result<
    Tables,
    String,
>)
    requires
        buildable(glyphs@),
        encodable_glyphs(glyphs@),
    ensures
        built is Ok <==> consistent(mappings_of(glyphs@)),
        forall|i: int| 0 <= i < glyphs@.len() ==> well_stored(#[trigger] glyphs@[i]),
        (match built {
            Ok(tables) => tables.describe(glyphs@, upm, family@),
            Err(e) => e@ == cmap_conflict(mappings_of(glyphs@)),
        }),
{
    let (glyf, loca, loca_format, boxes) = match build_outlines(glyphs) {
        Ok(built) => built,
        Err(e) => {
            return Err(e);
        },
    };
    let h_metrics: Vec<LongMetric> = horizontal_metrics(glyphs, boxes.as_slice());
    let bbox: Bbox = enclose(boxes.as_slice());
    proof {
        assert forall|i: int| 0 <= i < boxes@.len() implies fits16(
            (#[trigger] boxes@[i]).x_max - boxes@[i].x_min,
        ) by {
            assert(measurable(glyphs@[i]));
        }
    }
    let min_rsb: i16 = min_right_bearing(glyphs, boxes.as_slice());
    assert(h_metrics@.len() == glyphs@.len() + 1);
    let num_glyphs: u16 = short_len(h_metrics.len());
    // The glyphs themselves were positioned to span exactly [0, upm] - SVG bottom on the
    // baseline, SVG top at the em's top edge - so the real ascender/descender are just the
    // computed bbox, not a fabricated split.
    let ascender: i16 = bbox.y_max;
    let descender: i16 = if bbox.y_min < 0 {
        bbox.y_min
    } else {
        0
    };
    let head = Head {
        font_revision: 0x1_0000,
        checksum_adjustment: 0,  // recomputed when the font is assembled
        flags: 0,
        units_per_em: upm,
        created: 0,
        modified: 0,
        x_min: bbox.x_min,
        y_min: bbox.y_min,
        x_max: bbox.x_max,
        y_max: bbox.y_max,
        mac_style: 0,
        lowest_rec_ppem: 8,
        index_to_loc_format: match loca_format {
            LocaFormat::Short => 0,
            LocaFormat::Long => 1,
        },
    };
    let hhea = Hhea {
        ascender,
        descender,
        line_gap: 0,
        advance_width_max: max_advance(h_metrics.as_slice()),
        min_left_side_bearing: bbox.x_min,
        min_right_side_bearing: min_rsb,
        x_max_extent: bbox.x_max,
        caret_slope_rise: 1,  // vertical caret
        caret_slope_run: 0,
        caret_offset: 0,
        number_of_h_metrics: num_glyphs,  // one explicit metric per glyph
    };
    proof {
        assert forall|i: int| 0 <= i < glyphs@.len() implies (#[trigger] glyphs@[i]).points().len()
            <= usize::MAX by {
            assert(measurable(glyphs@[i]));
        }
    }
    let (max_points, max_contours) = max_counts(glyphs);
    let maxp = Maxp {
        num_glyphs,
        max_points,
        max_contours,
        max_composite_points: 0,
        max_composite_contours: 0,
        max_zones: 1,
        max_twilight_points: 0,
        max_storage: 0,
        max_function_defs: 0,
        max_instruction_defs: 0,
        max_stack_elements: 0,
        max_size_of_instructions: 0,
        max_component_elements: 0,
        max_component_depth: 0,
    };
    let cmap = match from_mappings(char_mappings(glyphs).as_slice()) {
        Ok(cmap) => cmap,
        Err(e) => {
            return Err(e);
        },
    };
    let (first_char, last_char) = char_range(glyphs);
    let os2 = Os2 {
        x_avg_char_width: avg_advance(h_metrics.as_slice()),
        us_weight_class: 400,
        us_width_class: 5,
        fs_type: 0,
        y_subscript_x_size: 0,
        y_subscript_y_size: 0,
        y_subscript_x_offset: 0,
        y_subscript_y_offset: 0,
        y_superscript_x_size: 0,
        y_superscript_y_size: 0,
        y_superscript_x_offset: 0,
        y_superscript_y_offset: 0,
        y_strikeout_size: 0,
        y_strikeout_position: 0,
        s_family_class: 0,
        panose_10: Panose {
            family_type: 0,
            serif_style: 0,
            weight: 0,
            proportion: 0,
            contrast: 0,
            stroke_variation: 0,
            arm_style: 0,
            letterform: 0,
            midline: 0,
            x_height: 0,
        },
        ul_unicode_range_1: 0,
        ul_unicode_range_2: 0,
        ul_unicode_range_3: 0,
        ul_unicode_range_4: 0,
        ach_vend_id: Tag { code: NO_VENDOR },
        fs_selection: 0x40,  // regular
        us_first_char_index: first_char,
        us_last_char_index: last_char,
        s_typo_ascender: ascender,
        s_typo_descender: descender,
        s_typo_line_gap: 0,
        us_win_ascent: if ascender > 0 {
            ascender as u16
        } else {
            0
        },
        us_win_descent: (0 - descender as i32) as u16,
    };
    // version 3.0: no per-glyph name data needed
    let post = Post {
        major_version: 3,
        minor_version: 0,
        italic_angle: 0,
        underline_position: 0,
        underline_thickness: 0,
        is_fixed_pitch: 0,
        min_mem_type42: 0,
        max_mem_type42: 0,
        min_mem_type1: 0,
        max_mem_type1: 0,
    };
    Ok(
        Tables {
            head,
            hhea,
            maxp,
            hmtx: Hmtx { h_metrics, left_side_bearings: Vec::new() },
            cmap,
            name: name_records(family),
            post,
            os2,
            glyf,
            loca,
        },
    )
}

// ---------------------------------------------------------------------------
// Dumping the tables
// ---------------------------------------------------------------------------

/// The bytes of every table, where each can be stored.
pub open spec fn dumped(t: Tables) -> Option<Seq<(Tag, Seq<u8>)>> {
    match name_bytes(name_entries(t.name@)) {
        Ok(name) if t.hmtx.h_metrics@.len() <= u16::MAX => Some(
            seq![
                (Tag { code: HEAD }, head_bytes(t.head)),
                (Tag { code: HHEA }, hhea_bytes(t.hhea)),
                (Tag { code: MAXP }, maxp_bytes(t.maxp)),
                (Tag { code: HMTX }, hmtx_bytes(t.hmtx.h_metrics@, t.hmtx.left_side_bearings@)),
                (Tag { code: CMAP }, cmap_bytes(cmap_contents(t.cmap))),
                (Tag { code: NAME }, name),
                (Tag { code: POST }, post_bytes(t.post)),
                (Tag { code: OS2 }, os2_bytes(t.os2)),
                (Tag { code: GLYF }, glyf_bytes(t.glyf)),
                (Tag { code: LOCA }, loca_bytes(loca_offsets(t.loca))),
            ],
        ),
        _ => None,
    }
}

/// The bytes of every table of a font, in order, where each can be stored: no two glyphs have
/// the same character, the glyphs can be counted, and the `name` table can be packed.
pub open spec fn table_list(glyphs: Seq<FontGlyph>, upm: u16, family: Seq<char>) -> Option<
    Seq<(Tag, Seq<u8>)>,
> {
    match name_bytes(names_of(family)) {
        Ok(name) if consistent(mappings_of(glyphs)) && metrics_of(glyphs).len() <= u16::MAX => Some(
            seq![
                (Tag { code: HEAD }, head_bytes(head_of(glyphs, upm))),
                (Tag { code: HHEA }, hhea_bytes(hhea_of(glyphs))),
                (Tag { code: MAXP }, maxp_bytes(maxp_of(glyphs))),
                (Tag { code: HMTX }, hmtx_bytes(metrics_of(glyphs), Seq::empty())),
                (Tag { code: CMAP }, cmap_bytes(as_map(mappings_of(glyphs)))),
                (Tag { code: NAME }, name),
                (Tag { code: POST }, post_bytes(plain_post())),
                (Tag { code: OS2 }, os2_bytes(os2_of(glyphs))),
                (Tag { code: GLYF }, concat(runs_of(glyphs))),
                (Tag { code: LOCA }, loca_bytes(run_offsets(runs_of(glyphs)))),
            ],
        ),
        _ => None,
    }
}

/// The first table that cannot be stored, where there is one.
pub open spec fn failing_tag(glyphs: Seq<FontGlyph>) -> u32 {
    if metrics_of(glyphs).len() > u16::MAX {
        HMTX
    } else {
        NAME
    }
}

/// What the outside function says of the first table that cannot be stored.
pub open spec fn dump_error(glyphs: Seq<FontGlyph>, family: Seq<char>) -> Seq<char> {
    if metrics_of(glyphs).len() > u16::MAX {
        hmtx_failure(metrics_of(glyphs), Seq::empty())
    } else {
        name_bytes(names_of(family))->Err_0
    }
}

/// Whether every table of a font is sure to be stored: no two glyphs have the same character, the
/// glyphs can be counted, and 16-bit offsets reach all of the names.
pub open spec fn storable(glyphs: Seq<FontGlyph>, family: Seq<char>) -> bool {
    stores_names(glyphs) && name_size(names_of(family)) <= u16::MAX
}

/// Whether the bytes of a `cmap` table give each glyph's number for the glyph's character: its
/// place in the list, counted from 1.
pub open spec fn finds_every_glyph(cmap: Seq<u8>, glyphs: Seq<FontGlyph>) -> bool {
    forall|i: int|
        0 <= i < glyphs.len() && scalar((#[trigger] glyphs[i]).codepoint) ==> cmap_gives(
            cmap,
            glyphs[i].codepoint as int,
            i + 1,
        )
}

/// Whether the bytes of a `name` table hold the names of a font.
pub open spec fn says_every_name(name: Seq<u8>, family: Seq<char>) -> bool {
    &&& read16(name.skip(2)) == names_of(family).len()
    &&& forall|i: int|
        0 <= i < names_of(family).len() ==> name_says(name, i, #[trigger] names_of(family)[i])
}

/// Whether the `cmap` and `name` tables among the tables of a font can be read: characters find
/// their glyphs, and the names are there.
pub open spec fn readable(
    tables: Seq<(Tag, Seq<u8>)>,
    glyphs: Seq<FontGlyph>,
    family: Seq<char>,
) -> bool {
    &&& tables.len() == 10
    &&& tables[4].0.code == CMAP
    &&& finds_every_glyph(tables[4].1, glyphs)
    &&& tables[5].0.code == NAME
    &&& says_every_name(tables[5].1, family)
}

proof fn characters_find_glyphs(bytes: Seq<u8>, glyphs: Seq<FontGlyph>)
    requires
        consistent(mappings_of(glyphs)),
        metrics_of(glyphs).len() <= u16::MAX,
        forall|c: char|
            as_map(mappings_of(glyphs)).contains_key(c) ==> #[trigger] cmap_gives(
                bytes,
                c as int,
                as_map(mappings_of(glyphs))[c] as int,
            ),
    ensures
        finds_every_glyph(bytes, glyphs),
{
    assert forall|i: int|
        0 <= i < glyphs.len() && scalar((#[trigger] glyphs[i]).codepoint) implies cmap_gives(
        bytes,
        glyphs[i].codepoint as int,
        i + 1,
    ) by {
        one_number_for_each_glyph(glyphs, i);
        let c = glyphs[i].codepoint as char;
        assert(c as int == glyphs[i].codepoint as int);
        assert(cmap_gives(bytes, c as int, as_map(mappings_of(glyphs))[c] as int));
    }
}

proof fn utf16_len_is_bounded(text: Seq<char>)
    ensures
        utf16_len(text) <= 2 * text.len(),
        utf16_len(without_white_space(text)) <= utf16_len(text),
    decreases text.len(),
{
    reveal(Seq::filter);
    if text.len() > 0 {
        utf16_len_is_bounded(text.drop_last());
        let kept = without_white_space(text.drop_last());
        assert(kept.push(text.last()).drop_last() =~= kept);
    }
}

proof fn names_fit(records: Seq<NameRecord>, family: Seq<char>)
    requires
        name_entries(records) == names_of(family),
        2 * utf16_len(family) <= u16::MAX,
    ensures
        records.len() == 6,
        forall|i: int|
            0 <= i < records.len() ==> (#[trigger] records[i]).platform_id == 3
                && records[i].encoding_id == 1 && 2 * utf16_len(records[i].string@) <= u16::MAX,
{
    reveal_strlit("Regular");
    reveal_strlit("Version 1.0");
    utf16_len_is_bounded("Regular"@);
    utf16_len_is_bounded("Version 1.0"@);
    utf16_len_is_bounded(family);
    assert(name_entries(records).len() == 6);
    assert forall|i: int| 0 <= i < records.len() implies (#[trigger] records[i]).platform_id == 3
        && records[i].encoding_id == 1 && 2 * utf16_len(records[i].string@) <= u16::MAX by {
        assert(name_entries(records)[i] == records[i]@);
        assert(names_of(family)[i] == records[i]@);
    }
}

fn push_table(tables: &mut Vec<(Tag, Vec<u8>)>, code: u32, data: Vec<u8>)
    ensures
        table_contents(final(tables)@) == table_contents(old(tables)@).push(
            (Tag { code }, data@),
        ),
{
    tables.push((Tag { code }, data));
    assert(table_contents(tables@) =~= table_contents(old(tables)@).push((Tag { code }, data@)));
}

/// Dumps every table to raw bytes, in order. Where one cannot be stored, gives its tag and the
/// text of the error.
fn dump_tables(
    t: &Tables,
    glyphs: Ghost<Seq<FontGlyph>>,
    upm: u16,
    family: Ghost<Seq<char>>,
) -> (all: Result<Vec<(Tag, Vec<u8>)>, (u32, String)>)
    requires
        t.describe(glyphs@, upm, family@),
        consistent(mappings_of(glyphs@)),
        stores_names(glyphs@) ==> nameable(family@),
        table_list(glyphs@, upm, family@) is Some ==> concat(runs_of(glyphs@)).len() <= u32::MAX,
    ensures
        (match all {
            Ok(tables) => table_list(glyphs@, upm, family@) == Some(table_contents(tables@))
                && readable(table_contents(tables@), glyphs@, family@),
            Err((code, e)) => {
                &&& table_list(glyphs@, upm, family@) is None
                &&& code == failing_tag(glyphs@)
                &&& e@ == dump_error(glyphs@, family@)
            },
        }),
        storable(glyphs@, family@) ==> all is Ok,
{
    assert(t.hmtx.left_side_bearings@ =~= Seq::empty());
    assert(dumped(*t) == table_list(glyphs@, upm, family@));
    let mut tables: Vec<(Tag, Vec<u8>)> = Vec::new();
    assert(table_contents(tables@) =~= Seq::empty());
    match dump_head(&t.head) {
        Ok(data) => push_table(&mut tables, HEAD, data),
        Err(e) => {
            return Err((HEAD, e));
        },
    }
    match dump_hhea(&t.hhea) {
        Ok(data) => push_table(&mut tables, HHEA, data),
        Err(e) => {
            return Err((HHEA, e));
        },
    }
    match dump_maxp(&t.maxp) {
        Ok(data) => push_table(&mut tables, MAXP, data),
        Err(e) => {
            return Err((MAXP, e));
        },
    }
    match dump_hmtx(&t.hmtx) {
        Ok(data) => push_table(&mut tables, HMTX, data),
        Err(e) => {
            return Err((HMTX, e));
        },
    }
    match dump_cmap(&t.cmap) {
        Ok(data) => {
            proof {
                characters_find_glyphs(data@, glyphs@);
            }
            push_table(&mut tables, CMAP, data)
        },
        Err(e) => {
            return Err((CMAP, e));
        },
    }
    proof {
        names_fit(t.name@, family@);
        names_are_in_order(family@);
    }
    match dump_name(t.name.as_slice()) {
        Ok(data) => {
            proof {
                assert forall|i: int| 0 <= i < names_of(family@).len() implies name_says(
                    data@,
                    i,
                    #[trigger] names_of(family@)[i],
                ) by {
                    assert(name_entries(t.name@)[i] == t.name@[i]@);
                }
            }
            push_table(&mut tables, NAME, data)
        },
        Err(e) => {
            return Err((NAME, e));
        },
    }
    match dump_post(&t.post) {
        Ok(data) => push_table(&mut tables, POST, data),
        Err(e) => {
            return Err((POST, e));
        },
    }
    match dump_os2(&t.os2, t.os2.panose_10.to_array()) {
        Ok(data) => push_table(&mut tables, OS2, data),
        Err(e) => {
            return Err((OS2, e));
        },
    }
    match dump_glyf(&t.glyf) {
        Ok(data) => push_table(&mut tables, GLYF, data),
        Err(e) => {
            return Err((GLYF, e));
        },
    }
    assert(runs_of(glyphs@).len() == metrics_of(glyphs@).len());
    match dump_loca(&t.loca) {
        Ok(data) => push_table(&mut tables, LOCA, data),
        Err(e) => {
            return Err((LOCA, e));
        },
    }
    assert(table_contents(tables@) =~= dumped(*t)->0);
    Ok(tables)
}

/// The text of the error that comes where the tables of a font cannot be built or stored: what the
/// outside function says.
pub open spec fn tables_error(glyphs: Seq<FontGlyph>, family: Seq<char>) -> Seq<char> {
    if !consistent(mappings_of(glyphs)) {
        cmap_conflict(mappings_of(glyphs))
    } else {
        dump_error(glyphs, family)
    }
}

/// Every table of a font as raw (tag, bytes) pairs, instead of being assembled into a .ttf. This
/// is what [`crate::woff2::build_woff2`] consumes - WOFF2 stores each table's raw bytes itself
/// rather than a pre-built sfnt.
pub fn build_font_tables(glyphs: &[FontGlyph], upm: u16, family: &str) -> (built: Result<
    Vec<(Tag, Vec<u8>)>,
    String,
>)
    requires
        buildable(glyphs@),
        stores_names(glyphs@) ==> nameable(family@),
        encodable_glyphs(glyphs@),
        table_list(glyphs@, upm, family@) is Some ==> concat(runs_of(glyphs@)).len() <= u32::MAX,
    ensures
        (match built {
            Ok(tables) => table_list(glyphs@, upm, family@) == Some(table_contents(tables@))
                && readable(table_contents(tables@), glyphs@, family@),
            Err(e) => table_list(glyphs@, upm, family@) is None && e@ == tables_error(
                glyphs@,
                family@,
            ),
        }),
        forall|i: int| 0 <= i < glyphs@.len() ==> well_stored(#[trigger] glyphs@[i]),
        storable(glyphs@, family@) ==> built is Ok,
{
    match build_tables(glyphs, upm, family) {
        Ok(t) => match dump_tables(&t, Ghost(glyphs@), upm, Ghost(family@)) {
            Ok(tables) => Ok(tables),
            Err((_, e)) => Err(e),
        },
        Err(e) => Err(e),
    }
}

/// The text of the error that comes where a table cannot be stored.
pub open spec fn failure_text(code: u32, inner: Seq<char>) -> Seq<char> {
    "failed to build '"@ + Tag { code }.text() + "' table: '"@ + inner + "'"@
}

/// The text of the error that comes where a font cannot be built: where two glyphs have the same
/// character, what the outside function says; otherwise it also names the table that cannot be
/// stored.
pub open spec fn font_error(glyphs: Seq<FontGlyph>, family: Seq<char>) -> Seq<char> {
    if !consistent(mappings_of(glyphs)) {
        cmap_conflict(mappings_of(glyphs))
    } else {
        failure_text(failing_tag(glyphs), dump_error(glyphs, family))
    }
}

fn failure(code: u32, inner: &str) -> (text: String)
    ensures
        text@ == failure_text(code, inner@),
{
    let mut text: String = "failed to build '".to_owned();
    text.append(Tag { code }.to_text().as_str());
    text.append("' table: '");
    text.append(inner);
    text.append("'");
    text
}

/// Assembles a complete, valid .ttf from a set of glyphs.
pub fn build_font(glyphs: &[FontGlyph], upm: u16, family: &str) -> (built: Result<Vec<u8>, String>)
    requires
        buildable(glyphs@),
        stores_names(glyphs@) ==> nameable(family@),
        encodable_glyphs(glyphs@),
        table_list(glyphs@, upm, family@) is Some ==> sfnt_size(
            table_list(glyphs@, upm, family@)->0,
        ) <= u32::MAX,
    ensures
        (match built {
            Ok(font) => {
                &&& table_list(glyphs@, upm, family@) is Some
                &&& is_font_of(font@, table_list(glyphs@, upm, family@)->0)
                &&& readable(table_list(glyphs@, upm, family@)->0, glyphs@, family@)
            },
            Err(e) => table_list(glyphs@, upm, family@) is None && e@ == font_error(
                glyphs@,
                family@,
            ),
        }),
        forall|i: int| 0 <= i < glyphs@.len() ==> well_stored(#[trigger] glyphs@[i]),
        storable(glyphs@, family@) ==> built is Ok,
{
    match build_tables(glyphs, upm, family) {
        Ok(t) => {
            proof {
                if let Some(list) = table_list(glyphs@, upm, family@) {
                    table_within_total(list, 8);
                }
            }
            match dump_tables(&t, Ghost(glyphs@), upm, Ghost(family@)) {
                Ok(tables) => {
                    proof {
                        let list = table_list(glyphs@, upm, family@)->0;
                        assert forall|i: int| 0 <= i < tables@.len() implies (
                        #[trigger] tables@[i]).0.code != CFF && tables@[i].0.code != CFF2 by {
                            assert(list[i].0 == tables@[i].0);
                        }
                    }
                    Ok(assemble_sfnt(tables.as_slice()))
                },
                Err((code, e)) => Err(failure(code, e.as_str())),
            }
        },
        Err(e) => Err(e),
    }
}

// ---------------------------------------------------------------------------
// Finding out what can be built
// ---------------------------------------------------------------------------

/// Whether the `glyf` table can hold every glyph, and stays below 2^32 bytes. A glyph of some 800
/// million points or more, which might not do so by itself, counts as one that it cannot hold.
pub open spec fn fits(glyphs: Seq<FontGlyph>) -> bool {
    &&& encodable_glyphs(glyphs)
    &&& forall|i: int|
        0 <= i < glyphs.len() ==> run_bound((#[trigger] glyphs[i]).contents()) <= u32::MAX
    &&& concat(runs_of(glyphs)).len() <= u32::MAX
}

/// Whether a glyph is of an ordinary size: 16 bits can count its points and contours, and say how
/// wide and how tall its bounding box is.
pub open spec fn ordinary(glyph: FontGlyph) -> bool {
    &&& glyph.points().len() <= u16::MAX
    &&& glyph.outline.contours@.len() < i16::MAX
    &&& fits16(glyph.bbox().x_max - glyph.bbox().x_min)
    &&& fits16(glyph.bbox().y_max - glyph.bbox().y_min)
}

/// A number of bytes that the `glyf` table never exceeds.
pub open spec fn glyf_bound(glyphs: Seq<FontGlyph>) -> int
    decreases glyphs.len(),
{
    if glyphs.len() == 0 {
        0
    } else {
        glyf_bound(glyphs.drop_last()) + 13 + 2 * glyphs.last().outline.contours@.len() + 5
            * glyphs.last().points().len()
    }
}

/// Whether glyphs are of an ordinary size, and so is what they take up together.
pub open spec fn ordinary_glyphs(glyphs: Seq<FontGlyph>) -> bool {
    &&& forall|i: int| 0 <= i < glyphs.len() ==> ordinary(#[trigger] glyphs[i])
    &&& glyf_bound(glyphs) <= u32::MAX
}

/// The `glyf` table can hold a glyph of an ordinary size.
pub proof fn ordinary_glyph_is_encodable(glyph: FontGlyph)
    requires
        faithful(glyph),
        ordinary(glyph),
    ensures
        encodable(glyph.contents().contours),
        run_bound(glyph.contents()) <= 13 + 2 * glyph.outline.contours@.len() + 5
            * glyph.points().len(),
{
    small_contours_are_encodable(glyph.contents().contours, point_positions(glyph.points()));
}

proof fn glyf_bound_grows(glyphs: Seq<FontGlyph>, i: int)
    requires
        0 <= i < glyphs.len(),
    ensures
        glyf_bound(glyphs.take(i + 1)) == glyf_bound(glyphs.take(i)) + 13 + 2
            * glyphs[i].outline.contours@.len() + 5 * glyphs[i].points().len(),
        0 <= glyf_bound(glyphs.take(i)),
        glyf_bound(glyphs.take(i + 1)) <= glyf_bound(glyphs),
    decreases glyphs.len(),
{
    assert(glyphs.take(i + 1).drop_last() =~= glyphs.take(i));
    if i == glyphs.len() - 1 {
        assert(glyphs.take(i + 1) =~= glyphs);
        if i > 0 {
            glyf_bound_grows(glyphs.drop_last(), i - 1);
            assert(glyphs.drop_last().take(i) =~= glyphs.take(i));
        }
    } else {
        glyf_bound_grows(glyphs.drop_last(), i);
        assert(glyphs.drop_last().take(i) =~= glyphs.take(i));
        assert(glyphs.drop_last().take(i + 1) =~= glyphs.take(i + 1));
    }
}

proof fn runs_grow(glyphs: Seq<FontGlyph>, i: int)
    requires
        0 <= i < glyphs.len(),
    ensures
        concat(runs_of(glyphs.take(i + 1))).len() == concat(runs_of(glyphs.take(i))).len()
            + glyph_run(glyphs[i].contents()).len(),
        concat(runs_of(glyphs.take(i + 1))).len() <= concat(runs_of(glyphs)).len(),
{
    let runs = runs_of(glyphs);
    concat_splits(runs, i + 1);
    assert(runs.take(i + 2) =~= runs_of(glyphs.take(i + 1)));
    assert(runs.take(i + 1) =~= runs_of(glyphs.take(i)));
}

/// Whether the `glyf` table can hold every glyph, and stays below 2^32 bytes.
pub fn can_encode(glyphs: &[FontGlyph]) -> (fit: bool)
    requires
        forall|i: int| 0 <= i < glyphs@.len() ==> measurable(#[trigger] glyphs@[i]),
    ensures
        fit == fits(glyphs@),
        ordinary_glyphs(glyphs@) ==> fit,
{
    let mut size: u64 = 0;
    let mut i: usize = 0;
    proof {
        let runs = runs_of(glyphs@.take(0));
        assert(runs =~= seq![Seq::<u8>::empty()]);
        assert(runs.drop_last() =~= Seq::empty());
        assert(concat(runs.drop_last()) =~= Seq::empty());
        assert(concat(runs).len() == 0);
    }
    while i < glyphs.len()
        invariant
            i <= glyphs.len(),
            forall|k: int| 0 <= k < glyphs@.len() ==> measurable(#[trigger] glyphs@[k]),
            forall|k: int|
                0 <= k < i ==> encodable((#[trigger] glyphs@[k]).contents().contours) && run_bound(
                    glyphs@[k].contents(),
                ) <= u32::MAX,
            size == concat(runs_of(glyphs@.take(i as int))).len(),
            size <= u32::MAX,
            ordinary_glyphs(glyphs@) ==> size <= glyf_bound(glyphs@.take(i as int)),
        decreases glyphs.len() - i,
    {
        let glyph: &FontGlyph = &glyphs[i];
        proof {
            assert(measurable(glyphs@[i as int]));
            runs_grow(glyphs@, i as int);
            glyf_bound_grows(glyphs@, i as int);
        }
        match simple_glyph(glyph) {
            Ok(simple) => {
                proof {
                    if ordinary_glyphs(glyphs@) {
                        assert(ordinary(glyphs@[i as int]));
                        ordinary_glyph_is_encodable(glyphs@[i as int]);
                    }
                }
                let contours: Vec<Vec<CurvePoint>> = contours_of(&simple);
                if !is_encodable(contours.as_slice()) {
                    assert(!encodable(glyphs@[i as int].contents().contours));
                    return false;
                }
                match run_length(&simple, contours.as_slice()) {
                    Some(len) => {
                        size = size + len as u64;
                    },
                    None => {
                        assert(run_bound(glyphs@[i as int].contents()) > u32::MAX);
                        return false;
                    },
                }
                if size > u32::MAX as u64 {
                    return false;
                }
            },
            Err(_) => {
                return false;
            },
        }
        i += 1;
    }
    assert(glyphs@.take(i as int) =~= glyphs@);
    true
}

/// [`build_font_tables`], or `None` where the `glyf` table cannot hold every glyph, or reaches
/// 2^32 bytes.
pub fn try_build_font_tables(glyphs: &[FontGlyph], upm: u16, family: &str) -> (built: Option<
    Result<Vec<(Tag, Vec<u8>)>, String>,
>)
    requires
        buildable(glyphs@),
        stores_names(glyphs@) ==> nameable(family@),
    ensures
        built is Some <==> fits(glyphs@),
        ordinary_glyphs(glyphs@) ==> built is Some,
        (match built {
            Some(Ok(tables)) => table_list(glyphs@, upm, family@) == Some(table_contents(tables@))
                && readable(table_contents(tables@), glyphs@, family@),
            Some(Err(e)) => table_list(glyphs@, upm, family@) is None && e@ == tables_error(
                glyphs@,
                family@,
            ),
            None => true,
        }),
        built matches Some(outcome) ==> (storable(glyphs@, family@) ==> outcome is Ok),
{
    if can_encode(glyphs) {
        Some(build_font_tables(glyphs, upm, family))
    } else {
        None
    }
}

/// Whether a font file made of tables stays below 2^32 bytes.
pub fn sfnt_fits(tables: &[(Tag, Vec<u8>)]) -> (fits: bool)
    ensures
        fits == (sfnt_size(table_contents(tables@)) <= u32::MAX),
{
    let ghost contents = table_contents(tables@);
    proof {
        padded_total_grows(contents, 0);
    }
    if tables.len() as u64 > u32::MAX as u64 {
        return false;
    }
    let mut size: u64 = 12 + 16 * tables.len() as u64;
    let mut i: usize = 0;
    assert(contents.take(0) =~= Seq::empty());
    while i < tables.len()
        invariant
            i <= tables.len(),
            tables@.len() <= u32::MAX,
            contents == table_contents(tables@),
            size == 12 + 16 * tables@.len() + padded_total(contents.take(i as int)),
            size <= 17 * u32::MAX,
        decreases tables.len() - i,
    {
        proof {
            assert(contents.take(i + 1).drop_last() =~= contents.take(i as int));
            assert(contents.take(i + 1).last() == contents[i as int]);
            padded_total_grows(contents, i + 1);
        }
        let len: usize = tables[i].1.len();
        if len as u64 > u32::MAX as u64 {
            return false;
        }
        size = size + (len as u64 + 3) / 4 * 4;
        if size > u32::MAX as u64 {
            return false;
        }
        i += 1;
    }
    assert(contents.take(i as int) =~= contents);
    size <= u32::MAX as u64
}

/// [`build_font`], or `None` where the `glyf` table cannot hold every glyph, or it or the font
/// reaches 2^32 bytes.
pub fn try_build_font(glyphs: &[FontGlyph], upm: u16, family: &str) -> (built: Option<
    Result<Vec<u8>, String>,
>)
    requires
        buildable(glyphs@),
        stores_names(glyphs@) ==> nameable(family@),
    ensures
        built is Some <==> fits(glyphs@) && (table_list(glyphs@, upm, family@) is Some
            ==> sfnt_size(table_list(glyphs@, upm, family@)->0) <= u32::MAX),
        ordinary_glyphs(glyphs@) ==> fits(glyphs@),
        (match built {
            Some(Ok(font)) => {
                &&& table_list(glyphs@, upm, family@) is Some
                &&& is_font_of(font@, table_list(glyphs@, upm, family@)->0)
                &&& readable(table_list(glyphs@, upm, family@)->0, glyphs@, family@)
            },
            Some(Err(e)) => table_list(glyphs@, upm, family@) is None && e@ == font_error(
                glyphs@,
                family@,
            ),
            None => true,
        }),
        built matches Some(outcome) ==> (storable(glyphs@, family@) ==> outcome is Ok),
{
    match try_build_font_tables(glyphs, upm, family) {
        Some(Ok(tables)) => {
            if sfnt_fits(tables.as_slice()) {
                Some(build_font(glyphs, upm, family))
            } else {
                None
            }
        },
        Some(Err(_)) => Some(build_font(glyphs, upm, family)),
        None => None,
    }
}

// ---------------------------------------------------------------------------
// What a font promises
// ---------------------------------------------------------------------------

/// Glyph 0 is the empty ".notdef" glyph: it has no bytes, no width and no side bearing.
pub proof fn notdef_is_empty(glyphs: Seq<FontGlyph>)
    ensures
        run_offsets(runs_of(glyphs))[0] == 0,
        run_offsets(runs_of(glyphs))[1] == 0,
        metrics_of(glyphs)[0].advance == 0,
        metrics_of(glyphs)[0].side_bearing == 0,
{
    let runs = runs_of(glyphs);
    assert(runs.take(0) =~= Seq::empty());
    assert(runs.take(1).drop_last() =~= runs.take(0));
    assert(runs.take(1).last() == Seq::<u8>::empty());
    assert(concat(runs.take(0)).len() == 0);
    assert(concat(runs.take(1)).len() == 0);
}

proof fn mapping_comes_from_a_glyph(glyphs: Seq<FontGlyph>, k: int) -> (i: int)
    requires
        0 <= k < mappings_of(glyphs).len(),
    ensures
        0 <= i < glyphs.len(),
        scalar(glyphs[i].codepoint),
        mappings_of(glyphs)[k] == (
            glyphs[i].codepoint as char,
            ((i + 1) % 0x1_0000_0000) as u32,
        ),
    decreases glyphs.len(),
{
    let rest = glyphs.drop_last();
    if k < mappings_of(rest).len() {
        let i = mapping_comes_from_a_glyph(rest, k);
        assert(rest[i] == glyphs[i]);
        i
    } else {
        glyphs.len() - 1
    }
}

proof fn glyph_has_a_mapping(glyphs: Seq<FontGlyph>, i: int) -> (k: int)
    requires
        0 <= i < glyphs.len(),
        scalar(glyphs[i].codepoint),
    ensures
        0 <= k < mappings_of(glyphs).len(),
        mappings_of(glyphs)[k] == (
            glyphs[i].codepoint as char,
            ((i + 1) % 0x1_0000_0000) as u32,
        ),
    decreases glyphs.len(),
{
    let rest = glyphs.drop_last();
    if i < rest.len() {
        assert(rest[i] == glyphs[i]);
        glyph_has_a_mapping(rest, i)
    } else {
        mappings_of(rest).len() as int
    }
}

proof fn as_map_lookup(mappings: Seq<(char, u32)>)
    requires
        consistent(mappings),
    ensures
        forall|k: int|
            0 <= k < mappings.len() ==> as_map(mappings).contains_key((#[trigger] mappings[k]).0)
                && as_map(mappings)[mappings[k].0] == mappings[k].1,
        forall|c: char| #[trigger]
            as_map(mappings).contains_key(c) ==> exists|k: int|
                0 <= k < mappings.len() && (#[trigger] mappings[k]).0 == c,
    decreases mappings.len(),
{
    if mappings.len() > 0 {
        let rest = mappings.drop_last();
        assert forall|i: int, j: int|
            0 <= i < rest.len() && 0 <= j < rest.len() && (#[trigger] rest[i]).0 == (
            #[trigger] rest[j]).0 implies rest[i].1 == rest[j].1 by {
            assert(mappings[i] == rest[i] && mappings[j] == rest[j]);
        }
        as_map_lookup(rest);
        let last = mappings.len() - 1;
        assert forall|k: int| 0 <= k < mappings.len() implies as_map(mappings).contains_key(
            (#[trigger] mappings[k]).0,
        ) && as_map(mappings)[mappings[k].0] == mappings[k].1 by {
            if k < last {
                assert(rest[k] == mappings[k]);
                assert(mappings[last].0 == mappings[k].0 ==> mappings[last].1 == mappings[k].1);
            }
        }
        assert forall|c: char| #[trigger] as_map(mappings).contains_key(c) implies exists|k: int|
            0 <= k < mappings.len() && (#[trigger] mappings[k]).0 == c by {
            if c == mappings[last].0 {
            } else {
                assert(as_map(rest).contains_key(c));
                let k = choose|k: int| 0 <= k < rest.len() && (#[trigger] rest[k]).0 == c;
                assert(mappings[k].0 == c);
            }
        }
    }
}

/// Each glyph has one number throughout the font, its place in the list counted from 1: the
/// `cmap` table gives that number for its character, and under that number the `hmtx` table has
/// its metrics, and the `glyf` table its bytes.
pub proof fn one_number_for_each_glyph(glyphs: Seq<FontGlyph>, i: int)
    requires
        consistent(mappings_of(glyphs)),
        0 <= i < glyphs.len() < u32::MAX,
    ensures
        scalar(glyphs[i].codepoint) ==> as_map(mappings_of(glyphs)).contains_key(
            glyphs[i].codepoint as char,
        ) && as_map(mappings_of(glyphs))[glyphs[i].codepoint as char] == i + 1,
        metrics_of(glyphs)[i + 1] == (LongMetric {
            advance: glyphs[i].advance(),
            side_bearing: glyphs[i].bbox().x_min,
        }),
        runs_of(glyphs)[i + 1] == glyph_run(glyphs[i].contents()),
{
    if scalar(glyphs[i].codepoint) {
        let k = glyph_has_a_mapping(glyphs, i);
        as_map_lookup(mappings_of(glyphs));
        assert(mappings_of(glyphs)[k].0 == glyphs[i].codepoint as char);
    }
}

/// The `cmap` table has no characters but those of the glyphs.
pub proof fn only_characters_of_glyphs(glyphs: Seq<FontGlyph>, c: char)
    requires
        consistent(mappings_of(glyphs)),
        as_map(mappings_of(glyphs)).contains_key(c),
    ensures
        exists|i: int|
            0 <= i < glyphs.len() && scalar((#[trigger] glyphs[i]).codepoint)
                && glyphs[i].codepoint as char == c,
{
    as_map_lookup(mappings_of(glyphs));
    let k = choose|k: int|
        0 <= k < mappings_of(glyphs).len() && (#[trigger] mappings_of(glyphs)[k]).0 == c;
    let i = mapping_comes_from_a_glyph(glyphs, k);
    assert(glyphs[i].codepoint as char == c);
}

/// Characters conflict exactly where two glyphs have the same one.
pub proof fn conflict_means_same_character(glyphs: Seq<FontGlyph>)
    requires
        glyphs.len() < u32::MAX,
    ensures
        consistent(mappings_of(glyphs)) <==> forall|i: int, j: int|
            0 <= i < j < glyphs.len() && scalar((#[trigger] glyphs[i]).codepoint)
                ==> glyphs[i].codepoint != (#[trigger] glyphs[j]).codepoint,
{
    let mappings = mappings_of(glyphs);
    if consistent(mappings) {
        assert forall|i: int, j: int|
            0 <= i < j < glyphs.len() && scalar(
                (#[trigger] glyphs[i]).codepoint,
            ) implies glyphs[i].codepoint != (#[trigger] glyphs[j]).codepoint by {
            if glyphs[i].codepoint == glyphs[j].codepoint {
                let k = glyph_has_a_mapping(glyphs, i);
                let l = glyph_has_a_mapping(glyphs, j);
                assert(mappings[k].0 == mappings[l].0);
                assert(false);
            }
        }
    }
    if forall|i: int, j: int|
        0 <= i < j < glyphs.len() && scalar((#[trigger] glyphs[i]).codepoint)
            ==> glyphs[i].codepoint != (#[trigger] glyphs[j]).codepoint {
        assert forall|k: int, l: int|
            0 <= k < mappings.len() && 0 <= l < mappings.len() && (#[trigger] mappings[k]).0 == (
            #[trigger] mappings[l]).0 implies mappings[k].1 == mappings[l].1 by {
            let i = mapping_comes_from_a_glyph(glyphs, k);
            let j = mapping_comes_from_a_glyph(glyphs, l);
            assert(glyphs[i].codepoint == glyphs[j].codepoint);
        }
    }
}

/// The tables agree on how many glyphs there are.
pub proof fn glyph_counts_agree(glyphs: Seq<FontGlyph>)
    requires
        glyphs.len() < u16::MAX,
    ensures
        maxp_of(glyphs).num_glyphs == glyphs.len() + 1,
        hhea_of(glyphs).number_of_h_metrics == glyphs.len() + 1,
        metrics_of(glyphs).len() == glyphs.len() + 1,
        run_offsets(runs_of(glyphs)).len() == glyphs.len() + 2,
{
}

/// What the `maxp` table says covers every glyph that the `glyf` table holds with no more
/// contours and points than its outline has, as [`build_tables`] promises of all.
pub proof fn maxp_covers_glyphs(glyphs: Seq<FontGlyph>, i: int)
    requires
        0 <= i < glyphs.len(),
        no_larger(glyphs[i]),
        forall|k: int|
            0 <= k < glyphs.len() ==> (#[trigger] glyphs[k]).points().len() <= u16::MAX
                && glyphs[k].outline.contours@.len() <= u16::MAX,
    ensures
        glyphs[i].contents().contours.len() <= maxp_of(glyphs).max_contours,
        joined(glyphs[i].contents().contours).len() <= maxp_of(glyphs).max_points,
{
    let (points, contours) = (point_counts(glyphs), contour_counts(glyphs));
    extremes_bound(points);
    extremes_bound(contours);
    let p = choose|p: int| 0 <= p < points.len() && points[p] == highest_of(points);
    let c = choose|c: int| 0 <= c < contours.len() && contours[c] == highest_of(contours);
    assert(points[p] == glyphs[p].points().len());
    assert(contours[c] == glyphs[c].outline.contours@.len());
    assert(points[i] == glyphs[i].points().len());
    assert(contours[i] == glyphs[i].outline.contours@.len());
}

/// The bounding box of a glyph holds each of its points, control points among them, cut off at
/// what 16 bits can hold.
pub proof fn glyph_box_encloses(glyph: FontGlyph, k: int)
    requires
        0 <= k < glyph.points().len(),
    ensures
        glyph.bbox().x_min <= clamp16(glyph.points()[k].x as int) <= glyph.bbox().x_max,
        glyph.bbox().y_min <= clamp16(glyph.points()[k].y as int) <= glyph.bbox().y_max,
{
    box_encloses(point_positions(glyph.points()), k);
}

/// The bounding box of the font holds that of each glyph, and no glyph is wider than the greatest
/// advance width.
pub proof fn font_box_encloses(glyphs: Seq<FontGlyph>, i: int)
    requires
        0 <= i < glyphs.len(),
    ensures
        font_box(glyphs).x_min <= glyphs[i].bbox().x_min,
        font_box(glyphs).y_min <= glyphs[i].bbox().y_min,
        glyphs[i].bbox().x_max <= font_box(glyphs).x_max,
        glyphs[i].bbox().y_max <= font_box(glyphs).y_max,
        glyphs[i].advance() <= hhea_of(glyphs).advance_width_max,
{
    let boxes = boxes_of(glyphs);
    let x_mins = boxes.map_values(|b: Bbox| b.x_min as int);
    let y_mins = boxes.map_values(|b: Bbox| b.y_min as int);
    let x_maxs = boxes.map_values(|b: Bbox| b.x_max as int);
    let y_maxs = boxes.map_values(|b: Bbox| b.y_max as int);
    let widths = advances(metrics_of(glyphs));
    extremes_bound(x_mins);
    extremes_bound(y_mins);
    extremes_bound(x_maxs);
    extremes_bound(y_maxs);
    extremes_bound(widths);
    assert(x_mins[i] == glyphs[i].bbox().x_min);
    assert(y_mins[i] == glyphs[i].bbox().y_min);
    assert(x_maxs[i] == glyphs[i].bbox().x_max);
    assert(y_maxs[i] == glyphs[i].bbox().y_max);
    assert(widths[i + 1] == glyphs[i].advance());
}

/// The PostScript name holds no white space.
pub proof fn postscript_name_has_no_white_space(family: Seq<char>, k: int)
    requires
        0 <= k < names_of(family)[5].string.len(),
    ensures
        !white_space(names_of(family)[5].string[k]),
{
    broadcast use vstd::seq_lib::group_filter_ensures;

}

proof fn names_are_in_order(family: Seq<char>)
    ensures
        in_order(names_of(family)),
{
}

/// The names of a font take up the family three times, the PostScript name, two short texts and 78
/// bytes; so a family that takes up no more than 8000 16-bit units can always be stored.
pub proof fn short_families_can_be_stored(family: Seq<char>)
    ensures
        name_size(names_of(family)) == 114 + 6 * utf16_len(family) + 2 * utf16_len(
            without_white_space(family),
        ),
        utf16_len(family) <= 8000 ==> name_size(names_of(family)) <= u16::MAX,
{
    let names = names_of(family);
    reveal_with_fuel(name_size, 7);
    assert(names.drop_last() =~= names.take(5));
    assert(names.take(5).drop_last() =~= names.take(4));
    assert(names.take(4).drop_last() =~= names.take(3));
    assert(names.take(3).drop_last() =~= names.take(2));
    assert(names.take(2).drop_last() =~= names.take(1));
    assert(names.take(1).drop_last() =~= Seq::empty());
    utf16_len_is_bounded(family);
    reveal_strlit("Regular");
    reveal_strlit("Version 1.0");
    ascii_takes_one_unit_each("Regular"@);
    ascii_takes_one_unit_each("Version 1.0"@);
}

proof fn ascii_takes_one_unit_each(text: Seq<char>)
    requires
        forall|i: int| 0 <= i < text.len() ==> (#[trigger] text[i] as int) < 0x80,
    ensures
        utf16_len(text) == text.len(),
    decreases text.len(),
{
    if text.len() > 0 {
        assert((text[text.len() - 1] as int) < 0x80);
        ascii_takes_one_unit_each(text.drop_last());
    }
}

/// Whether glyphs hold the same: the same codepoints, points and widths.
pub open spec fn same_glyphs(a: Seq<FontGlyph>, b: Seq<FontGlyph>) -> bool {
    &&& a.len() == b.len()
    &&& forall|i: int|
        0 <= i < a.len() ==> (#[trigger] a[i]).codepoint == b[i].codepoint && a[i].outline.points()
            == b[i].outline.points() && a[i].outline.advance_width == b[i].outline.advance_width
}

proof fn same_glyphs_same_mappings(a: Seq<FontGlyph>, b: Seq<FontGlyph>)
    requires
        same_glyphs(a, b),
    ensures
        mappings_of(a) == mappings_of(b),
    decreases a.len(),
{
    if a.len() > 0 {
        assert(a[a.len() - 1].codepoint == b[b.len() - 1].codepoint);
        assert forall|i: int| 0 <= i < a.len() - 1 implies (#[trigger] a.drop_last()[i]).codepoint
            == b.drop_last()[i].codepoint && a.drop_last()[i].outline.points()
            == b.drop_last()[i].outline.points() && a.drop_last()[i].outline.advance_width
            == b.drop_last()[i].outline.advance_width by {
            assert(a.drop_last()[i] == a[i] && b.drop_last()[i] == b[i]);
        }
        same_glyphs_same_mappings(a.drop_last(), b.drop_last());
    }
}

/// What a font is made of depends on nothing but what its glyphs hold, the units per em and the
/// family: building the tables, or the font, twice gives the same bytes, or the same error.
pub proof fn same_glyphs_same_font(
    a: Seq<FontGlyph>,
    b: Seq<FontGlyph>,
    upm: u16,
    family: Seq<char>,
)
    requires
        same_glyphs(a, b),
    ensures
        table_list(a, upm, family) == table_list(b, upm, family),
        tables_error(a, family) == tables_error(b, family),
        font_error(a, family) == font_error(b, family),
        forall|f: Seq<u8>, g: Seq<u8>|
            table_list(a, upm, family) is Some && #[trigger] is_font_of(
                f,
                table_list(a, upm, family)->0,
            ) && #[trigger] is_font_of(g, table_list(b, upm, family)->0) ==> f == g,
{
    same_glyphs_same_mappings(a, b);
    assert forall|i: int| 0 <= i < a.len() implies (#[trigger] a[i]).contents() == b[i].contents()
        && a[i].bbox() == b[i].bbox() && a[i].advance() == b[i].advance() && a[i].points()
        == b[i].points() && a[i].outline.contours@.len() == b[i].outline.contours@.len() by {
        assert(a[i].outline.points().len() == a[i].outline.contours@.len());
        assert(b[i].outline.points().len() == b[i].outline.contours@.len());
    }
    assert(boxes_of(a) =~= boxes_of(b));
    assert(metrics_of(a) =~= metrics_of(b));
    assert(point_counts(a) =~= point_counts(b));
    assert(contour_counts(a) =~= contour_counts(b));
    assert(short_codes(a) =~= short_codes(b));
    assert(runs_of(a) =~= runs_of(b));
    assert(a.map_values(|g: FontGlyph| g.right_side_bearing() as int) =~= b.map_values(
        |g: FontGlyph| g.right_side_bearing() as int,
    ));
}

/// Outlines put together from drawing steps can always be replayed as paths.
pub proof fn drawn_outlines_are_replayable(steps: Seq<FontStep>)
    ensures
        replayable(drawn_contours(steps)),
{
    drawn_contours_are_well_formed(steps);
    well_formed_contours_are_replayable(drawn_contours(steps));
}

/// The tables of a font all have different tags, and WOFF2 has an index for each.
pub proof fn tables_have_known_tags(glyphs: Seq<FontGlyph>, upm: u16, family: Seq<char>)
    requires
        table_list(glyphs, upm, family) is Some,
    ensures
        distinct_tags(table_list(glyphs, upm, family)->0),
        forall|i: int|
            0 <= i < table_list(glyphs, upm, family)->0.len() ==> tag_index(
                (#[trigger] table_list(glyphs, upm, family)->0[i]).0.code,
            ) is Some,
{
}

/// The size that a WOFF2 file gives for the unpacked font is the length of the .ttf file made of
/// the same tables.
pub proof fn woff2_gives_the_size_of_the_font(tables: Seq<(Tag, Seq<u8>)>, stream: Seq<u8>)
    requires
        tables.len() <= u16::MAX,
        woff2_file(tables, stream).len() <= u32::MAX,
        sfnt_size(tables) <= u32::MAX,
    ensures
        read32(woff2_file(tables, stream).skip(16)) == sfnt_size(tables),
{
    woff2_header_reads_back(tables, stream);
}

// ---------------------------------------------------------------------------
// Which fonts can be built
// ---------------------------------------------------------------------------

/// Whether no two glyphs have the same character.
pub open spec fn different_characters(glyphs: Seq<FontGlyph>) -> bool {
    forall|i: int, j: int|
        0 <= i < j < glyphs.len() && ((#[trigger] glyphs[i]).codepoint <= 0xd7ff || 0xe000
            <= glyphs[i].codepoint <= 0x10_ffff) ==> glyphs[i].codepoint != (
        #[trigger] glyphs[j]).codepoint
}

/// The tables of a font are stored exactly where no two glyphs have the same character, the glyphs
/// with ".notdef" are no more than 65535, and the `name` table can be stored; neither the units per
/// em nor the outlines matter. This is sure where the names take up no more than 65535 bytes.
pub proof fn when_tables_are_stored(glyphs: Seq<FontGlyph>, upm: u16, family: Seq<char>)
    requires
        glyphs.len() < u32::MAX,
    ensures
        table_list(glyphs, upm, family) is Some <==> different_characters(glyphs) && glyphs.len()
            < 65535 && name_bytes(names_of(family)) is Ok,
        stores_names(glyphs) <==> different_characters(glyphs) && glyphs.len() < 65535,
        storable(glyphs, family) <==> different_characters(glyphs) && glyphs.len() < 65535 && 114
            + 6 * utf16_len(family) + 2 * utf16_len(without_white_space(family)) <= 65535,
{
    conflict_means_same_character(glyphs);
    short_families_can_be_stored(family);
    assert(metrics_of(glyphs).len() == glyphs.len() + 1);
}

/// Which error comes where the tables of a font are not stored: of two glyphs with the same
/// character, what `cmap` is refused with; else, of too many glyphs, what `hmtx` is refused with;
/// else, what `name` is refused with. The error of a font names the table besides, in the last two
/// cases.
pub proof fn errors_come_in_order(glyphs: Seq<FontGlyph>, family: Seq<char>)
    requires
        glyphs.len() < u32::MAX,
    ensures
        !different_characters(glyphs) ==> tables_error(glyphs, family) == cmap_conflict(
            mappings_of(glyphs),
        ) && font_error(glyphs, family) == tables_error(glyphs, family),
        different_characters(glyphs) && glyphs.len() >= 65535 ==> tables_error(glyphs, family)
            == hmtx_failure(metrics_of(glyphs), Seq::empty()) && font_error(glyphs, family)
            == failure_text(0x686d_7478, tables_error(glyphs, family)),
        different_characters(glyphs) && glyphs.len() < 65535 ==> tables_error(glyphs, family)
            == name_bytes(names_of(family))->Err_0 && font_error(glyphs, family) == failure_text(
            0x6e61_6d65,
            tables_error(glyphs, family),
        ),
{
    conflict_means_same_character(glyphs);
    assert(metrics_of(glyphs).len() == glyphs.len() + 1);
}

/// The numbers of a glyph can be computed exactly where its contours can be replayed, its points
/// can be counted, and its points lie no further apart from left to right than 32767 units.
pub proof fn when_glyphs_are_measurable(glyph: FontGlyph)
    ensures
        measurable(glyph) <==> replayable(glyph.outline.points()) && glyph.points().len()
            <= usize::MAX && glyph.bbox().x_max - glyph.bbox().x_min <= 32767,
        glyph.bbox().x_min <= glyph.bbox().x_max,
{
    let positions = point_positions(glyph.points());
    if positions.len() > 0 {
        box_encloses(positions, 0);
    }
}

/// How many units text takes up in UTF-16 adds up: one for each character below 0x10000, and two
/// for each other one. Stored, a unit takes up two bytes. White space that is left out saves what
/// it took up.
pub proof fn units_add_up(a: Seq<char>, b: Seq<char>, c: char)
    ensures
        utf16_len(Seq::empty()) == 0,
        (c as int) < 0x1_0000 ==> utf16_len(seq![c]) == 1,
        c as int >= 0x1_0000 ==> utf16_len(seq![c]) == 2,
        utf16_len(a + b) == utf16_len(a) + utf16_len(b),
        utf16_bytes(a).len() == 2 * utf16_len(a),
        utf16_len(without_white_space(a)) <= utf16_len(a),
{
    let none = seq![c].drop_last();
    assert(none =~= Seq::<char>::empty());
    assert(utf16_len(none) == 0);
    assert(seq![c].last() == c);
    units_of_two_texts(a, b);
    units_take_two_bytes(a);
    utf16_len_is_bounded(a);
}

proof fn units_of_two_texts(a: Seq<char>, b: Seq<char>)
    ensures
        utf16_len(a + b) == utf16_len(a) + utf16_len(b),
    decreases b.len(),
{
    if b.len() == 0 {
        assert(a + b =~= a);
    } else {
        units_of_two_texts(a, b.drop_last());
        assert((a + b).drop_last() =~= a + b.drop_last());
        assert((a + b).last() == b.last());
    }
}

proof fn units_take_two_bytes(a: Seq<char>)
    ensures
        utf16_bytes(a).len() == 2 * utf16_len(a),
    decreases a.len(),
{
    broadcast use be16_len;

    if a.len() > 0 {
        units_take_two_bytes(a.drop_last());
    }
}

/// The names of a font can be counted exactly where the family takes up no more than 32767 units.
pub proof fn when_families_are_nameable(family: Seq<char>)
    ensures
        nameable(family) <==> utf16_len(family) <= 32767,
        family.len() <= 16383 ==> nameable(family),
{
    utf16_len_is_bounded(family);
}

/// Glyphs of no more than 65535 points and 32766 contours each, that span no more than 32767 units
/// in either direction, fit in the `glyf` table, where together they have no more points and
/// contours than so many bytes can hold.
pub proof fn when_glyphs_are_ordinary(glyphs: Seq<FontGlyph>, points: nat, contours: nat)
    requires
        points <= 65535,
        contours <= 32766,
        forall|i: int|
            0 <= i < glyphs.len() ==> {
                &&& (#[trigger] glyphs[i]).points().len() <= points
                &&& glyphs[i].outline.contours@.len() <= contours
                &&& glyphs[i].bbox().x_max - glyphs[i].bbox().x_min <= 32767
                &&& glyphs[i].bbox().y_max - glyphs[i].bbox().y_min <= 32767
            },
        glyphs.len() * (13 + 2 * contours + 5 * points) <= 0xffff_ffff,
    ensures
        ordinary_glyphs(glyphs),
{
    assert forall|i: int| 0 <= i < glyphs.len() implies ordinary(#[trigger] glyphs[i]) by {
        let positions = point_positions(glyphs[i].points());
        if positions.len() > 0 {
            box_encloses(positions, 0);
        }
    }
    ordinary_glyphs_take_up(glyphs, points, contours);
}

proof fn ordinary_glyphs_take_up(glyphs: Seq<FontGlyph>, points: nat, contours: nat)
    requires
        forall|i: int|
            0 <= i < glyphs.len() ==> (#[trigger] glyphs[i]).points().len() <= points
                && glyphs[i].outline.contours@.len() <= contours,
    ensures
        glyf_bound(glyphs) <= glyphs.len() * (13 + 2 * contours + 5 * points),
    decreases glyphs.len(),
{
    if glyphs.len() > 0 {
        let rest = glyphs.drop_last();
        assert forall|i: int| 0 <= i < rest.len() implies (#[trigger] rest[i]).points().len()
            <= points && rest[i].outline.contours@.len() <= contours by {
            assert(rest[i] == glyphs[i]);
        }
        ordinary_glyphs_take_up(rest, points, contours);
        let last = glyphs[glyphs.len() - 1];
        assert(last.points().len() <= points && last.outline.contours@.len() <= contours);
        let (n, each) = (rest.len() as int, 13 + 2 * contours + 5 * points);
        assert((n + 1) * each == n * each + each) by (nonlinear_arith);
    }
}

/// What [`build_tables`] puts in the tables: the units per em that were asked for, the sides of the
/// font's bounding box, and the number of glyphs with ".notdef", as far as 16 bits can hold it.
/// [`build_font_tables`] stores these tables.
pub proof fn described_tables_are_listed(
    t: Tables,
    glyphs: Seq<FontGlyph>,
    upm: u16,
    family: Seq<char>,
)
    requires
        t.describe(glyphs, upm, family),
    ensures
        t.head.units_per_em == upm,
        t.head.x_min == font_box(glyphs).x_min,
        t.head.y_min == font_box(glyphs).y_min,
        t.head.x_max == font_box(glyphs).x_max,
        t.head.y_max == font_box(glyphs).y_max,
        t.hhea.ascender == font_box(glyphs).y_max,
        t.hhea.number_of_h_metrics == (glyphs.len() + 1) % 0x1_0000,
        t.maxp.num_glyphs == (glyphs.len() + 1) % 0x1_0000,
        t.hmtx.h_metrics@.len() == glyphs.len() + 1,
        consistent(mappings_of(glyphs)) ==> dumped(t) == table_list(glyphs, upm, family),
{
    assert(t.hmtx.left_side_bearings@ =~= Seq::empty());
    assert(metrics_of(glyphs).len() == glyphs.len() + 1);
}

/// Glyphs fit in the `glyf` table exactly where it can hold the contours of each, where none has
/// so many points that it might take up 2^32 bytes, and where all of them take up less than that.
pub proof fn when_glyphs_fit(glyphs: Seq<FontGlyph>)
    ensures
        fits(glyphs) <==> {
            &&& forall|i: int|
                0 <= i < glyphs.len() ==> encodable((#[trigger] glyphs[i]).contents().contours)
            &&& forall|i: int|
                0 <= i < glyphs.len() ==> 13 + 2 * (
                #[trigger] glyphs[i]).contents().contours.len() + 5 * joined(
                    glyphs[i].contents().contours,
                ).len() <= 0xffff_ffff
            &&& concat(runs_of(glyphs)).len() <= 0xffff_ffff
        },
{
    assert forall|i: int| 0 <= i < glyphs.len() implies run_bound(
        (#[trigger] glyphs[i]).contents(),
    ) == 13 + 2 * glyphs[i].contents().contours.len() + 5 * joined(
        glyphs[i].contents().contours,
    ).len() by {}
}

/// The numbers of a font can be computed exactly where those of each glyph can, and where 32 bits
/// can hold the sum of the advance widths, which they always can for up to 65537 glyphs.
pub proof fn when_fonts_are_buildable(glyphs: Seq<FontGlyph>)
    ensures
        glyphs.len() < 0xffff_ffff && glyphs.len() < usize::MAX ==> (buildable(glyphs) <==> (
        forall|i: int| 0 <= i < glyphs.len() ==> measurable(#[trigger] glyphs[i]))
            && advance_total(metrics_of(glyphs)) <= 0xffff_ffff),
        glyphs.len() <= 65537 && (forall|i: int|
            0 <= i < glyphs.len() ==> measurable(#[trigger] glyphs[i])) ==> buildable(glyphs),
{
    if glyphs.len() <= 65537 {
        widths_are_short(metrics_of(glyphs));
        total_of_all_but_the_first(metrics_of(glyphs));
    }
}

proof fn widths_are_short(metrics: Seq<LongMetric>)
    ensures
        0 <= advance_total(metrics) <= 65535 * metrics.len(),
    decreases metrics.len(),
{
    if metrics.len() > 0 {
        widths_are_short(metrics.drop_last());
    }
}

proof fn total_of_all_but_the_first(metrics: Seq<LongMetric>)
    requires
        metrics.len() > 0,
    ensures
        advance_total(metrics) == metrics[0].advance + advance_total(metrics.skip(1)),
        advance_total(metrics) <= metrics[0].advance + 65535 * (metrics.len() - 1),
    decreases metrics.len(),
{
    widths_are_short(metrics.skip(1));
    if metrics.len() > 1 {
        total_of_all_but_the_first(metrics.drop_last());
        assert(metrics.drop_last().skip(1) =~= metrics.skip(1).drop_last());
        assert(metrics.skip(1).last() == metrics.last());
    } else {
        assert(metrics.skip(1) =~= Seq::empty());
        assert(metrics.drop_last() =~= Seq::empty());
        assert(advance_total(metrics.drop_last()) == 0);
    }
}

} // verus!
