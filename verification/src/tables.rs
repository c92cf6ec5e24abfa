//! The tables of a font other than `glyf` and `loca`, and the bytes that they are stored as.

use vstd::prelude::*;

use crate::bytes::{be16, be16_len, be16_round_trip, be32, be64, concat};
use crate::bytes::{concat_of_equal_parts, read16, read32};
use crate::tag::Tag;
use write_fonts::tables::os2::{Os2 as Os2Table, SelectionFlags};
use write_fonts::types::Tag as OpenTypeTag;

verus! {

// ---------------------------------------------------------------------------
// head
// ---------------------------------------------------------------------------

/// The `head` table.
#[derive(Clone, Copy, Debug, PartialEq, Eq, Structural)]
pub struct Head {
    /// A number with 16 bits after the point.
    pub font_revision: i32,
    pub checksum_adjustment: u32,
    pub flags: u16,
    pub units_per_em: u16,
    pub created: i64,
    pub modified: i64,
    pub x_min: i16,
    pub y_min: i16,
    pub x_max: i16,
    pub y_max: i16,
    pub mac_style: u16,
    pub lowest_rec_ppem: u16,
    pub index_to_loc_format: i16,
}

/// The bytes of a `head` table.
#[verifier::opaque]
pub open spec fn head_bytes(t: Head) -> Seq<u8> {
    be16(1) + be16(0) + be32(t.font_revision as int) + be32(t.checksum_adjustment as int) + be32(
        0x5f0f_3cf5,
    ) + be16(t.flags as int) + be16(t.units_per_em as int) + be64(t.created as int) + be64(
        t.modified as int,
    ) + be16(t.x_min as int) + be16(t.y_min as int) + be16(t.x_max as int) + be16(t.y_max as int)
        + be16(t.mac_style as int) + be16(t.lowest_rec_ppem as int) + be16(2) + be16(
        t.index_to_loc_format as int,
    ) + be16(0)
}

/// `write_fonts::dump_table` on a `head` table: version 1.0, the fields with the magic number
/// after the checksum adjustment and the direction hint 2 before the loca format, and a zero at
/// the end. Flags and styles that the format does not define are left out.
#[verifier::external_body]
pub(crate) fn dump_head(t: &Head) -> (dumped: Result<Vec<u8>, String>)
    requires
        t.flags < 0x20,
        t.mac_style < 0x80,
    ensures
        dumped is Ok,
        dumped->Ok_0@ == head_bytes(*t),
{
    let head = write_fonts::tables::head::Head::new(
        write_fonts::types::Fixed::from_bits(t.font_revision), t.checksum_adjustment,
        write_fonts::tables::head::Flags::from_bits_truncate(t.flags), t.units_per_em,
        write_fonts::types::LongDateTime::new(t.created),
        write_fonts::types::LongDateTime::new(t.modified),
        t.x_min, t.y_min, t.x_max, t.y_max,
        write_fonts::tables::head::MacStyle::from_bits_truncate(t.mac_style),
        t.lowest_rec_ppem, t.index_to_loc_format,
    );
    write_fonts::dump_table(&head).map_err(|e| e.to_string())
}

// ---------------------------------------------------------------------------
// hhea
// ---------------------------------------------------------------------------

/// The `hhea` table.
#[derive(Clone, Copy, Debug, PartialEq, Eq, Structural)]
pub struct Hhea {
    pub ascender: i16,
    pub descender: i16,
    pub line_gap: i16,
    pub advance_width_max: u16,
    pub min_left_side_bearing: i16,
    pub min_right_side_bearing: i16,
    pub x_max_extent: i16,
    pub caret_slope_rise: i16,
    pub caret_slope_run: i16,
    pub caret_offset: i16,
    pub number_of_h_metrics: u16,
}

/// The bytes of an `hhea` table.
#[verifier::opaque]
pub open spec fn hhea_bytes(t: Hhea) -> Seq<u8> {
    be16(1) + be16(0) + be16(t.ascender as int) + be16(t.descender as int) + be16(t.line_gap as int)
        + be16(t.advance_width_max as int) + be16(t.min_left_side_bearing as int) + be16(
        t.min_right_side_bearing as int,
    ) + be16(t.x_max_extent as int) + be16(t.caret_slope_rise as int) + be16(
        t.caret_slope_run as int,
    ) + be16(t.caret_offset as int) + be16(0) + be16(0) + be16(0) + be16(0) + be16(0) + be16(
        t.number_of_h_metrics as int,
    )
}

/// `write_fonts::dump_table` on an `hhea` table: version 1.0, the fields, and five zeros before
/// the last one.
#[verifier::external_body]
pub(crate) fn dump_hhea(t: &Hhea) -> (dumped: Result<Vec<u8>, String>)
    ensures
        dumped is Ok,
        dumped->Ok_0@ == hhea_bytes(*t),
{
    let hhea = write_fonts::tables::hhea::Hhea::new(
        t.ascender.into(), t.descender.into(), t.line_gap.into(), t.advance_width_max.into(),
        t.min_left_side_bearing.into(), t.min_right_side_bearing.into(), t.x_max_extent.into(),
        t.caret_slope_rise, t.caret_slope_run, t.caret_offset, t.number_of_h_metrics,
    );
    write_fonts::dump_table(&hhea).map_err(|e| e.to_string())
}

// ---------------------------------------------------------------------------
// maxp
// ---------------------------------------------------------------------------

/// The `maxp` table, in the form that fonts with `glyf` outlines have.
#[derive(Clone, Copy, Debug, PartialEq, Eq, Structural)]
pub struct Maxp {
    pub num_glyphs: u16,
    pub max_points: u16,
    pub max_contours: u16,
    pub max_composite_points: u16,
    pub max_composite_contours: u16,
    pub max_zones: u16,
    pub max_twilight_points: u16,
    pub max_storage: u16,
    pub max_function_defs: u16,
    pub max_instruction_defs: u16,
    pub max_stack_elements: u16,
    pub max_size_of_instructions: u16,
    pub max_component_elements: u16,
    pub max_component_depth: u16,
}

/// The bytes of a `maxp` table.
#[verifier::opaque]
pub open spec fn maxp_bytes(t: Maxp) -> Seq<u8> {
    be32(0x1_0000) + be16(t.num_glyphs as int) + be16(t.max_points as int) + be16(
        t.max_contours as int,
    ) + be16(t.max_composite_points as int) + be16(t.max_composite_contours as int) + be16(
        t.max_zones as int,
    ) + be16(t.max_twilight_points as int) + be16(t.max_storage as int) + be16(
        t.max_function_defs as int,
    ) + be16(t.max_instruction_defs as int) + be16(t.max_stack_elements as int) + be16(
        t.max_size_of_instructions as int,
    ) + be16(t.max_component_elements as int) + be16(t.max_component_depth as int)
}

/// `write_fonts::dump_table` on a `maxp` table that has every field: version 1.0, and the fields.
#[verifier::external_body]
pub(crate) fn dump_maxp(t: &Maxp) -> (dumped: Result<Vec<u8>, String>)
    ensures
        dumped is Ok,
        dumped->Ok_0@ == maxp_bytes(*t),
{
    let maxp = write_fonts::tables::maxp::Maxp {
        num_glyphs: t.num_glyphs, max_points: Some(t.max_points),
        max_contours: Some(t.max_contours), max_composite_points: Some(t.max_composite_points),
        max_composite_contours: Some(t.max_composite_contours), max_zones: Some(t.max_zones),
        max_twilight_points: Some(t.max_twilight_points), max_storage: Some(t.max_storage),
        max_function_defs: Some(t.max_function_defs),
        max_instruction_defs: Some(t.max_instruction_defs),
        max_stack_elements: Some(t.max_stack_elements),
        max_size_of_instructions: Some(t.max_size_of_instructions),
        max_component_elements: Some(t.max_component_elements),
        max_component_depth: Some(t.max_component_depth),
    };
    write_fonts::dump_table(&maxp).map_err(|e| e.to_string())
}

// ---------------------------------------------------------------------------
// hmtx
// ---------------------------------------------------------------------------

/// The advance width of a glyph and where its bounding box begins.
#[derive(Clone, Copy, Debug, PartialEq, Eq, Structural)]
pub struct LongMetric {
    pub advance: u16,
    pub side_bearing: i16,
}

/// The `hmtx` table.
#[derive(Clone, Debug)]
pub struct Hmtx {
    pub h_metrics: Vec<LongMetric>,
    pub left_side_bearings: Vec<i16>,
}

/// The bytes of an `hmtx` table.
pub open spec fn hmtx_bytes(metrics: Seq<LongMetric>, bearings: Seq<i16>) -> Seq<u8> {
    concat(
        metrics.map_values(|m: LongMetric| be16(m.advance as int) + be16(m.side_bearing as int)),
    ) + concat(bearings.map_values(|b: i16| be16(b as int)))
}

/// The text of the error that `write_fonts::dump_table` returns for an `hmtx` table that has
/// too many metrics.
pub uninterp spec fn hmtx_failure(metrics: Seq<LongMetric>, bearings: Seq<i16>) -> Seq<char>;

/// `write_fonts::dump_table` on an `hmtx` table: the two numbers of each metric, and the
/// bearings. It fails exactly where the metrics are more than 2^16 - 1. A table of 2^32 bytes or
/// more is refused with a panic.
#[verifier::external_body]
pub(crate) fn dump_hmtx(t: &Hmtx) -> (dumped: Result<Vec<u8>, String>)
    requires
        t.left_side_bearings@.len() <= i32::MAX - 2 * u16::MAX,
    ensures
        dumped is Ok <==> t.h_metrics@.len() <= u16::MAX,
        (match dumped {
            Ok(bytes) => bytes@ == hmtx_bytes(t.h_metrics@, t.left_side_bearings@),
            Err(e) => e@ == hmtx_failure(t.h_metrics@, t.left_side_bearings@),
        }),
{
    let metrics = t.h_metrics.iter().map(
        |m| write_fonts::tables::hmtx::LongMetric {
            advance: m.advance,
            side_bearing: m.side_bearing,
        },
    );
    let hmtx = write_fonts::tables::hmtx::Hmtx::new(
        metrics.collect(),
        t.left_side_bearings.clone(),
    );
    write_fonts::dump_table(&hmtx).map_err(|e| e.to_string())
}

// ---------------------------------------------------------------------------
// cmap
// ---------------------------------------------------------------------------

/// A `cmap` table.
#[verifier::external_type_specification]
#[verifier::external_body]
pub struct ExCmap(write_fonts::tables::cmap::Cmap);

/// The glyph that a `cmap` table gives for each character.
pub uninterp spec fn cmap_contents(cmap: write_fonts::tables::cmap::Cmap) -> Map<char, u32>;

/// Whether a `cmap` table is one that `Cmap::from_mappings` made.
pub uninterp spec fn cmap_of_mappings(cmap: write_fonts::tables::cmap::Cmap) -> bool;

/// The text of the error that `Cmap::from_mappings` returns where a character has two glyphs.
pub uninterp spec fn cmap_conflict(mappings: Seq<(char, u32)>) -> Seq<char>;

/// The bytes that `write_fonts::dump_table` gives for a `cmap` table.
pub uninterp spec fn cmap_bytes(contents: Map<char, u32>) -> Seq<u8>;

/// Whether no character has two different glyphs.
pub open spec fn consistent(mappings: Seq<(char, u32)>) -> bool {
    forall|i: int, j: int|
        0 <= i < mappings.len() && 0 <= j < mappings.len() && (#[trigger] mappings[i]).0 == (
        #[trigger] mappings[j]).0 ==> mappings[i].1 == mappings[j].1
}

/// Pairs of a character and a glyph as a map.
pub open spec fn as_map(mappings: Seq<(char, u32)>) -> Map<char, u32>
    decreases mappings.len(),
{
    if mappings.len() == 0 {
        Map::empty()
    } else {
        as_map(mappings.drop_last()).insert(mappings.last().0, mappings.last().1)
    }
}

/// `Cmap::from_mappings`: the table that gives each character its glyph. It fails exactly where
/// a character has two different glyphs; an error comes as its text.
#[verifier::external_body]
pub(crate) fn from_mappings(mappings: &[(char, u32)]) -> (made: Result<
    write_fonts::tables::cmap::Cmap,
    String,
>)
    ensures
        made is Ok <==> consistent(mappings@),
        (match made {
            Ok(cmap) => cmap_of_mappings(cmap) && cmap_contents(cmap) == as_map(mappings@),
            Err(e) => e@ == cmap_conflict(mappings@),
        }),
{
    let pairs = mappings.iter().map(|m| (m.0, write_fonts::types::GlyphId::new(m.1)));
    write_fonts::tables::cmap::Cmap::from_mappings(pairs).map_err(|e| e.to_string())
}

/// Whether a subtable of a `cmap` table in format 4 gives a glyph for a code: the code lies in
/// one of its segments, and the glyph is the code plus the segment's delta, modulo 2^16, or is
/// found in the array behind the segments, at the place that the segment's offset leads to.
pub open spec fn format4_gives(sub: Seq<u8>, code: int, glyph: int) -> bool {
    let n = read16(sub.skip(6)) / 2;
    exists|i: int|
        0 <= i < n && #[trigger] segment_holds(sub, n, i, code) && {
            let at = 16 + 6 * n + 2 * i;
            let offset = read16(sub.skip(at));
            if offset == 0 {
                glyph == (code + read16(sub.skip(16 + 4 * n + 2 * i))) % 0x1_0000
            } else {
                glyph == read16(
                    sub.skip(at + offset + 2 * (code - read16(sub.skip(16 + 2 * n + 2 * i)))),
                )
            }
        }
}

/// Whether a code lies in segment `i` of the `n` segments of a subtable in format 4.
pub open spec fn segment_holds(sub: Seq<u8>, n: int, i: int, code: int) -> bool {
    read16(sub.skip(16 + 2 * n + 2 * i)) <= code <= read16(sub.skip(14 + 2 * i))
}

/// Whether a subtable of a `cmap` table in format 12 gives a glyph for a code: the code lies in
/// one of its groups, and the glyph is as far from the group's first glyph as the code is from
/// the group's first code, modulo 2^32.
pub open spec fn format12_gives(sub: Seq<u8>, code: int, glyph: int) -> bool {
    exists|g: int|
        0 <= g < read32(sub.skip(12)) && #[trigger] group_holds(sub, g, code) && glyph == (read32(
            sub.skip(16 + 12 * g + 8),
        ) + code - read32(sub.skip(16 + 12 * g))) % 0x1_0000_0000
}

/// Whether a code lies in group `g` of a subtable in format 12.
pub open spec fn group_holds(sub: Seq<u8>, g: int, code: int) -> bool {
    read32(sub.skip(16 + 12 * g)) <= code <= read32(sub.skip(16 + 12 * g + 4))
}

/// The subtable that record `k` of a `cmap` table leads to.
pub open spec fn cmap_subtable(bytes: Seq<u8>, k: int) -> Seq<u8> {
    bytes.skip(read32(bytes.skip(4 + 8 * k + 4)))
}

/// Whether a subtable of a `cmap` table gives a glyph for a code.
pub open spec fn subtable_gives(sub: Seq<u8>, code: int, glyph: int) -> bool {
    ||| read16(sub) == 4 && format4_gives(sub, code, glyph)
    ||| read16(sub) == 12 && format12_gives(sub, code, glyph)
}

/// Whether one of the subtables of a `cmap` table gives a glyph for a code.
pub open spec fn cmap_gives(bytes: Seq<u8>, code: int, glyph: int) -> bool {
    exists|k: int|
        0 <= k < read16(bytes.skip(2)) && #[trigger] subtable_gives(
            cmap_subtable(bytes, k),
            code,
            glyph,
        )
}

/// `write_fonts::dump_table` on a `cmap` table that `Cmap::from_mappings` made: bytes that only
/// depend on which glyph the table gives for each character. It does not fail: the subtables are
/// no longer than their own numbers say, and 32-bit offsets reach all of them. A subtable in
/// format 4 or 12 gives each character its glyph.
#[verifier::external_body]
pub(crate) fn dump_cmap(t: &write_fonts::tables::cmap::Cmap) -> (dumped: Result<Vec<u8>, String>)
    requires
        cmap_of_mappings(*t),
    ensures
        dumped is Ok,
        dumped->Ok_0@ == cmap_bytes(cmap_contents(*t)),
        forall|c: char|
            cmap_contents(*t).contains_key(c) ==> #[trigger] cmap_gives(
                dumped->Ok_0@,
                c as int,
                cmap_contents(*t)[c] as int,
            ),
{
    write_fonts::dump_table(t).map_err(|e| e.to_string())
}

// ---------------------------------------------------------------------------
// name
// ---------------------------------------------------------------------------

/// One entry of the `name` table.
#[derive(Clone, Debug)]
pub struct NameRecord {
    pub platform_id: u16,
    pub encoding_id: u16,
    pub language_id: u16,
    pub name_id: u16,
    pub string: String,
}

/// What an entry of the `name` table holds.
pub struct NameEntry {
    pub platform_id: u16,
    pub encoding_id: u16,
    pub language_id: u16,
    pub name_id: u16,
    pub string: Seq<char>,
}

impl View for NameRecord {
    type V = NameEntry;

    open spec fn view(&self) -> NameEntry {
        NameEntry {
            platform_id: self.platform_id,
            encoding_id: self.encoding_id,
            language_id: self.language_id,
            name_id: self.name_id,
            string: self.string@,
        }
    }
}

/// What entries of the `name` table hold.
pub open spec fn name_entries(records: Seq<NameRecord>) -> Seq<NameEntry> {
    records.map_values(|r: NameRecord| r@)
}

/// The bytes that `write_fonts::dump_table` gives for a `name` table, or the text of the error
/// that it returns.
pub uninterp spec fn name_bytes(entries: Seq<NameEntry>) -> Result<Seq<u8>, Seq<char>>;

/// How many 16-bit units text takes up in UTF-16.
pub open spec fn utf16_len(text: Seq<char>) -> nat
    decreases text.len(),
{
    if text.len() == 0 {
        0
    } else {
        utf16_len(text.drop_last()) + if (text.last() as int) < 0x1_0000 {
            1nat
        } else {
            2
        }
    }
}

/// A text as big-endian UTF-16.
pub open spec fn utf16_bytes(text: Seq<char>) -> Seq<u8>
    decreases text.len(),
{
    if text.len() == 0 {
        Seq::empty()
    } else {
        let c = text.last() as int;
        utf16_bytes(text.drop_last()) + if c < 0x1_0000 {
            be16(c)
        } else {
            be16(0xd800 + (c - 0x1_0000) / 0x400) + be16(0xdc00 + (c - 0x1_0000) % 0x400)
        }
    }
}

/// Whether record `i` of a `name` table is an entry: the record holds its four numbers and leads
/// to its text, which stands in the table as UTF-16.
pub open spec fn name_says(bytes: Seq<u8>, i: int, entry: NameEntry) -> bool {
    let record = bytes.skip(6 + 12 * i);
    let len = read16(record.skip(8));
    let start = read16(bytes.skip(4)) + read16(record.skip(10));
    &&& read16(record) == entry.platform_id
    &&& read16(record.skip(2)) == entry.encoding_id
    &&& read16(record.skip(4)) == entry.language_id
    &&& read16(record.skip(6)) == entry.name_id
    &&& start + len <= bytes.len()
    &&& bytes.subrange(start, start + len) == utf16_bytes(entry.string)
}

/// How many bytes a `name` table takes up in which no two entries share their text: the header, a
/// record for each entry, and the texts.
pub open spec fn name_size(entries: Seq<NameEntry>) -> int
    decreases entries.len(),
{
    if entries.len() == 0 {
        6
    } else {
        name_size(entries.drop_last()) + 12 + 2 * utf16_len(entries.last().string)
    }
}

/// Whether entries are in one language, and stand in the order of their names' numbers, each
/// number once.
pub open spec fn in_order(entries: Seq<NameEntry>) -> bool {
    forall|i: int, j: int|
        0 <= i < j < entries.len() ==> (#[trigger] entries[i]).language_id == (
        #[trigger] entries[j]).language_id && entries[i].name_id < entries[j].name_id
}

/// `write_fonts::dump_table` on a `name` table whose texts are all stored as UTF-16: the outcome
/// only depends on the entries. There is a record for each entry, in order, that leads to its
/// text. It does not fail on entries in order whose table 16-bit offsets reach all of; when else
/// it does is left open. A text whose bytes a 16-bit number cannot count is refused with a panic.
#[verifier::external_body]
pub(crate) fn dump_name(records: &[NameRecord]) -> (dumped: Result<Vec<u8>, String>)
    requires
        6 + 12 * records@.len() <= u16::MAX,
        forall|i: int|
            0 <= i < records@.len() ==> (#[trigger] records@[i]).platform_id == 3
                && records@[i].encoding_id == 1 && 2 * utf16_len(records@[i].string@) <= u16::MAX,
    ensures
        (match dumped {
            Ok(bytes) => name_bytes(name_entries(records@)) == (Ok::<Seq<u8>, Seq<char>>(bytes@)),
            Err(e) => name_bytes(name_entries(records@)) == (Err::<Seq<u8>, Seq<char>>(e@)),
        }),
        dumped matches Ok(bytes) ==> read16(bytes@.skip(2)) == records@.len() && forall|i: int|
            0 <= i < records@.len() ==> name_says(bytes@, i, (#[trigger] records@[i])@),
        in_order(name_entries(records@)) && name_size(name_entries(records@)) <= u16::MAX
            ==> dumped is Ok,
{
    let records = records.iter().map(
        |r| write_fonts::tables::name::NameRecord::new(
            r.platform_id,
            r.encoding_id,
            r.language_id,
            write_fonts::types::NameId::new(r.name_id),
            r.string.clone().into(),
        ),
    );
    let name = write_fonts::tables::name::Name::new(records.collect());
    write_fonts::dump_table(&name).map_err(|e| e.to_string())
}

// ---------------------------------------------------------------------------
// post
// ---------------------------------------------------------------------------

/// The `post` table, in a form without glyph names.
#[derive(Clone, Copy, Debug, PartialEq, Eq, Structural)]
pub struct Post {
    pub major_version: u16,
    pub minor_version: u16,
    /// A number with 16 bits after the point.
    pub italic_angle: i32,
    pub underline_position: i16,
    pub underline_thickness: i16,
    pub is_fixed_pitch: u32,
    pub min_mem_type42: u32,
    pub max_mem_type42: u32,
    pub min_mem_type1: u32,
    pub max_mem_type1: u32,
}

/// The bytes of a `post` table.
#[verifier::opaque]
pub open spec fn post_bytes(t: Post) -> Seq<u8> {
    be16(t.major_version as int) + be16(t.minor_version * 0x1000) + be32(t.italic_angle as int)
        + be16(t.underline_position as int) + be16(t.underline_thickness as int) + be32(
        t.is_fixed_pitch as int,
    ) + be32(t.min_mem_type42 as int) + be32(t.max_mem_type42 as int) + be32(t.min_mem_type1 as int)
        + be32(t.max_mem_type1 as int)
}

/// `write_fonts::dump_table` on a `post` table that has no glyph names: the fields, the minor
/// version in the upper four bits of its 16. Version 2, which has names, and minor versions
/// above 9 are left out.
#[verifier::external_body]
pub(crate) fn dump_post(t: &Post) -> (dumped: Result<Vec<u8>, String>)
    requires
        t.major_version != 2,
        t.minor_version <= 9,
    ensures
        dumped is Ok,
        dumped->Ok_0@ == post_bytes(*t),
{
    let post = write_fonts::tables::post::Post {
        version: write_fonts::types::Version16Dot16::new(t.major_version, t.minor_version),
        italic_angle: write_fonts::types::Fixed::from_bits(t.italic_angle),
        underline_position: t.underline_position.into(),
        underline_thickness: t.underline_thickness.into(),
        is_fixed_pitch: t.is_fixed_pitch, min_mem_type42: t.min_mem_type42,
        max_mem_type42: t.max_mem_type42, min_mem_type1: t.min_mem_type1,
        max_mem_type1: t.max_mem_type1, num_glyphs: None, glyph_name_index: None,
        string_data: None,
    };
    write_fonts::dump_table(&post).map_err(|e| e.to_string())
}

// ---------------------------------------------------------------------------
// OS/2
// ---------------------------------------------------------------------------

/// What a typeface looks like, in ten numbers.
#[derive(Clone, Copy, Debug, PartialEq, Eq, Structural)]
pub struct Panose {
    pub family_type: u8,
    pub serif_style: u8,
    pub weight: u8,
    pub proportion: u8,
    pub contrast: u8,
    pub stroke_variation: u8,
    pub arm_style: u8,
    pub letterform: u8,
    pub midline: u8,
    pub x_height: u8,
}

impl Panose {
    /// The ten numbers in order.
    pub open spec fn bytes(self) -> Seq<u8> {
        seq![
            self.family_type,
            self.serif_style,
            self.weight,
            self.proportion,
            self.contrast,
            self.stroke_variation,
            self.arm_style,
            self.letterform,
            self.midline,
            self.x_height,
        ]
    }

    /// The ten numbers in order.
    pub fn to_array(self) -> (bytes: [u8; 10])
        ensures
            bytes@ == self.bytes(),
    {
        let bytes: [u8; 10] = [
            self.family_type,
            self.serif_style,
            self.weight,
            self.proportion,
            self.contrast,
            self.stroke_variation,
            self.arm_style,
            self.letterform,
            self.midline,
            self.x_height,
        ];
        assert(bytes@ =~= self.bytes());
        bytes
    }
}

/// The `OS/2` table, in its first version.
#[derive(Clone, Copy, Debug, PartialEq, Eq, Structural)]
pub struct Os2 {
    pub x_avg_char_width: i16,
    pub us_weight_class: u16,
    pub us_width_class: u16,
    pub fs_type: u16,
    pub y_subscript_x_size: i16,
    pub y_subscript_y_size: i16,
    pub y_subscript_x_offset: i16,
    pub y_subscript_y_offset: i16,
    pub y_superscript_x_size: i16,
    pub y_superscript_y_size: i16,
    pub y_superscript_x_offset: i16,
    pub y_superscript_y_offset: i16,
    pub y_strikeout_size: i16,
    pub y_strikeout_position: i16,
    pub s_family_class: i16,
    pub panose_10: Panose,
    pub ul_unicode_range_1: u32,
    pub ul_unicode_range_2: u32,
    pub ul_unicode_range_3: u32,
    pub ul_unicode_range_4: u32,
    pub ach_vend_id: Tag,
    pub fs_selection: u16,
    pub us_first_char_index: u16,
    pub us_last_char_index: u16,
    pub s_typo_ascender: i16,
    pub s_typo_descender: i16,
    pub s_typo_line_gap: i16,
    pub us_win_ascent: u16,
    pub us_win_descent: u16,
}

/// The bytes of an `OS/2` table.
#[verifier::opaque]
pub open spec fn os2_bytes(t: Os2) -> Seq<u8> {
    be16(0) + be16(t.x_avg_char_width as int) + be16(t.us_weight_class as int) + be16(
        t.us_width_class as int,
    ) + be16(t.fs_type as int) + be16(t.y_subscript_x_size as int) + be16(
        t.y_subscript_y_size as int,
    ) + be16(t.y_subscript_x_offset as int) + be16(t.y_subscript_y_offset as int) + be16(
        t.y_superscript_x_size as int,
    ) + be16(t.y_superscript_y_size as int) + be16(t.y_superscript_x_offset as int) + be16(
        t.y_superscript_y_offset as int,
    ) + be16(t.y_strikeout_size as int) + be16(t.y_strikeout_position as int) + be16(
        t.s_family_class as int,
    ) + t.panose_10.bytes() + be32(t.ul_unicode_range_1 as int) + be32(
        t.ul_unicode_range_2 as int,
    ) + be32(t.ul_unicode_range_3 as int) + be32(t.ul_unicode_range_4 as int) + t.ach_vend_id.bytes() + be16(t.fs_selection as int)
        + be16(t.us_first_char_index as int) + be16(t.us_last_char_index as int) + be16(
        t.s_typo_ascender as int,
    ) + be16(t.s_typo_descender as int) + be16(t.s_typo_line_gap as int) + be16(
        t.us_win_ascent as int,
    ) + be16(t.us_win_descent as int)
}

/// `write_fonts::dump_table` on an `OS/2` table that has none of the fields of later versions:
/// version 0, and the fields; the ten numbers of the classification come in order. Selection flags
/// that the format does not define are left out.
#[verifier::external_body]
pub(crate) fn dump_os2(t: &Os2, panose_10: [u8; 10]) -> (dumped: Result<Vec<u8>, String>)
    requires
        t.fs_selection < 0x400,
        panose_10@ == t.panose_10.bytes(),
    ensures
        dumped is Ok,
        dumped->Ok_0@ == os2_bytes(*t),
{
    let &Os2 { x_avg_char_width, us_weight_class, us_width_class, fs_type, y_subscript_x_size,
        y_subscript_y_size, y_subscript_x_offset, y_subscript_y_offset, y_superscript_x_size,
        y_superscript_y_size, y_superscript_x_offset, y_superscript_y_offset, y_strikeout_size,
        y_strikeout_position, s_family_class, ul_unicode_range_1, ul_unicode_range_2, ul_unicode_range_3,
        ul_unicode_range_4, ach_vend_id, fs_selection, us_first_char_index, us_last_char_index,
        s_typo_ascender, s_typo_descender, s_typo_line_gap, us_win_ascent, us_win_descent, .. } = t;
    let ach_vend_id = OpenTypeTag::from_u32(ach_vend_id.code);
    let fs_selection = SelectionFlags::from_bits_truncate(fs_selection);
    let os2 = Os2Table { x_avg_char_width, us_weight_class, us_width_class, fs_type, y_subscript_x_size,
        y_subscript_y_size, y_subscript_x_offset, y_subscript_y_offset, y_superscript_x_size, y_superscript_y_size,
        y_superscript_x_offset, y_superscript_y_offset, y_strikeout_size, y_strikeout_position, s_family_class,
        panose_10, ul_unicode_range_1, ul_unicode_range_2, ul_unicode_range_3, ul_unicode_range_4, ach_vend_id,
        fs_selection, us_first_char_index, us_last_char_index, s_typo_ascender, s_typo_descender, s_typo_line_gap,
        us_win_ascent, us_win_descent, ..Os2Table::default() };
    write_fonts::dump_table(&os2).map_err(|e| e.to_string())
}

/// The tables of fixed size have the sizes that the format gives them.
pub proof fn fixed_table_sizes(head: Head, hhea: Hhea, maxp: Maxp, post: Post, os2: Os2)
    ensures
        head_bytes(head).len() == 54,
        hhea_bytes(hhea).len() == 36,
        maxp_bytes(maxp).len() == 32,
        post_bytes(post).len() == 32,
        os2_bytes(os2).len() == 78,
{
    broadcast use be16_len;

    assert(head_bytes(head).len() == 54) by {
        reveal(head_bytes);
    }
    assert(hhea_bytes(hhea).len() == 36) by {
        reveal(hhea_bytes);
    }
    assert(maxp_bytes(maxp).len() == 32) by {
        reveal(maxp_bytes);
    }
    assert(post_bytes(post).len() == 32) by {
        reveal(post_bytes);
    }
    assert(os2_bytes(os2).len() == 78) by {
        reveal(os2_bytes);
    }
}

/// Each metric of an `hmtx` table can be read back from four bytes.
pub proof fn hmtx_reads_back(metrics: Seq<LongMetric>, i: int)
    requires
        0 <= i < metrics.len(),
    ensures
        hmtx_bytes(metrics, Seq::empty()).len() == 4 * metrics.len(),
        read16(hmtx_bytes(metrics, Seq::empty()).skip(4 * i)) == metrics[i].advance,
        read16(hmtx_bytes(metrics, Seq::empty()).skip(4 * i + 2)) == metrics[i].side_bearing as int
            % 0x1_0000,
{
    broadcast use be16_len;

    let none: Seq<i16> = Seq::empty();
    let parts = metrics.map_values(
        |m: LongMetric| be16(m.advance as int) + be16(m.side_bearing as int),
    );
    let bearings = none.map_values(|b: i16| be16(b as int));
    assert(bearings =~= Seq::empty());
    let bytes = hmtx_bytes(metrics, none);
    assert(bytes =~= concat(parts));
    concat_of_equal_parts(parts, 4, i);
    let rest = concat(parts.skip(i + 1));
    let (advance, bearing) = (metrics[i].advance as int, metrics[i].side_bearing as int);
    assert(bytes.skip(4 * i) =~= be16(advance) + (be16(bearing) + rest));
    be16_round_trip(advance, be16(bearing) + rest);
    be16_round_trip(bearing, rest);
    assert(bytes.skip(4 * i + 2) =~= bytes.skip(4 * i).skip(2));
}

} // verus!
