//! What a reader finds in the tables of a font: every number by the place that the format gives it.

use vstd::prelude::*;

use crate::bytes::{be16_len, be32_round_trip, concat, concat_splits, long_number_at, number_at};
use crate::bytes::{read16, read32, stands16, stands32};
use crate::extremes::{extremes_bound, highest_of, lowest_of};
use crate::font::{failure_text, glyph_box_encloses, head_of, hhea_of};
use crate::font::{mappings_of, maxp_of, names_of, notdef_is_empty, os2_of, plain_post, readable};
use crate::font::{runs_of, scalar, table_list, well_stored, FontGlyph};
use crate::glyf::{box_is_tight, clamp16, glyph_bytes_begin_with_its_box, glyph_run, joined};
use crate::glyf::{loca_bytes, loca_reads_back, offsets_ascend, run_offsets, simple_contours};
use crate::glyf::stands_at;
use crate::metrics::{advance_total, advances, box_around_boxes_is_tight, boxes_of, contour_counts};
use crate::metrics::{font_box, least_right_bearing, low_bits_stand_for_a_number, metrics_of};
use crate::metrics::{point_counts, short_codes};
use crate::outline::all_points;
use crate::path::{outline_commands, point_positions};
use crate::sfnt::{entry_holds, holds_table, is_font_of};
use crate::tables::{as_map, cmap_bytes, cmap_gives, head_bytes, hhea_bytes, hmtx_bytes};
use crate::tables::{hmtx_reads_back, maxp_bytes, name_bytes, name_says, os2_bytes, post_bytes};
use crate::tables::{utf16_bytes, Head, Hhea, Maxp, Os2, Post};
use crate::tag::Tag;
use crate::text::without_white_space;

verus! {

// ---------------------------------------------------------------------------
// Where the numbers stand
// ---------------------------------------------------------------------------

/// Where the numbers of a `head` table stand.
pub proof fn head_fields(t: Head)
    ensures
        head_bytes(t).len() == 54,
        read16(head_bytes(t).skip(0)) == 1,
        read16(head_bytes(t).skip(2)) == 0,
        read32(head_bytes(t).skip(4)) == t.font_revision as int % 0x1_0000_0000,
        read32(head_bytes(t).skip(8)) == t.checksum_adjustment as int % 0x1_0000_0000,
        read32(head_bytes(t).skip(12)) == 0x5f0f_3cf5,
        read16(head_bytes(t).skip(16)) == t.flags as int % 0x1_0000,
        read16(head_bytes(t).skip(18)) == t.units_per_em as int % 0x1_0000,
        read32(head_bytes(t).skip(20)) == t.created / 0x1_0000_0000 % 0x1_0000_0000,
        read32(head_bytes(t).skip(24)) == t.created as int % 0x1_0000_0000,
        read32(head_bytes(t).skip(28)) == t.modified / 0x1_0000_0000 % 0x1_0000_0000,
        read32(head_bytes(t).skip(32)) == t.modified as int % 0x1_0000_0000,
        read16(head_bytes(t).skip(36)) == t.x_min as int % 0x1_0000,
        read16(head_bytes(t).skip(38)) == t.y_min as int % 0x1_0000,
        read16(head_bytes(t).skip(40)) == t.x_max as int % 0x1_0000,
        read16(head_bytes(t).skip(42)) == t.y_max as int % 0x1_0000,
        read16(head_bytes(t).skip(44)) == t.mac_style as int % 0x1_0000,
        read16(head_bytes(t).skip(46)) == t.lowest_rec_ppem as int % 0x1_0000,
        read16(head_bytes(t).skip(48)) == 2,
        read16(head_bytes(t).skip(50)) == t.index_to_loc_format as int % 0x1_0000,
        read16(head_bytes(t).skip(52)) == 0,
{
    broadcast use be16_len;

    let b = head_bytes(t);
    assert(b.len() == 54) by {
        reveal(head_bytes);
    }
    assert({
        &&& stands16(b, 0, 1int)
        &&& stands16(b, 2, 0int)
        &&& stands32(b, 4, t.font_revision as int)
        &&& stands32(b, 8, t.checksum_adjustment as int)
        &&& stands32(b, 12, 0x5f0f_3cf5int)
        &&& stands16(b, 16, t.flags as int)
    }) by {
        reveal(head_bytes);
    }
    assert({
        &&& stands16(b, 18, t.units_per_em as int)
        &&& stands32(b, 20, t.created / 0x1_0000_0000)
        &&& stands32(b, 24, t.created as int)
        &&& stands32(b, 28, t.modified / 0x1_0000_0000)
        &&& stands32(b, 32, t.modified as int)
        &&& stands16(b, 36, t.x_min as int)
    }) by {
        reveal(head_bytes);
    }
    assert({
        &&& stands16(b, 38, t.y_min as int)
        &&& stands16(b, 40, t.x_max as int)
        &&& stands16(b, 42, t.y_max as int)
        &&& stands16(b, 44, t.mac_style as int)
        &&& stands16(b, 46, t.lowest_rec_ppem as int)
        &&& stands16(b, 48, 2int)
    }) by {
        reveal(head_bytes);
    }
    assert({
        &&& stands16(b, 50, t.index_to_loc_format as int)
        &&& stands16(b, 52, 0int)
    }) by {
        reveal(head_bytes);
    }
    number_at(b, 0, 1int);
    number_at(b, 2, 0int);
    long_number_at(b, 4, t.font_revision as int);
    long_number_at(b, 8, t.checksum_adjustment as int);
    long_number_at(b, 12, 0x5f0f_3cf5int);
    number_at(b, 16, t.flags as int);
    number_at(b, 18, t.units_per_em as int);
    long_number_at(b, 20, t.created / 0x1_0000_0000);
    long_number_at(b, 24, t.created as int);
    long_number_at(b, 28, t.modified / 0x1_0000_0000);
    long_number_at(b, 32, t.modified as int);
    number_at(b, 36, t.x_min as int);
    number_at(b, 38, t.y_min as int);
    number_at(b, 40, t.x_max as int);
    number_at(b, 42, t.y_max as int);
    number_at(b, 44, t.mac_style as int);
    number_at(b, 46, t.lowest_rec_ppem as int);
    number_at(b, 48, 2int);
    number_at(b, 50, t.index_to_loc_format as int);
    number_at(b, 52, 0int);
}

/// Where the numbers of an `hhea` table stand.
pub proof fn hhea_fields(t: Hhea)
    ensures
        hhea_bytes(t).len() == 36,
        read16(hhea_bytes(t).skip(0)) == 1,
        read16(hhea_bytes(t).skip(2)) == 0,
        read16(hhea_bytes(t).skip(4)) == t.ascender as int % 0x1_0000,
        read16(hhea_bytes(t).skip(6)) == t.descender as int % 0x1_0000,
        read16(hhea_bytes(t).skip(8)) == t.line_gap as int % 0x1_0000,
        read16(hhea_bytes(t).skip(10)) == t.advance_width_max as int % 0x1_0000,
        read16(hhea_bytes(t).skip(12)) == t.min_left_side_bearing as int % 0x1_0000,
        read16(hhea_bytes(t).skip(14)) == t.min_right_side_bearing as int % 0x1_0000,
        read16(hhea_bytes(t).skip(16)) == t.x_max_extent as int % 0x1_0000,
        read16(hhea_bytes(t).skip(18)) == t.caret_slope_rise as int % 0x1_0000,
        read16(hhea_bytes(t).skip(20)) == t.caret_slope_run as int % 0x1_0000,
        read16(hhea_bytes(t).skip(22)) == t.caret_offset as int % 0x1_0000,
        read16(hhea_bytes(t).skip(24)) == 0,
        read16(hhea_bytes(t).skip(26)) == 0,
        read16(hhea_bytes(t).skip(28)) == 0,
        read16(hhea_bytes(t).skip(30)) == 0,
        read16(hhea_bytes(t).skip(32)) == 0,
        read16(hhea_bytes(t).skip(34)) == t.number_of_h_metrics as int % 0x1_0000,
{
    broadcast use be16_len;

    let b = hhea_bytes(t);
    assert(b.len() == 36) by {
        reveal(hhea_bytes);
    }
    assert({
        &&& stands16(b, 0, 1int)
        &&& stands16(b, 2, 0int)
        &&& stands16(b, 4, t.ascender as int)
        &&& stands16(b, 6, t.descender as int)
        &&& stands16(b, 8, t.line_gap as int)
        &&& stands16(b, 10, t.advance_width_max as int)
    }) by {
        reveal(hhea_bytes);
    }
    assert({
        &&& stands16(b, 12, t.min_left_side_bearing as int)
        &&& stands16(b, 14, t.min_right_side_bearing as int)
        &&& stands16(b, 16, t.x_max_extent as int)
        &&& stands16(b, 18, t.caret_slope_rise as int)
        &&& stands16(b, 20, t.caret_slope_run as int)
        &&& stands16(b, 22, t.caret_offset as int)
    }) by {
        reveal(hhea_bytes);
    }
    assert({
        &&& stands16(b, 24, 0int)
        &&& stands16(b, 26, 0int)
        &&& stands16(b, 28, 0int)
        &&& stands16(b, 30, 0int)
        &&& stands16(b, 32, 0int)
        &&& stands16(b, 34, t.number_of_h_metrics as int)
    }) by {
        reveal(hhea_bytes);
    }
    number_at(b, 0, 1int);
    number_at(b, 2, 0int);
    number_at(b, 4, t.ascender as int);
    number_at(b, 6, t.descender as int);
    number_at(b, 8, t.line_gap as int);
    number_at(b, 10, t.advance_width_max as int);
    number_at(b, 12, t.min_left_side_bearing as int);
    number_at(b, 14, t.min_right_side_bearing as int);
    number_at(b, 16, t.x_max_extent as int);
    number_at(b, 18, t.caret_slope_rise as int);
    number_at(b, 20, t.caret_slope_run as int);
    number_at(b, 22, t.caret_offset as int);
    number_at(b, 24, 0int);
    number_at(b, 26, 0int);
    number_at(b, 28, 0int);
    number_at(b, 30, 0int);
    number_at(b, 32, 0int);
    number_at(b, 34, t.number_of_h_metrics as int);
}

/// Where the numbers of a `maxp` table stand.
pub proof fn maxp_fields(t: Maxp)
    ensures
        maxp_bytes(t).len() == 32,
        read32(maxp_bytes(t).skip(0)) == 0x1_0000,
        read16(maxp_bytes(t).skip(4)) == t.num_glyphs as int % 0x1_0000,
        read16(maxp_bytes(t).skip(6)) == t.max_points as int % 0x1_0000,
        read16(maxp_bytes(t).skip(8)) == t.max_contours as int % 0x1_0000,
        read16(maxp_bytes(t).skip(10)) == t.max_composite_points as int % 0x1_0000,
        read16(maxp_bytes(t).skip(12)) == t.max_composite_contours as int % 0x1_0000,
        read16(maxp_bytes(t).skip(14)) == t.max_zones as int % 0x1_0000,
        read16(maxp_bytes(t).skip(16)) == t.max_twilight_points as int % 0x1_0000,
        read16(maxp_bytes(t).skip(18)) == t.max_storage as int % 0x1_0000,
        read16(maxp_bytes(t).skip(20)) == t.max_function_defs as int % 0x1_0000,
        read16(maxp_bytes(t).skip(22)) == t.max_instruction_defs as int % 0x1_0000,
        read16(maxp_bytes(t).skip(24)) == t.max_stack_elements as int % 0x1_0000,
        read16(maxp_bytes(t).skip(26)) == t.max_size_of_instructions as int % 0x1_0000,
        read16(maxp_bytes(t).skip(28)) == t.max_component_elements as int % 0x1_0000,
        read16(maxp_bytes(t).skip(30)) == t.max_component_depth as int % 0x1_0000,
{
    broadcast use be16_len;

    let b = maxp_bytes(t);
    assert(b.len() == 32) by {
        reveal(maxp_bytes);
    }
    assert({
        &&& stands32(b, 0, 0x1_0000int)
        &&& stands16(b, 4, t.num_glyphs as int)
        &&& stands16(b, 6, t.max_points as int)
        &&& stands16(b, 8, t.max_contours as int)
        &&& stands16(b, 10, t.max_composite_points as int)
        &&& stands16(b, 12, t.max_composite_contours as int)
    }) by {
        reveal(maxp_bytes);
    }
    assert({
        &&& stands16(b, 14, t.max_zones as int)
        &&& stands16(b, 16, t.max_twilight_points as int)
        &&& stands16(b, 18, t.max_storage as int)
        &&& stands16(b, 20, t.max_function_defs as int)
        &&& stands16(b, 22, t.max_instruction_defs as int)
        &&& stands16(b, 24, t.max_stack_elements as int)
    }) by {
        reveal(maxp_bytes);
    }
    assert({
        &&& stands16(b, 26, t.max_size_of_instructions as int)
        &&& stands16(b, 28, t.max_component_elements as int)
        &&& stands16(b, 30, t.max_component_depth as int)
    }) by {
        reveal(maxp_bytes);
    }
    long_number_at(b, 0, 0x1_0000int);
    number_at(b, 4, t.num_glyphs as int);
    number_at(b, 6, t.max_points as int);
    number_at(b, 8, t.max_contours as int);
    number_at(b, 10, t.max_composite_points as int);
    number_at(b, 12, t.max_composite_contours as int);
    number_at(b, 14, t.max_zones as int);
    number_at(b, 16, t.max_twilight_points as int);
    number_at(b, 18, t.max_storage as int);
    number_at(b, 20, t.max_function_defs as int);
    number_at(b, 22, t.max_instruction_defs as int);
    number_at(b, 24, t.max_stack_elements as int);
    number_at(b, 26, t.max_size_of_instructions as int);
    number_at(b, 28, t.max_component_elements as int);
    number_at(b, 30, t.max_component_depth as int);
}

/// Where the numbers of a `post` table stand.
pub proof fn post_fields(t: Post)
    ensures
        post_bytes(t).len() == 32,
        read16(post_bytes(t).skip(0)) == t.major_version as int % 0x1_0000,
        read16(post_bytes(t).skip(2)) == (t.minor_version * 0x1000) % 0x1_0000,
        read32(post_bytes(t).skip(4)) == t.italic_angle as int % 0x1_0000_0000,
        read16(post_bytes(t).skip(8)) == t.underline_position as int % 0x1_0000,
        read16(post_bytes(t).skip(10)) == t.underline_thickness as int % 0x1_0000,
        read32(post_bytes(t).skip(12)) == t.is_fixed_pitch as int % 0x1_0000_0000,
        read32(post_bytes(t).skip(16)) == t.min_mem_type42 as int % 0x1_0000_0000,
        read32(post_bytes(t).skip(20)) == t.max_mem_type42 as int % 0x1_0000_0000,
        read32(post_bytes(t).skip(24)) == t.min_mem_type1 as int % 0x1_0000_0000,
        read32(post_bytes(t).skip(28)) == t.max_mem_type1 as int % 0x1_0000_0000,
{
    broadcast use be16_len;

    let b = post_bytes(t);
    assert(b.len() == 32) by {
        reveal(post_bytes);
    }
    assert({
        &&& stands16(b, 0, t.major_version as int)
        &&& stands16(b, 2, t.minor_version * 0x1000)
        &&& stands32(b, 4, t.italic_angle as int)
        &&& stands16(b, 8, t.underline_position as int)
        &&& stands16(b, 10, t.underline_thickness as int)
        &&& stands32(b, 12, t.is_fixed_pitch as int)
    }) by {
        reveal(post_bytes);
    }
    assert({
        &&& stands32(b, 16, t.min_mem_type42 as int)
        &&& stands32(b, 20, t.max_mem_type42 as int)
        &&& stands32(b, 24, t.min_mem_type1 as int)
        &&& stands32(b, 28, t.max_mem_type1 as int)
    }) by {
        reveal(post_bytes);
    }
    number_at(b, 0, t.major_version as int);
    number_at(b, 2, t.minor_version * 0x1000);
    long_number_at(b, 4, t.italic_angle as int);
    number_at(b, 8, t.underline_position as int);
    number_at(b, 10, t.underline_thickness as int);
    long_number_at(b, 12, t.is_fixed_pitch as int);
    long_number_at(b, 16, t.min_mem_type42 as int);
    long_number_at(b, 20, t.max_mem_type42 as int);
    long_number_at(b, 24, t.min_mem_type1 as int);
    long_number_at(b, 28, t.max_mem_type1 as int);
}

/// Where the numbers of an `OS/2` table up to the classification stand.
pub proof fn os2_style_fields(t: Os2)
    ensures
        os2_bytes(t).len() == 78,
        read16(os2_bytes(t).skip(0)) == 0,
        read16(os2_bytes(t).skip(2)) == t.x_avg_char_width as int % 0x1_0000,
        read16(os2_bytes(t).skip(4)) == t.us_weight_class as int % 0x1_0000,
        read16(os2_bytes(t).skip(6)) == t.us_width_class as int % 0x1_0000,
        read16(os2_bytes(t).skip(8)) == t.fs_type as int % 0x1_0000,
        read16(os2_bytes(t).skip(10)) == t.y_subscript_x_size as int % 0x1_0000,
        read16(os2_bytes(t).skip(12)) == t.y_subscript_y_size as int % 0x1_0000,
        read16(os2_bytes(t).skip(14)) == t.y_subscript_x_offset as int % 0x1_0000,
{
    broadcast use be16_len;

    let b = os2_bytes(t);
    assert(b.len() == 78) by {
        reveal(os2_bytes);
    }
    assert({
        &&& stands16(b, 0, 0int)
        &&& stands16(b, 2, t.x_avg_char_width as int)
        &&& stands16(b, 4, t.us_weight_class as int)
    }) by {
        reveal(os2_bytes);
    }
    assert({
        &&& stands16(b, 6, t.us_width_class as int)
        &&& stands16(b, 8, t.fs_type as int)
        &&& stands16(b, 10, t.y_subscript_x_size as int)
    }) by {
        reveal(os2_bytes);
    }
    assert({
        &&& stands16(b, 12, t.y_subscript_y_size as int)
        &&& stands16(b, 14, t.y_subscript_x_offset as int)
    }) by {
        reveal(os2_bytes);
    }
    number_at(b, 0, 0int);
    number_at(b, 2, t.x_avg_char_width as int);
    number_at(b, 4, t.us_weight_class as int);
    number_at(b, 6, t.us_width_class as int);
    number_at(b, 8, t.fs_type as int);
    number_at(b, 10, t.y_subscript_x_size as int);
    number_at(b, 12, t.y_subscript_y_size as int);
    number_at(b, 14, t.y_subscript_x_offset as int);
}

/// Where the numbers of an `OS/2` table on small letters stand.
pub proof fn os2_script_fields(t: Os2)
    ensures
        os2_bytes(t).len() == 78,
        read16(os2_bytes(t).skip(16)) == t.y_subscript_y_offset as int % 0x1_0000,
        read16(os2_bytes(t).skip(18)) == t.y_superscript_x_size as int % 0x1_0000,
        read16(os2_bytes(t).skip(20)) == t.y_superscript_y_size as int % 0x1_0000,
        read16(os2_bytes(t).skip(22)) == t.y_superscript_x_offset as int % 0x1_0000,
        read16(os2_bytes(t).skip(24)) == t.y_superscript_y_offset as int % 0x1_0000,
        read16(os2_bytes(t).skip(26)) == t.y_strikeout_size as int % 0x1_0000,
        read16(os2_bytes(t).skip(28)) == t.y_strikeout_position as int % 0x1_0000,
        read16(os2_bytes(t).skip(30)) == t.s_family_class as int % 0x1_0000,
{
    broadcast use be16_len;

    let b = os2_bytes(t);
    assert(b.len() == 78) by {
        reveal(os2_bytes);
    }
    assert({
        &&& stands16(b, 16, t.y_subscript_y_offset as int)
        &&& stands16(b, 18, t.y_superscript_x_size as int)
        &&& stands16(b, 20, t.y_superscript_y_size as int)
    }) by {
        reveal(os2_bytes);
    }
    assert({
        &&& stands16(b, 22, t.y_superscript_x_offset as int)
        &&& stands16(b, 24, t.y_superscript_y_offset as int)
        &&& stands16(b, 26, t.y_strikeout_size as int)
    }) by {
        reveal(os2_bytes);
    }
    assert({
        &&& stands16(b, 28, t.y_strikeout_position as int)
        &&& stands16(b, 30, t.s_family_class as int)
    }) by {
        reveal(os2_bytes);
    }
    number_at(b, 16, t.y_subscript_y_offset as int);
    number_at(b, 18, t.y_superscript_x_size as int);
    number_at(b, 20, t.y_superscript_y_size as int);
    number_at(b, 22, t.y_superscript_x_offset as int);
    number_at(b, 24, t.y_superscript_y_offset as int);
    number_at(b, 26, t.y_strikeout_size as int);
    number_at(b, 28, t.y_strikeout_position as int);
    number_at(b, 30, t.s_family_class as int);
}

/// Where the classification and the character ranges of an `OS/2` table stand.
pub proof fn os2_range_fields(t: Os2)
    ensures
        os2_bytes(t).len() == 78,
        read32(os2_bytes(t).skip(42)) == t.ul_unicode_range_1 as int % 0x1_0000_0000,
        read32(os2_bytes(t).skip(46)) == t.ul_unicode_range_2 as int % 0x1_0000_0000,
        read32(os2_bytes(t).skip(50)) == t.ul_unicode_range_3 as int % 0x1_0000_0000,
        read32(os2_bytes(t).skip(54)) == t.ul_unicode_range_4 as int % 0x1_0000_0000,
        forall|i: int|
            0 <= i < 10 ==> #[trigger] t.panose_10.bytes()[i] == os2_bytes(t)[32 + i],
{
    broadcast use be16_len;

    let b = os2_bytes(t);
    assert(b.len() == 78) by {
        reveal(os2_bytes);
    }
    assert(forall|i: int| 0 <= i < 10 ==> #[trigger] t.panose_10.bytes()[i] == b[32 + i]) by {
        reveal(os2_bytes);
    }
    assert({
        &&& stands32(b, 42, t.ul_unicode_range_1 as int)
        &&& stands32(b, 46, t.ul_unicode_range_2 as int)
    }) by {
        reveal(os2_bytes);
    }
    assert({
        &&& stands32(b, 50, t.ul_unicode_range_3 as int)
        &&& stands32(b, 54, t.ul_unicode_range_4 as int)
    }) by {
        reveal(os2_bytes);
    }
    long_number_at(b, 42, t.ul_unicode_range_1 as int);
    long_number_at(b, 46, t.ul_unicode_range_2 as int);
    long_number_at(b, 50, t.ul_unicode_range_3 as int);
    long_number_at(b, 54, t.ul_unicode_range_4 as int);
}

/// Where the numbers of an `OS/2` table from the vendor on stand.
pub proof fn os2_line_fields(t: Os2)
    ensures
        os2_bytes(t).len() == 78,
        read32(os2_bytes(t).skip(58)) == t.ach_vend_id.code as int % 0x1_0000_0000,
        read16(os2_bytes(t).skip(62)) == t.fs_selection as int % 0x1_0000,
        read16(os2_bytes(t).skip(64)) == t.us_first_char_index as int % 0x1_0000,
        read16(os2_bytes(t).skip(66)) == t.us_last_char_index as int % 0x1_0000,
        read16(os2_bytes(t).skip(68)) == t.s_typo_ascender as int % 0x1_0000,
        read16(os2_bytes(t).skip(70)) == t.s_typo_descender as int % 0x1_0000,
        read16(os2_bytes(t).skip(72)) == t.s_typo_line_gap as int % 0x1_0000,
        read16(os2_bytes(t).skip(74)) == t.us_win_ascent as int % 0x1_0000,
        read16(os2_bytes(t).skip(76)) == t.us_win_descent as int % 0x1_0000,
{
    broadcast use be16_len;

    let b = os2_bytes(t);
    assert(b.len() == 78) by {
        reveal(os2_bytes);
    }
    assert({
        &&& stands32(b, 58, t.ach_vend_id.code as int)
        &&& stands16(b, 62, t.fs_selection as int)
        &&& stands16(b, 64, t.us_first_char_index as int)
    }) by {
        reveal(os2_bytes);
    }
    assert({
        &&& stands16(b, 66, t.us_last_char_index as int)
        &&& stands16(b, 68, t.s_typo_ascender as int)
        &&& stands16(b, 70, t.s_typo_descender as int)
    }) by {
        reveal(os2_bytes);
    }
    assert({
        &&& stands16(b, 72, t.s_typo_line_gap as int)
        &&& stands16(b, 74, t.us_win_ascent as int)
        &&& stands16(b, 76, t.us_win_descent as int)
    }) by {
        reveal(os2_bytes);
    }
    long_number_at(b, 58, t.ach_vend_id.code as int);
    number_at(b, 62, t.fs_selection as int);
    number_at(b, 64, t.us_first_char_index as int);
    number_at(b, 66, t.us_last_char_index as int);
    number_at(b, 68, t.s_typo_ascender as int);
    number_at(b, 70, t.s_typo_descender as int);
    number_at(b, 72, t.s_typo_line_gap as int);
    number_at(b, 74, t.us_win_ascent as int);
    number_at(b, 76, t.us_win_descent as int);
}

// ---------------------------------------------------------------------------
// What the tables say of a font
// ---------------------------------------------------------------------------

/// The signed number that 16 bits stand for.
pub open spec fn signed(bits: int) -> int {
    if bits < 0x8000 {
        bits
    } else {
        bits - 0x1_0000
    }
}

proof fn signed_reads_back(v: i16)
    ensures
        signed(v as int % 0x1_0000) == v,
{
}

/// The signed 16-bit number at a place.
pub open spec fn signed_at(bytes: Seq<u8>, at: int) -> int {
    signed(read16(bytes.skip(at)))
}

/// The width of a glyph is its outline's, cut off at 0 and at 65535.
pub proof fn advance_is_cut_off(glyph: FontGlyph)
    ensures
        0 <= glyph.outline.advance_width <= 65535 ==> glyph.advance()
            == glyph.outline.advance_width,
        glyph.outline.advance_width < 0 ==> glyph.advance() == 0,
        glyph.outline.advance_width > 65535 ==> glyph.advance() == 65535,
{
}

/// The bounding box of a glyph is tight around its points, control points among them: each side
/// lies at one of them, cut off at what 16 bits can hold, and none lies outside. That of a glyph
/// without points is all zero.
pub proof fn glyph_box_is_tight(glyph: FontGlyph)
    ensures
        glyph.points().len() == 0 ==> glyph.bbox().x_min == 0 && glyph.bbox().y_min == 0
            && glyph.bbox().x_max == 0 && glyph.bbox().y_max == 0,
        glyph.points().len() > 0 ==> {
            &&& exists|k: int|
                0 <= k < glyph.points().len() && clamp16((#[trigger] glyph.points()[k]).x as int)
                    == glyph.bbox().x_min
            &&& exists|k: int|
                0 <= k < glyph.points().len() && clamp16((#[trigger] glyph.points()[k]).y as int)
                    == glyph.bbox().y_min
            &&& exists|k: int|
                0 <= k < glyph.points().len() && clamp16((#[trigger] glyph.points()[k]).x as int)
                    == glyph.bbox().x_max
            &&& exists|k: int|
                0 <= k < glyph.points().len() && clamp16((#[trigger] glyph.points()[k]).y as int)
                    == glyph.bbox().y_max
        },
        forall|k: int|
            0 <= k < glyph.points().len() ==> glyph.bbox().x_min <= clamp16(
                (#[trigger] glyph.points()[k]).x as int,
            ) <= glyph.bbox().x_max && glyph.bbox().y_min <= clamp16(glyph.points()[k].y as int)
                <= glyph.bbox().y_max,
{
    let points = glyph.points();
    let places = point_positions(points);
    box_is_tight(places);
    assert forall|k: int| 0 <= k < points.len() implies glyph.bbox().x_min <= clamp16(
        (#[trigger] points[k]).x as int,
    ) <= glyph.bbox().x_max && glyph.bbox().y_min <= clamp16(points[k].y as int)
        <= glyph.bbox().y_max by {
        glyph_box_encloses(glyph, k);
    }
    if points.len() > 0 {
        let a = choose|k: int|
            0 <= k < places.len() && clamp16((#[trigger] places[k]).0 as int) == glyph.bbox().x_min;
        let b = choose|k: int|
            0 <= k < places.len() && clamp16((#[trigger] places[k]).1 as int) == glyph.bbox().y_min;
        let c = choose|k: int|
            0 <= k < places.len() && clamp16((#[trigger] places[k]).0 as int) == glyph.bbox().x_max;
        let d = choose|k: int|
            0 <= k < places.len() && clamp16((#[trigger] places[k]).1 as int) == glyph.bbox().y_max;
        assert(clamp16(points[a].x as int) == glyph.bbox().x_min);
        assert(clamp16(points[b].y as int) == glyph.bbox().y_min);
        assert(clamp16(points[c].x as int) == glyph.bbox().x_max);
        assert(clamp16(points[d].y as int) == glyph.bbox().y_max);
    }
}

/// What the glyphs of a font are made of: the path that replays their outlines, with their own
/// bounding box.
pub proof fn glyph_is_made_of_its_path(glyph: FontGlyph)
    ensures
        glyph.points() == all_points(glyph.outline.points()),
        glyph.contents().bbox == glyph.bbox(),
        glyph.contents().contours == simple_contours(
            outline_commands(glyph.outline.points()),
        )->Ok_0,
        glyph.contents().instructions.len() == 0,
        !glyph.contents().overlaps,
{
}

/// The tables of a font are ten, each under its own tag.
#[verifier::rlimit(50)]
#[verifier::spinoff_prover]
pub proof fn tables_of_a_font(glyphs: Seq<FontGlyph>, upm: u16, family: Seq<char>)
    requires
        table_list(glyphs, upm, family) is Some,
    ensures
        ({
            let tables = table_list(glyphs, upm, family)->0;
            &&& tables.len() == 10
            &&& tables[0].0.code == 0x6865_6164  // head
            &&& tables[1].0.code == 0x6868_6561  // hhea
            &&& tables[2].0.code == 0x6d61_7870  // maxp
            &&& tables[3].0.code == 0x686d_7478  // hmtx
            &&& tables[4].0.code == 0x636d_6170  // cmap
            &&& tables[5].0.code == 0x6e61_6d65  // name
            &&& tables[6].0.code == 0x706f_7374  // post
            &&& tables[7].0.code == 0x4f53_2f32  // OS/2
            &&& tables[8].0.code == 0x676c_7966  // glyf
            &&& tables[9].0.code == 0x6c6f_6361  // loca
            &&& tables[4].1 == cmap_bytes(as_map(mappings_of(glyphs)))
        }),
        name_bytes(names_of(family)) == (Ok::<Seq<u8>, Seq<char>>(
            table_list(glyphs, upm, family)->0[5].1,
        )),
        glyphs.len() + 1 <= 65535,
{
    assert(metrics_of(glyphs).len() == glyphs.len() + 1);
}

/// The `head` table says the units per em that the font was asked for, and the bounding box of all
/// glyphs, which is tight: each side is that of one of them. It also holds what every such font
/// has: version 1.0, revision 1.0, the magic number, no flags, styles or dates, 8 pixels as the
/// least readable size, and left-to-right glyphs.
#[verifier::rlimit(50)]
#[verifier::spinoff_prover]
pub proof fn head_table_says(glyphs: Seq<FontGlyph>, upm: u16, family: Seq<char>)
    requires
        table_list(glyphs, upm, family) is Some,
    ensures
        ({
            let head = table_list(glyphs, upm, family)->0[0].1;
            &&& head.len() == 54
            &&& read16(head.skip(18)) == upm
            &&& read16(head) == 1
            &&& read16(head.skip(2)) == 0
            &&& read32(head.skip(4)) == 0x1_0000
            &&& read32(head.skip(12)) == 0x5f0f_3cf5
            &&& read16(head.skip(16)) == 0
            &&& read32(head.skip(20)) == 0
            &&& read32(head.skip(24)) == 0
            &&& read32(head.skip(28)) == 0
            &&& read32(head.skip(32)) == 0
            &&& read16(head.skip(44)) == 0
            &&& read16(head.skip(46)) == 8
            &&& read16(head.skip(48)) == 2
            &&& read16(head.skip(50)) <= 1
            &&& read16(head.skip(52)) == 0
            &&& forall|i: int|
                0 <= i < glyphs.len() ==> signed_at(head, 36) <= (#[trigger] glyphs[i]).bbox().x_min
                    && signed_at(head, 38) <= glyphs[i].bbox().y_min && signed_at(head, 40)
                    >= glyphs[i].bbox().x_max && signed_at(head, 42) >= glyphs[i].bbox().y_max
            &&& glyphs.len() > 0 ==> {
                &&& exists|i: int|
                    0 <= i < glyphs.len() && signed_at(head, 36) == (
                    #[trigger] glyphs[i]).bbox().x_min
                &&& exists|i: int|
                    0 <= i < glyphs.len() && signed_at(head, 38) == (
                    #[trigger] glyphs[i]).bbox().y_min
                &&& exists|i: int|
                    0 <= i < glyphs.len() && signed_at(head, 40) == (
                    #[trigger] glyphs[i]).bbox().x_max
                &&& exists|i: int|
                    0 <= i < glyphs.len() && signed_at(head, 42) == (
                    #[trigger] glyphs[i]).bbox().y_max
            }
            &&& glyphs.len() == 0 ==> signed_at(head, 36) == 0 && signed_at(head, 38) == 0
                && signed_at(head, 40) == 0 && signed_at(head, 42) == 0
        }),
{
    let t = head_of(glyphs, upm);
    let head = head_bytes(t);
    let bbox = font_box(glyphs);
    assert(table_list(glyphs, upm, family)->0[0].1 == head);
    assert({
        &&& head.len() == 54
        &&& read16(head.skip(18)) == upm
        &&& read16(head) == 1
        &&& read16(head.skip(2)) == 0
        &&& read32(head.skip(4)) == 0x1_0000
        &&& read32(head.skip(12)) == 0x5f0f_3cf5
        &&& read16(head.skip(16)) == 0
        &&& read32(head.skip(20)) == 0
        &&& read32(head.skip(24)) == 0
        &&& read32(head.skip(28)) == 0
        &&& read32(head.skip(32)) == 0
        &&& read16(head.skip(44)) == 0
        &&& read16(head.skip(46)) == 8
        &&& read16(head.skip(48)) == 2
        &&& read16(head.skip(50)) <= 1
        &&& read16(head.skip(52)) == 0
    }) by {
        head_fields(t);
        assert(head.skip(0) =~= head);
    }
    assert({
        &&& signed_at(head, 36) == bbox.x_min
        &&& signed_at(head, 38) == bbox.y_min
        &&& signed_at(head, 40) == bbox.x_max
        &&& signed_at(head, 42) == bbox.y_max
    }) by {
        head_fields(t);
        signed_reads_back(bbox.x_min);
        signed_reads_back(bbox.y_min);
        signed_reads_back(bbox.x_max);
        signed_reads_back(bbox.y_max);
    }
    font_box_is_tight(glyphs);
}

proof fn font_box_is_tight(glyphs: Seq<FontGlyph>)
    ensures
        forall|i: int|
            0 <= i < glyphs.len() ==> font_box(glyphs).x_min <= (
            #[trigger] glyphs[i]).bbox().x_min && font_box(glyphs).y_min
                <= glyphs[i].bbox().y_min && font_box(glyphs).x_max >= glyphs[i].bbox().x_max
                && font_box(glyphs).y_max >= glyphs[i].bbox().y_max,
        glyphs.len() > 0 ==> {
            &&& exists|i: int|
                0 <= i < glyphs.len() && font_box(glyphs).x_min == (
                #[trigger] glyphs[i]).bbox().x_min
            &&& exists|i: int|
                0 <= i < glyphs.len() && font_box(glyphs).y_min == (
                #[trigger] glyphs[i]).bbox().y_min
            &&& exists|i: int|
                0 <= i < glyphs.len() && font_box(glyphs).x_max == (
                #[trigger] glyphs[i]).bbox().x_max
            &&& exists|i: int|
                0 <= i < glyphs.len() && font_box(glyphs).y_max == (
                #[trigger] glyphs[i]).bbox().y_max
        },
        glyphs.len() == 0 ==> font_box(glyphs).x_min == 0 && font_box(glyphs).y_min == 0
            && font_box(glyphs).x_max == 0 && font_box(glyphs).y_max == 0,
{
    let boxes = boxes_of(glyphs);
    box_around_boxes_is_tight(boxes);
    assert forall|i: int| 0 <= i < glyphs.len() implies font_box(glyphs).x_min <= (
    #[trigger] glyphs[i]).bbox().x_min && font_box(glyphs).y_min <= glyphs[i].bbox().y_min
        && font_box(glyphs).x_max >= glyphs[i].bbox().x_max && font_box(glyphs).y_max
        >= glyphs[i].bbox().y_max by {
        assert(boxes[i] == glyphs[i].bbox());
    }
    if glyphs.len() > 0 {
        let all = font_box(glyphs);
        let a = choose|i: int| 0 <= i < boxes.len() && all.x_min == (#[trigger] boxes[i]).x_min;
        let b = choose|i: int| 0 <= i < boxes.len() && all.y_min == (#[trigger] boxes[i]).y_min;
        let c = choose|i: int| 0 <= i < boxes.len() && all.x_max == (#[trigger] boxes[i]).x_max;
        let d = choose|i: int| 0 <= i < boxes.len() && all.y_max == (#[trigger] boxes[i]).y_max;
        assert(boxes[a] == glyphs[a].bbox() && boxes[b] == glyphs[b].bbox());
        assert(boxes[c] == glyphs[c].bbox() && boxes[d] == glyphs[d].bbox());
    }
}

/// The `hhea` table says how far glyphs reach, in agreement with the `head` table: the ascender is
/// the top of the font's bounding box, the descender its bottom or the baseline where that is
/// lower, the least left side bearing its left side and the greatest extent its right side. The
/// greatest width and the least right side bearing are those of a glyph, and no glyph passes them.
/// There is one metric for each glyph and one for ".notdef", the caret is upright, and there is no
/// gap between lines.
#[verifier::rlimit(50)]
#[verifier::spinoff_prover]
pub proof fn hhea_table_says(glyphs: Seq<FontGlyph>, upm: u16, family: Seq<char>)
    requires
        table_list(glyphs, upm, family) is Some,
    ensures
        ({
            let head = table_list(glyphs, upm, family)->0[0].1;
            let hhea = table_list(glyphs, upm, family)->0[1].1;
            &&& hhea.len() == 36
            &&& read16(hhea) == 1
            &&& read16(hhea.skip(2)) == 0
            &&& signed_at(hhea, 4) == signed_at(head, 42)
            &&& signed_at(hhea, 6) == (if signed_at(head, 38) < 0 {
                signed_at(head, 38)
            } else {
                0
            })
            &&& read16(hhea.skip(8)) == 0
            &&& forall|i: int|
                0 <= i < glyphs.len() ==> (#[trigger] glyphs[i]).advance() <= read16(hhea.skip(10))
            &&& glyphs.len() > 0 ==> exists|i: int|
                0 <= i < glyphs.len() && (#[trigger] glyphs[i]).advance() == read16(hhea.skip(10))
            &&& signed_at(hhea, 12) == signed_at(head, 36)
            &&& forall|i: int|
                0 <= i < glyphs.len() ==> signed_at(hhea, 14) <= signed(
                    ((#[trigger] glyphs[i]).advance() - glyphs[i].bbox().x_max) % 0x1_0000,
                )
            &&& glyphs.len() > 0 ==> exists|i: int|
                0 <= i < glyphs.len() && signed_at(hhea, 14) == signed(
                    ((#[trigger] glyphs[i]).advance() - glyphs[i].bbox().x_max) % 0x1_0000,
                )
            &&& signed_at(hhea, 16) == signed_at(head, 40)
            &&& read16(hhea.skip(18)) == 1
            &&& read16(hhea.skip(20)) == 0
            &&& read16(hhea.skip(22)) == 0
            &&& read16(hhea.skip(34)) == glyphs.len() + 1
            &&& glyphs.len() == 0 ==> read16(hhea.skip(10)) == 0 && signed_at(hhea, 14) == 0
        }),
{
    let t = hhea_of(glyphs);
    let (head, hhea) = (head_bytes(head_of(glyphs, upm)), hhea_bytes(t));
    let bbox = font_box(glyphs);
    let tables = table_list(glyphs, upm, family)->0;
    assert(tables[0].1 == head && tables[1].1 == hhea);
    assert(metrics_of(glyphs).len() == glyphs.len() + 1);
    assert({
        &&& signed_at(head, 36) == bbox.x_min
        &&& signed_at(head, 38) == bbox.y_min
        &&& signed_at(head, 40) == bbox.x_max
        &&& signed_at(head, 42) == bbox.y_max
    }) by {
        head_fields(head_of(glyphs, upm));
        signed_reads_back(bbox.x_min);
        signed_reads_back(bbox.y_min);
        signed_reads_back(bbox.x_max);
        signed_reads_back(bbox.y_max);
    }
    assert({
        &&& hhea.len() == 36
        &&& read16(hhea) == 1
        &&& read16(hhea.skip(2)) == 0
        &&& signed_at(hhea, 4) == bbox.y_max
        &&& signed_at(hhea, 6) == t.descender
        &&& read16(hhea.skip(8)) == 0
        &&& read16(hhea.skip(10)) == t.advance_width_max
        &&& signed_at(hhea, 12) == bbox.x_min
        &&& signed_at(hhea, 14) == t.min_right_side_bearing
        &&& signed_at(hhea, 16) == bbox.x_max
        &&& read16(hhea.skip(18)) == 1
        &&& read16(hhea.skip(20)) == 0
        &&& read16(hhea.skip(22)) == 0
        &&& read16(hhea.skip(34)) == glyphs.len() + 1
    }) by {
        hhea_fields(t);
        assert(hhea.skip(0) =~= hhea);
        signed_reads_back(bbox.x_min);
        signed_reads_back(bbox.x_max);
        signed_reads_back(bbox.y_max);
        signed_reads_back(t.descender);
        signed_reads_back(t.min_right_side_bearing);
    }
    widest_glyph(glyphs);
    least_space_behind_a_glyph(glyphs);
}

proof fn widest_glyph(glyphs: Seq<FontGlyph>)
    ensures
        forall|i: int|
            0 <= i < glyphs.len() ==> (#[trigger] glyphs[i]).advance() <= hhea_of(
                glyphs,
            ).advance_width_max,
        glyphs.len() > 0 ==> exists|i: int|
            0 <= i < glyphs.len() && (#[trigger] glyphs[i]).advance() == hhea_of(
                glyphs,
            ).advance_width_max,
        glyphs.len() == 0 ==> hhea_of(glyphs).advance_width_max == 0,
{
    let widths = advances(metrics_of(glyphs));
    extremes_bound(widths);
    let w = choose|k: int| 0 <= k < widths.len() && widths[k] == highest_of(widths);
    assert(widths[0] == 0);
    assert forall|i: int| 0 <= i < glyphs.len() implies (#[trigger] glyphs[i]).advance() <= hhea_of(
        glyphs,
    ).advance_width_max by {
        assert(widths[i + 1] == glyphs[i].advance());
    }
    if glyphs.len() > 0 {
        if w > 0 {
            assert(widths[w] == glyphs[w - 1].advance());
        } else {
            assert(widths[1] == glyphs[0].advance());
        }
    }
}

proof fn least_space_behind_a_glyph(glyphs: Seq<FontGlyph>)
    ensures
        forall|i: int|
            0 <= i < glyphs.len() ==> least_right_bearing(glyphs) <= signed(
                ((#[trigger] glyphs[i]).advance() - glyphs[i].bbox().x_max) % 0x1_0000,
            ),
        glyphs.len() > 0 ==> exists|i: int|
            0 <= i < glyphs.len() && least_right_bearing(glyphs) == signed(
                ((#[trigger] glyphs[i]).advance() - glyphs[i].bbox().x_max) % 0x1_0000,
            ),
        glyphs.len() == 0 ==> least_right_bearing(glyphs) == 0,
{
    let bearings = glyphs.map_values(|g: FontGlyph| g.right_side_bearing() as int);
    if glyphs.len() > 0 {
        extremes_bound(bearings);
        let r = choose|k: int| 0 <= k < bearings.len() && bearings[k] == lowest_of(bearings);
        assert(bearings[r] == glyphs[r].right_side_bearing());
        assert forall|i: int| 0 <= i < glyphs.len() implies least_right_bearing(glyphs) <= signed(
            ((#[trigger] glyphs[i]).advance() - glyphs[i].bbox().x_max) % 0x1_0000,
        ) by {
            assert(bearings[i] == glyphs[i].right_side_bearing());
        }
        assert(least_right_bearing(glyphs) == signed(
            (glyphs[r].advance() - glyphs[r].bbox().x_max) % 0x1_0000,
        ));
    }
}

/// The `maxp` table counts the glyphs, ".notdef" among them, and says the most points and the most
/// contours that an outline has: there is one that has so many, none has more, and the table holds
/// the numbers as far as 16 bits can. There is a single zone, and nothing of what only composite
/// glyphs and instructions need.
#[verifier::rlimit(50)]
#[verifier::spinoff_prover]
pub proof fn maxp_table_says(glyphs: Seq<FontGlyph>, upm: u16, family: Seq<char>)
    requires
        table_list(glyphs, upm, family) is Some,
    ensures
        ({
            let maxp = table_list(glyphs, upm, family)->0[2].1;
            &&& maxp.len() == 32
            &&& read32(maxp) == 0x1_0000
            &&& read16(maxp.skip(4)) == glyphs.len() + 1
            &&& glyphs.len() > 0 ==> exists|i: int|
                0 <= i < glyphs.len() && has_most_points(glyphs, i) && read16(maxp.skip(6)) == (
                #[trigger] glyphs[i]).points().len() % 0x1_0000
            &&& glyphs.len() > 0 ==> exists|i: int|
                0 <= i < glyphs.len() && has_most_contours(glyphs, i) && read16(maxp.skip(8)) == (
                #[trigger] glyphs[i]).outline.contours@.len() % 0x1_0000
            &&& glyphs.len() == 0 ==> read16(maxp.skip(6)) == 0 && read16(maxp.skip(8)) == 0
            &&& read16(maxp.skip(10)) == 0
            &&& read16(maxp.skip(12)) == 0
            &&& read16(maxp.skip(14)) == 1
            &&& read16(maxp.skip(16)) == 0
            &&& read16(maxp.skip(18)) == 0
            &&& read16(maxp.skip(20)) == 0
            &&& read16(maxp.skip(22)) == 0
            &&& read16(maxp.skip(24)) == 0
            &&& read16(maxp.skip(26)) == 0
            &&& read16(maxp.skip(28)) == 0
            &&& read16(maxp.skip(30)) == 0
        }),
{
    let t = maxp_of(glyphs);
    let maxp = maxp_bytes(t);
    assert(table_list(glyphs, upm, family)->0[2].1 == maxp);
    assert(metrics_of(glyphs).len() == glyphs.len() + 1);
    maxp_fields(t);
    assert(maxp.skip(0) =~= maxp);
    most_points_and_contours(glyphs);
}

/// Whether no glyph has more points than one.
pub open spec fn has_most_points(glyphs: Seq<FontGlyph>, i: int) -> bool {
    forall|k: int|
        0 <= k < glyphs.len() ==> (#[trigger] glyphs[k]).points().len() <= glyphs[i].points().len()
}

/// Whether no glyph has more contours than one.
pub open spec fn has_most_contours(glyphs: Seq<FontGlyph>, i: int) -> bool {
    forall|k: int|
        0 <= k < glyphs.len() ==> (#[trigger] glyphs[k]).outline.contours@.len()
            <= glyphs[i].outline.contours@.len()
}

proof fn most_points_and_contours(glyphs: Seq<FontGlyph>)
    ensures
        glyphs.len() > 0 ==> exists|i: int|
            0 <= i < glyphs.len() && has_most_points(glyphs, i) && maxp_of(glyphs).max_points == (
            #[trigger] glyphs[i]).points().len() % 0x1_0000,
        glyphs.len() > 0 ==> exists|i: int|
            0 <= i < glyphs.len() && has_most_contours(glyphs, i) && maxp_of(glyphs).max_contours
                == (#[trigger] glyphs[i]).outline.contours@.len() % 0x1_0000,
        glyphs.len() == 0 ==> maxp_of(glyphs).max_points == 0 && maxp_of(glyphs).max_contours == 0,
{
    let (points, contours) = (point_counts(glyphs), contour_counts(glyphs));
    if glyphs.len() > 0 {
        extremes_bound(points);
        extremes_bound(contours);
        let p = choose|p: int| 0 <= p < points.len() && points[p] == highest_of(points);
        let c = choose|c: int| 0 <= c < contours.len() && contours[c] == highest_of(contours);
        assert(points[p] == glyphs[p].points().len());
        assert(contours[c] == glyphs[c].outline.contours@.len());
        assert forall|k: int| 0 <= k < glyphs.len() implies (#[trigger] glyphs[k]).points().len()
            <= glyphs[p].points().len() by {
            assert(points[k] == glyphs[k].points().len());
        }
        assert forall|k: int| 0 <= k < glyphs.len() implies (
        #[trigger] glyphs[k]).outline.contours@.len() <= glyphs[c].outline.contours@.len() by {
            assert(contours[k] == glyphs[k].outline.contours@.len());
        }
        assert(has_most_points(glyphs, p) && has_most_contours(glyphs, c));
    }
}

/// The `hmtx` table holds the width and the left side of the bounding box of each glyph, under the
/// glyph's number, and zeros for ".notdef".
#[verifier::rlimit(50)]
#[verifier::spinoff_prover]
pub proof fn hmtx_table_says(glyphs: Seq<FontGlyph>, upm: u16, family: Seq<char>, i: int)
    requires
        table_list(glyphs, upm, family) is Some,
        0 <= i < glyphs.len(),
    ensures
        ({
            let hmtx = table_list(glyphs, upm, family)->0[3].1;
            &&& hmtx.len() == 4 * (glyphs.len() + 1)
            &&& read16(hmtx) == 0
            &&& read16(hmtx.skip(2)) == 0
            &&& read16(hmtx.skip(4 * (i + 1))) == glyphs[i].advance()
            &&& signed_at(hmtx, 4 * (i + 1) + 2) == glyphs[i].bbox().x_min
        }),
{
    let metrics = metrics_of(glyphs);
    hmtx_reads_back(metrics, 0);
    hmtx_reads_back(metrics, i + 1);
    signed_reads_back(glyphs[i].bbox().x_min);
    let hmtx = hmtx_bytes(metrics, Seq::empty());
    assert(hmtx.skip(0) =~= hmtx);
    assert(metrics[i + 1].advance == glyphs[i].advance());
    assert(metrics[i + 1].side_bearing == glyphs[i].bbox().x_min);
}

/// The `post` table is of version 3.0, and all that follows in it is zero.
#[verifier::rlimit(50)]
#[verifier::spinoff_prover]
pub proof fn post_table_says(glyphs: Seq<FontGlyph>, upm: u16, family: Seq<char>)
    requires
        table_list(glyphs, upm, family) is Some,
    ensures
        ({
            let post = table_list(glyphs, upm, family)->0[6].1;
            &&& post.len() == 32
            &&& read16(post) == 3
            &&& read16(post.skip(2)) == 0
            &&& read32(post.skip(4)) == 0
            &&& read16(post.skip(8)) == 0
            &&& read16(post.skip(10)) == 0
            &&& read32(post.skip(12)) == 0
            &&& read32(post.skip(16)) == 0
            &&& read32(post.skip(20)) == 0
            &&& read32(post.skip(24)) == 0
            &&& read32(post.skip(28)) == 0
        }),
{
    let t = plain_post();
    let post = post_bytes(t);
    post_fields(t);
    assert(post.skip(0) =~= post);
}

/// The widths of glyphs, added up.
pub open spec fn total_width(glyphs: Seq<FontGlyph>) -> int
    decreases glyphs.len(),
{
    if glyphs.len() == 0 {
        0
    } else {
        glyphs[0].advance() + total_width(glyphs.skip(1))
    }
}

proof fn total_width_from_the_end(glyphs: Seq<FontGlyph>)
    requires
        glyphs.len() > 0,
    ensures
        total_width(glyphs) == total_width(glyphs.drop_last()) + glyphs.last().advance(),
        total_width(glyphs) >= 0,
    decreases glyphs.len(),
{
    if glyphs.len() == 1 {
        assert(glyphs.skip(1) =~= Seq::empty());
        assert(glyphs.drop_last() =~= Seq::empty());
    } else {
        total_width_from_the_end(glyphs.skip(1));
        assert(glyphs.skip(1).drop_last() =~= glyphs.drop_last().skip(1));
        assert(glyphs.drop_last()[0] == glyphs[0]);
    }
}

proof fn widths_add_up(glyphs: Seq<FontGlyph>)
    ensures
        advance_total(metrics_of(glyphs)) == total_width(glyphs),
        total_width(glyphs) >= 0,
    decreases glyphs.len(),
{
    let metrics = metrics_of(glyphs);
    if glyphs.len() == 0 {
        assert(metrics.drop_last() =~= Seq::empty());
        assert(metrics.last().advance == 0);
        assert(advance_total(metrics.drop_last()) == 0);
    } else {
        widths_add_up(glyphs.drop_last());
        total_width_from_the_end(glyphs);
        assert(metrics.drop_last() =~= metrics_of(glyphs.drop_last()));
        assert(metrics.last().advance == glyphs.last().advance());
    }
}

/// The `OS/2` table says the average width over all glyphs and ".notdef", rounded down and by its
/// low 16 bits; regular weight and width, and that the style is regular; no vendor; the least and
/// the greatest codepoint by their low 16 bits, each that of a glyph; and the ascender and the
/// descender of the `hhea` table, without a gap between lines.
#[verifier::rlimit(50)]
#[verifier::spinoff_prover]
pub proof fn os2_table_says(glyphs: Seq<FontGlyph>, upm: u16, family: Seq<char>)
    requires
        table_list(glyphs, upm, family) is Some,
    ensures
        ({
            let hhea = table_list(glyphs, upm, family)->0[1].1;
            let os2 = table_list(glyphs, upm, family)->0[7].1;
            let n = glyphs.len() + 1;
            &&& os2.len() == 78
            &&& read16(os2) == 0
            &&& read16(os2.skip(2)) == total_width(glyphs) / (n as int) % 0x1_0000
            &&& read16(os2.skip(4)) == 400
            &&& read16(os2.skip(6)) == 5
            &&& read16(os2.skip(8)) == 0
            &&& read32(os2.skip(58)) == 0x4e4f_4e45
            &&& read16(os2.skip(62)) == 0x40
            &&& forall|i: int|
                0 <= i < glyphs.len() ==> read16(os2.skip(64)) <= (
                #[trigger] glyphs[i]).codepoint as int % 0x1_0000 <= read16(os2.skip(66))
            &&& glyphs.len() > 0 ==> exists|i: int|
                0 <= i < glyphs.len() && (#[trigger] glyphs[i]).codepoint as int % 0x1_0000
                    == read16(os2.skip(64))
            &&& glyphs.len() > 0 ==> exists|i: int|
                0 <= i < glyphs.len() && (#[trigger] glyphs[i]).codepoint as int % 0x1_0000
                    == read16(os2.skip(66))
            &&& glyphs.len() == 0 ==> read16(os2.skip(64)) == 0 && read16(os2.skip(66)) == 0
            &&& signed_at(os2, 68) == signed_at(hhea, 4)
            &&& signed_at(os2, 70) == signed_at(hhea, 6)
            &&& read16(os2.skip(72)) == 0
            &&& read16(os2.skip(74)) == (if signed_at(hhea, 4) > 0 {
                signed_at(hhea, 4)
            } else {
                0
            })
            &&& read16(os2.skip(76)) == -signed_at(hhea, 6)
        }),
{
    let t = os2_of(glyphs);
    let (hhea, os2) = (hhea_bytes(hhea_of(glyphs)), os2_bytes(t));
    let tables = table_list(glyphs, upm, family)->0;
    assert(tables[1].1 == hhea && tables[7].1 == os2);
    assert(metrics_of(glyphs).len() == glyphs.len() + 1);
    assert({
        &&& read16(os2) == 0
        &&& read16(os2.skip(2)) == t.x_avg_char_width as int % 0x1_0000
        &&& read16(os2.skip(4)) == 400
        &&& read16(os2.skip(6)) == 5
        &&& read16(os2.skip(8)) == 0
    }) by {
        os2_style_fields(t);
        assert(os2.skip(0) =~= os2);
    }
    assert({
        &&& signed_at(hhea, 4) == t.s_typo_ascender
        &&& signed_at(hhea, 6) == t.s_typo_descender
    }) by {
        hhea_fields(hhea_of(glyphs));
        signed_reads_back(t.s_typo_ascender);
        signed_reads_back(t.s_typo_descender);
    }
    assert({
        &&& os2.len() == 78
        &&& read32(os2.skip(58)) == 0x4e4f_4e45
        &&& read16(os2.skip(62)) == 0x40
        &&& read16(os2.skip(64)) == t.us_first_char_index
        &&& read16(os2.skip(66)) == t.us_last_char_index
        &&& signed_at(os2, 68) == t.s_typo_ascender
        &&& signed_at(os2, 70) == t.s_typo_descender
        &&& read16(os2.skip(72)) == 0
        &&& read16(os2.skip(74)) == t.us_win_ascent
        &&& read16(os2.skip(76)) == t.us_win_descent
    }) by {
        os2_line_fields(t);
        signed_reads_back(t.s_typo_ascender);
        signed_reads_back(t.s_typo_descender);
    }
    average_width(glyphs);
    range_of_codepoints(glyphs);
}

proof fn average_width(glyphs: Seq<FontGlyph>)
    requires
        glyphs.len() < 65535,
    ensures
        os2_of(glyphs).x_avg_char_width as int % 0x1_0000 == total_width(glyphs) / (
        (glyphs.len() + 1) as int) % 0x1_0000,
{
    widths_add_up(glyphs);
    assert(metrics_of(glyphs).len() == glyphs.len() + 1);
    low_bits_stand_for_a_number(total_width(glyphs) / ((glyphs.len() + 1) as int));
}

proof fn range_of_codepoints(glyphs: Seq<FontGlyph>)
    ensures
        ({
            let (first, last) = (
                os2_of(glyphs).us_first_char_index,
                os2_of(glyphs).us_last_char_index,
            );
            &&& forall|i: int|
                0 <= i < glyphs.len() ==> first <= (#[trigger] glyphs[i]).codepoint as int
                    % 0x1_0000 <= last
            &&& glyphs.len() > 0 ==> exists|i: int|
                0 <= i < glyphs.len() && (#[trigger] glyphs[i]).codepoint as int % 0x1_0000 == first
            &&& glyphs.len() > 0 ==> exists|i: int|
                0 <= i < glyphs.len() && (#[trigger] glyphs[i]).codepoint as int % 0x1_0000 == last
            &&& glyphs.len() == 0 ==> first == 0 && last == 0
        }),
{
    let codes = short_codes(glyphs);
    if glyphs.len() > 0 {
        extremes_bound(codes);
        let a = choose|k: int| 0 <= k < codes.len() && codes[k] == lowest_of(codes);
        let b = choose|k: int| 0 <= k < codes.len() && codes[k] == highest_of(codes);
        assert(codes[a] == glyphs[a].codepoint as int % 0x1_0000);
        assert(codes[b] == glyphs[b].codepoint as int % 0x1_0000);
        assert forall|i: int| 0 <= i < glyphs.len() implies lowest_of(codes) <= (
        #[trigger] glyphs[i]).codepoint as int % 0x1_0000 <= highest_of(codes) by {
            assert(codes[i] == glyphs[i].codepoint as int % 0x1_0000);
        }
    }
}

/// The `OS/2` table says nothing of small letters, of strikeout lines, of a classification or of
/// the ranges of characters.
#[verifier::rlimit(50)]
#[verifier::spinoff_prover]
pub proof fn os2_table_leaves_the_rest_zero(glyphs: Seq<FontGlyph>, upm: u16, family: Seq<char>)
    requires
        table_list(glyphs, upm, family) is Some,
    ensures
        ({
            let os2 = table_list(glyphs, upm, family)->0[7].1;
            &&& read16(os2.skip(10)) == 0
            &&& read16(os2.skip(12)) == 0
            &&& read16(os2.skip(14)) == 0
            &&& read16(os2.skip(16)) == 0
            &&& read16(os2.skip(18)) == 0
            &&& read16(os2.skip(20)) == 0
            &&& read16(os2.skip(22)) == 0
            &&& read16(os2.skip(24)) == 0
            &&& read16(os2.skip(26)) == 0
            &&& read16(os2.skip(28)) == 0
            &&& read16(os2.skip(30)) == 0
            &&& forall|i: int| 32 <= i < 42 ==> os2[i] == 0
            &&& read32(os2.skip(42)) == 0
            &&& read32(os2.skip(46)) == 0
            &&& read32(os2.skip(50)) == 0
            &&& read32(os2.skip(54)) == 0
        }),
{
    let t = os2_of(glyphs);
    let os2 = os2_bytes(t);
    os2_style_fields(t);
    os2_script_fields(t);
    os2_range_fields(t);
    assert forall|i: int| 32 <= i < 42 implies os2[i] == 0 by {
        assert(t.panose_10.bytes()[i - 32] == os2[32 + (i - 32)]);
        assert(t.panose_10.bytes()[i - 32] == 0);
    }
}

/// Where a glyph begins in the `glyf` table, by its number: read from the `loca` table, in the form
/// that the `head` table says.
pub open spec fn glyph_start(head: Seq<u8>, loca: Seq<u8>, number: int) -> int {
    if read16(head.skip(50)) == 0 {
        2 * read16(loca.skip(2 * number))
    } else {
        read32(loca.skip(4 * number))
    }
}

/// Each glyph's bytes are found in the `glyf` table through the `loca` table, under the glyph's
/// number, from where it begins to where the next one does. ".notdef" has none, and the last glyph
/// ends with the table.
#[verifier::rlimit(50)]
#[verifier::spinoff_prover]
pub proof fn glyphs_are_found_by_number(
    glyphs: Seq<FontGlyph>,
    upm: u16,
    family: Seq<char>,
    i: int,
)
    requires
        table_list(glyphs, upm, family) is Some,
        concat(runs_of(glyphs)).len() <= u32::MAX,
        0 <= i < glyphs.len(),
    ensures
        ({
            let tables = table_list(glyphs, upm, family)->0;
            let (head, glyf, loca) = (tables[0].1, tables[8].1, tables[9].1);
            let start = glyph_start(head, loca, i + 1);
            let end = glyph_start(head, loca, i + 2);
            &&& glyph_start(head, loca, 0) == 0
            &&& glyph_start(head, loca, 1) == 0
            &&& 0 <= start <= end <= glyf.len()
            &&& glyf.subrange(start, end) == glyph_run(glyphs[i].contents())
            &&& glyph_start(head, loca, (glyphs.len() + 1) as int) == glyf.len()
        }),
{
    glyph_bytes_lie_between_offsets(glyphs, upm, i);
    let tables = table_list(glyphs, upm, family)->0;
    assert(tables[0].1 == head_bytes(head_of(glyphs, upm)));
    assert(tables[8].1 == concat(runs_of(glyphs)));
    assert(tables[9].1 == loca_bytes(run_offsets(runs_of(glyphs))));
}

proof fn glyph_bytes_lie_between_offsets(glyphs: Seq<FontGlyph>, upm: u16, i: int)
    requires
        concat(runs_of(glyphs)).len() <= u32::MAX,
        0 <= i < glyphs.len(),
    ensures
        ({
            let head = head_bytes(head_of(glyphs, upm));
            let glyf = concat(runs_of(glyphs));
            let loca = loca_bytes(run_offsets(runs_of(glyphs)));
            let start = glyph_start(head, loca, i + 1);
            let end = glyph_start(head, loca, i + 2);
            &&& glyph_start(head, loca, 0) == 0
            &&& glyph_start(head, loca, 1) == 0
            &&& 0 <= start <= end <= glyf.len()
            &&& glyf.subrange(start, end) == glyph_run(glyphs[i].contents())
            &&& glyph_start(head, loca, (glyphs.len() + 1) as int) == glyf.len()
        }),
{
    let runs = runs_of(glyphs);
    start_of_a_glyph(glyphs, upm, 0);
    start_of_a_glyph(glyphs, upm, 1);
    start_of_a_glyph(glyphs, upm, i + 1);
    start_of_a_glyph(glyphs, upm, i + 2);
    start_of_a_glyph(glyphs, upm, (glyphs.len() + 1) as int);
    notdef_is_empty(glyphs);
    concat_splits(runs, i + 1);
    assert(runs.take(runs.len() as int) =~= runs);
    assert(runs[i + 1] == glyph_run(glyphs[i].contents()));
}

proof fn start_of_a_glyph(glyphs: Seq<FontGlyph>, upm: u16, number: int)
    requires
        concat(runs_of(glyphs)).len() <= u32::MAX,
        0 <= number <= glyphs.len() + 1,
    ensures
        glyph_start(
            head_bytes(head_of(glyphs, upm)),
            loca_bytes(run_offsets(runs_of(glyphs))),
            number,
        ) == concat(runs_of(glyphs).take(number)).len(),
{
    head_fields(head_of(glyphs, upm));
    loca_reads_back(runs_of(glyphs), number);
    offsets_ascend(runs_of(glyphs), number);
}

/// A well-stored glyph that has contours, none of them empty, begins in the `glyf` table with the
/// number of its contours and its bounding box.
pub proof fn glyph_bytes_say_its_box(glyph: FontGlyph)
    requires
        well_stored(glyph),
        0 < glyph.outline.points().len() < 0x8000,
        forall|k: int|
            0 <= k < glyph.outline.points().len() ==> (
            #[trigger] glyph.outline.points()[k]).len() > 0,
    ensures
        ({
            let run = glyph_run(glyph.contents());
            &&& read16(run) == glyph.outline.points().len()
            &&& signed_at(run, 2) == glyph.bbox().x_min
            &&& signed_at(run, 4) == glyph.bbox().y_min
            &&& signed_at(run, 6) == glyph.bbox().x_max
            &&& signed_at(run, 8) == glyph.bbox().y_max
        }),
{
    glyph_bytes_begin_with_its_box(glyph.contents());
    signed_reads_back(glyph.bbox().x_min);
    signed_reads_back(glyph.bbox().y_min);
    signed_reads_back(glyph.bbox().x_max);
    signed_reads_back(glyph.bbox().y_max);
}

/// Numbers below 0xd800 and from 0xe000 to 0x10ffff are those of characters, and no others.
pub proof fn numbers_of_characters(code: u32, c: char)
    ensures
        scalar(code) <==> code <= 0xd7ff || 0xe000 <= code <= 0x10_ffff,
        scalar(c as u32),
        scalar(code) ==> code as char as u32 == code,
{
}

/// Where the tables of a font can be read, each glyph is found through the `cmap` table by its
/// character, under its place in the list counted from 1.
pub proof fn characters_lead_to_glyphs(
    tables: Seq<(Tag, Seq<u8>)>,
    glyphs: Seq<FontGlyph>,
    family: Seq<char>,
    i: int,
)
    requires
        readable(tables, glyphs, family),
        0 <= i < glyphs.len(),
        glyphs[i].codepoint <= 0xd7ff || 0xe000 <= glyphs[i].codepoint <= 0x10_ffff,
    ensures
        tables[4].0.code == 0x636d_6170,
        cmap_gives(tables[4].1, glyphs[i].codepoint as int, i + 1),
{
}

/// Where the tables of a font can be read, its names stand in the `name` table, for Windows, in
/// Unicode and in US English: the family as family name, as unique name and as full name, the style
/// "Regular", the version "Version 1.0", and as PostScript name the family without white space.
pub proof fn names_stand_in_the_font(
    tables: Seq<(Tag, Seq<u8>)>,
    glyphs: Seq<FontGlyph>,
    family: Seq<char>,
)
    requires
        readable(tables, glyphs, family),
    ensures
        tables[5].0.code == 0x6e61_6d65,
        read16(tables[5].1.skip(2)) == 6,
        record_says(tables[5].1, 0, 1, family),
        record_says(tables[5].1, 1, 2, "Regular"@),
        record_says(tables[5].1, 2, 3, family),
        record_says(tables[5].1, 3, 4, family),
        record_says(tables[5].1, 4, 5, "Version 1.0"@),
        record_says(tables[5].1, 5, 6, without_white_space(family)),
{
    let name = tables[5].1;
    let names = names_of(family);
    assert(name_says(name, 0, names[0]));
    assert(name_says(name, 1, names[1]));
    assert(name_says(name, 2, names[2]));
    assert(name_says(name, 3, names[3]));
    assert(name_says(name, 4, names[4]));
    assert(name_says(name, 5, names[5]));
}

/// Whether record `i` of a `name` table is that of a name, by its number: for platform 3, encoding
/// 1 and language 0x409, and leading to the name's text in big-endian UTF-16.
pub open spec fn record_says(name: Seq<u8>, i: int, id: int, text: Seq<char>) -> bool {
    let at = 6 + 12 * i;
    let len = read16(name.skip(at).skip(8));
    let start = read16(name.skip(4)) + read16(name.skip(at).skip(10));
    &&& read16(name.skip(at)) == 3
    &&& read16(name.skip(at).skip(2)) == 1
    &&& read16(name.skip(at).skip(4)) == 0x409
    &&& read16(name.skip(at).skip(6)) == id
    &&& start + len <= name.len()
    &&& name.subrange(start, start + len) == utf16_bytes(text)
}

/// A text in UTF-16 is its characters' units one after the other: one 16-bit number for a character
/// below 0x10000, and otherwise two, from which the character can be computed.
pub proof fn utf16_of_characters(text: Seq<char>, c: char)
    ensures
        utf16_bytes(Seq::empty()).len() == 0,
        ({
            let front = utf16_bytes(text).len() as int;
            let bytes = utf16_bytes(text.push(c));
            &&& bytes.take(front) == utf16_bytes(text)
            &&& (c as int) < 0x1_0000 ==> bytes.len() == front + 2 && read16(bytes.skip(front))
                == c as int
            &&& (c as int) >= 0x1_0000 ==> {
                let (high, low) = (read16(bytes.skip(front)), read16(bytes.skip(front + 2)));
                &&& bytes.len() == front + 4
                &&& 0xd800 <= high < 0xdc00
                &&& 0xdc00 <= low < 0xe000
                &&& c as int == 0x1_0000 + 0x400 * (high - 0xd800) + (low - 0xdc00)
            }
        }),
{
    broadcast use be16_len;

    let before = utf16_bytes(text);
    let front = before.len() as int;
    let bytes = utf16_bytes(text.push(c));
    assert(text.push(c).drop_last() =~= text);
    assert(bytes.take(front) =~= before);
    let n = c as int;
    if n < 0x1_0000 {
        number_at(bytes, front, n);
    } else {
        let high = 0xd800 + (n - 0x1_0000) / 0x400;
        let low = 0xdc00 + (n - 0x1_0000) % 0x400;
        number_at(bytes, front, high);
        number_at(bytes, front + 2, low);
    }
}

/// A table of a font file is found through an entry of the directory: 16 bytes, from byte 12 on,
/// with the tag, the checksum, where the table begins and how long it is. Of a `head` table, four
/// bytes differ, from byte 8 on.
#[verifier::rlimit(50)]
#[verifier::spinoff_prover]
pub proof fn tables_are_found_in_the_file(font: Seq<u8>, tables: Seq<(Tag, Seq<u8>)>, i: int) -> (k:
    int)
    requires
        is_font_of(font, tables),
        0 <= i < tables.len(),
    ensures
        read32(font) == 0x1_0000,
        read16(font.skip(4)) == tables.len(),
        0 <= k < tables.len(),
        ({
            let entry = font.skip(12 + 16 * k);
            let (start, len) = (read32(entry.skip(8)), read32(entry.skip(12)));
            &&& read32(entry) == tables[i].0.code
            &&& len == tables[i].1.len()
            &&& start % 4 == 0
            &&& 12 + 16 * tables.len() <= start
            &&& start + len <= font.len()
            &&& tables[i].0.code != 0x6865_6164 ==> font.subrange(start, start + len)
                == tables[i].1
            &&& forall|b: int|
                0 <= b < len && (b < 8 || b >= 12) ==> font[start + b] == #[trigger] tables[i].1[b]
        }),
{
    let (code, data) = (tables[i].0.code, tables[i].1);
    assert(holds_table(font, code, data));
    let k = choose|k: int|
        0 <= k < read16(font.skip(4)) && #[trigger] entry_holds(font, k, code, data);
    let entry = font.skip(12 + 16 * k);
    let (start, len) = (read32(entry.skip(8)), read32(entry.skip(12)));
    let bytes = font.subrange(start, start + len);
    assert forall|b: int| 0 <= b < len && (b < 8 || b >= 12) implies font[start + b]
        == #[trigger] data[b] by {
        assert(bytes[b] == font[start + b]);
        if code == 0x6865_6164 && data.len() >= 12 {
            if b < 8 {
                assert(bytes.take(8)[b] == data.take(8)[b]);
            } else {
                assert(bytes.skip(12)[b - 12] == data.skip(12)[b - 12]);
            }
        }
    }
    k
}

/// The numbers of a table can be read from a font file, at the same place behind the table's
/// beginning; but for what overlaps the four bytes from byte 8 of a table on.
pub proof fn numbers_are_found_in_the_file(
    font: Seq<u8>,
    tables: Seq<(Tag, Seq<u8>)>,
    i: int,
    at: int,
) -> (k: int)
    requires
        is_font_of(font, tables),
        0 <= i < tables.len(),
        0 <= at <= tables[i].1.len() - 2,
        at <= 6 || at >= 12,
    ensures
        0 <= k < tables.len(),
        read32(font.skip(12 + 16 * k)) == tables[i].0.code,
        read16(font.skip(read32(font.skip(12 + 16 * k).skip(8)) + at)) == read16(
            tables[i].1.skip(at),
        ),
{
    let k = tables_are_found_in_the_file(font, tables, i);
    let start = read32(font.skip(12 + 16 * k).skip(8));
    let data = tables[i].1;
    assert(font[start + at] == data[at] && font[start + (at + 1)] == data[at + 1]);
    same_bytes_same_number(font, start + at, data, at);
    k
}

proof fn same_bytes_same_number(a: Seq<u8>, i: int, b: Seq<u8>, j: int)
    requires
        0 <= i < a.len() - 1,
        0 <= j < b.len() - 1,
        a[i] == b[j],
        a[i + 1] == b[j + 1],
    ensures
        read16(a.skip(i)) == read16(b.skip(j)),
{
}

proof fn head_says_the_units(glyphs: Seq<FontGlyph>, upm: u16, family: Seq<char>)
    requires
        table_list(glyphs, upm, family) is Some,
    ensures
        table_list(glyphs, upm, family)->0.len() == 10,
        table_list(glyphs, upm, family)->0[0].0.code == 0x6865_6164,
        table_list(glyphs, upm, family)->0[0].1.len() == 54,
        read16(table_list(glyphs, upm, family)->0[0].1.skip(18)) == upm,
{
    head_fields(head_of(glyphs, upm));
}

/// The units per em that a font was asked for can be read from its file, in the `head` table, at
/// byte 18.
#[verifier::rlimit(50)]
#[verifier::spinoff_prover]
pub proof fn font_file_says_its_units(
    font: Seq<u8>,
    glyphs: Seq<FontGlyph>,
    upm: u16,
    family: Seq<char>,
) -> (k: int)
    requires
        table_list(glyphs, upm, family) is Some,
        is_font_of(font, table_list(glyphs, upm, family)->0),
    ensures
        0 <= k < 10,
        read32(font.skip(12 + 16 * k)) == 0x6865_6164,
        read16(font.skip(read32(font.skip(12 + 16 * k).skip(8)) + 18)) == upm,
{
    head_says_the_units(glyphs, upm, family);
    numbers_are_found_in_the_file(font, table_list(glyphs, upm, family)->0, 0, 18)
}

/// What is said of a table that cannot be stored: its tag, and in quotes what the outside function
/// says.
pub proof fn failure_names_the_table(tag: Tag, inner: Seq<char>)
    ensures
        failure_text(tag.code, inner) == "failed to build '"@ + tag.text() + "' table: '"@ + inner
            + "'"@,
        tag.text().len() == 4,
        forall|i: int| 0 <= i < 4 ==> (#[trigger] tag.text()[i]) as int == tag.bytes()[i],
        read32(tag.bytes()) == tag.code,
{
    broadcast use be16_len;

    let bytes = tag.bytes();
    be32_round_trip(tag.code as int, Seq::empty());
    assert(bytes + Seq::<u8>::empty() =~= bytes);
}

/// A well-stored glyph is stored with no more contours and points than its outline has, no contour
/// empty, and each point at the position of one of the outline's, cut off at what 16 bits can hold.
pub proof fn stored_points_are_those_of_the_outline(glyph: FontGlyph, j: int)
    requires
        well_stored(glyph),
        0 <= j < joined(glyph.contents().contours).len(),
    ensures
        glyph.contents().contours.len() <= glyph.outline.contours@.len(),
        joined(glyph.contents().contours).len() <= glyph.points().len(),
        forall|k: int|
            0 <= k < glyph.contents().contours.len() ==> (
            #[trigger] glyph.contents().contours[k]).len() > 0,
        exists|i: int|
            0 <= i < glyph.points().len() && clamp16((#[trigger] glyph.points()[i]).x as int)
                == joined(glyph.contents().contours)[j].x && clamp16(glyph.points()[i].y as int)
                == joined(glyph.contents().contours)[j].y,
{
    let points = joined(glyph.contents().contours);
    let places = point_positions(glyph.points());
    let i = choose|i: int|
        0 <= i < places.len() && stands_at(points[j], #[trigger] places[i]);
    assert(places[i].0 == glyph.points()[i].x && places[i].1 == glyph.points()[i].y);
    assert(clamp16(glyph.points()[i].x as int) == points[j].x);
}

} // verus!
