//! The `glyf` and `loca` tables: the bytes of every glyph one after the other, and where each
//! glyph begins.

use vstd::prelude::*;

use crate::bytes::{be16, be16_len, be16_round_trip, be32, be32_round_trip, concat};
use crate::bytes::{concat_of_equal_parts, concat_splits, number_at, read16, read32};
use crate::extremes::{extremes_bound, highest_of, lowest_of};
use crate::path::{path_commands, positions, start_commands, started, PathCommand};

verus! {

broadcast use be16_len;

/// A bounding box.
#[derive(Clone, Copy, Debug, PartialEq, Eq, Structural)]
pub struct Bbox {
    pub x_min: i16,
    pub y_min: i16,
    pub x_max: i16,
    pub y_max: i16,
}

/// One point of a glyph as the `glyf` table stores it.
#[derive(Clone, Copy, Debug, PartialEq, Eq, Structural)]
pub struct CurvePoint {
    pub x: i16,
    pub y: i16,
    pub on_curve: bool,
    pub cubic: bool,
}

/// Which of the two forms a `loca` table has.
#[derive(Clone, Copy, Debug, PartialEq, Eq, Structural)]
pub enum LocaFormat {
    /// Halved offsets of two bytes.
    Short,
    /// Offsets of four bytes.
    Long,
}

// ---------------------------------------------------------------------------
// Glyphs
// ---------------------------------------------------------------------------

/// A glyph made of contours.
#[verifier::external_type_specification]
#[verifier::external_body]
pub struct ExSimpleGlyph(write_fonts::tables::glyf::SimpleGlyph);

/// What a glyph made of contours holds.
pub struct GlyphContents {
    pub bbox: Bbox,
    pub contours: Seq<Seq<CurvePoint>>,
    pub instructions: Seq<u8>,
    pub overlaps: bool,
}

/// What a glyph made of contours holds.
pub uninterp spec fn glyph_contents(
    glyph: write_fonts::tables::glyf::SimpleGlyph,
) -> GlyphContents;

/// The contours of the glyph that `SimpleGlyph::from_bezpath` makes of path elements, or the
/// text of the error that it returns.
pub uninterp spec fn simple_contours(
    commands: Seq<PathCommand>,
) -> Result<Seq<Seq<CurvePoint>>, Seq<char>>;

/// The bytes that `GlyfLocaBuilder::add_glyph` writes for a glyph.
pub uninterp spec fn glyph_run(contents: GlyphContents) -> Seq<u8>;

/// The 16-bit number that is closest to a number.
pub open spec fn clamp16(v: int) -> i16 {
    if v < i16::MIN {
        i16::MIN
    } else if v > i16::MAX {
        i16::MAX
    } else {
        v as i16
    }
}

/// The x coordinates of positions.
pub open spec fn position_xs(positions: Seq<(i32, i32)>) -> Seq<int> {
    positions.map_values(|p: (i32, i32)| p.0 as int)
}

/// The y coordinates of positions.
pub open spec fn position_ys(positions: Seq<(i32, i32)>) -> Seq<int> {
    positions.map_values(|p: (i32, i32)| p.1 as int)
}

/// The bounding box of positions, cut off at what 16 bits can hold. That of no position is all
/// zero.
pub open spec fn box_of_positions(positions: Seq<(i32, i32)>) -> Bbox {
    Bbox {
        x_min: clamp16(lowest_of(position_xs(positions))),
        y_min: clamp16(lowest_of(position_ys(positions))),
        x_max: clamp16(highest_of(position_xs(positions))),
        y_max: clamp16(highest_of(position_ys(positions))),
    }
}

/// Whether no contour is empty.
pub open spec fn none_empty(contours: Seq<Seq<CurvePoint>>) -> bool {
    forall|k: int| 0 <= k < contours.len() ==> (#[trigger] contours[k]).len() > 0
}

/// Whether a point stands at a position, cut off at what 16 bits can hold.
pub open spec fn stands_at(point: CurvePoint, position: (i32, i32)) -> bool {
    point.x == clamp16(position.0 as int) && point.y == clamp16(position.1 as int)
}

/// Whether each point stands at one of some positions.
pub open spec fn stand_at(points: Seq<CurvePoint>, positions: Seq<(i32, i32)>) -> bool {
    forall|j: int|
        0 <= j < points.len() ==> exists|i: int|
            0 <= i < positions.len() && stands_at(#[trigger] points[j], #[trigger] positions[i])
}

/// `SimpleGlyph::from_bezpath`: makes a glyph of a path. The bounding box is that of every
/// position that the path names, control points among them. Each element that starts a contour
/// makes one, and the contours have no more points than the path names positions: a point that
/// the others imply is left out. No contour is empty, and each of its points stands at one of the
/// positions, cut off at what 16 bits can hold. There are no instructions, and the contours are
/// not marked as overlapping. It fails on no path without cubic curves that is empty or begins by
/// starting a contour. An error comes as its debug text.
#[verifier::external_body]
pub(crate) fn from_bezpath(path: &kurbo::BezPath) -> (made: Result<
    write_fonts::tables::glyf::SimpleGlyph,
    String,
>)
    requires
        !path_commands(*path).contains(PathCommand::Other),
    ensures
        (match made {
            Ok(glyph) => {
                &&& simple_contours(path_commands(*path)) == Ok::<
                    Seq<Seq<CurvePoint>>,
                    Seq<char>,
                >(glyph_contents(glyph).contours)
                &&& glyph_contents(glyph).bbox == box_of_positions(positions(path_commands(*path)))
                &&& glyph_contents(glyph).contours.len() == start_commands(path_commands(*path))
                &&& joined(glyph_contents(glyph).contours).len() <= positions(
                    path_commands(*path),
                ).len()
                &&& none_empty(glyph_contents(glyph).contours)
                &&& stand_at(
                    joined(glyph_contents(glyph).contours),
                    positions(path_commands(*path)),
                )
                &&& glyph_contents(glyph).instructions.len() == 0
                &&& !glyph_contents(glyph).overlaps
            },
            Err(e) => simple_contours(path_commands(*path)) == Err::<
                Seq<Seq<CurvePoint>>,
                Seq<char>,
            >(e@),
        }),
        path_commands(*path).len() == 0 || started(path_commands(*path)) ==> made is Ok,
{
    write_fonts::tables::glyf::SimpleGlyph::from_bezpath(path).map_err(|e| format!("{:?}", e))
}

/// The `bbox` field of `SimpleGlyph`.
#[verifier::external_body]
pub(crate) fn bbox_of(glyph: &write_fonts::tables::glyf::SimpleGlyph) -> (bbox: Bbox)
    ensures
        bbox == glyph_contents(*glyph).bbox,
{
    let b = glyph.bbox;
    Bbox { x_min: b.x_min, y_min: b.y_min, x_max: b.x_max, y_max: b.y_max }
}

/// Contours as sequences of points.
pub open spec fn curve_points(contours: Seq<Vec<CurvePoint>>) -> Seq<Seq<CurvePoint>> {
    contours.map_values(|c: Vec<CurvePoint>| c@)
}

/// The `contours` field of `SimpleGlyph`, each contour by `Contour::iter`.
#[verifier::external_body]
pub(crate) fn contours_of(glyph: &write_fonts::tables::glyf::SimpleGlyph) -> (contours: Vec<
    Vec<CurvePoint>,
>)
    ensures
        curve_points(contours@) == glyph_contents(*glyph).contours,
{
    let contours = glyph.contours.iter();
    contours.map(
        |c| c.iter().map(
            |p| CurvePoint { x: p.x, y: p.y, on_curve: p.on_curve, cubic: p.cubic },
        ).collect(),
    ).collect()
}

// ---------------------------------------------------------------------------
// Which glyphs the table can hold
// ---------------------------------------------------------------------------

/// All points of contours, one after the other.
pub open spec fn joined(contours: Seq<Seq<CurvePoint>>) -> Seq<CurvePoint>
    decreases contours.len(),
{
    if contours.len() == 0 {
        Seq::empty()
    } else {
        joined(contours.drop_last()) + contours.last()
    }
}

/// Whether a number fits 16 bits with a sign.
pub open spec fn fits16(v: int) -> bool {
    i16::MIN <= v <= i16::MAX
}

/// Whether each point's distance from the one before it, in x and in y, fits 16 bits.
pub open spec fn steps_fit(points: Seq<CurvePoint>) -> bool {
    forall|i: int|
        1 <= i < points.len() ==> fits16((#[trigger] points[i]).x - points[i - 1].x) && fits16(
            points[i].y - points[i - 1].y,
        )
}

/// Whether the last point of each contour has a number: the points up to there are not a
/// multiple of 2^16.
pub open spec fn ends_fit(contours: Seq<Seq<CurvePoint>>) -> bool {
    forall|k: int|
        1 <= k <= contours.len() ==> joined(#[trigger] contours.take(k)).len() % 0x1_0000 != 0
}

/// Whether the `glyf` table can hold contours.
pub open spec fn encodable(contours: Seq<Seq<CurvePoint>>) -> bool {
    &&& contours.len() < i16::MAX
    &&& ends_fit(contours)
    &&& steps_fit(joined(contours))
}

fn do_ends_fit(contours: &[Vec<CurvePoint>]) -> (fit: bool)
    ensures
        fit == ends_fit(curve_points(contours@)),
{
    let ghost all = curve_points(contours@);
    let mut count: u32 = 0;
    let mut k: usize = 0;
    assert(all.take(0) =~= Seq::empty());
    while k < contours.len()
        invariant
            k <= contours.len(),
            all == curve_points(contours@),
            count == joined(all.take(k as int)).len() % 0x1_0000,
            forall|j: int|
                1 <= j <= k ==> joined(#[trigger] all.take(j)).len() % 0x1_0000 != 0,
        decreases contours.len() - k,
    {
        assert(all.take(k + 1).drop_last() =~= all.take(k as int));
        assert(all.take(k + 1).last() == contours@[k as int]@);
        count = (count + (contours[k].len() % 0x1_0000) as u32) % 0x1_0000;
        if count == 0 {
            assert(joined(all.take(k + 1)).len() % 0x1_0000 == 0);
            return false;
        }
        k += 1;
    }
    true
}

/// Puts the points of contours one after the other.
pub fn join(contours: &[Vec<CurvePoint>]) -> (points: Vec<CurvePoint>)
    ensures
        points@ == joined(curve_points(contours@)),
{
    let ghost all = curve_points(contours@);
    let mut points: Vec<CurvePoint> = Vec::new();
    let mut k: usize = 0;
    assert(all.take(0) =~= Seq::empty());
    while k < contours.len()
        invariant
            k <= contours.len(),
            all == curve_points(contours@),
            points@ == joined(all.take(k as int)),
        decreases contours.len() - k,
    {
        assert(all.take(k + 1).drop_last() =~= all.take(k as int));
        assert(all.take(k + 1).last() == contours@[k as int]@);
        let ghost before = points@;
        points.extend_from_slice(contours[k].as_slice());
        assert(points@ =~= before + contours@[k as int]@);
        k += 1;
    }
    assert(all.take(k as int) =~= all);
    points
}

fn step_fits(from: i16, to: i16) -> (fits: bool)
    ensures
        fits == fits16(to - from),
{
    let step: i32 = to as i32 - from as i32;
    i16::MIN as i32 <= step && step <= i16::MAX as i32
}

fn do_steps_fit(points: &[CurvePoint]) -> (fit: bool)
    ensures
        fit == steps_fit(points@),
{
    let mut i: usize = 1;
    while i < points.len()
        invariant
            1 <= i,
            forall|j: int|
                1 <= j < i && j < points@.len() ==> fits16(
                    (#[trigger] points@[j]).x - points@[j - 1].x,
                ) && fits16(points@[j].y - points@[j - 1].y),
        decreases points.len() - i,
    {
        let from: CurvePoint = points[i - 1];
        let to: CurvePoint = points[i];
        if !step_fits(from.x, to.x) || !step_fits(from.y, to.y) {
            assert(points@[i as int] == to);
            return false;
        }
        i += 1;
    }
    true
}

/// Whether the `glyf` table can hold contours.
pub fn is_encodable(contours: &[Vec<CurvePoint>]) -> (fit: bool)
    ensures
        fit == encodable(curve_points(contours@)),
{
    contours.len() < i16::MAX as usize && do_ends_fit(contours) && do_steps_fit(
        join(contours).as_slice(),
    )
}

// ---------------------------------------------------------------------------
// Building the tables
// ---------------------------------------------------------------------------

/// A builder of the two tables.
#[verifier::external_type_specification]
#[verifier::external_body]
pub struct ExGlyfLocaBuilder(write_fonts::tables::glyf::GlyfLocaBuilder);

/// A `glyf` table.
#[verifier::external_type_specification]
#[verifier::external_body]
pub struct ExGlyf(write_fonts::tables::glyf::Glyf);

/// A `loca` table.
#[verifier::external_type_specification]
#[verifier::external_body]
pub struct ExLoca(write_fonts::tables::loca::Loca);

/// The bytes of each glyph that a builder holds.
pub uninterp spec fn builder_runs(
    builder: write_fonts::tables::glyf::GlyfLocaBuilder,
) -> Seq<Seq<u8>>;

/// The bytes that a `glyf` table holds.
pub uninterp spec fn glyf_bytes(glyf: write_fonts::tables::glyf::Glyf) -> Seq<u8>;

/// The offsets that a `loca` table holds.
pub uninterp spec fn loca_offsets(loca: write_fonts::tables::loca::Loca) -> Seq<u32>;

/// Whether each run has an even number of bytes.
pub open spec fn even_runs(runs: Seq<Seq<u8>>) -> bool {
    forall|i: int| 0 <= i < runs.len() ==> (#[trigger] runs[i]).len() % 2 == 0
}

/// What the bytes of a glyph with contours begin with: the number of contours and the bounding
/// box.
pub open spec fn glyph_header(contents: GlyphContents) -> Seq<u8> {
    be16(contents.contours.len() as int) + be16(contents.bbox.x_min as int) + be16(
        contents.bbox.y_min as int,
    ) + be16(contents.bbox.x_max as int) + be16(contents.bbox.y_max as int)
}

/// Where each run begins, and where the last one ends, as 32-bit numbers.
pub open spec fn run_offsets(runs: Seq<Seq<u8>>) -> Seq<u32> {
    Seq::new(
        (runs.len() + 1) as nat,
        |i: int| (concat(runs.take(i)).len() % 0x1_0000_0000) as u32,
    )
}

/// The form of a `loca` table: short where halved offsets fit two bytes and lose nothing.
pub open spec fn format_of(offsets: Seq<u32>) -> LocaFormat {
    if (offsets.len() > 0 ==> offsets.last() < 0x2_0000) && (forall|i: int|
        0 <= i < offsets.len() ==> (#[trigger] offsets[i]) % 2 == 0) {
        LocaFormat::Short
    } else {
        LocaFormat::Long
    }
}

/// The bytes of a `loca` table.
pub open spec fn loca_bytes(offsets: Seq<u32>) -> Seq<u8> {
    concat(
        offsets.map_values(
            |offset: u32|
                if format_of(offsets) is Short {
                    be16(offset as int / 2)
                } else {
                    be32(offset as int)
                },
        ),
    )
}

/// A number of bytes that the bytes of a glyph never exceed: a header, two bytes for each
/// contour and five for each point, the instructions and their length, and one of padding.
pub open spec fn run_bound(contents: GlyphContents) -> nat {
    13 + 2 * contents.contours.len() + contents.instructions.len() + 5 * joined(
        contents.contours,
    ).len()
}

/// `GlyfLocaBuilder::new`: a builder without glyphs.
pub assume_specification[ write_fonts::tables::glyf::GlyfLocaBuilder::new ]() -> (builder:
    write_fonts::tables::glyf::GlyfLocaBuilder)
    ensures
        builder_runs(builder) == Seq::<Seq<u8>>::empty(),
;

/// `GlyfLocaBuilder::add_glyph` on `Glyph::Empty`: appends a glyph without bytes.
#[verifier::external_body]
pub(crate) fn add_empty_glyph(builder: &mut write_fonts::tables::glyf::GlyfLocaBuilder) -> (added:
    Result<(), String>)
    requires
        even_runs(builder_runs(*old(builder))),
    ensures
        added is Ok,
        builder_runs(*final(builder)) == builder_runs(*old(builder)).push(Seq::empty()),
        even_runs(builder_runs(*final(builder))),
{
    let added = builder.add_glyph(&write_fonts::tables::glyf::Glyph::Empty);
    added.map(|_| ()).map_err(|e| e.to_string())
}

/// `GlyfLocaBuilder::add_glyph` on a glyph made of contours: appends the bytes of the glyph. One
/// without contours has none; any other begins with the number of its contours and its bounding
/// box. Bytes are padded to an even number, and are no more than a header, two for each contour
/// and five for each point, the instructions and their length, and the padding take up. Contours
/// that the table cannot hold, and instructions that do not fit, are refused with a panic.
#[verifier::external_body]
pub(crate) fn add_glyph(
    builder: &mut write_fonts::tables::glyf::GlyfLocaBuilder,
    glyph: &write_fonts::tables::glyf::SimpleGlyph,
) -> (added: Result<(), String>)
    requires
        even_runs(builder_runs(*old(builder))),
        encodable(glyph_contents(*glyph).contours),
        glyph_contents(*glyph).instructions.len() < u16::MAX,
    ensures
        added is Ok,
        builder_runs(*final(builder)) == builder_runs(*old(builder)).push(
            glyph_run(glyph_contents(*glyph)),
        ),
        even_runs(builder_runs(*final(builder))),
        builder_runs(*final(builder)).last().len() <= run_bound(glyph_contents(*glyph)),
        if glyph_contents(*glyph).contours.len() == 0 {
            builder_runs(*final(builder)).last().len() == 0
        } else {
            glyph_header(glyph_contents(*glyph)).is_prefix_of(builder_runs(*final(builder)).last())
        },
{
    builder.add_glyph(glyph).map(|_| ()).map_err(|e| e.to_string())
}

/// `GlyfLocaBuilder::build`: the two tables, and the form of the second one.
#[verifier::external_body]
pub(crate) fn build_glyphs(builder: write_fonts::tables::glyf::GlyfLocaBuilder) -> (built: (
    write_fonts::tables::glyf::Glyf,
    write_fonts::tables::loca::Loca,
    LocaFormat,
))
    ensures
        glyf_bytes(built.0) == concat(builder_runs(builder)),
        loca_offsets(built.1) == run_offsets(builder_runs(builder)),
        built.2 == format_of(run_offsets(builder_runs(builder))),
{
    let (glyf, loca, format) = builder.build();
    match format {
        write_fonts::tables::loca::LocaFormat::Short => (glyf, loca, LocaFormat::Short),
        write_fonts::tables::loca::LocaFormat::Long => (glyf, loca, LocaFormat::Long),
    }
}

/// `write_fonts::dump_table` on a `glyf` table: its bytes as they are. A table of 2^32 bytes or
/// more is refused with a panic.
#[verifier::external_body]
pub(crate) fn dump_glyf(glyf: &write_fonts::tables::glyf::Glyf) -> (dumped: Result<
    Vec<u8>,
    String,
>)
    requires
        glyf_bytes(*glyf).len() <= u32::MAX,
    ensures
        dumped is Ok,
        dumped->Ok_0@ == glyf_bytes(*glyf),
{
    write_fonts::dump_table(glyf).map_err(|e| e.to_string())
}

/// `write_fonts::dump_table` on a `loca` table: its offsets, in the form that they ask for. A
/// table of 2^32 bytes or more is refused with a panic.
#[verifier::external_body]
pub(crate) fn dump_loca(loca: &write_fonts::tables::loca::Loca) -> (dumped: Result<
    Vec<u8>,
    String,
>)
    requires
        4 * loca_offsets(*loca).len() <= u32::MAX,
    ensures
        dumped is Ok,
        dumped->Ok_0@ == loca_bytes(loca_offsets(*loca)),
{
    write_fonts::dump_table(loca).map_err(|e| e.to_string())
}

/// How many bytes the `glyf` table takes up for a glyph, or `None` where that might be 2^32 or
/// more: where there are more than some 800 million points.
pub(crate) fn run_length(
    glyph: &write_fonts::tables::glyf::SimpleGlyph,
    contours: &[Vec<CurvePoint>],
) -> (length: Option<u32>)
    requires
        curve_points(contours@) == glyph_contents(*glyph).contours,
        encodable(glyph_contents(*glyph).contours),
        glyph_contents(*glyph).instructions.len() == 0,
    ensures
        length is Some <==> run_bound(glyph_contents(*glyph)) <= u32::MAX,
        length matches Some(len) ==> len == glyph_run(glyph_contents(*glyph)).len() && len
            <= run_bound(glyph_contents(*glyph)),
{
    let points: usize = join(contours).len();
    if points as u64 > u32::MAX as u64 || 13 + 2 * contours.len() as u64 + 5 * points as u64
        > u32::MAX as u64 {
        return None;
    }
    let mut builder = write_fonts::tables::glyf::GlyfLocaBuilder::new();
    let ghost run = glyph_run(glyph_contents(*glyph));
    match add_glyph(&mut builder, glyph) {
        Ok(_) => {},
        Err(_) => {
            return None;
        },
    }
    proof {
        let runs = builder_runs(builder);
        assert(runs =~= seq![run]);
        assert(runs.drop_last() =~= Seq::empty());
        assert(concat(runs.drop_last()) =~= Seq::empty());
        assert(concat(runs) =~= run);
    }
    let (glyf, _, _) = build_glyphs(builder);
    match dump_glyf(&glyf) {
        Ok(bytes) => Some(bytes.len() as u32),
        Err(_) => None,
    }
}

// ---------------------------------------------------------------------------
// What the two tables promise
// ---------------------------------------------------------------------------

/// In a `glyf` table of less than 2^32 bytes, the bytes of each glyph are those between its
/// offset and the next one.
pub proof fn loca_delimits_glyphs(runs: Seq<Seq<u8>>, i: int)
    requires
        0 <= i < runs.len(),
        concat(runs).len() <= u32::MAX,
    ensures
        run_offsets(runs)[i] <= run_offsets(runs)[i + 1] <= concat(runs).len(),
        concat(runs).subrange(run_offsets(runs)[i] as int, run_offsets(runs)[i + 1] as int)
            == runs[i],
{
    concat_splits(runs, i);
}

/// The offsets of a `glyf` table of less than 2^32 bytes say how many bytes stand before each
/// glyph, and the last one says how many there are.
pub proof fn offsets_ascend(runs: Seq<Seq<u8>>, i: int)
    requires
        0 <= i <= runs.len(),
        concat(runs).len() <= u32::MAX,
    ensures
        run_offsets(runs)[i] == concat(runs.take(i)).len(),
        run_offsets(runs)[i] <= run_offsets(runs).last(),
        run_offsets(runs).last() == concat(runs).len(),
    decreases runs.len() - i,
{
    assert(runs.take(runs.len() as int) =~= runs);
    if i < runs.len() {
        concat_splits(runs, i);
        offsets_ascend(runs, i + 1);
    }
}

/// Each offset of a `glyf` table of less than 2^32 bytes can be read back from the `loca` table:
/// from two bytes, halved, in the short form, and from four bytes in the long one.
pub proof fn loca_reads_back(runs: Seq<Seq<u8>>, i: int)
    requires
        0 <= i <= runs.len(),
        concat(runs).len() <= u32::MAX,
    ensures
        (match format_of(run_offsets(runs)) {
            LocaFormat::Short => {
                &&& loca_bytes(run_offsets(runs)).len() == 2 * (runs.len() + 1)
                &&& 2 * read16(loca_bytes(run_offsets(runs)).skip(2 * i)) == run_offsets(runs)[i]
            },
            LocaFormat::Long => {
                &&& loca_bytes(run_offsets(runs)).len() == 4 * (runs.len() + 1)
                &&& read32(loca_bytes(run_offsets(runs)).skip(4 * i)) == run_offsets(runs)[i]
            },
        }),
{
    let offsets = run_offsets(runs);
    let short = format_of(offsets) is Short;
    let parts = offsets.map_values(
        |offset: u32|
            if format_of(offsets) is Short {
                be16(offset as int / 2)
            } else {
                be32(offset as int)
            },
    );
    let size: nat = if short {
        2
    } else {
        4
    };
    assert forall|k: int| 0 <= k < parts.len() implies (#[trigger] parts[k]).len() == size by {}
    concat_of_equal_parts(parts, size, i);
    let rest = concat(parts.skip(i + 1));
    offsets_ascend(runs, i);
    if short {
        be16_round_trip(offsets[i] as int / 2, rest);
        assert(offsets[i] % 2 == 0);
    } else {
        be32_round_trip(offsets[i] as int, rest);
    }
}

proof fn joined_grows(contours: Seq<Seq<CurvePoint>>, k: int)
    requires
        none_empty(contours),
        0 <= k <= contours.len(),
    ensures
        k <= joined(contours.take(k)).len() <= joined(contours).len(),
    decreases contours.len(),
{
    if contours.len() > 0 {
        let rest = contours.drop_last();
        assert(contours[contours.len() - 1].len() > 0);
        assert forall|i: int| 0 <= i < rest.len() implies (#[trigger] rest[i]).len() > 0 by {
            assert(rest[i] == contours[i]);
        }
        if k == contours.len() {
            assert(contours.take(k) =~= contours);
            joined_grows(rest, k - 1);
            assert(rest.take(k - 1) =~= rest);
        } else {
            joined_grows(rest, k);
            assert(rest.take(k) =~= contours.take(k));
        }
    }
}

/// The `glyf` table can hold contours that are not too many, none empty, without more points than
/// 16 bits can count, at positions whose bounding box is no wider or taller than 16 bits can say.
pub proof fn small_contours_are_encodable(
    contours: Seq<Seq<CurvePoint>>,
    positions: Seq<(i32, i32)>,
)
    requires
        contours.len() < i16::MAX,
        none_empty(contours),
        joined(contours).len() <= u16::MAX,
        stand_at(joined(contours), positions),
        fits16(box_of_positions(positions).x_max - box_of_positions(positions).x_min),
        fits16(box_of_positions(positions).y_max - box_of_positions(positions).y_min),
    ensures
        encodable(contours),
{
    let points = joined(contours);
    assert forall|k: int| 1 <= k <= contours.len() implies joined(
        #[trigger] contours.take(k),
    ).len() % 0x1_0000 != 0 by {
        joined_grows(contours, k);
    }
    assert forall|j: int| 0 <= j < points.len() implies box_of_positions(positions).x_min <= (
    #[trigger] points[j]).x <= box_of_positions(positions).x_max && box_of_positions(
        positions,
    ).y_min <= points[j].y <= box_of_positions(positions).y_max by {
        let i = choose|i: int|
            0 <= i < positions.len() && stands_at(points[j], #[trigger] positions[i]);
        box_encloses(positions, i);
    }
}

/// The bounding box of positions holds each of them, cut off at what 16 bits can hold.
pub proof fn box_encloses(positions: Seq<(i32, i32)>, k: int)
    requires
        0 <= k < positions.len(),
    ensures
        box_of_positions(positions).x_min <= clamp16(positions[k].0 as int) <= box_of_positions(
            positions,
        ).x_max,
        box_of_positions(positions).y_min <= clamp16(positions[k].1 as int) <= box_of_positions(
            positions,
        ).y_max,
{
    let (xs, ys) = (position_xs(positions), position_ys(positions));
    extremes_bound(xs);
    extremes_bound(ys);
    assert(xs[k] == positions[k].0);
    assert(ys[k] == positions[k].1);
}

/// The 16-bit number that stands for a number is the number itself where it fits, and otherwise the
/// end of the range that is closer to it.
pub proof fn cut_off_numbers(v: int)
    ensures
        -32768 <= v <= 32767 ==> clamp16(v) == v,
        v < -32768 ==> clamp16(v) == -32768,
        v > 32767 ==> clamp16(v) == 32767,
{
}

/// The bounding box of positions is tight: each of its sides lies at one of the positions, cut off
/// at what 16 bits can hold. That of no position is all zero.
pub proof fn box_is_tight(positions: Seq<(i32, i32)>)
    ensures
        positions.len() == 0 ==> box_of_positions(positions) == (Bbox {
            x_min: 0,
            y_min: 0,
            x_max: 0,
            y_max: 0,
        }),
        positions.len() > 0 ==> {
            &&& exists|k: int|
                0 <= k < positions.len() && clamp16((#[trigger] positions[k]).0 as int)
                    == box_of_positions(positions).x_min
            &&& exists|k: int|
                0 <= k < positions.len() && clamp16((#[trigger] positions[k]).1 as int)
                    == box_of_positions(positions).y_min
            &&& exists|k: int|
                0 <= k < positions.len() && clamp16((#[trigger] positions[k]).0 as int)
                    == box_of_positions(positions).x_max
            &&& exists|k: int|
                0 <= k < positions.len() && clamp16((#[trigger] positions[k]).1 as int)
                    == box_of_positions(positions).y_max
        },
{
    let (xs, ys) = (position_xs(positions), position_ys(positions));
    if positions.len() > 0 {
        extremes_bound(xs);
        extremes_bound(ys);
        let a = choose|k: int| 0 <= k < xs.len() && xs[k] == lowest_of(xs);
        let b = choose|k: int| 0 <= k < ys.len() && ys[k] == lowest_of(ys);
        let c = choose|k: int| 0 <= k < xs.len() && xs[k] == highest_of(xs);
        let d = choose|k: int| 0 <= k < ys.len() && ys[k] == highest_of(ys);
        assert(xs[a] == positions[a].0 as int);
        assert(ys[b] == positions[b].1 as int);
        assert(xs[c] == positions[c].0 as int);
        assert(ys[d] == positions[d].1 as int);
    }
}

/// Whether the bytes of a glyph begin as the format asks: with the number of its contours and its
/// bounding box. A glyph without contours has none.
pub open spec fn begins_with_its_box(contents: GlyphContents) -> bool {
    if contents.contours.len() == 0 {
        glyph_run(contents).len() == 0
    } else {
        glyph_header(contents).is_prefix_of(glyph_run(contents))
    }
}

/// The first ten bytes of a glyph with contours, read back.
pub proof fn glyph_bytes_begin_with_its_box(contents: GlyphContents)
    requires
        begins_with_its_box(contents),
        0 < contents.contours.len() < 0x8000,
    ensures
        ({
            let run = glyph_run(contents);
            &&& run.len() >= 10
            &&& read16(run) == contents.contours.len()
            &&& read16(run.skip(2)) == contents.bbox.x_min as int % 0x1_0000
            &&& read16(run.skip(4)) == contents.bbox.y_min as int % 0x1_0000
            &&& read16(run.skip(6)) == contents.bbox.x_max as int % 0x1_0000
            &&& read16(run.skip(8)) == contents.bbox.y_max as int % 0x1_0000
        }),
{
    let run = glyph_run(contents);
    let header = glyph_header(contents);
    assert(header.len() == 10);
    assert forall|i: int| 0 <= i < 10 implies #[trigger] run[i] == header[i] by {
        assert(run.subrange(0, 10)[i] == run[i]);
    }
    number_at(run, 0, contents.contours.len() as int);
    number_at(run, 2, contents.bbox.x_min as int);
    number_at(run, 4, contents.bbox.y_min as int);
    number_at(run, 6, contents.bbox.x_max as int);
    number_at(run, 8, contents.bbox.y_max as int);
    assert(run.skip(0) =~= run);
}

/// The points of contours are joined in order.
pub proof fn points_are_joined_in_order(
    a: Seq<Seq<CurvePoint>>,
    b: Seq<Seq<CurvePoint>>,
    contour: Seq<CurvePoint>,
)
    ensures
        joined(Seq::empty()).len() == 0,
        joined(seq![contour]) == contour,
        joined(a + b) == joined(a) + joined(b),
    decreases b.len(),
{
    let none = seq![contour].drop_last();
    assert(none =~= Seq::<Seq<CurvePoint>>::empty());
    assert(joined(none) =~= Seq::<CurvePoint>::empty());
    assert(joined(seq![contour]) =~= contour);
    if b.len() == 0 {
        assert(a + b =~= a);
        assert(joined(a) + joined(b) =~= joined(a));
    } else {
        points_are_joined_in_order(a, b.drop_last(), contour);
        assert((a + b).drop_last() =~= a + b.drop_last());
        assert(joined(a + b) =~= joined(a) + joined(b));
    }
}

/// The `glyf` table can hold contours exactly where they are fewer than 32767, where no point lies
/// further than 16 bits can say from the one before it, in x or in y, and where the points up to
/// the end of a contour are nowhere a multiple of 65536.
pub proof fn when_contours_are_encodable(contours: Seq<Seq<CurvePoint>>)
    ensures
        encodable(contours) <==> {
            &&& contours.len() < 32767
            &&& forall|i: int|
                1 <= i < joined(contours).len() ==> {
                    &&& -32768 <= (#[trigger] joined(contours)[i]).x - joined(contours)[i - 1].x
                        <= 32767
                    &&& -32768 <= joined(contours)[i].y - joined(contours)[i - 1].y <= 32767
                }
            &&& forall|k: int|
                1 <= k <= contours.len() ==> joined(#[trigger] contours.take(k)).len() % 65536 != 0
        },
{
}

/// The form of a `loca` table is short exactly where its last offset is below 131072 and all of
/// them are even.
pub proof fn when_offsets_are_halved(offsets: Seq<u32>)
    requires
        offsets.len() > 0,
    ensures
        format_of(offsets) is Short <==> offsets[offsets.len() - 1] < 131072 && forall|i: int|
            0 <= i < offsets.len() ==> (#[trigger] offsets[i]) as int % 2 == 0,
{
    assert(offsets.last() == offsets[offsets.len() - 1]);
    if forall|i: int| 0 <= i < offsets.len() ==> (#[trigger] offsets[i]) as int % 2 == 0 {
        assert forall|i: int| 0 <= i < offsets.len() implies (#[trigger] offsets[i]) % 2 == 0 by {
            assert(offsets[i] as int % 2 == 0);
        }
    }
}

} // verus!
