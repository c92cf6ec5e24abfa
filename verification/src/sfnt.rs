//! Assembling tables into a font file.

use vstd::prelude::*;

use crate::bytes::{read16, read32};
use crate::tag::{Tag, HEAD};
use crate::woff2::{sfnt_size, table_contents};

verus! {

/// A builder of a font file.
#[verifier::external_type_specification]
#[verifier::external_body]
pub struct ExFontBuilder<'a>(write_fonts::FontBuilder<'a>);

/// The bytes of each table that a builder holds, by the table's tag.
pub uninterp spec fn builder_tables(builder: write_fonts::FontBuilder<'_>) -> Map<u32, Seq<u8>>;

/// The checksums that a builder was given along with tables, by the table's tag.
pub uninterp spec fn builder_checksums(builder: write_fonts::FontBuilder<'_>) -> Map<u32, u32>;

/// The font file that `FontBuilder::build` makes of tables.
pub uninterp spec fn font_file(tables: Map<u32, Seq<u8>>) -> Seq<u8>;

/// Tables by their tags.
pub open spec fn by_tag(tables: Seq<(Tag, Seq<u8>)>) -> Map<u32, Seq<u8>>
    decreases tables.len(),
{
    if tables.len() == 0 {
        Map::empty()
    } else {
        by_tag(tables.drop_last()).insert(tables.last().0.code, tables.last().1)
    }
}

/// Whether no two tables have the same tag.
pub open spec fn distinct_tags(tables: Seq<(Tag, Seq<u8>)>) -> bool {
    forall|i: int, j: int|
        0 <= i < j < tables.len() ==> (#[trigger] tables[i]).0 != (#[trigger] tables[j]).0
}

/// Whether tables are those of a map, each listed once.
pub open spec fn lists(tables: Seq<(Tag, Seq<u8>)>, map: Map<u32, Seq<u8>>) -> bool {
    distinct_tags(tables) && by_tag(tables) == map
}

/// Whether bytes are those of a table. Of a `head` table of 12 bytes or more, the four that hold
/// the checksum of the whole file may differ.
pub open spec fn same_table(code: u32, bytes: Seq<u8>, data: Seq<u8>) -> bool {
    if code == HEAD && data.len() >= 12 {
        bytes.len() == data.len() && bytes.take(8) == data.take(8) && bytes.skip(12) == data.skip(
            12,
        )
    } else {
        bytes == data
    }
}

/// The sum of the big-endian 32-bit numbers that bytes stand for, with zeros behind them up to a
/// multiple of four.
pub open spec fn word_sum(bytes: Seq<u8>) -> int
    decreases bytes.len(),
{
    if bytes.len() == 0 {
        0
    } else if bytes.len() < 4 {
        read32(bytes + seq![0u8, 0u8, 0u8])
    } else {
        read32(bytes) + word_sum(bytes.skip(4))
    }
}

/// The checksum of bytes: the sum of the 32-bit numbers, modulo 2^32.
pub open spec fn checksum(bytes: Seq<u8>) -> int {
    word_sum(bytes) % 0x1_0000_0000
}

/// The bytes of a table that its checksum is computed from: all of them, but with zeros in a
/// `head` table of 12 bytes or more where the checksum of the whole file will stand.
pub open spec fn summed_bytes(code: u32, data: Seq<u8>) -> Seq<u8> {
    if code == HEAD && data.len() >= 12 {
        data.take(8) + seq![0u8, 0u8, 0u8, 0u8] + data.skip(12)
    } else {
        data
    }
}

/// The checksum of every font file that has a `head` table: the number in that table is chosen so
/// that it comes out.
pub const FONT_CHECKSUM: u32 = 0xb1b0_afba;

/// Whether entry `k` of a font file's directory is that of a table, and the table's bytes stand
/// where the entry says: the entry holds the tag, the checksum, an offset, which is a multiple of
/// four, and the length.
pub open spec fn entry_holds(font: Seq<u8>, k: int, code: u32, data: Seq<u8>) -> bool {
    let entry = font.skip(12 + 16 * k);
    let (offset, len) = (read32(entry.skip(8)), read32(entry.skip(12)));
    &&& read32(entry) == code
    &&& read32(entry.skip(4)) == checksum(summed_bytes(code, data))
    &&& len == data.len()
    &&& offset % 4 == 0
    &&& 12 + 16 * read16(font.skip(4)) <= offset
    &&& offset + len <= font.len()
    &&& same_table(code, font.subrange(offset, offset + len), data)
}

/// Whether a font file has a table.
pub open spec fn holds_table(font: Seq<u8>, code: u32, data: Seq<u8>) -> bool {
    exists|k: int| 0 <= k < read16(font.skip(4)) && #[trigger] entry_holds(font, k, code, data)
}

/// Whether the entries of a font file's directory stand in the order of their tags.
pub open spec fn entries_ascend(font: Seq<u8>) -> bool {
    forall|j: int, k: int|
        0 <= j < k < read16(font.skip(4)) ==> #[trigger] read32(font.skip(12 + 16 * j))
            < #[trigger] read32(font.skip(12 + 16 * k))
}

/// The tags of the tables that mark a font as one without TrueType outlines.
pub const CFF: u32 = 0x4346_4620;

pub const CFF2: u32 = 0x4346_4632;

/// `FontBuilder::new`: a builder without tables.
#[verifier::external_body]
pub(crate) fn new_builder<'a>() -> (builder: write_fonts::FontBuilder<'a>)
    ensures
        builder_tables(builder) == (Map::<u32, Seq<u8>>::empty()),
        builder_checksums(builder) == (Map::<u32, u32>::empty()),
{
    write_fonts::FontBuilder::new()
}

/// `FontBuilder::add_raw`: adds the bytes of a table, in place of any that has the same tag.
#[verifier::external_body]
pub(crate) fn add_raw(builder: &mut write_fonts::FontBuilder<'_>, tag: Tag, data: Vec<u8>)
    ensures
        builder_tables(*final(builder)) == builder_tables(*old(builder)).insert(tag.code, data@),
        builder_checksums(*final(builder)) == builder_checksums(*old(builder)).remove(tag.code),
{
    builder.add_raw(write_fonts::types::Tag::from_u32(tag.code), data);
}

/// `FontBuilder::build`: a font file made of the tables, which leave the builder. The file has a
/// header of 12 bytes, a directory with an entry of 16 bytes for each table, and the tables, each
/// padded to a multiple of four bytes. The header starts with the TrueType version, unless there
/// is a table of other outlines, and the number of tables. Every table can be found through the
/// directory, whose entries stand in the order of their tags and hold the tables' checksums. Of a
/// `head` table, the four bytes that hold the checksum of the file are written anew, so that the
/// file has the checksum that the format asks for. A file whose length 32 bits cannot hold, and
/// more tables than its header can count, are refused with a panic.
#[verifier::external_body]
pub(crate) fn build_sfnt(builder: &mut write_fonts::FontBuilder<'_>) -> (font: Vec<u8>)
    requires
        builder_checksums(*old(builder)) == (Map::<u32, u32>::empty()),
        exists|tables: Seq<(Tag, Seq<u8>)>| #[trigger]
            lists(tables, builder_tables(*old(builder))) && tables.len() < 0x1000 && sfnt_size(
                tables,
            ) <= u32::MAX,
    ensures
        font@ == font_file(builder_tables(*old(builder))),
        forall|tables: Seq<(Tag, Seq<u8>)>| #[trigger]
            lists(tables, builder_tables(*old(builder))) ==> font@.len() == sfnt_size(tables)
                && read16(font@.skip(4)) == tables.len(),
        !builder_tables(*old(builder)).contains_key(CFF) && !builder_tables(
            *old(builder),
        ).contains_key(CFF2) ==> read32(font@) == 0x1_0000,
        forall|code: u32| #[trigger]
            builder_tables(*old(builder)).contains_key(code) ==> holds_table(
                font@,
                code,
                builder_tables(*old(builder))[code],
            ),
        entries_ascend(font@),
        builder_tables(*old(builder)).contains_key(HEAD) && builder_tables(
            *old(builder),
        )[HEAD].len() >= 12 ==> checksum(font@) == FONT_CHECKSUM,
        builder_tables(*final(builder)) == (Map::<u32, Seq<u8>>::empty()),
        builder_checksums(*final(builder)) == (Map::<u32, u32>::empty()),
{
    builder.build()
}

/// Whether bytes are the TrueType font file made of tables: as long as the tables ask for, with
/// the TrueType version and the number of tables in front, with every table in it, with the
/// directory in the order of the tags, and with the checksum that the format asks for.
pub open spec fn is_font_of(font: Seq<u8>, tables: Seq<(Tag, Seq<u8>)>) -> bool {
    &&& font == font_file(by_tag(tables))
    &&& font.len() == sfnt_size(tables)
    &&& read32(font) == 0x1_0000
    &&& read16(font.skip(4)) == tables.len()
    &&& forall|i: int|
        0 <= i < tables.len() ==> holds_table(font, (#[trigger] tables[i]).0.code, tables[i].1)
    &&& entries_ascend(font)
    &&& forall|i: int|
        0 <= i < tables.len() && (#[trigger] tables[i]).0.code == HEAD && tables[i].1.len() >= 12
            ==> checksum(font) == FONT_CHECKSUM
}

proof fn by_tag_lookup(tables: Seq<(Tag, Seq<u8>)>)
    requires
        distinct_tags(tables),
    ensures
        forall|i: int|
            0 <= i < tables.len() ==> by_tag(tables).contains_key((#[trigger] tables[i]).0.code)
                && by_tag(tables)[tables[i].0.code] == tables[i].1,
        forall|code: u32| #[trigger]
            by_tag(tables).contains_key(code) ==> exists|i: int|
                0 <= i < tables.len() && (#[trigger] tables[i]).0.code == code,
    decreases tables.len(),
{
    if tables.len() > 0 {
        let rest = tables.drop_last();
        let last = tables.len() - 1;
        assert forall|i: int, j: int| 0 <= i < j < rest.len() implies (#[trigger] rest[i]).0 != (
        #[trigger] rest[j]).0 by {
            assert(rest[i] == tables[i] && rest[j] == tables[j]);
        }
        by_tag_lookup(rest);
        assert forall|i: int| 0 <= i < tables.len() implies by_tag(tables).contains_key(
            (#[trigger] tables[i]).0.code,
        ) && by_tag(tables)[tables[i].0.code] == tables[i].1 by {
            if i < last {
                assert(rest[i] == tables[i]);
                assert(tables[i].0 != tables[last].0);
            }
        }
        assert forall|code: u32| #[trigger] by_tag(tables).contains_key(code) implies exists|i: int|
            0 <= i < tables.len() && (#[trigger] tables[i]).0.code == code by {
            if code == tables[last].0.code {
            } else {
                assert(by_tag(rest).contains_key(code));
                let i = choose|i: int| 0 <= i < rest.len() && (#[trigger] rest[i]).0.code == code;
                assert(tables[i].0.code == code);
            }
        }
    }
}

/// Assembles tables into a TrueType font file.
pub fn assemble_sfnt(tables: &[(Tag, Vec<u8>)]) -> (font: Vec<u8>)
    requires
        distinct_tags(table_contents(tables@)),
        forall|i: int|
            0 <= i < tables@.len() ==> (#[trigger] tables@[i]).0.code != CFF
                && tables@[i].0.code != CFF2,
        tables@.len() < 0x1000,
        sfnt_size(table_contents(tables@)) <= u32::MAX,
    ensures
        is_font_of(font@, table_contents(tables@)),
{
    let ghost contents = table_contents(tables@);
    let mut builder = new_builder();
    let mut i: usize = 0;
    assert(contents.take(0) =~= Seq::empty());
    while i < tables.len()
        invariant
            i <= tables.len(),
            contents == table_contents(tables@),
            builder_tables(builder) == by_tag(contents.take(i as int)),
            builder_checksums(builder) == (Map::<u32, u32>::empty()),
        decreases tables.len() - i,
    {
        let data: Vec<u8> = tables[i].1.clone();
        assert(data@ =~= tables@[i as int].1@);
        add_raw(&mut builder, tables[i].0, data);
        assert(contents.take(i + 1).drop_last() =~= contents.take(i as int));
        assert(builder_checksums(builder) =~= (Map::<u32, u32>::empty()));
        i += 1;
    }
    assert(contents.take(i as int) =~= contents);
    assert(lists(contents, builder_tables(builder)));
    proof {
        by_tag_lookup(contents);
        if by_tag(contents).contains_key(CFF) {
            let k = choose|k: int|
                0 <= k < contents.len() && (#[trigger] contents[k]).0.code == CFF;
            assert(tables@[k].0.code == CFF);
        }
        if by_tag(contents).contains_key(CFF2) {
            let k = choose|k: int|
                0 <= k < contents.len() && (#[trigger] contents[k]).0.code == CFF2;
            assert(tables@[k].0.code == CFF2);
        }
    }
    build_sfnt(&mut builder)
}

/// A font file is as long as its header, its directory and its padded tables; its directory stands
/// in the order of the tags; and where it has a `head` table of full length, the 32-bit numbers
/// that the file is made of add up to the one that the format asks for.
pub proof fn font_files_are_well_formed(font: Seq<u8>, tables: Seq<(Tag, Seq<u8>)>, j: int, k: int)
    requires
        is_font_of(font, tables),
        0 <= j < k < tables.len(),
    ensures
        font.len() == sfnt_size(tables),
        read32(font.skip(12 + 16 * j)) < read32(font.skip(12 + 16 * k)),
        tables[j].0.code == 0x6865_6164 && tables[j].1.len() == 54 ==> word_sum(font)
            % 0x1_0000_0000 == 0xb1b0_afba,
        tables[k].0.code == 0x6865_6164 && tables[k].1.len() == 54 ==> word_sum(font)
            % 0x1_0000_0000 == 0xb1b0_afba,
{
}

/// Numbers add up four bytes at a time; what is left at the end is filled up with zeros.
pub proof fn words_add_up(a: Seq<u8>, b: Seq<u8>, x: u8, y: u8, z: u8)
    requires
        a.len() % 4 == 0,
    ensures
        word_sum(Seq::empty()) == 0,
        word_sum(a + b) == word_sum(a) + word_sum(b),
        word_sum(seq![x]) == 0x100_0000 * x,
        word_sum(seq![x, y]) == 0x100_0000 * x + 0x1_0000 * y,
        word_sum(seq![x, y, z]) == 0x100_0000 * x + 0x1_0000 * y + 0x100 * z,
        a.len() == 4 ==> word_sum(a) == read32(a),
    decreases a.len(),
{
    if a.len() == 0 {
        assert(a + b =~= b);
    } else {
        assert((a + b).skip(4) =~= a.skip(4) + b);
        assert(read32(a + b) == read32(a)) by {
            assert((a + b).skip(2)[0] == a.skip(2)[0] && (a + b).skip(2)[1] == a.skip(2)[1]);
        }
        words_add_up(a.skip(4), b, x, y, z);
        if a.len() == 4 {
            assert(a.skip(4) =~= Seq::<u8>::empty());
        }
    }
}

/// The checksum of a table is that of its bytes; of a `head` table, it is that of its bytes with
/// zeros where the checksum of the whole file stands.
pub proof fn bytes_that_are_summed(code: u32, data: Seq<u8>, i: int)
    requires
        0 <= i < data.len(),
    ensures
        summed_bytes(code, data).len() == data.len(),
        code != 0x6865_6164 ==> summed_bytes(code, data)[i] == data[i],
        i < 8 || i >= 12 ==> summed_bytes(code, data)[i] == data[i],
        code == 0x6865_6164 && data.len() >= 12 && 8 <= i < 12 ==> summed_bytes(code, data)[i] == 0,
{
}

} // verus!
