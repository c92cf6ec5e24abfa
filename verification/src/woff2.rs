//! Wrapping a set of font tables into a WOFF2 file.
//!
//! WOFF2 is not a font format of its own - it's a small header plus a table
//! directory plus every table's raw bytes concatenated and brotli-compressed
//! as a single stream. The full format (<https://www.w3.org/TR/WOFF2/>) also
//! defines a "transform" for `glyf`/`loca` that repacks them for extra
//! compression, but that transform is optional: a table can always be
//! stored untransformed ("null transform"), which is what this encoder
//! does. The result is a fully valid WOFF2 - just not quite as tightly packed
//! as it could be.

use vstd::prelude::*;

use crate::bytes::{
    be16, be16_len, be16_of_truncated, be16_round_trip, be32, be32_of_truncated, be32_round_trip,
    concat, concat_from_front, concat_of_one, concat_of_two_runs, push_be16, push_be32, read16,
    read32,
};
use crate::tag::{
    Tag, CMAP, CVT, FPGM, GLYF, HEAD, HHEA, HMTX, LOCA, MAXP, NAME, OS2, POST, PREP,
};

verus! {

broadcast use be16_len;

/// `wOF2`, the first four bytes of every WOFF2 file.
pub const WOFF2_SIGNATURE: u32 = 0x774F_4632;

/// The sfnt version of a font with TrueType (`glyf`) outlines.
pub const TRUETYPE_FLAVOR: u32 = 0x0001_0000;

/// How hard brotli works, from 0 to 11.
pub const BROTLI_QUALITY: i32 = 11;

/// The base-2 logarithm of brotli's window.
pub const BROTLI_LGWIN: i32 = 24;

/// The size of the file header.
pub const HEADER_SIZE: usize = 48;

// ---------------------------------------------------------------------------
// Known tags
// ---------------------------------------------------------------------------

/// The index by which the directory may name a tag in place of its four bytes.
pub open spec fn tag_index(code: u32) -> Option<u8> {
    if code == CMAP {
        Some(0)
    } else if code == HEAD {
        Some(1)
    } else if code == HHEA {
        Some(2)
    } else if code == HMTX {
        Some(3)
    } else if code == MAXP {
        Some(4)
    } else if code == NAME {
        Some(5)
    } else if code == OS2 {
        Some(6)
    } else if code == POST {
        Some(7)
    } else if code == CVT {
        Some(8)
    } else if code == FPGM {
        Some(9)
    } else if code == GLYF {
        Some(10)
    } else if code == LOCA {
        Some(11)
    } else if code == PREP {
        Some(12)
    } else {
        None
    }
}

/// The tags that have an index, each at its index.
pub open spec fn indexed_tags() -> Seq<u32> {
    seq![CMAP, HEAD, HHEA, HMTX, MAXP, NAME, OS2, POST, CVT, FPGM, GLYF, LOCA, PREP]
}

/// The index of a tag leads back to the tag, and a tag without an index is not in the list.
pub proof fn tag_index_is_position(code: u32)
    ensures
        match tag_index(code) {
            Some(i) => i < indexed_tags().len() && indexed_tags()[i as int] == code,
            None => !indexed_tags().contains(code),
        },
{
}

/// WOFF2 can reference 63 tags by a single 6-bit index instead of spelling
/// out all 4 bytes. Only the tags that fonts built here may hold are listed
/// with their real index (<https://www.w3.org/TR/WOFF2/#table_dir_knownTags>);
/// anything else falls back to the "arbitrary tag" encoding (index 63 plus
/// the literal 4 bytes).
pub fn known_tag_index(tag: Tag) -> (index: Option<u8>)
    ensures
        index == tag_index(tag.code),
{
    let index: u8 = match tag.code {
        CMAP => 0,
        HEAD => 1,
        HHEA => 2,
        HMTX => 3,
        MAXP => 4,
        NAME => 5,
        OS2 => 6,
        POST => 7,
        CVT => 8,
        FPGM => 9,
        GLYF => 10,
        LOCA => 11,
        PREP => 12,
        _ => {
            return None;
        },
    };
    Some(index)
}

// ---------------------------------------------------------------------------
// UIntBase128
// ---------------------------------------------------------------------------

/// The base-128 digits of `v` from the most significant one down, each with the continuation
/// bit set; nothing for zero.
pub open spec fn base128_leading(v: nat) -> Seq<u8>
    decreases v,
{
    if v == 0 {
        Seq::empty()
    } else {
        base128_leading(v / 128).push((v % 128 + 128) as u8)
    }
}

/// `v` as a big-endian base-128 number: 7 data bits per byte, the high bit set on every byte
/// except the last, and no leading zero digit.
pub open spec fn base128(v: nat) -> Seq<u8> {
    base128_leading(v / 128).push((v % 128) as u8)
}

/// `v` without its `k` lowest base-128 digits.
spec fn without_digits(v: nat, k: nat) -> nat
    decreases k,
{
    if k == 0 {
        v
    } else {
        without_digits(v, (k - 1) as nat) / 128
    }
}

/// WOFF2's UIntBase128: a big-endian base-128 varint (7 data bits per byte,
/// high bit set on every byte except the last). Used for every length field
/// in the table directory.
pub fn write_uint_base128(out: &mut Vec<u8>, value: u32)
    ensures
        final(out)@ == old(out)@ + base128(value as nat),
{
    let mut value: u32 = value;
    let ghost v = value as nat;
    let mut digits: [u8; 5] = [0u8; 5];
    let mut n: usize = 0;
    loop
        invariant_except_break
            n < 5,
            value == without_digits(v, n as nat),
            n == 0 ==> value == v,
            n == 1 ==> value < 0x200_0000,
            n == 2 ==> value < 0x4_0000,
            n == 3 ==> value < 0x800,
            n == 4 ==> value < 0x10,
            v <= u32::MAX,
            n > 0 ==> value > 0,
            forall|k: int|
                0 <= k < n ==> #[trigger] digits[k] == without_digits(v, k as nat) % 128,
            forall|k: int| 0 < k < n ==> #[trigger] without_digits(v, k as nat) > 0,
        ensures
            0 < n <= 5,
            without_digits(v, n as nat) == 0,
            forall|k: int|
                0 <= k < n ==> #[trigger] digits[k] == without_digits(v, k as nat) % 128,
            forall|k: int| 0 < k < n ==> #[trigger] without_digits(v, k as nat) > 0,
        decreases 5 - n,
    {
        assert(value & 0x7f == value % 128) by (bit_vector);
        assert(value >> 7 == value / 128) by (bit_vector);
        digits[n] = (value & 0x7f) as u8;
        n += 1;
        value >>= 7;
        if value == 0 {
            break;
        }
    }
    // digits were filled least-significant-first; emit most-significant-first,
    // with the continuation bit (0x80) set on every byte but the last.
    let mut i: usize = n;
    while i > 0
        invariant
            i <= n <= 5,
            0 < n,
            without_digits(v, n as nat) == 0,
            forall|k: int|
                0 <= k < n ==> #[trigger] digits[k] == without_digits(v, k as nat) % 128,
            forall|k: int| 0 < k < n ==> #[trigger] without_digits(v, k as nat) > 0,
            i > 0 ==> out@ == old(out)@ + base128_leading(without_digits(v, i as nat)),
            i == 0 ==> out@ == old(out)@ + base128(v),
        decreases i,
    {
        i -= 1;
        let byte: u8 = digits[i];
        assert(digits[i as int] == without_digits(v, i as nat) % 128);
        assert(without_digits(v, (i + 1) as nat) == without_digits(v, i as nat) / 128);
        if i == 0 {
            out.push(byte);
            assert(out@ =~= old(out)@ + base128(v));
        } else {
            assert(byte < 128 ==> byte | 0x80 == byte + 128) by (bit_vector);
            out.push(byte | 0x80);
            assert(out@ =~= old(out)@ + base128_leading(without_digits(v, i as nat)));
        }
    }
}

/// Reads a base-128 number as the format prescribes: `acc` is the value of the `i` bytes read
/// so far. Fails at the end of the input, at a sixth byte, on a leading zero digit, and where
/// the value would pass 32 bits. Gives the value and the number of bytes read.
pub open spec fn read_base128_from(s: Seq<u8>, acc: nat, i: nat) -> Option<(nat, nat)>
    decreases 5 - i,
{
    if i >= 5 || i >= s.len() {
        None
    } else if i == 0 && s[0] == 0x80 {
        None
    } else if acc >= 0x200_0000 {
        None
    } else {
        let next = acc * 128 + (s[i as int] % 128) as nat;
        if s[i as int] < 128 {
            Some((next, i + 1))
        } else {
            read_base128_from(s, next, i + 1)
        }
    }
}

/// Reads a base-128 number from the front of `s`.
pub open spec fn read_base128(s: Seq<u8>) -> Option<(nat, nat)> {
    read_base128_from(s, 0, 0)
}

/// The leading digits of `v` leave a reader at the last digit with `v` read.
proof fn read_past_leading(s: Seq<u8>, v: nat)
    requires
        v < 0x200_0000,
        base128_leading(v).len() <= s.len(),
        s.take(base128_leading(v).len() as int) == base128_leading(v),
    ensures
        base128_leading(v).len() <= 4,
        read_base128(s) == read_base128_from(s, v, base128_leading(v).len()),
    decreases v,
{
    base128_leading_is_short(v);
    if v > 0 {
        let front = base128_leading(v / 128);
        let n = front.len();
        assert(s.take(n as int) =~= s.take(n as int + 1).take(n as int));
        assert(base128_leading(v).take(n as int) =~= front);
        read_past_leading(s, v / 128);
        assert(s[n as int] == s.take(n as int + 1)[n as int]);
        assert(s[n as int] == v % 128 + 128);
        if n == 0 {
            assert(v / 128 == 0) by {
                if v / 128 > 0 {
                    assert(base128_leading(v / 128).len() > 0);
                }
            }
        }
        assert(s[n as int] % 128 == v % 128);
    }
}

proof fn base128_leading_is_short(v: nat)
    requires
        v < 0x200_0000,
    ensures
        base128_leading(v).len() <= 4,
{
    reveal_with_fuel(base128_leading, 5);
    assert(v / 128 / 128 / 128 / 128 == 0);
}

/// Reading a length back gives the length, and stops exactly behind it. It takes one to five
/// bytes.
pub proof fn base128_round_trip(v: u32, rest: Seq<u8>)
    ensures
        1 <= base128(v as nat).len() <= 5,
        read_base128(base128(v as nat) + rest) == Some((v as nat, base128(v as nat).len())),
        (base128(v as nat) + rest).skip(base128(v as nat).len() as int) == rest,
{
    let v = v as nat;
    let front = base128_leading(v / 128);
    let s = base128(v) + rest;
    base128_leading_is_short(v / 128);
    assert(s.take(front.len() as int) =~= front);
    read_past_leading(s, v / 128);
    assert(s[front.len() as int] == v % 128);
    if front.len() == 0 {
        assert(v / 128 == 0);
    }
    assert(s.skip(base128(v).len() as int) =~= rest);
}

// ---------------------------------------------------------------------------
// Table directory
// ---------------------------------------------------------------------------

/// `len` rounded up to a multiple of four.
pub open spec fn round4(len: int) -> int {
    (len + 3) / 4 * 4
}

/// `len` rounded up to a multiple of four.
pub fn pad4(len: usize) -> (padded: usize)
    requires
        len + 3 <= usize::MAX,
    ensures
        padded == round4(len as int),
{
    let up: usize = len + 3;
    assert(up & !3usize == up / 4 * 4) by (bit_vector);
    up & !3
}

/// The contents of a table list.
pub open spec fn table_contents(tables: Seq<(Tag, Vec<u8>)>) -> Seq<(Tag, Seq<u8>)> {
    Seq::new(tables.len(), |i: int| (tables[i].0, tables[i].1@))
}

/// The transform version that marks a table as stored untransformed: 0 for every tag except
/// `glyf` and `loca`, where it is 3 (version 0 there would announce the repacking transform).
pub open spec fn null_transform(code: u32) -> int {
    if code == GLYF || code == LOCA {
        3
    } else {
        0
    }
}

/// The directory entry of a table: a byte with the transform version in the high two bits and
/// the tag's index in the low six, the tag's four bytes where it has no index (63 then), and
/// the table's length.
pub open spec fn directory_entry(tag: Tag, len: nat) -> Seq<u8> {
    (match tag_index(tag.code) {
        Some(index) => seq![(null_transform(tag.code) * 64 + index) as u8],
        None => seq![(null_transform(tag.code) * 64 + 63) as u8] + tag.bytes(),
    }) + base128(len % 0x1_0000_0000)
}

/// The entries of all tables, in order.
pub open spec fn directory(tables: Seq<(Tag, Seq<u8>)>) -> Seq<u8> {
    concat(Seq::new(tables.len(), |i: int| directory_entry(tables[i].0, tables[i].1.len())))
}

/// The raw bytes of all tables, in order.
pub open spec fn payload(tables: Seq<(Tag, Seq<u8>)>) -> Seq<u8> {
    concat(Seq::new(tables.len(), |i: int| tables[i].1))
}

/// Appends the directory entry of one table.
fn push_directory_entry(out: &mut Vec<u8>, tag: Tag, len: usize)
    ensures
        final(out)@ == old(out)@ + directory_entry(tag, len as nat),
{
    // Every table here is stored untransformed. Per the format, transform
    // version 0 already means "null transform" for every tag except
    // glyf/loca, where the null transform is signaled by version 3
    // instead (version 0 there would mean "apply the glyf/loca
    // repacking transform", which is not implemented).
    let is_glyf_or_loca: bool = tag.code == GLYF || tag.code == LOCA;
    let transform_version: u8 = if is_glyf_or_loca { 3 } else { 0 };
    assert(forall|t: u8, i: u8|
        (t == 0 || t == 3) && i < 64 ==> #[trigger] ((t << 6) | i) == t * 64 + i) by (bit_vector);
    match known_tag_index(tag) {
        Some(index) => {
            out.push((transform_version << 6) | index);
        },
        None => {
            out.push((transform_version << 6) | 0x3F);
            out.extend_from_slice(&tag.into_bytes());
        },
    }
    proof {
        let wide = len as u64;
        assert((len as u32) == (len as u64) as u32) by (bit_vector);
        assert((wide as u32) == wide % 0x1_0000_0000u64) by (bit_vector);
    }
    write_uint_base128(out, len as u32);
    // No transformLength field: with the null transform selected above
    // (for every table, glyf/loca included) none follows.
    assert(out@ =~= old(out)@ + directory_entry(tag, len as nat));
}

/// Reads one directory entry: the tag, the transform version, the length, and what follows.
pub open spec fn read_directory_entry(s: Seq<u8>) -> Option<(Tag, int, nat, Seq<u8>)> {
    let index = s[0] % 64;
    let version = (s[0] / 64) as int;
    let (code, behind_tag) = if index == 63 {
        (read32(s.skip(1)), s.skip(5))
    } else {
        (indexed_tags()[index as int] as int, s.skip(1))
    };
    if s.len() == 0 || (index == 63 && s.len() < 5) || (index != 63 && index
        >= indexed_tags().len()) {
        None
    } else {
        match read_base128(behind_tag) {
            Some((len, n)) => Some(
                (Tag { code: code as u32 }, version, len, behind_tag.skip(n as int)),
            ),
            None => None,
        }
    }
}

/// Reads `n` directory entries: tag, transform version and length of each, and what follows.
pub open spec fn read_directory(s: Seq<u8>, n: nat) -> Option<(Seq<(Tag, int, nat)>, Seq<u8>)>
    decreases n,
{
    if n == 0 {
        Some((Seq::empty(), s))
    } else {
        match read_directory_entry(s) {
            Some((tag, version, len, rest)) => match read_directory(rest, (n - 1) as nat) {
                Some((entries, end)) => Some((seq![(tag, version, len)] + entries, end)),
                None => None,
            },
            None => None,
        }
    }
}

/// Reading a directory entry back gives the tag, the null transform of that tag and the length.
pub proof fn directory_entry_round_trip(tag: Tag, len: u32, rest: Seq<u8>)
    ensures
        read_directory_entry(directory_entry(tag, len as nat) + rest) == Some(
            (tag, null_transform(tag.code), len as nat, rest),
        ),
{
    let s = directory_entry(tag, len as nat) + rest;
    let lens = base128(len as nat);
    tag_index_is_position(tag.code);
    base128_round_trip(len, rest);
    assert(len as nat % 0x1_0000_0000 == len);
    match tag_index(tag.code) {
        Some(index) => {
            assert(s[0] == (null_transform(tag.code) * 64 + index) as u8);
            assert(s.skip(1) =~= lens + rest);
        },
        None => {
            assert(s[0] == (null_transform(tag.code) * 64 + 63) as u8);
            assert(s.skip(1) =~= be32(tag.code as int) + (lens + rest));
            be32_round_trip(tag.code as int, lens + rest);
            assert(s.skip(5) =~= lens + rest);
        },
    }
}

/// Reading a directory back gives every table's tag and length, in order, with the null
/// transform, and stops exactly where the compressed stream begins.
pub proof fn directory_round_trip(tables: Seq<(Tag, Seq<u8>)>, rest: Seq<u8>)
    requires
        forall|i: int| 0 <= i < tables.len() ==> #[trigger] tables[i].1.len() <= u32::MAX,
    ensures
        read_directory(directory(tables) + rest, tables.len()) == Some(
            (
                Seq::new(
                    tables.len(),
                    |i: int|
                        (tables[i].0, null_transform(tables[i].0.code), tables[i].1.len()),
                ),
                rest,
            ),
        ),
    decreases tables.len(),
{
    let s = directory(tables) + rest;
    let entries = Seq::new(
        tables.len(),
        |i: int| (tables[i].0, null_transform(tables[i].0.code), tables[i].1.len()),
    );
    if tables.len() == 0 {
        assert(s =~= rest);
        assert(entries =~= Seq::empty());
    } else {
        let parts = Seq::new(
            tables.len(),
            |i: int| directory_entry(tables[i].0, tables[i].1.len()),
        );
        let tail = tables.skip(1);
        let tail_parts = Seq::new(
            tail.len(),
            |i: int| directory_entry(tail[i].0, tail[i].1.len()),
        );
        concat_from_front(parts);
        assert(parts.skip(1) =~= tail_parts);
        assert(s =~= directory_entry(tables[0].0, tables[0].1.len()) + (directory(tail) + rest));
        directory_entry_round_trip(tables[0].0, tables[0].1.len() as u32, directory(tail) + rest);
        assert forall|i: int| 0 <= i < tail.len() implies #[trigger] tail[i].1.len()
            <= u32::MAX by {
            assert(tail[i] == tables[i + 1]);
        }
        directory_round_trip(tail, rest);
        let tail_entries = Seq::new(
            tail.len(),
            |i: int| (tail[i].0, null_transform(tail[i].0.code), tail[i].1.len()),
        );
        assert(entries =~= seq![entries[0]] + tail_entries);
    }
}

// ---------------------------------------------------------------------------
// The file
// ---------------------------------------------------------------------------

/// The sizes of all tables, each padded to a multiple of four.
pub open spec fn padded_total(tables: Seq<(Tag, Seq<u8>)>) -> int
    decreases tables.len(),
{
    if tables.len() == 0 {
        0
    } else {
        padded_total(tables.drop_last()) + round4(tables.last().1.len() as int)
    }
}

/// The size of the OpenType file that the tables would make up: a 12-byte offset table, 16
/// bytes for each table record, and each table padded to a 4-byte boundary.
pub open spec fn sfnt_size(tables: Seq<(Tag, Seq<u8>)>) -> int {
    12 + 16 * tables.len() + padded_total(tables)
}

/// The 48-byte header: without extended metadata, private data or a version number.
#[verifier::opaque]
pub open spec fn woff2_header(length: int, num_tables: int, total_sfnt_size: int, compressed: int)
    -> Seq<u8> {
    be32(WOFF2_SIGNATURE as int) + be32(TRUETYPE_FLAVOR as int) + be32(length) + be16(num_tables)
        + be16(0) + be32(total_sfnt_size) + be32(compressed) + be16(0) + be16(0) + be32(0) + be32(0)
        + be32(0) + be32(0) + be32(0)
}

/// A WOFF2 file: header, table directory, compressed tables, and zeros up to a multiple of four.
pub open spec fn woff2_file(tables: Seq<(Tag, Seq<u8>)>, stream: Seq<u8>) -> Seq<u8> {
    let body = directory(tables) + stream;
    let size = HEADER_SIZE + body.len();
    woff2_header(
        round4(size),
        tables.len() as int,
        sfnt_size(tables),
        stream.len() as int,
    ) + body + Seq::new((round4(size) - size) as nat, |i: int| 0u8)
}

/// More tables take up no less space.
pub proof fn padded_total_grows(tables: Seq<(Tag, Seq<u8>)>, i: int)
    requires
        0 <= i <= tables.len(),
    ensures
        0 <= padded_total(tables.take(i)) <= padded_total(tables),
    decreases tables.len(),
{
    if i < tables.len() {
        assert(tables.drop_last().take(i) =~= tables.take(i));
        padded_total_grows(tables.drop_last(), i);
    } else {
        assert(tables.take(i) =~= tables);
        if i > 0 {
            assert(tables.drop_last().take(i - 1) =~= tables.drop_last());
            padded_total_grows(tables.drop_last(), i - 1);
        }
    }
}

/// Writes the table directory.
fn table_directory(tables: &[(Tag, Vec<u8>)]) -> (entries: Vec<u8>)
    ensures
        entries@ == directory(table_contents(tables@)),
{
    let ghost contents = table_contents(tables@);
    let ghost parts = Seq::new(
        contents.len(),
        |i: int| directory_entry(contents[i].0, contents[i].1.len()),
    );
    let mut entries: Vec<u8> = Vec::new();
    let mut i: usize = 0;
    while i < tables.len()
        invariant
            i <= tables.len(),
            contents == table_contents(tables@),
            parts == Seq::new(
                contents.len(),
                |i: int| directory_entry(contents[i].0, contents[i].1.len()),
            ),
            entries@ == concat(parts.take(i as int)),
        decreases tables.len() - i,
    {
        let table: &(Tag, Vec<u8>) = &tables[i];
        push_directory_entry(&mut entries, table.0, table.1.len());
        assert(parts.take(i + 1).drop_last() =~= parts.take(i as int));
        assert(parts.take(i + 1).last() == directory_entry(table.0, table.1@.len()));
        i += 1;
    }
    assert(parts.take(i as int) =~= parts);
    entries
}

/// Puts the raw table data one after the other, in the order of the directory.
fn concatenate(tables: &[(Tag, Vec<u8>)]) -> (data: Vec<u8>)
    ensures
        data@ == payload(table_contents(tables@)),
{
    let ghost contents = table_contents(tables@);
    let ghost blobs = Seq::new(contents.len(), |i: int| contents[i].1);
    let mut data: Vec<u8> = Vec::new();
    let mut i: usize = 0;
    while i < tables.len()
        invariant
            i <= tables.len(),
            contents == table_contents(tables@),
            blobs == Seq::new(contents.len(), |i: int| contents[i].1),
            data@ == concat(blobs.take(i as int)),
        decreases tables.len() - i,
    {
        let table: &(Tag, Vec<u8>) = &tables[i];
        data.extend_from_slice(table.1.as_slice());
        assert(blobs.take(i + 1).drop_last() =~= blobs.take(i as int));
        assert(blobs.take(i + 1).last() == table.1@);
        assert(data@ =~= concat(blobs.take(i as int)) + table.1@);
        i += 1;
    }
    assert(blobs.take(i as int) =~= blobs);
    data
}

/// totalSfntSize: the size of the OpenType file these tables would reconstruct into.
fn total_sfnt_size(tables: &[(Tag, Vec<u8>)]) -> (size: usize)
    requires
        sfnt_size(table_contents(tables@)) <= usize::MAX,
    ensures
        size == sfnt_size(table_contents(tables@)),
{
    let ghost contents = table_contents(tables@);
    proof {
        padded_total_grows(contents, 0);
    }
    let sfnt_header: usize = 12 + 16 * tables.len();
    let mut sfnt_tables: usize = 0;
    let mut i: usize = 0;
    while i < tables.len()
        invariant
            i <= tables.len(),
            contents == table_contents(tables@),
            sfnt_header == 12 + 16 * contents.len(),
            sfnt_size(contents) <= usize::MAX,
            sfnt_tables == padded_total(contents.take(i as int)),
        decreases tables.len() - i,
    {
        proof {
            padded_total_grows(contents, i + 1);
            padded_total_grows(contents, i as int);
            assert(contents.take(i + 1).drop_last() =~= contents.take(i as int));
            assert(contents.take(i + 1).last() == contents[i as int]);
        }
        sfnt_tables += pad4(tables[i].1.len());
        i += 1;
    }
    assert(contents.take(i as int) =~= contents);
    sfnt_header + sfnt_tables
}

/// The header, with the file's length still open.
fn open_header(num_tables: usize, sfnt: usize, compressed: usize) -> (out: Vec<u8>)
    ensures
        out@ == woff2_header(0, num_tables as int, sfnt as int, compressed as int),
{
    proof {
        reveal(woff2_header);
        be16_of_truncated(num_tables);
        be32_of_truncated(sfnt);
        be32_of_truncated(compressed);
    }
    let mut out: Vec<u8> = Vec::new();
    push_be32(&mut out, WOFF2_SIGNATURE);
    push_be32(&mut out, TRUETYPE_FLAVOR);
    push_be32(&mut out, 0);  // length - patched by patch_length
    push_be16(&mut out, num_tables as u16);
    push_be16(&mut out, 0);  // reserved
    push_be32(&mut out, sfnt as u32);
    push_be32(&mut out, compressed as u32);
    push_be16(&mut out, 0);  // majorVersion
    push_be16(&mut out, 0);  // minorVersion
    push_be32(&mut out, 0);  // metaOffset (no extended metadata)
    push_be32(&mut out, 0);  // metaLength
    push_be32(&mut out, 0);  // metaOrigLength
    push_be32(&mut out, 0);  // privOffset (no private data)
    push_be32(&mut out, 0);  // privLength
    assert(Seq::<u8>::empty() + be32(WOFF2_SIGNATURE as int) =~= be32(WOFF2_SIGNATURE as int));
    out
}

/// Puts the file's length where the header has it.
fn patch_length(out: &mut Vec<u8>)
    requires
        old(out)@.len() >= 12,
    ensures
        final(out)@ == old(out)@.take(8) + be32(old(out)@.len() as int) + old(out)@.skip(12),
{
    let total_length: [u8; 4] = Tag { code: out.len() as u32 }.into_bytes();
    proof {
        be32_of_truncated(out@.len() as usize);
    }
    assert(total_length@ == be32(old(out)@.len() as int));
    out[8] = total_length[0];
    out[9] = total_length[1];
    out[10] = total_length[2];
    out[11] = total_length[3];
    assert(out@ =~= old(out)@.take(8) + total_length@ + old(out)@.skip(12));
}

/// The length stands at the ninth to twelfth byte of the header.
proof fn length_position(length: int, num_tables: int, sfnt: int, compressed: int, rest: Seq<u8>)
    ensures
        woff2_header(length, num_tables, sfnt, compressed).len() == HEADER_SIZE,
        ({
            let open = woff2_header(0, num_tables, sfnt, compressed) + rest;
            open.take(8) + be32(length) + open.skip(12) == woff2_header(
                length,
                num_tables,
                sfnt,
                compressed,
            ) + rest
        }),
{
    reveal(woff2_header);
    let open = woff2_header(0, num_tables, sfnt, compressed) + rest;
    let start = be32(WOFF2_SIGNATURE as int) + be32(TRUETYPE_FLAVOR as int);
    let end = be16(num_tables) + be16(0) + be32(sfnt) + be32(compressed) + be16(0) + be16(0)
        + be32(0) + be32(0) + be32(0) + be32(0) + be32(0);
    assert(woff2_header(0, num_tables, sfnt, compressed) =~= start + be32(0) + end);
    assert(woff2_header(length, num_tables, sfnt, compressed) =~= start + be32(length) + end);
    assert(open.take(8) =~= start);
    assert(open.skip(12) =~= end + rest);
    assert(start + be32(length) + (end + rest) =~= (start + be32(length) + end) + rest);
}

/// Puts already compressed table data into a WOFF2 file: `compressed` is the brotli stream of
/// the tables' raw bytes, concatenated.
pub fn assemble_woff2(tables: &[(Tag, Vec<u8>)], compressed: &[u8]) -> (file: Vec<u8>)
    requires
        sfnt_size(table_contents(tables@)) <= usize::MAX,
    ensures
        file@ == woff2_file(table_contents(tables@), compressed@),
{
    let ghost contents = table_contents(tables@);
    let directory: Vec<u8> = table_directory(tables);
    let ghost body = directory@ + compressed@;
    let sfnt: usize = total_sfnt_size(tables);
    // --- 48-byte header, table directory, compressed data ---
    let mut out: Vec<u8> = open_header(tables.len(), sfnt, compressed.len());
    let ghost header = out@;
    out.extend_from_slice(directory.as_slice());
    out.extend_from_slice(compressed);
    assert(out@ =~= header + body);
    let ghost unpadded = out@;
    while out.len() % 4 != 0
        invariant
            unpadded.len() <= out@.len() <= round4(unpadded.len() as int),
            out@ == unpadded + Seq::new((out@.len() - unpadded.len()) as nat, |i: int| 0u8),
        decreases round4(unpadded.len() as int) - out@.len(),
    {
        out.push(0);
        assert(out@ =~= unpadded + Seq::new((out@.len() - unpadded.len()) as nat, |i: int| 0u8));
    }
    let ghost padding = Seq::new((out@.len() - unpadded.len()) as nat, |i: int| 0u8);
    proof {
        let (n, z, c) = (contents.len() as int, sfnt_size(contents), compressed@.len() as int);
        length_position(out@.len() as int, n, z, c, body + padding);
        length_position(0, n, z, c, body + padding);
        assert(out@ =~= header + (body + padding));
        assert(woff2_file(contents, compressed@) =~= woff2_header(out@.len() as int, n, z, c) + (
        body + padding));
    }
    patch_length(&mut out);
    out
}

/// The data that `brotli::BrotliDecompress` gives for a stream, where it takes the stream.
pub uninterp spec fn brotli_decoded(stream: Seq<u8>) -> Option<Seq<u8>>;

/// Whether a stream is one that `brotli::enc::BrotliCompress` gives for some data at a quality, a
/// window size and a size hint, however the machine computes logarithms.
pub uninterp spec fn compressed_from(
    stream: Seq<u8>,
    data: Seq<u8>,
    quality: i32,
    lgwin: i32,
    size_hint: usize,
) -> bool;

/// `brotli::enc::BrotliCompress` from a slice into a vector, with the default parameters but
/// for the three given. It does not fail: reading the slice and writing the vector do not, and
/// the encoder takes all of the data and ends its stream once. Decompressing the stream gives the
/// data back. Which bytes make up the stream also depends on how the machine computes logarithms,
/// so no more is claimed of them than that they were made of this data with these parameters.
#[verifier::external_body]
fn brotli_compress(data: &[u8], quality: i32, lgwin: i32, size_hint: usize) -> (stream: Result<
    Vec<u8>,
    String,
>)
    requires
        2 <= quality <= 11,
        10 <= lgwin <= 24,
    ensures
        stream is Ok,
        compressed_from(stream->Ok_0@, data@, quality, lgwin, size_hint),
        brotli_decoded(stream->Ok_0@) == Some(data@),
{
    let mut params = brotli::enc::BrotliEncoderParams::default();
    params.quality = quality;
    params.lgwin = lgwin;
    params.size_hint = size_hint;
    let mut stream = Vec::new();
    brotli::enc::BrotliCompress(&mut std::io::Cursor::new(data), &mut stream, &params)
        .map(|_| stream)
        .map_err(|e| e.to_string())
}

/// The text of the error that comes where the tables cannot be compressed.
pub open spec fn compression_failure(inner: Seq<char>) -> Seq<char> {
    "brotli compression failed: "@ + inner
}

/// What becomes of the outcome of compressing the tables' raw bytes: a stream goes into the file,
/// and an error gets words in front of it that say what failed.
pub fn finish_woff2(tables: &[(Tag, Vec<u8>)], compressed: Result<Vec<u8>, String>) -> (file:
    Result<Vec<u8>, String>)
    requires
        sfnt_size(table_contents(tables@)) <= usize::MAX,
    ensures
        (match (compressed, file) {
            (Ok(stream), Ok(f)) => f@ == woff2_file(table_contents(tables@), stream@),
            (Err(e), Err(message)) => message@ == compression_failure(e@),
            _ => false,
        }),
{
    match compressed {
        Ok(stream) => Ok(assemble_woff2(tables, stream.as_slice())),
        Err(e) => {
            let mut message: String = "brotli compression failed: ".to_owned();
            message.append(e.as_str());
            Err(message)
        },
    }
}

/// Whether a stream is one that brotli makes of the tables' raw bytes, working its hardest, with
/// the largest window, and told how long they are.
pub open spec fn compresses(stream: Seq<u8>, tables: Seq<(Tag, Seq<u8>)>) -> bool {
    let data = payload(tables);
    compressed_from(stream, data, BROTLI_QUALITY, BROTLI_LGWIN, data.len() as usize)
}

/// Whether a file is a WOFF2 file of tables: its stream is one that brotli makes of their raw
/// bytes, and decompresses to them.
pub open spec fn packs(file: Seq<u8>, tables: Seq<(Tag, Seq<u8>)>) -> bool {
    exists|stream: Seq<u8>|
        compresses(stream, tables) && brotli_decoded(stream) == Some(payload(tables)) && file
            == #[trigger] woff2_file(tables, stream)
}

/// Wraps a set of (tag, raw table bytes) pairs - e.g. from
/// [`crate::font::build_font_tables`] - into a complete WOFF2 file. The compressed data stands
/// behind the directory, as long as the header says. The tables can be read back from the file,
/// where its numbers can hold their sizes. It always succeeds.
pub fn build_woff2(tables: &[(Tag, Vec<u8>)]) -> (file: Result<Vec<u8>, String>)
    requires
        sfnt_size(table_contents(tables@)) <= usize::MAX,
    ensures
        file is Ok,
        packs(file->Ok_0@, table_contents(tables@)),
        ({
            let (f, contents) = (file->Ok_0@, table_contents(tables@));
            &&& f.len() <= u32::MAX ==> brotli_decoded(stream_of(f, directory(contents).len()))
                == Some(payload(contents))
            &&& contents.len() <= u16::MAX && sfnt_size(contents) <= u32::MAX && f.len() <= u32::MAX
                ==> read_woff2(f) == Some(contents)
        }),
{
    let concatenated: Vec<u8> = concatenate(tables);
    // --- brotli-compress the concatenated table data as one stream ---
    let compressed: Result<Vec<u8>, String> = brotli_compress(
        concatenated.as_slice(),
        BROTLI_QUALITY,
        BROTLI_LGWIN,
        concatenated.len(),
    );
    let ghost outcome = compressed;
    let file: Result<Vec<u8>, String> = finish_woff2(tables, compressed);
    proof {
        let contents = table_contents(tables@);
        let stream = outcome->Ok_0@;
        assert(compresses(stream, contents));
        woff2_file_is_aligned(contents, stream);
        if file->Ok_0@.len() <= u32::MAX {
            woff2_stream_reads_back(contents, stream);
            if contents.len() <= u16::MAX && sfnt_size(contents) <= u32::MAX {
                woff2_reads_back(contents, stream);
            }
        }
    }
    file
}

// ---------------------------------------------------------------------------
// Reading a file back
// ---------------------------------------------------------------------------

/// The size of a file is a multiple of four, and at least the header's.
pub proof fn woff2_file_is_aligned(tables: Seq<(Tag, Seq<u8>)>, stream: Seq<u8>)
    ensures
        woff2_file(tables, stream).len() % 4 == 0,
        woff2_file(tables, stream).len() == round4(
            HEADER_SIZE + directory(tables).len() + stream.len(),
        ),
{
    let body = directory(tables) + stream;
    let size = HEADER_SIZE + body.len();
    length_position(
        round4(size),
        tables.len() as int,
        sfnt_size(tables),
        stream.len() as int,
        Seq::empty(),
    );
}

/// What stands from each field of the header on.
proof fn header_fields(
    signature: Seq<u8>,
    flavor: Seq<u8>,
    length: Seq<u8>,
    count: Seq<u8>,
    reserved: Seq<u8>,
    sfnt: Seq<u8>,
    compressed: Seq<u8>,
    tail: Seq<u8>,
)
    requires
        signature.len() == 4,
        flavor.len() == 4,
        length.len() == 4,
        count.len() == 2,
        reserved.len() == 2,
        sfnt.len() == 4,
        compressed.len() == 4,
    ensures
        ({
            let file = signature + flavor + length + count + reserved + sfnt + compressed + tail;
            &&& file == signature + file.skip(4)
            &&& file.skip(4) == flavor + file.skip(8)
            &&& file.skip(8) == length + file.skip(12)
            &&& file.skip(12) == count + file.skip(14)
            &&& file.skip(14) == reserved + file.skip(16)
            &&& file.skip(16) == sfnt + file.skip(20)
            &&& file.skip(20) == compressed + file.skip(24)
            &&& file.skip(24) == tail
        }),
{
    let file = signature + flavor + length + count + reserved + sfnt + compressed + tail;
    assert(file =~= signature + file.skip(4));
    assert(file.skip(4) =~= flavor + file.skip(8));
    assert(file.skip(8) =~= length + file.skip(12));
    assert(file.skip(12) =~= count + file.skip(14));
    assert(file.skip(14) =~= reserved + file.skip(16));
    assert(file.skip(16) =~= sfnt + file.skip(20));
    assert(file.skip(20) =~= compressed + file.skip(24));
    assert(file.skip(24) =~= tail);
}

proof fn added_last(a: Seq<u8>, b: Seq<u8>, c: Seq<u8>)
    ensures
        a + b + c == a + (b + c),
{
    assert(a + b + c =~= a + (b + c));
}

/// What stands behind the fields of the header is zero.
spec fn header_zeros() -> Seq<u8> {
    be16(0) + be16(0) + be32(0) + be32(0) + be32(0) + be32(0) + be32(0)
}

proof fn header_zeros_are_zero()
    ensures
        header_zeros() == Seq::new(24, |i: int| 0u8),
{
    assert(be16(0) =~= seq![0u8, 0u8]) by {
        reveal(be16);
    }
    assert(header_zeros() =~= Seq::new(24, |i: int| 0u8));
}

proof fn header_splits(len: int, n: int, sfnt: int, compressed: int)
    ensures
        woff2_header(len, n, sfnt, compressed) == be32(WOFF2_SIGNATURE as int) + be32(
            TRUETYPE_FLAVOR as int,
        ) + be32(len) + be16(n) + be16(0) + be32(sfnt) + be32(compressed) + header_zeros(),
{
    reveal(woff2_header);
    let fields = be32(WOFF2_SIGNATURE as int) + be32(TRUETYPE_FLAVOR as int) + be32(len) + be16(n)
        + be16(0) + be32(sfnt) + be32(compressed);
    let (h, w) = (be16(0), be32(0));
    added_last(fields, h, h);
    added_last(fields, h + h, w);
    added_last(fields, h + h + w, w);
    added_last(fields, h + h + w + w, w);
    added_last(fields, h + h + w + w + w, w);
    added_last(fields, h + h + w + w + w + w, w);
}

/// What the fields of the header hold.
proof fn header_reads_back(len: int, n: int, sfnt: int, compressed: int, rest: Seq<u8>)
    ensures
        ({
            let file = woff2_header(len, n, sfnt, compressed) + rest;
            &&& read32(file) == WOFF2_SIGNATURE
            &&& read32(file.skip(4)) == TRUETYPE_FLAVOR
            &&& read32(file.skip(8)) == len % 0x1_0000_0000
            &&& read16(file.skip(12)) == n % 0x1_0000
            &&& read16(file.skip(14)) == 0
            &&& read32(file.skip(16)) == sfnt % 0x1_0000_0000
            &&& read32(file.skip(20)) == compressed % 0x1_0000_0000
            &&& forall|i: int| 24 <= i < HEADER_SIZE ==> file[i] == 0
        }),
{
    let file = woff2_header(len, n, sfnt, compressed) + rest;
    let zeros = header_zeros();
    let fields = be32(WOFF2_SIGNATURE as int) + be32(TRUETYPE_FLAVOR as int) + be32(len) + be16(n)
        + be16(0) + be32(sfnt) + be32(compressed);
    header_splits(len, n, sfnt, compressed);
    added_last(fields, zeros, rest);
    header_fields(
        be32(WOFF2_SIGNATURE as int),
        be32(TRUETYPE_FLAVOR as int),
        be32(len),
        be16(n),
        be16(0),
        be32(sfnt),
        be32(compressed),
        zeros + rest,
    );
    be32_round_trip(WOFF2_SIGNATURE as int, file.skip(4));
    be32_round_trip(TRUETYPE_FLAVOR as int, file.skip(8));
    be32_round_trip(len, file.skip(12));
    be16_round_trip(n, file.skip(14));
    be16_round_trip(0, file.skip(16));
    be32_round_trip(sfnt, file.skip(20));
    be32_round_trip(compressed, file.skip(24));
    header_zeros_are_zero();
    assert forall|i: int| 24 <= i < HEADER_SIZE implies file[i] == 0 by {
        assert(file[i] == file.skip(24)[i - 24]);
        assert(zeros[i - 24] == 0);
    }
}

/// The fields of a file's header, each as far as its 16 or 32 bits can hold it.
pub proof fn header_of_file(tables: Seq<(Tag, Seq<u8>)>, stream: Seq<u8>)
    ensures
        ({
            let file = woff2_file(tables, stream);
            &&& read32(file) == WOFF2_SIGNATURE
            &&& read32(file.skip(4)) == TRUETYPE_FLAVOR
            &&& read32(file.skip(8)) == file.len() % 0x1_0000_0000
            &&& read16(file.skip(12)) == tables.len() % 0x1_0000
            &&& read16(file.skip(14)) == 0
            &&& read32(file.skip(16)) == sfnt_size(tables) % 0x1_0000_0000
            &&& read32(file.skip(20)) == stream.len() % 0x1_0000_0000
            &&& forall|i: int| 24 <= i < HEADER_SIZE ==> file[i] == 0
        }),
{
    let file = woff2_file(tables, stream);
    let body = directory(tables) + stream;
    let size = HEADER_SIZE + body.len();
    let rest = body + Seq::new((round4(size) - size) as nat, |i: int| 0u8);
    woff2_file_is_aligned(tables, stream);
    let header = woff2_header(
        file.len() as int,
        tables.len() as int,
        sfnt_size(tables),
        stream.len() as int,
    );
    assert(file =~= header + rest);
    header_reads_back(
        file.len() as int,
        tables.len() as int,
        sfnt_size(tables),
        stream.len() as int,
        rest,
    );
}

/// The header of a file says what the file is: the signature, the flavor, the file's own
/// length, the number of tables, the size of the font once unpacked, and the size of the
/// compressed data; all else in it is zero.
pub proof fn woff2_header_reads_back(tables: Seq<(Tag, Seq<u8>)>, stream: Seq<u8>)
    requires
        tables.len() <= u16::MAX,
        woff2_file(tables, stream).len() <= u32::MAX,
        sfnt_size(tables) <= u32::MAX,
    ensures
        ({
            let file = woff2_file(tables, stream);
            &&& read32(file) == WOFF2_SIGNATURE
            &&& read32(file.skip(4)) == TRUETYPE_FLAVOR
            &&& read32(file.skip(8)) == file.len()
            &&& read16(file.skip(12)) == tables.len()
            &&& read16(file.skip(14)) == 0
            &&& read32(file.skip(16)) == sfnt_size(tables)
            &&& read32(file.skip(20)) == stream.len()
            &&& forall|i: int| 24 <= i < HEADER_SIZE ==> file[i] == 0
        }),
{
    header_of_file(tables, stream);
    padded_total_grows(tables, 0);
    woff2_file_is_aligned(tables, stream);
    small_mod(woff2_file(tables, stream).len() as int, 0x1_0000_0000);
    small_mod(tables.len() as int, 0x1_0000);
    small_mod(sfnt_size(tables), 0x1_0000_0000);
    small_mod(stream.len() as int, 0x1_0000_0000);
}

proof fn small_mod(v: int, m: int)
    requires
        0 <= v < m,
    ensures
        v % m == v,
{
    vstd::arithmetic::div_mod::lemma_small_mod(v as nat, m as nat);
}

/// Behind the header stands the directory, and behind that the compressed data: reading the
/// directory gives every table's tag and length and leaves the stream, with at most three
/// zeros behind it.
pub proof fn woff2_directory_reads_back(tables: Seq<(Tag, Seq<u8>)>, stream: Seq<u8>)
    requires
        forall|i: int| 0 <= i < tables.len() ==> #[trigger] tables[i].1.len() <= u32::MAX,
    ensures
        ({
            let file = woff2_file(tables, stream);
            &&& read_directory(file.skip(HEADER_SIZE as int), tables.len()) matches Some(
                (entries, rest),
            )
            &&& entries == directory_entries(tables)
            &&& stream.len() <= rest.len() < stream.len() + 4
            &&& rest.take(stream.len() as int) == stream
            &&& forall|i: int| stream.len() <= i < rest.len() ==> rest[i] == 0
        }),
{
    let file = woff2_file(tables, stream);
    let body = directory(tables) + stream;
    let size = HEADER_SIZE + body.len();
    let padding = Seq::new((round4(size) - size) as nat, |i: int| 0u8);
    woff2_file_is_aligned(tables, stream);
    assert(file.skip(HEADER_SIZE as int) =~= directory(tables) + (stream + padding));
    directory_round_trip(tables, stream + padding);
    assert((stream + padding).take(stream.len() as int) =~= stream);
}

/// The compressed data of a WOFF2 file whose directory has a length: what stands behind the
/// directory, as long as the header says.
pub open spec fn stream_of(file: Seq<u8>, directory_len: nat) -> Seq<u8> {
    file.subrange(
        HEADER_SIZE + directory_len,
        HEADER_SIZE + directory_len + read32(file.skip(20)),
    )
}

/// The compressed data stands behind the directory, as long as the header says, whatever the
/// number of tables and their sizes.
pub proof fn woff2_stream_reads_back(tables: Seq<(Tag, Seq<u8>)>, stream: Seq<u8>)
    requires
        stream.len() <= u32::MAX,
    ensures
        stream_of(woff2_file(tables, stream), directory(tables).len()) == stream,
{
    let file = woff2_file(tables, stream);
    let body = directory(tables) + stream;
    let size = HEADER_SIZE + body.len();
    let padding = Seq::new((round4(size) - size) as nat, |i: int| 0u8);
    header_of_file(tables, stream);
    small_mod(stream.len() as int, 0x1_0000_0000);
    woff2_file_is_aligned(tables, stream);
    assert(file.skip(HEADER_SIZE as int) =~= directory(tables) + (stream + padding));
    assert(stream_of(file, directory(tables).len()) =~= stream) by {
        let d = directory(tables).len() as int;
        assert forall|i: int| 0 <= i < stream.len() implies file[HEADER_SIZE + d + i]
            == stream[i] by {
            assert(file[HEADER_SIZE + d + i] == file.skip(HEADER_SIZE as int)[d + i]);
        }
    }
}

/// Where the data of table `i` starts in the uncompressed stream.
pub open spec fn payload_offset(tables: Seq<(Tag, Seq<u8>)>, i: int) -> int {
    payload(tables.take(i)).len() as int
}

/// Each table's bytes stand in the uncompressed stream, from the end of the table before it to
/// the start of the one behind it; so the lengths in the directory are enough to take the
/// stream apart again.
pub proof fn payload_holds_every_table(tables: Seq<(Tag, Seq<u8>)>, i: int)
    requires
        0 <= i < tables.len(),
    ensures
        payload_offset(tables, 0) == 0,
        payload_offset(tables, i + 1) == payload_offset(tables, i) + tables[i].1.len(),
        payload_offset(tables, i + 1) <= payload(tables).len(),
        payload_offset(tables, tables.len() as int) == payload(tables).len(),
        payload(tables).subrange(payload_offset(tables, i), payload_offset(tables, i + 1))
            == tables[i].1,
    decreases tables.len(),
{
    let blobs = Seq::new(tables.len(), |k: int| tables[k].1);
    assert(tables.take(tables.len() as int) =~= tables);
    assert(tables.take(0) =~= Seq::empty());
    let front = tables.drop_last();
    let front_blobs = Seq::new(front.len(), |k: int| front[k].1);
    assert(blobs.drop_last() =~= front_blobs);
    assert(payload(tables) == payload(front) + tables.last().1);
    assert(Seq::new(tables.take(0).len(), |k: int| tables.take(0)[k].1) =~= Seq::empty());
    if i < tables.len() - 1 {
        payload_holds_every_table(front, i);
        assert(front.take(i) =~= tables.take(i));
        assert(front.take(i + 1) =~= tables.take(i + 1));
        assert(payload(tables).subrange(payload_offset(tables, i), payload_offset(tables, i + 1))
            =~= payload(front).subrange(payload_offset(front, i), payload_offset(front, i + 1)));
    } else {
        assert(tables.take(i) =~= front);
        assert(payload(tables).subrange(payload_offset(tables, i), payload_offset(tables, i + 1))
            =~= tables[i].1);
    }
}

/// Takes data apart into tables of the given lengths; all of it must be used up.
pub open spec fn cut(entries: Seq<(Tag, int, nat)>, data: Seq<u8>) -> Option<Seq<(Tag, Seq<u8>)>>
    decreases entries.len(),
{
    if entries.len() == 0 {
        if data.len() == 0 {
            Some(Seq::empty())
        } else {
            None
        }
    } else {
        let (tag, _, len) = entries[0];
        if len > data.len() {
            None
        } else {
            match cut(entries.skip(1), data.skip(len as int)) {
                Some(rest) => Some(seq![(tag, data.take(len as int))] + rest),
                None => None,
            }
        }
    }
}

/// Whether every entry marks its table as stored untransformed: with version 3 where the table is
/// `glyf` or `loca`, and with version 0 anywhere else.
pub open spec fn untransformed(entries: Seq<(Tag, int, nat)>) -> bool {
    forall|i: int|
        0 <= i < entries.len() ==> (#[trigger] entries[i]).1 == (if entries[i].0.code == 0x676c_7966
            || entries[i].0.code == 0x6c6f_6361 {
            3int
        } else {
            0
        })
}

/// Reads the tables out of a WOFF2 file that stores all of them untransformed: the header says
/// how many entries the directory has and how long the stream behind it is, and the data that
/// the stream decompresses to is taken apart by the lengths in the directory. A file in which an
/// entry announces a transform is refused.
pub open spec fn read_woff2(file: Seq<u8>) -> Option<Seq<(Tag, Seq<u8>)>> {
    match read_directory(file.skip(HEADER_SIZE as int), read16(file.skip(12)) as nat) {
        Some((entries, rest)) if untransformed(entries) => match brotli_decoded(
            rest.take(read32(file.skip(20))),
        ) {
            Some(data) => cut(entries, data),
            None => None,
        },
        _ => None,
    }
}

/// What the directory says of tables.
pub open spec fn directory_entries(tables: Seq<(Tag, Seq<u8>)>) -> Seq<(Tag, int, nat)> {
    Seq::new(
        tables.len(),
        |i: int| (tables[i].0, null_transform(tables[i].0.code), tables[i].1.len()),
    )
}

proof fn payload_is_cut(tables: Seq<(Tag, Seq<u8>)>)
    ensures
        cut(directory_entries(tables), payload(tables)) == Some(tables),
    decreases tables.len(),
{
    let entries = directory_entries(tables);
    let data = payload(tables);
    let blobs = Seq::new(tables.len(), |i: int| tables[i].1);
    if tables.len() == 0 {
        assert(tables =~= Seq::empty());
    } else {
        let tail = tables.skip(1);
        let tail_blobs = Seq::new(tail.len(), |i: int| tail[i].1);
        concat_from_front(blobs);
        assert(blobs.skip(1) =~= tail_blobs);
        assert(data =~= tables[0].1 + payload(tail));
        assert(entries.skip(1) =~= directory_entries(tail));
        assert(data.take(tables[0].1.len() as int) =~= tables[0].1);
        assert(data.skip(tables[0].1.len() as int) =~= payload(tail));
        payload_is_cut(tail);
        assert(seq![(tables[0].0, tables[0].1)] + tail =~= tables);
    }
}

/// The bytes of a table are no more than the padded sizes of all tables.
pub proof fn table_within_total(tables: Seq<(Tag, Seq<u8>)>, i: int)
    requires
        0 <= i < tables.len(),
    ensures
        tables[i].1.len() <= padded_total(tables),
{
    padded_total_grows(tables, i);
    padded_total_grows(tables, i + 1);
    assert(tables.take(i + 1).drop_last() =~= tables.take(i));
    assert(tables.take(i + 1).last() == tables[i]);
}

/// The tables can be read back from a WOFF2 file whose stream decompresses to their bytes, where
/// the numbers in the header and the directory can hold the sizes.
pub proof fn woff2_reads_back(tables: Seq<(Tag, Seq<u8>)>, stream: Seq<u8>)
    requires
        tables.len() <= u16::MAX,
        sfnt_size(tables) <= u32::MAX,
        woff2_file(tables, stream).len() <= u32::MAX,
        brotli_decoded(stream) == Some(payload(tables)),
    ensures
        read_woff2(woff2_file(tables, stream)) == Some(tables),
{
    woff2_header_reads_back(tables, stream);
    assert forall|i: int| 0 <= i < tables.len() implies #[trigger] tables[i].1.len()
        <= u32::MAX by {
        table_within_total(tables, i);
    }
    woff2_directory_reads_back(tables, stream);
    payload_is_cut(tables);
    assert(untransformed(directory_entries(tables)));
}

// ---------------------------------------------------------------------------
// What the format asks for, in numbers
// ---------------------------------------------------------------------------

/// The version that marks a table as untransformed is 3 for `glyf` and `loca`, and 0 for every
/// other tag.
pub proof fn untransformed_versions(code: u32)
    ensures
        null_transform(code) == 3 <==> code == 0x676c_7966 || code == 0x6c6f_6361,
        null_transform(code) == 0 <==> code != 0x676c_7966 && code != 0x6c6f_6361,
{
}

/// In the directory read back from a file, every entry has its table's tag and length, and a
/// version that marks the table as stored untransformed: 3 exactly where the tag is `glyf` or
/// `loca`, and 0 for every other tag.
pub proof fn directory_announces_no_transform(
    tables: Seq<(Tag, Seq<u8>)>,
    stream: Seq<u8>,
    i: int,
)
    requires
        forall|k: int| 0 <= k < tables.len() ==> #[trigger] tables[k].1.len() <= u32::MAX,
        0 <= i < tables.len(),
    ensures
        read_directory(woff2_file(tables, stream).skip(48), tables.len()) matches Some((entries, _))
            && entries.len() == tables.len() && entries[i].0 == tables[i].0 && entries[i].2
            == tables[i].1.len() && (entries[i].1 == 3 <==> tables[i].0.code == 0x676c_7966
            || tables[i].0.code == 0x6c6f_6361) && (entries[i].1 == 0 <==> tables[i].0.code
            != 0x676c_7966 && tables[i].0.code != 0x6c6f_6361),
{
    woff2_directory_reads_back(tables, stream);
}

/// The first byte of a directory entry: the version that marks the table as untransformed in the
/// upper two bits, and in the lower six the tag's index, or 63 where the tag follows.
pub proof fn first_byte_of_an_entry(tag: Tag, len: nat)
    ensures
        directory_entry(tag, len).len() >= 2,
        directory_entry(tag, len)[0] / 64 == (if tag.code == 0x676c_7966 || tag.code
            == 0x6c6f_6361 {
            3int
        } else {
            0
        }),
        directory_entry(tag, len)[0] % 64 == (match tag_index(tag.code) {
            Some(index) => index as int,
            None => 63,
        }),
        tag_index(tag.code) is None ==> read32(directory_entry(tag, len).skip(1)) == tag.code,
{
    tag_index_is_position(tag.code);
    let entry = directory_entry(tag, len);
    if tag_index(tag.code) is None {
        let lens = base128(len % 0x1_0000_0000);
        assert(entry.skip(1) =~= be32(tag.code as int) + lens);
        be32_round_trip(tag.code as int, lens);
        small_mod(tag.code as int, 0x1_0000_0000);
    }
}

/// The indices that the format gives to tags.
pub proof fn indices_of_the_format()
    ensures
        tag_index(0x636d_6170) == Some(0u8),  // cmap
        tag_index(0x6865_6164) == Some(1u8),  // head
        tag_index(0x6868_6561) == Some(2u8),  // hhea
        tag_index(0x686d_7478) == Some(3u8),  // hmtx
        tag_index(0x6d61_7870) == Some(4u8),  // maxp
        tag_index(0x6e61_6d65) == Some(5u8),  // name
        tag_index(0x4f53_2f32) == Some(6u8),  // OS/2
        tag_index(0x706f_7374) == Some(7u8),  // post
        tag_index(0x6376_7420) == Some(8u8),  // cvt
        tag_index(0x6670_676d) == Some(9u8),  // fpgm
        tag_index(0x676c_7966) == Some(10u8),  // glyf
        tag_index(0x6c6f_6361) == Some(11u8),  // loca
        tag_index(0x7072_6570) == Some(12u8),  // prep
        forall|code: u32| #[trigger] tag_index(code) matches Some(index) ==> index < 13,
        forall|a: u32, b: u32| #[trigger]
            tag_index(a) is Some && #[trigger] tag_index(b) == tag_index(a) ==> a == b,
{
}

/// The header in numbers: `wOF2`, the TrueType version, the file's length, the number of tables,
/// the size of the unpacked font, and the length of the compressed data.
pub proof fn header_in_numbers(tables: Seq<(Tag, Seq<u8>)>, stream: Seq<u8>)
    requires
        tables.len() <= u16::MAX,
        woff2_file(tables, stream).len() <= u32::MAX,
        sfnt_size(tables) <= u32::MAX,
    ensures
        ({
            let file = woff2_file(tables, stream);
            &&& file.len() >= 48
            &&& read32(file) == 0x774f_4632
            &&& read32(file.skip(4)) == 0x0001_0000
            &&& read32(file.skip(8)) == file.len()
            &&& read16(file.skip(12)) == tables.len()
            &&& read16(file.skip(14)) == 0
            &&& read32(file.skip(16)) == sfnt_size(tables)
            &&& read32(file.skip(20)) == stream.len()
            &&& forall|i: int| 24 <= i < 48 ==> file[i] == 0
        }),
{
    woff2_header_reads_back(tables, stream);
    woff2_file_is_aligned(tables, stream);
}

/// A file is as long as its header, its directory and its compressed data, and no more than three
/// zeros that make its length a multiple of four.
pub proof fn file_ends_with_its_stream(tables: Seq<(Tag, Seq<u8>)>, stream: Seq<u8>)
    ensures
        ({
            let file = woff2_file(tables, stream);
            let d = directory(tables).len() as int;
            let size = 48 + d + stream.len();
            &&& file.len() % 4 == 0
            &&& size <= file.len() < size + 4
            &&& file.subrange(48 + d, size) == stream
            &&& file.subrange(48, 48 + d) == directory(tables)
            &&& forall|i: int| size <= i < file.len() ==> file[i] == 0
        }),
{
    let file = woff2_file(tables, stream);
    let body = directory(tables) + stream;
    let size = HEADER_SIZE + body.len();
    let padding = Seq::new((round4(size) - size) as nat, |i: int| 0u8);
    woff2_file_is_aligned(tables, stream);
    let rest = file.skip(48);
    assert(rest =~= directory(tables) + (stream + padding));
    let d = directory(tables).len() as int;
    assert forall|i: int| 48 <= i < file.len() implies #[trigger] file[i] == rest[i - 48] by {}
    assert(file.subrange(48 + d, size as int) =~= stream);
    assert(file.subrange(48, 48 + d) =~= directory(tables));
}

/// Rounding up to a multiple of four adds at most three.
pub proof fn rounded_up_to_four(len: int)
    ensures
        round4(len) % 4 == 0,
        len <= round4(len) < len + 4,
{
}

/// The size of the unpacked font: 12 bytes, and for each table 16 and its own length rounded up to
/// a multiple of four.
pub proof fn sizes_add_up(
    a: Seq<(Tag, Seq<u8>)>,
    b: Seq<(Tag, Seq<u8>)>,
    table: (Tag, Seq<u8>),
)
    ensures
        sfnt_size(Seq::empty()) == 12,
        sfnt_size(seq![table]) % 4 == 0,
        28 + table.1.len() <= sfnt_size(seq![table]) < 32 + table.1.len(),
        sfnt_size(a + b) == sfnt_size(a) + sfnt_size(b) - 12,
{
    let none = seq![table].drop_last();
    assert(none =~= Seq::<(Tag, Seq<u8>)>::empty());
    assert(padded_total(none) == 0);
    assert(padded_total(seq![table]) == round4(table.1.len() as int));
    padded_totals_add_up(a, b);
}

proof fn padded_totals_add_up(a: Seq<(Tag, Seq<u8>)>, b: Seq<(Tag, Seq<u8>)>)
    ensures
        padded_total(a + b) == padded_total(a) + padded_total(b),
    decreases b.len(),
{
    if b.len() == 0 {
        assert(a + b =~= a);
    } else {
        padded_totals_add_up(a, b.drop_last());
        assert((a + b).drop_last() =~= a + b.drop_last());
    }
}

/// The tables' raw bytes are put one after the other, and so are their directory entries.
pub proof fn tables_are_put_in_order(
    a: Seq<(Tag, Seq<u8>)>,
    b: Seq<(Tag, Seq<u8>)>,
    table: (Tag, Seq<u8>),
)
    ensures
        payload(seq![table]) == table.1,
        payload(a + b) == payload(a) + payload(b),
        directory(seq![table]) == directory_entry(table.0, table.1.len()),
        directory(a + b) == directory(a) + directory(b),
{
    assert(Seq::new(1, |i: int| seq![table][i].1) =~= seq![table.1]);
    assert(Seq::new(1, |i: int| directory_entry(seq![table][i].0, seq![table][i].1.len())) =~= seq![
        directory_entry(table.0, table.1.len()),
    ]);
    concat_of_one(table.1);
    concat_of_one(directory_entry(table.0, table.1.len()));
    assert(Seq::new((a + b).len(), |i: int| (a + b)[i].1) =~= Seq::new(a.len(), |i: int| a[i].1)
        + Seq::new(b.len(), |i: int| b[i].1));
    assert(Seq::new((a + b).len(), |i: int| directory_entry((a + b)[i].0, (a + b)[i].1.len()))
        =~= Seq::new(a.len(), |i: int| directory_entry(a[i].0, a[i].1.len())) + Seq::new(
        b.len(),
        |i: int| directory_entry(b[i].0, b[i].1.len()),
    ));
    concat_of_two_runs(Seq::new(a.len(), |i: int| a[i].1), Seq::new(b.len(), |i: int| b[i].1));
    concat_of_two_runs(
        Seq::new(a.len(), |i: int| directory_entry(a[i].0, a[i].1.len())),
        Seq::new(b.len(), |i: int| directory_entry(b[i].0, b[i].1.len())),
    );
}

/// The contents of a table list are the tables' tags and bytes, in order.
pub proof fn contents_of_tables(tables: Seq<(Tag, Vec<u8>)>, i: int)
    requires
        0 <= i < tables.len(),
    ensures
        table_contents(tables).len() == tables.len(),
        table_contents(tables)[i].0 == tables[i].0,
        table_contents(tables)[i].1 == tables[i].1@,
{
}

/// Brotli works its hardest, at quality 11 and with a window of 2^24 bytes, on all of the tables'
/// bytes, and is told how many they are.
pub proof fn tables_are_compressed_hard(file: Seq<u8>, tables: Seq<(Tag, Seq<u8>)>)
    requires
        packs(file, tables),
    ensures
        exists|stream: Seq<u8>|
            {
                &&& file == #[trigger] woff2_file(tables, stream)
                &&& compressed_from(
                    stream,
                    payload(tables),
                    11,
                    24,
                    payload(tables).len() as usize,
                )
                &&& brotli_decoded(stream) == Some(payload(tables))
            },
{
    let stream = choose|stream: Seq<u8>|
        compresses(stream, tables) && brotli_decoded(stream) == Some(payload(tables)) && file
            == #[trigger] woff2_file(tables, stream);
    assert(file == woff2_file(tables, stream));
}

/// An error keeps what brotli says, behind words of its own that only depend on it.
pub proof fn compression_failure_keeps_the_error(inner: Seq<char>)
    ensures
        compression_failure(inner).len() == 27 + inner.len(),
        compression_failure(inner).skip(27) == inner,
        compression_failure(inner).take(27) == "brotli compression failed: "@,
{
    reveal_strlit("brotli compression failed: ");
    assert(compression_failure(inner).skip(27) =~= inner);
    assert(compression_failure(inner).take(27) =~= "brotli compression failed: "@);
}

/// A length below 128 is written as a single byte. Any other one is written as the length without
/// its last seven bits is, every byte marked as one that another follows, and then those bits.
pub proof fn lengths_are_written_by_sevens(v: nat)
    ensures
        v < 0x80 ==> base128(v) == seq![v as u8],
        v >= 0x80 ==> {
            let (front, all) = (base128(v / 0x80), base128(v));
            &&& all.len() == front.len() + 1
            &&& all.last() == v % 0x80
            &&& forall|i: int|
                0 <= i < front.len() ==> #[trigger] all[i] == (if front[i] < 0x80 {
                    front[i] + 0x80
                } else {
                    front[i] as int
                })
        },
{
    if v < 0x80 {
        assert(base128_leading(v / 128) =~= Seq::<u8>::empty());
        assert(base128(v) =~= seq![v as u8]);
    } else {
        let (front, all) = (base128(v / 0x80), base128(v));
        let leading = base128_leading(v / 128 / 128);
        leading_bytes_are_marked(v / 128 / 128);
        assert(base128_leading(v / 128) == leading.push((v / 128 % 128 + 128) as u8));
        assert forall|i: int| 0 <= i < front.len() implies #[trigger] all[i] == (if front[i]
            < 0x80 {
            front[i] + 0x80
        } else {
            front[i] as int
        }) by {
            if i < leading.len() {
                assert(all[i] == leading[i] && front[i] == leading[i]);
            }
        }
    }
}

proof fn leading_bytes_are_marked(v: nat)
    ensures
        forall|i: int|
            0 <= i < base128_leading(v).len() ==> #[trigger] base128_leading(v)[i] >= 0x80,
    decreases v,
{
    if v > 0 {
        let front = base128_leading(v / 128);
        leading_bytes_are_marked(v / 128);
        assert forall|i: int| 0 <= i < base128_leading(v).len() implies #[trigger] base128_leading(
            v,
        )[i] >= 0x80 by {
            if i < front.len() {
                assert(base128_leading(v)[i] == front[i]);
            }
        }
    }
}

/// A directory entry holds the length of its table as far as 32 bits can.
pub proof fn entries_keep_the_low_bits_of_lengths(tag: Tag, len: nat, q: nat)
    requires
        len < 0x1_0000_0000,
    ensures
        directory_entry(tag, len + 0x1_0000_0000 * q) == directory_entry(tag, len),
{
    assert((len + 0x1_0000_0000 * q) % 0x1_0000_0000 == len % 0x1_0000_0000);
}

} // verus!
