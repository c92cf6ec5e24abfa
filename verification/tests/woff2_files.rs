use iconpacker::tag::Tag;
use iconpacker::woff2::{
    assemble_woff2, build_woff2, finish_woff2, known_tag_index, pad4, write_uint_base128,
};

fn base128(value: u32) -> Vec<u8> {
    let mut out = Vec::new();
    write_uint_base128(&mut out, value);
    out
}

fn be16(bytes: &[u8], at: usize) -> u32 {
    bytes[at] as u32 * 256 + bytes[at + 1] as u32
}

fn be32(bytes: &[u8], at: usize) -> u32 {
    be16(bytes, at) * 65536 + be16(bytes, at + 2)
}

#[test]
fn base128_values() {
    assert_eq!(base128(0), vec![0]);
    assert_eq!(base128(63), vec![0x3f]);
    assert_eq!(base128(127), vec![0x7f]);
    assert_eq!(base128(128), vec![0x81, 0x00]);
    assert_eq!(base128(16383), vec![0xff, 0x7f]);
    assert_eq!(base128(16384), vec![0x81, 0x80, 0x00]);
    assert_eq!(base128(u32::MAX), vec![0x8f, 0xff, 0xff, 0xff, 0x7f]);
}

#[test]
fn base128_appends() {
    let mut out = vec![9];
    write_uint_base128(&mut out, 300);
    assert_eq!(out, vec![9, 0x82, 0x2c]);
}

#[test]
fn lengths_are_padded_to_four() {
    assert_eq!(pad4(0), 0);
    assert_eq!(pad4(1), 4);
    assert_eq!(pad4(4), 4);
    assert_eq!(pad4(5), 8);
}

#[test]
fn indexed_tags_have_their_indices() {
    let tags: [&[u8; 4]; 10] = [
        b"cmap", b"head", b"hhea", b"hmtx", b"maxp", b"name", b"OS/2", b"post", b"glyf", b"loca",
    ];
    let indices = [0, 1, 2, 3, 4, 5, 6, 7, 10, 11];
    for (tag, index) in tags.iter().zip(indices) {
        assert_eq!(known_tag_index(Tag::new(tag)), Some(index));
    }
    assert_eq!(known_tag_index(Tag::new(b"cvt ")), Some(8));
    assert_eq!(known_tag_index(Tag::new(b"fpgm")), Some(9));
    assert_eq!(known_tag_index(Tag::new(b"prep")), Some(12));
    assert_eq!(known_tag_index(Tag::new(b"zzzz")), None);
}

#[test]
fn tags_are_four_bytes() {
    let tag = Tag::new(b"OS/2");
    assert_eq!(tag.code, 0x4f53_2f32);
    assert_eq!(tag.into_bytes(), *b"OS/2");
    assert_eq!(tag.to_text(), "OS/2");
    assert_eq!(Tag::new(&[0xff, 0, 1, 0x80]).into_bytes(), [0xff, 0, 1, 0x80]);
}

#[test]
fn a_small_file_byte_by_byte() {
    let tables = vec![(Tag::new(b"head"), vec![1, 2, 3, 4, 5]), (Tag::new(b"glyf"), vec![7; 200])];
    let file = assemble_woff2(&tables, &[0xaa, 0xbb, 0xcc]);
    let mut expected = Vec::new();
    expected.extend_from_slice(b"wOF2");
    expected.extend_from_slice(&[0, 1, 0, 0]);
    expected.extend_from_slice(&[0, 0, 0, 56]);
    expected.extend_from_slice(&[0, 2, 0, 0]);
    expected.extend_from_slice(&[0, 0, 0, 252]);
    expected.extend_from_slice(&[0, 0, 0, 3]);
    expected.extend_from_slice(&[0; 24]);
    expected.extend_from_slice(&[0x01, 0x05, 0xca, 0x81, 0x48]);
    expected.extend_from_slice(&[0xaa, 0xbb, 0xcc]);
    assert_eq!(file, expected);
}

#[test]
fn an_unindexed_tag_is_spelled_out() {
    let file = assemble_woff2(&[(Tag::new(b"abcd"), vec![0; 3])], &[]);
    assert_eq!(&file[48..54], &[0x3f, b'a', b'b', b'c', b'd', 3]);
    assert_eq!(file.len(), 56);
    assert_eq!(&file[54..], &[0, 0]);
}

#[test]
fn glyf_and_loca_are_marked_as_untransformed() {
    let tables = vec![(Tag::new(b"loca"), vec![]), (Tag::new(b"cmap"), vec![])];
    let file = assemble_woff2(&tables, &[]);
    assert_eq!(&file[48..52], &[0xcb, 0, 0x00, 0]);
}

#[test]
fn a_file_without_tables() {
    let file = assemble_woff2(&[], &[]);
    assert_eq!(file.len(), 48);
    assert_eq!(be32(&file, 8), 48);
    assert_eq!(be16(&file, 12), 0);
    assert_eq!(be32(&file, 16), 12);
}

#[test]
fn the_compressed_stream_holds_every_table() {
    let tables = vec![
        (Tag::new(b"head"), (0..54).collect::<Vec<u8>>()),
        (Tag::new(b"cmap"), vec![3; 1001]),
        (Tag::new(b"loca"), vec![]),
        (Tag::new(b"post"), vec![1, 2, 3]),
    ];
    let file = build_woff2(&tables).unwrap();
    assert_eq!(file.len() % 4, 0);
    assert_eq!(be32(&file, 8) as usize, file.len());
    assert_eq!(be16(&file, 12), 4);
    assert_eq!(be32(&file, 16), 12 + 64 + 56 + 1004 + 4);
    let compressed = be32(&file, 20) as usize;
    let start = 48 + 2 + 3 + 2 + 2;
    assert_eq!(file.len(), (start + compressed + 3) / 4 * 4);
    let mut unpacked = Vec::new();
    let stream = &file[start..start + compressed];
    brotli::BrotliDecompress(&mut std::io::Cursor::new(stream), &mut unpacked).unwrap();
    let mut payload = Vec::new();
    for (_, data) in &tables {
        payload.extend_from_slice(data);
    }
    assert_eq!(unpacked, payload);
    assert!(compressed < payload.len());
}

#[test]
fn both_outcomes_of_compressing() {
    let tables = vec![(Tag::new(b"name"), vec![5; 77])];
    let stream = vec![1, 2, 3];
    assert_eq!(finish_woff2(&tables, Ok(stream.clone())), Ok(assemble_woff2(&tables, &stream)));
    assert_eq!(
        finish_woff2(&tables, Err("out of luck".to_string())),
        Err("brotli compression failed: out of luck".to_string())
    );
}

#[test]
fn building_and_assembling_agree() {
    let tables = vec![(Tag::new(b"name"), vec![5; 77])];
    let built = build_woff2(&tables).unwrap();
    let compressed = be32(&built, 20) as usize;
    let stream = built[50..50 + compressed].to_vec();
    assert_eq!(assemble_woff2(&tables, &stream), built);
}
