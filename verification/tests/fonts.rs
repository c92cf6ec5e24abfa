use iconpacker::font::{
    build_font, build_font_tables, build_tables, can_encode, char_mappings, name_records,
    reaches_names, sfnt_fits, try_build_font, try_build_font_tables, FontGlyph,
};
use iconpacker::glyf::{is_encodable, join, Bbox, CurvePoint};
use iconpacker::limits::{is_buildable, is_measurable, is_nameable, replays};
use iconpacker::metrics::{
    avg_advance, char_range, enclose, horizontal_metrics, max_advance, max_counts,
    min_right_bearing,
};
use iconpacker::outline::{GlyphOutline, GlyphPoint};
use iconpacker::sfnt::assemble_sfnt;
use iconpacker::tables::LongMetric;
use iconpacker::tag::Tag;
use iconpacker::woff2::build_woff2;

fn on(x: i32, y: i32) -> GlyphPoint {
    GlyphPoint { x, y, on_curve: true }
}

fn off(x: i32, y: i32) -> GlyphPoint {
    GlyphPoint { x, y, on_curve: false }
}

fn glyph(codepoint: u32, contours: Vec<Vec<GlyphPoint>>, advance_width: i32) -> FontGlyph {
    FontGlyph { codepoint, outline: GlyphOutline { contours, advance_width } }
}

fn triangle(codepoint: u32) -> FontGlyph {
    glyph(codepoint, vec![vec![on(0, 0), on(100, 0), on(50, 100)]], 120)
}

fn bowl(codepoint: u32) -> FontGlyph {
    glyph(codepoint, vec![vec![on(-10, -20), off(40, 300), on(90, -20)]], 1000)
}

fn table(tables: &[(Tag, Vec<u8>)], tag: &[u8; 4]) -> Vec<u8> {
    tables.iter().find(|t| t.0 == Tag::new(tag)).unwrap().1.clone()
}

fn be16(bytes: &[u8], at: usize) -> i32 {
    i16::from_be_bytes([bytes[at], bytes[at + 1]]) as i32
}

fn be32(bytes: &[u8], at: usize) -> u32 {
    u32::from_be_bytes([bytes[at], bytes[at + 1], bytes[at + 2], bytes[at + 3]])
}

const TRIANGLE_BYTES: [u8; 20] = [
    0, 1, 0, 0, 0, 0, 0, 100, 0, 100, 0, 2, 0, 0, 0x31, 0x33, 0x27, 100, 50, 100,
];

#[test]
fn tables_come_in_order() {
    let tables = build_font_tables(&[triangle(0xE000)], 1000, "My Icons").unwrap();
    let tags: Vec<String> = tables.iter().map(|t| t.0.to_text()).collect();
    assert_eq!(
        tags,
        vec!["head", "hhea", "maxp", "hmtx", "cmap", "name", "post", "OS/2", "glyf", "loca"]
    );
}

#[test]
fn outlines_of_a_font_with_one_glyph() {
    let tables = build_font_tables(&[triangle(0xE000)], 1000, "My Icons").unwrap();
    assert_eq!(table(&tables, b"glyf"), TRIANGLE_BYTES.to_vec());
    assert_eq!(table(&tables, b"loca"), vec![0, 0, 0, 0, 0, 10]);
    assert_eq!(table(&tables, b"hmtx"), vec![0, 0, 0, 0, 0, 120, 0, 0]);
}

#[test]
fn a_glyph_is_made_of_its_curves() {
    let tables = build_font_tables(&[bowl(0x41)], 1000, "x").unwrap();
    let glyf = table(&tables, b"glyf");
    assert_eq!(&glyf[..12], &[0, 1, 0xff, 0xf6, 0xff, 0xec, 0, 90, 1, 44, 0, 2]);
    assert_eq!(glyf[14] & 1, 1);
    assert_eq!(glyf[15] & 1, 0);
    assert_eq!(glyf[16] & 1, 1);
}

#[test]
fn head_of_a_font() {
    let tables = build_font_tables(&[triangle(0xE000), bowl(0xE001)], 2048, "x").unwrap();
    let mut expected = vec![0, 1, 0, 0, 0, 1, 0, 0, 0, 0, 0, 0, 0x5f, 0x0f, 0x3c, 0xf5, 0, 0, 8, 0];
    expected.extend_from_slice(&[0; 16]);
    expected.extend_from_slice(&[0xff, 0xf6, 0xff, 0xec, 0, 100, 1, 44]);
    expected.extend_from_slice(&[0, 0, 0, 8, 0, 2, 0, 0, 0, 0]);
    assert_eq!(table(&tables, b"head"), expected);
}

#[test]
fn hhea_of_a_font() {
    let tables = build_font_tables(&[triangle(0xE000), bowl(0xE001)], 1000, "x").unwrap();
    let hhea = table(&tables, b"hhea");
    assert_eq!(hhea.len(), 36);
    assert_eq!(&hhea[..4], &[0, 1, 0, 0]);
    assert_eq!(be16(&hhea, 4), 300);
    assert_eq!(be16(&hhea, 6), -20);
    assert_eq!(be16(&hhea, 8), 0);
    assert_eq!(be16(&hhea, 10), 1000);
    assert_eq!(be16(&hhea, 12), -10);
    assert_eq!(be16(&hhea, 14), 20);
    assert_eq!(be16(&hhea, 16), 100);
    assert_eq!(be16(&hhea, 18), 1);
    assert_eq!(&hhea[20..34], &[0; 14]);
    assert_eq!(be16(&hhea, 34), 3);
}

#[test]
fn maxp_of_a_font() {
    let two = glyph(0x42, vec![vec![on(0, 0), on(1, 0)], vec![on(5, 5)], vec![on(6, 6)]], 10);
    let tables = build_font_tables(&[triangle(0x41), two], 1000, "x").unwrap();
    let mut expected = vec![0, 1, 0, 0, 0, 3, 0, 4, 0, 3, 0, 0, 0, 0, 0, 1];
    expected.extend_from_slice(&[0; 16]);
    assert_eq!(table(&tables, b"maxp"), expected);
}

#[test]
fn post_of_a_font() {
    let tables = build_font_tables(&[], 1000, "x").unwrap();
    let mut expected = vec![0, 3, 0, 0];
    expected.extend_from_slice(&[0; 28]);
    assert_eq!(table(&tables, b"post"), expected);
}

#[test]
fn os2_of_a_font() {
    let tables = build_font_tables(&[triangle(0xE000), bowl(0x1E001)], 1000, "x").unwrap();
    let os2 = table(&tables, b"OS/2");
    assert_eq!(os2.len(), 78);
    assert_eq!(&os2[..10], &[0, 0, 1, 0x75, 1, 0x90, 0, 5, 0, 0]);
    assert_eq!(&os2[10..58], &[0; 48]);
    assert_eq!(&os2[58..62], b"NONE");
    assert_eq!(&os2[62..68], &[0, 0x40, 0xe0, 0, 0xe0, 1]);
    assert_eq!(&os2[68..78], &[1, 44, 0xff, 0xec, 0, 0, 1, 44, 0, 20]);
}

#[test]
fn name_of_a_font() {
    let tables = build_font_tables(&[], 1000, "My Icons").unwrap();
    let name = table(&tables, b"name");
    assert_eq!(&name[..6], &[0, 0, 0, 6, 0, 78]);
    let mut found = Vec::new();
    for i in 0..6usize {
        let at = 6 + 12 * i;
        assert_eq!(&name[at..at + 6], &[0, 3, 0, 1, 4, 9]);
        let (len, start) = (be16(&name, at + 8) as usize, 78 + be16(&name, at + 10) as usize);
        let units: Vec<u16> = name[start..start + len]
            .chunks(2)
            .map(|c| u16::from_be_bytes([c[0], c[1]]))
            .collect();
        found.push((be16(&name, at + 6), String::from_utf16(&units).unwrap()));
    }
    let expected = [
        (1, "My Icons"), (2, "Regular"), (3, "My Icons"), (4, "My Icons"), (5, "Version 1.0"),
        (6, "MyIcons"),
    ];
    assert_eq!(found, expected.map(|(id, text)| (id, text.to_string())));
}

#[test]
fn names_beyond_16_bits_are_stored_as_pairs() {
    let tables = build_font_tables(&[], 1000, "a\u{1F600}").unwrap();
    let name = table(&tables, b"name");
    assert_eq!(&name[14..16], &[0, 6]);
    let start = 78 + be16(&name, 16) as usize;
    assert_eq!(&name[start..start + 6], &[0, 0x61, 0xd8, 0x3d, 0xde, 0x00]);
}

#[test]
fn name_records_of_a_family() {
    let records = name_records(" A\tB ");
    assert_eq!(records.len(), 6);
    assert_eq!(records[0].string, " A\tB ");
    assert_eq!(records[5].string, "AB");
    assert_eq!((records[5].platform_id, records[5].encoding_id), (3, 1));
    assert_eq!((records[5].language_id, records[5].name_id), (0x0409, 6));
}

fn subtable(cmap: &[u8], format: u8) -> Vec<u8> {
    for k in 0..be16(cmap, 2) as usize {
        let sub = &cmap[be32(cmap, 8 + 8 * k) as usize..];
        if sub[..2] == [0, format] {
            return sub.to_vec();
        }
    }
    panic!("no such subtable")
}

fn cmap12_lookup(cmap: &[u8], code: u32) -> Option<u32> {
    let sub = subtable(cmap, 12);
    for g in 0..be32(&sub, 12) as usize {
        let at = 16 + 12 * g;
        let (first, last) = (be32(&sub, at), be32(&sub, at + 4));
        if first <= code && code <= last {
            return Some(be32(&sub, at + 8) + code - first);
        }
    }
    None
}

fn cmap4_lookup(cmap: &[u8], code: u16) -> Option<u16> {
    let sub = subtable(cmap, 4);
    let u = |at: usize| u16::from_be_bytes([sub[at], sub[at + 1]]);
    let n = u(6) as usize / 2;
    for i in 0..n {
        let (end, first) = (u(14 + 2 * i), u(16 + 2 * n + 2 * i));
        if first <= code && code <= end && code != 0xFFFF {
            let delta = u(16 + 4 * n + 2 * i);
            let at = 16 + 6 * n + 2 * i;
            let offset = u(at) as usize;
            if offset == 0 {
                return Some(code.wrapping_add(delta));
            }
            return Some(u(at + offset + 2 * (code - first) as usize));
        }
    }
    None
}

#[test]
fn characters_find_their_glyphs() {
    let glyphs = vec![triangle(0xE005), bowl(0xD800), triangle(0x41), bowl(0xE004)];
    let tables = build_font_tables(&glyphs, 1000, "x").unwrap();
    let cmap = table(&tables, b"cmap");
    assert_eq!(cmap4_lookup(&cmap, 0xE005), Some(1));
    assert_eq!(cmap4_lookup(&cmap, 0x41), Some(3));
    assert_eq!(cmap4_lookup(&cmap, 0xE004), Some(4));
    assert_eq!(cmap4_lookup(&cmap, 0xE006), None);
    let loca = table(&tables, b"loca");
    assert_eq!(loca.len(), 2 * 6);
    let (from, to) = (2 * be16(&loca, 6) as usize, 2 * be16(&loca, 8) as usize);
    assert_eq!(&table(&tables, b"glyf")[from..to], &TRIANGLE_BYTES);
}

#[test]
fn characters_out_of_order_find_their_glyphs() {
    let glyphs: Vec<FontGlyph> = (0..20).map(|i| triangle(0xE000 + (i * 7) % 20)).collect();
    let tables = build_font_tables(&glyphs, 1000, "x").unwrap();
    let cmap = table(&tables, b"cmap");
    for (i, g) in glyphs.iter().enumerate() {
        assert_eq!(cmap4_lookup(&cmap, g.codepoint as u16), Some(i as u16 + 1));
    }
}

#[test]
fn characters_beyond_16_bits_find_their_glyphs() {
    let glyphs = vec![triangle(0x1F600), bowl(0x41), triangle(0x1F601), bowl(0x10FFFF), bowl(0xFFFF)];
    let tables = build_font_tables(&glyphs, 1000, "x").unwrap();
    let cmap = table(&tables, b"cmap");
    for (i, g) in glyphs.iter().enumerate() {
        assert_eq!(cmap12_lookup(&cmap, g.codepoint), Some(i as u32 + 1));
    }
    assert_eq!(cmap12_lookup(&cmap, 0x1F602), None);
    assert_eq!(cmap4_lookup(&cmap, 0x41), Some(2));
}

#[test]
fn only_characters_are_mapped() {
    let glyphs = vec![
        triangle(0xD7FF), triangle(0xD800), triangle(0xDFFF), triangle(0xE000), triangle(0x10FFFF),
        triangle(0x110000),
    ];
    assert_eq!(
        char_mappings(&glyphs),
        vec![('\u{d7ff}', 1), ('\u{e000}', 4), ('\u{10ffff}', 5)]
    );
}

#[test]
fn two_glyphs_cannot_have_the_same_character() {
    let glyphs = vec![triangle(0xE000), bowl(0xE001), triangle(0xE000)];
    let message = "Cannot map '\\u{e000}' (U+E000) to two different glyph ids: GID_1 and GID_3";
    assert_eq!(build_font_tables(&glyphs, 1000, "x").unwrap_err(), message);
    assert_eq!(build_font(&glyphs, 1000, "x").unwrap_err(), message);
    assert!(build_tables(&glyphs, 1000, "x").is_err());
}

#[test]
fn two_glyphs_may_share_what_is_no_character() {
    let glyphs = vec![triangle(0xD800), triangle(0xD800)];
    assert!(build_font(&glyphs, 1000, "x").is_ok());
}

#[test]
fn an_empty_font() {
    let tables = build_font_tables(&[], 1000, "x").unwrap();
    assert_eq!(table(&tables, b"glyf"), Vec::<u8>::new());
    assert_eq!(table(&tables, b"loca"), vec![0, 0, 0, 0]);
    assert_eq!(table(&tables, b"hmtx"), vec![0, 0, 0, 0]);
    assert_eq!(&table(&tables, b"head")[36..44], &[0; 8]);
    assert_eq!(&table(&tables, b"hhea")[4..18], &[0; 14]);
    assert_eq!(&table(&tables, b"OS/2")[64..78], &[0; 14]);
    assert!(build_font(&[], 1000, "x").is_ok());
}

#[test]
fn glyphs_without_contours_have_no_bytes() {
    let glyphs = vec![glyph(0x20, vec![], 500), triangle(0x41), glyph(0xA0, vec![vec![]], -5)];
    let tables = build_font_tables(&glyphs, 1000, "x").unwrap();
    assert_eq!(table(&tables, b"glyf").len(), 20);
    assert_eq!(table(&tables, b"loca"), vec![0, 0, 0, 0, 0, 0, 0, 10, 0, 10]);
    assert_eq!(
        table(&tables, b"hmtx"),
        vec![0, 0, 0, 0, 1, 0xf4, 0, 0, 0, 120, 0, 0, 0, 0, 0, 0]
    );
}

#[test]
fn large_fonts_have_long_offsets() {
    let mut contours = Vec::new();
    for i in 0..8000 {
        contours.push(vec![on(0, 0), on(3000 + i % 7, 11), on(i, -1500), on(17, 4000)]);
    }
    let tables = build_font_tables(&[glyph(0x41, contours, 10)], 1000, "x").unwrap();
    let glyf = table(&tables, b"glyf");
    assert!(glyf.len() >= 0x2_0000);
    let loca = table(&tables, b"loca");
    assert_eq!(loca.len(), 12);
    assert_eq!(be32(&loca, 0), 0);
    assert_eq!(be32(&loca, 4), 0);
    assert_eq!(be32(&loca, 8) as usize, glyf.len());
    assert_eq!(&table(&tables, b"head")[50..52], &[0, 1]);
}

#[test]
fn the_font_file_holds_every_table() {
    let glyphs = vec![triangle(0xE000), bowl(0xE001)];
    let tables = build_font_tables(&glyphs, 1000, "My Icons").unwrap();
    let font = build_font(&glyphs, 1000, "My Icons").unwrap();
    assert_eq!(&font[..6], &[0, 1, 0, 0, 0, 10]);
    let padded: usize = tables.iter().map(|t| (t.1.len() + 3) / 4 * 4).sum();
    assert_eq!(font.len(), 12 + 160 + padded);
    for i in 0..10usize {
        let at = 12 + 16 * i;
        let tag = Tag { code: be32(&font, at) };
        let (start, len) = (be32(&font, at + 8) as usize, be32(&font, at + 12) as usize);
        let mut data = font[start..start + len].to_vec();
        let stored = tables.iter().find(|t| t.0 == tag).unwrap().1.clone();
        if tag == Tag::new(b"head") {
            data[8..12].copy_from_slice(&[0; 4]);
        }
        assert_eq!(data, stored);
    }
    assert_eq!(checksum(&font), 0xB1B0_AFBA);
}

fn checksum(bytes: &[u8]) -> u32 {
    let mut padded = bytes.to_vec();
    while padded.len() % 4 != 0 {
        padded.push(0);
    }
    let mut sum = 0u32;
    for i in 0..padded.len() / 4 {
        sum = sum.wrapping_add(be32(&padded, 4 * i));
    }
    sum
}

#[test]
fn the_directory_is_sorted_and_aligned() {
    let tables = vec![
        (Tag::new(b"name"), vec![1, 2, 3, 4, 5]),
        (Tag::new(b"OS/2"), vec![9]),
        (Tag::new(b"head"), vec![7; 14]),
        (Tag::new(b"cmap"), vec![]),
    ];
    let font = assemble_sfnt(&tables);
    assert_eq!(font.len(), 12 + 64 + 8 + 4 + 16);
    let tags: Vec<String> =
        (0..4).map(|k| Tag { code: be32(&font, 12 + 16 * k) }.to_text()).collect();
    assert_eq!(tags, vec!["OS/2", "cmap", "head", "name"]);
    for k in 0..4usize {
        let at = 12 + 16 * k;
        let tag = Tag { code: be32(&font, at) };
        assert_eq!(be32(&font, at + 8) % 4, 0);
        let mut data = tables.iter().find(|t| t.0 == tag).unwrap().1.clone();
        assert_eq!(be32(&font, at + 12) as usize, data.len());
        if tag == Tag::new(b"head") {
            data[8..12].copy_from_slice(&[0; 4]);
        }
        assert_eq!(be32(&font, at + 4), checksum(&data));
    }
    assert_eq!(checksum(&font), 0xB1B0_AFBA);
}

#[test]
fn woff2_gives_the_size_of_the_font_file() {
    let glyphs = vec![triangle(0xE000)];
    let font = build_font(&glyphs, 1000, "x").unwrap();
    let tables = build_font_tables(&glyphs, 1000, "x").unwrap();
    let woff2 = build_woff2(&tables).unwrap();
    assert_eq!(be32(&woff2, 16) as usize, font.len());
    assert_eq!(assemble_sfnt(&tables), font);
}

#[test]
fn too_many_glyphs_cannot_be_counted() {
    let glyphs: Vec<FontGlyph> = (0..65535).map(|i| glyph(0x1_0000 + i, vec![], 1)).collect();
    assert!(is_buildable(&glyphs));
    assert!(build_tables(&glyphs, 1000, "x").is_ok());
    let inner = build_font_tables(&glyphs, 1000, "x").unwrap_err();
    assert!(inner.contains("array exceeds max length"));
    let message = build_font(&glyphs, 1000, "x").unwrap_err();
    assert_eq!(message, format!("failed to build 'hmtx' table: '{}'", inner));
}

#[test]
fn a_family_that_cannot_be_packed() {
    let family = format!("{} ", "a".repeat(32766));
    assert!(is_nameable(&family));
    let inner = build_font_tables(&[], 1000, &family).unwrap_err();
    assert_eq!(inner, "Table packing failed with 3 overflows");
    let message = build_font(&[], 1000, &family).unwrap_err();
    assert_eq!(message, format!("failed to build 'name' table: '{}'", inner));
}

#[test]
fn a_family_of_8000_units_can_be_packed() {
    let family = "\u{1F600}".repeat(4000);
    let tables = build_font_tables(&[], 1000, &family).unwrap();
    assert_eq!(table(&tables, b"name").len(), 78 + 16000 + 14 + 22);
    assert!(build_font(&[], 1000, &"a b".repeat(2666)).is_ok());
}

#[test]
fn building_twice_gives_the_same() {
    let glyphs = vec![triangle(0xE000), bowl(0x1E001)];
    assert_eq!(build_font_tables(&glyphs, 9, "x"), build_font_tables(&glyphs.clone(), 9, "x"));
    assert_eq!(build_font(&glyphs, 9, "x"), build_font(&glyphs.clone(), 9, "x"));
    let family = "a".repeat(32767);
    assert_eq!(build_font(&glyphs, 9, &family), build_font(&glyphs.clone(), 9, &family));
}

#[test]
fn a_long_family_only_matters_where_names_are_stored() {
    let family = "a".repeat(40000);
    let twice = vec![triangle(1), bowl(1)];
    assert!(!is_nameable(&family));
    assert!(reaches_names(&[triangle(1), bowl(2)]));
    assert!(!reaches_names(&twice));
    let message = "Cannot map '\\u{1}' (U+0001) to two different glyph ids: GID_1 and GID_2";
    assert_eq!(build_font_tables(&twice, 1000, &family).unwrap_err(), message);
    assert_eq!(build_font(&twice, 1000, &family).unwrap_err(), message);
    assert_eq!(try_build_font(&twice, 1000, &family), Some(Err(message.to_string())));
    assert!(build_tables(&[triangle(1)], 1000, &family).is_ok());
    let many: Vec<FontGlyph> = (0..65535).map(|i| glyph(0x1_0000 + i, vec![], 1)).collect();
    assert!(!reaches_names(&many));
}

#[test]
fn glyphs_of_an_ordinary_size_can_be_encoded() {
    let corners = vec![on(-16384, -16384), off(16383, 16383), on(16383, -16384), on(0, 16383)];
    let glyphs = vec![
        glyph(0x41, vec![corners; 16000], 10),
        glyph(0x42, vec![vec![on(5, 5)]; 32766], 10),
        glyph(0x43, vec![vec![], vec![on(1, 1), on(1, 1)]], 10),
    ];
    assert!(can_encode(&glyphs));
    assert!(try_build_font_tables(&glyphs, 1000, "x").unwrap().is_ok());
}

#[test]
fn fonts_that_can_be_built_are() {
    let glyphs = vec![triangle(0xE000), bowl(0xE001)];
    assert!(can_encode(&glyphs));
    let tables = build_font_tables(&glyphs, 1000, "x").unwrap();
    assert!(sfnt_fits(&tables));
    assert_eq!(try_build_font_tables(&glyphs, 1000, "x"), Some(Ok(tables)));
    let font = build_font(&glyphs, 1000, "x");
    assert_eq!(try_build_font(&glyphs, 1000, "x"), Some(font));
    let twice = vec![triangle(1), triangle(1)];
    assert!(try_build_font(&twice, 1000, "x").unwrap().is_err());
    assert!(try_build_font_tables(&twice, 1000, "x").unwrap().is_err());
}

#[test]
fn a_glyph_that_the_table_cannot_hold() {
    let tall = vec![glyph(0x41, vec![vec![on(0, -30000), on(0, 30000), on(9, 0)]], 10)];
    assert!(is_buildable(&tall));
    assert!(!can_encode(&tall));
    assert_eq!(try_build_font(&tall, 1000, "x"), None);
    assert_eq!(try_build_font_tables(&tall, 1000, "x"), None);
}

#[test]
fn contours_that_the_table_can_hold() {
    let p = |x: i16, y: i16| CurvePoint { x, y, on_curve: true, cubic: false };
    assert!(is_encodable(&[]));
    assert!(is_encodable(&[vec![p(-32768, 32767)], vec![p(-1, 0)]]));
    assert!(!is_encodable(&[vec![p(-32768, 0)], vec![p(0, 0)]]));
    assert!(!is_encodable(&[vec![p(0, -20000), p(0, 20000)]]));
    assert!(!is_encodable(&[vec![]]));
    assert!(is_encodable(&[vec![p(0, 0)], vec![]]));
    assert!(!is_encodable(&[vec![p(0, 0); 65536]]));
    assert!(is_encodable(&[vec![p(0, 0); 65535]]));
    assert!(!is_encodable(&vec![vec![p(0, 0)]; 32767]));
    assert!(is_encodable(&vec![vec![p(0, 0)]; 32766]));
    assert_eq!(join(&[vec![p(1, 2)], vec![], vec![p(3, 4)]]), vec![p(1, 2), p(3, 4)]);
}

#[test]
fn what_can_be_measured() {
    assert!(is_measurable(&triangle(1)));
    assert!(is_measurable(&glyph(1, vec![], 0)));
    let wide = glyph(1, vec![vec![on(-20000, 0), on(20000, 0)]], 0);
    assert!(!is_measurable(&wide));
    let clamped = glyph(1, vec![vec![on(1, 0), on(2_000_000, 0)]], 0);
    assert!(is_measurable(&clamped));
    let open = glyph(1, vec![vec![on(0, 0), off(1, 1)]], 0);
    assert!(!is_measurable(&open));
    assert!(!replays(&open.outline));
    assert!(replays(&glyph(1, vec![vec![off(0, 0)], vec![]], 0).outline));
    assert!(!is_buildable(&[wide]));
    assert!(is_buildable(&[]));
    assert!(is_nameable(&"a".repeat(32767)));
    assert!(!is_nameable(&"a".repeat(32768)));
    assert!(!is_nameable(&"\u{1F600}".repeat(16384)));
}

#[test]
fn coordinates_are_cut_off() {
    let far = glyph(0x41, vec![vec![on(1, 0), on(2_000_000, 0), on(5, 40000)]], 70000);
    let tables = build_font_tables(&[far], 1000, "x").unwrap();
    let head = table(&tables, b"head");
    assert_eq!(be16(&head, 36), 1);
    assert_eq!(be16(&head, 40), 32767);
    assert_eq!(be16(&head, 42), 32767);
    assert_eq!(&table(&tables, b"hmtx")[4..8], &[0xff, 0xff, 0, 1]);
    assert_eq!(be16(&table(&tables, b"hhea"), 14), -32768);
}

#[test]
fn metrics_of_glyphs() {
    let glyphs = vec![triangle(5), bowl(0x1_0002)];
    let boxes = vec![
        Bbox { x_min: 0, y_min: 0, x_max: 100, y_max: 100 },
        Bbox { x_min: -10, y_min: -20, x_max: 90, y_max: 300 },
    ];
    let metrics = horizontal_metrics(&glyphs, &boxes);
    assert_eq!(
        metrics,
        vec![
            LongMetric { advance: 0, side_bearing: 0 },
            LongMetric { advance: 120, side_bearing: 0 },
            LongMetric { advance: 1000, side_bearing: -10 },
        ]
    );
    assert_eq!(enclose(&boxes), Bbox { x_min: -10, y_min: -20, x_max: 100, y_max: 300 });
    assert_eq!(enclose(&[]), Bbox { x_min: 0, y_min: 0, x_max: 0, y_max: 0 });
    assert_eq!(min_right_bearing(&glyphs, &boxes), 20);
    assert_eq!(max_advance(&metrics), 1000);
    assert_eq!(avg_advance(&metrics), 373);
    assert_eq!(max_counts(&glyphs), (3, 1));
    assert_eq!(char_range(&glyphs), (2, 5));
}

#[test]
fn wide_averages_wrap() {
    let metrics = vec![LongMetric { advance: 65535, side_bearing: 0 }; 3];
    assert_eq!(avg_advance(&metrics), -1);
}
