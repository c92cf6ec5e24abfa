use iconpacker::config::{Config, GlyphEntry};
use iconpacker::glyph_map::{compare_keys, GlyphMap, KeyOrder};
use iconpacker::outline::{GlyphOutline, GlyphPoint};
use iconpacker::report::{
    count_missing, font_glyphs, glyph_row, outline_row, resolve_glyph, ResolvedGlyph, Source,
};
use iconpacker::svg::{summarize, RawOutline};

fn entry(src: &str) -> GlyphEntry {
    GlyphEntry { src: src.to_string(), extra: serde_json::Map::new() }
}

fn outline() -> GlyphOutline {
    GlyphOutline {
        contours: vec![
            vec![
                GlyphPoint { x: 0, y: 0, on_curve: true },
                GlyphPoint { x: 5, y: 9, on_curve: false },
                GlyphPoint { x: 8, y: 0, on_curve: true },
            ],
            vec![GlyphPoint { x: 1, y: 1, on_curve: true }],
        ],
        advance_width: -12,
    }
}

fn parsed(key: &str) -> ResolvedGlyph {
    let summary = summarize(&RawOutline { width: 0, height: 0, segments: vec![] });
    resolve_glyph(key, "a.svg", "icons/a.svg".to_string(), Source::Parsed(summary, outline()))
}

#[test]
fn a_parsed_glyph() {
    let g = parsed(" 0xE001 ");
    assert_eq!(g.key, " 0xE001 ");
    assert_eq!(g.codepoint, Some(0xE001));
    assert_eq!(g.codepoint_hex.as_deref(), Some("U+E001"));
    assert_eq!(g.src, "a.svg");
    assert_eq!(g.resolved_path, "icons/a.svg");
    assert!(g.exists);
    assert!(g.outline.is_some() && g.glyph.is_some() && g.parse_error.is_none());
}

#[test]
fn a_missing_glyph() {
    let g = resolve_glyph("x", "b.svg", "b.svg".to_string(), Source::Missing);
    assert!(!g.exists);
    assert_eq!(g.codepoint, None);
    assert_eq!(g.codepoint_hex, None);
    assert!(g.outline.is_none() && g.glyph.is_none() && g.parse_error.is_none());
}

#[test]
fn a_broken_glyph() {
    let g = resolve_glyph("65", "c.svg", "c.svg".to_string(), Source::Broken("bad".to_string()));
    assert!(g.exists);
    assert_eq!(g.parse_error.as_deref(), Some("bad"));
    assert!(g.outline.is_none() && g.glyph.is_none());
}

#[test]
fn missing_glyphs_are_counted() {
    let missing = || resolve_glyph("1", "", String::new(), Source::Missing);
    assert_eq!(count_missing(&[]), 0);
    assert_eq!(count_missing(&[parsed("1"), missing(), parsed("2"), missing()]), 2);
}

#[test]
fn glyphs_need_a_codepoint_and_an_outline() {
    let resolved = vec![
        parsed("nonsense"),
        parsed("U+41"),
        resolve_glyph("66", "", String::new(), Source::Broken("bad".to_string())),
        resolve_glyph("67", "", String::new(), Source::Missing),
        parsed("U+42"),
    ];
    let glyphs = font_glyphs(&resolved);
    assert_eq!(glyphs.len(), 2);
    assert_eq!((glyphs[0].codepoint, glyphs[1].codepoint), (0x41, 0x42));
    assert_eq!(glyphs[0].outline.contours, outline().contours);
    assert_eq!(glyphs[1].outline.advance_width, -12);
}

#[test]
fn rows_stand_in_columns() {
    let g = parsed("U+41");
    assert_eq!(glyph_row(&g), "U+0041     ok       U+41    icons/a.svg");
    let g = resolve_glyph("star", "s.svg", "dir/s.svg".to_string(), Source::Missing);
    assert_eq!(glyph_row(&g), "? (star)   MISSING  star    dir/s.svg");
    let g = resolve_glyph("a-very-long-key", "s", "p".to_string(), Source::Missing);
    let expected =
        format!("{:<10} {:<8} {:<7} {}", "? (a-very-long-key)", "MISSING", "a-very-long-key", "p");
    assert_eq!(glyph_row(&g), expected);
}

#[test]
fn outlines_are_described() {
    assert_eq!(
        outline_row(&outline()),
        "           glyph: contours: 2   points: 4 (on-curve: 3)   advance: -12"
    );
}

#[test]
fn keys_are_ordered_as_strings_are() {
    let keys = ["", "0x1", "0x10", "0x2", "U+E000", "a", "ab", "\u{e9}", "\u{ffff}", "\u{10000}"];
    for a in keys {
        for b in keys {
            let order = compare_keys(a, b);
            assert_eq!(order == KeyOrder::Before, a < b);
            assert_eq!(order == KeyOrder::Same, a == b);
            assert_eq!(order == KeyOrder::After, a > b);
        }
    }
}

#[test]
fn entries_stand_in_the_order_of_their_keys() {
    let mut map = GlyphMap::new();
    assert_eq!(map.len(), 0);
    for (key, src) in [("b", "1"), ("a", "2"), ("c", "3"), ("a", "4")] {
        map.insert(key.to_string(), entry(src));
    }
    assert_eq!(map.len(), 3);
    let found: Vec<(&str, &str)> =
        map.entries.iter().map(|(k, e)| (k.as_str(), e.src.as_str())).collect();
    assert_eq!(found, vec![("a", "4"), ("b", "1"), ("c", "3")]);
}

fn config(props: &[(&str, serde_json::Value)], input: Option<&str>) -> Config {
    let mut map = serde_json::Map::new();
    for (key, value) in props {
        map.insert(key.to_string(), value.clone());
    }
    Config {
        props: map,
        input: input.map(|s| s.to_string()),
        output: vec![],
        glyphs: GlyphMap::new(),
    }
}

#[test]
fn the_family_comes_from_the_props() {
    let named = serde_json::Value::String("My Icons".to_string());
    assert_eq!(config(&[("family", named.clone())], None).family(), "My Icons");
    assert_eq!(config(&[("name", named)], None).family(), "(no family set)");
    let number = serde_json::Value::from(7);
    assert_eq!(config(&[("family", number)], None).family(), "(no family set)");
}

#[test]
fn the_input_folder_defaults_to_the_current_one() {
    assert_eq!(config(&[], Some("svg/")).input_folder(), "svg/");
    assert_eq!(config(&[], None).input_folder(), ".");
}
