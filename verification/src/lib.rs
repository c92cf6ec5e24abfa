//! Packing SVG icons into an icon font.

pub mod bytes;
pub mod config;
pub mod extremes;
pub mod font;
pub mod font_reader;
pub mod glyf;
pub mod glyph_map;
pub mod limits;
pub mod metrics;
pub mod outline;
pub mod path;
pub mod report;
pub mod sfnt;
pub mod single;
pub mod svg;
pub mod tables;
pub mod tag;
pub mod text;
pub mod woff2;
