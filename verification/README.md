# iconpacker

Packs SVG icons into an icon font: reads a font.json-style config, parses each glyph's SVG file,
converts it into a TrueType outline, and writes a `.ttf` or a `.woff2` file.

`src/` is the library, verified with Verus:

- `config`, `glyph_map`: the config, the codepoints that its keys name, its glyphs in key order
- `svg`, `single`: the geometry of an SVG file, flattened out of usvg's tree, and its statistics;
  coordinates are kept as the bit patterns of single-precision numbers
- `outline`: what there is to draw, and contours put together from it
- `path`, `glyf`: outlines replayed as kurbo paths, and the `glyf` and `loca` tables made of them
- `metrics`, `extremes`, `tables`, `font`, `sfnt`: the numbers and the tables of a font, their
  bytes, and the font file
- `limits`: whether a set of glyphs is within what those numbers can hold
- `woff2`, `tag`, `bytes`, `text`: the WOFF2 container, and what the formats are written with
- `report`: what became of each glyph, and how it is shown

Calls into brotli, kurbo, serde_json, usvg and write-fonts stand behind small functions whose
contracts say what is relied upon.

`app/` is the command line program: arguments, files, JSON, and the floating-point conversion of
SVG coordinates into font units. `tests/` holds the tests of the library.
