# svg_conversion_wasm

Recolors SVG icons: every paint of an icon (presentation attributes, inline `style`
declarations and embedded `<style>` sheets) is mapped onto a primary color, or onto a
two-color palette, while masks and non-color paints (`none`, `transparent`, `url(...)`,
`var(...)`) are left alone.

Layout:

- `src/` is the verified library (Verus). It holds the document model and everything decided
  about it: which paints are recolored and how the document text is rewritten around them
  (`document.rs`, `style.rs`, `paint.rs`), the namespace repairs (`markup.rs`), reading and
  writing with `xmltree` (`xml.rs`), the color text that is written (`format.rs`), the
  character-level string model (`text.rs`) and the command line's file selection
  (`files.rs`).
- `app/` is the command line and the WebAssembly entry points. It also holds the color
  arithmetic, which is floating point: HSL/HSV conversions, gray weighting and the mapping of
  tones onto the primary color or the palette.
- `tests/` exercises the library.

A conversion runs as `prepare_svg` (parse, check the root, list the paint sites, add the root's
default fill), the color computations of `app/`, and `render_svg` (recolor and write).
