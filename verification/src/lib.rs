//! Recoloring of SVG icons: which paints of a document are recolored and how the document is
//! rewritten around them, with the contracts Verus proves of each step.
pub mod text;
pub mod paint;
pub mod style;
pub mod document;
pub mod markup;
pub mod xml;
pub mod format;
pub mod files;

pub use document::{ensure_default_fill, paint_sites, transform_element, SvgElement, SvgNode};
pub use files::{find_svg_files, io_error, usage};
pub use format::{color_map_document, format_rgb, primary_variable};
pub use markup::{add_svg_namespace, repair_xlink_namespace};
pub use paint::{classify_paint, OutputMode, Paint};
pub use style::{stylesheet_declarations, style_declarations, transform_style, transform_stylesheet};
pub use xml::{parse_svg_document, prepare_svg, render_svg, serialize, PreparedSvg};
