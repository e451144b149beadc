//! Composing logic of `dessin`, a library that builds drawings and exports them.
//!
//! This crate holds the parts of the library that do not compute on
//! floating-point coordinates: text and style vocabulary, the structure of
//! curves and their reversal, the walk of a drawing that drives an exporter,
//! the text and points that the exporters write, font lookup, and the
//! planning done by the `Shape` derive.

pub mod text;
pub mod derive;
pub mod curve;
pub mod path;
pub mod textual;
pub mod color;
pub mod svg;
pub mod legacy_svg;
pub mod legacy_pdf;
pub mod raster;
pub mod position;
pub mod shapes;
pub mod export;
pub mod font;
