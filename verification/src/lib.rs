//! Converts vector artwork to one point symbol in an otherwise empty map.
//!
//! Artwork reaches the library as a [`drawing::Drawing`], with every shape, style and
//! transformation resolved. [`convert_svg`] collects what the artwork paints
//! ([`collect`]), fills outlines with polygons that have their holes cut out ([`rings`]),
//! joins neighbouring layers of one color ([`layers`]) and builds the map around them
//! ([`convert`]). Outlines are closed contours, which [`outline`] makes of drawing commands;
//! [`inside`] decides which of them lie in which.
//! Artwork that a symbol cannot hold is approximated or skipped, with a warning
//! ([`warnings`], [`paint`]).
//!
//! Contracts speak of plain values. What holds of the conversion as a whole stands in
//! [`path_laws`] and [`outline_laws`], [`fill_laws`] and [`ring_laws`], [`collect_laws`] and
//! [`convert_laws`], and beside the functions in the other modules. The claims about the `omap` crate on which the proofs rest
//! stand in [`document`].

pub mod binary64;
pub mod collect;
pub mod collect_laws;
pub mod command_line;
pub mod convert;
pub mod convert_laws;
pub mod document;
pub mod drawing;
pub mod error;
pub mod fill_laws;
pub mod inside;
pub mod layers;
pub mod options;
pub mod outline;
pub mod outline_laws;
pub mod paint;
pub mod path_laws;
pub mod ring_laws;
pub mod rings;
pub mod text;
pub mod warnings;

pub use convert::{convert_svg, convert_svg_if_possible, Conversion};
pub use error::ConversionError;
pub use options::ConversionOptions;
