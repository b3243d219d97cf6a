//! Conversion of terminal-coloured text between ANSI escape sequences, a
//! styled document model, HTML markup and a fixed cell grid.
pub mod color;
pub mod text;
pub mod document;
pub mod ansi;
pub mod html;
pub mod grid;
pub mod rexpaint;
pub mod css;
pub mod error;

pub use ansi::{parse_ansi, ParsedData};
pub use color::Color;
pub use css::generate_css;
pub use document::{Segment, Style, StyledText};
pub use error::AppError;
pub use grid::{XpCell, XpColor, XpFile, XpLayer};
pub use rexpaint::rexpaint_to_ansi;
