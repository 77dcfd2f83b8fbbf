//! A small styled-document layout library: a CSS-syntax tokenizer and
//! declaration parser, a cascading style-resolution model over an
//! element arena, and a box-layout engine producing absolutely
//! positioned boxes, all with machine-checked contracts.
//!
//! Geometry is computed in fixed-point milli-pixel units (see
//! [`fixed`]); rendering back ends consume the computed box tree and
//! draw-command lists outside of this crate.

pub mod color;
pub mod document;
pub mod element;
pub mod fixed;
pub mod layout_engine;
pub mod parser;
pub mod preprocessor;
pub mod font;
pub mod primitive_value;
pub mod property;
pub mod raster;
pub mod rect;
pub mod render_engine;
pub mod resources_manager;
pub mod string_map;
pub mod style;
pub mod token_buffer;
pub mod tokenizer;
