//! A small textual diagram-description language: a rectangular grid of named
//! cells plus reusable attribute bundles is validated into a fully-resolved
//! diagram model, and orthogonal connector routes are computed between node
//! edges so a renderer can draw collision-free arrows between boxes.

pub mod ast;
pub mod flou;
pub mod grid;
pub mod parse;
pub mod pos;
pub mod render;
pub mod report;
pub mod router;
pub mod svg;
pub mod table;

pub use ast::{Direction, Identifier};
pub use flou::{Connection, ConnectionAttributes, Flou, FlouError, LogicError, NodeAttributes};
pub use report::Opt;
pub use grid::{GridIndex, ResolutionError};
pub use render::{RenderConfig, SvgRenderer};
pub use pos::{IndexPos, PaddedPos, PixelPos};
