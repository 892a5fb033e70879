//! Renders a 2-D scene of positioned, alpha-blended raster sprites into a
//! terminal using Unicode half-block characters and ANSI escape sequences.
//!
//! The crate has three verified cores: the frame compositor
//! (camera-relative projection and alpha blending into a virtual sub-cell
//! pixel buffer), the half-block escape-sequence encoder (two vertically
//! adjacent virtual pixels per terminal cell, with run-length
//! de-duplication of colour escapes), and the input-capture queue whose
//! per-frame drain builds the "active keys" snapshot. The embedding
//! application owns the scene storage, the terminal size query, the raw
//! input reader and the output stream, and hands plain values in.

use vstd::prelude::*;

pub mod color;
pub mod encode;
pub mod frame;
pub mod input;
pub mod render;
pub mod sprite;

pub use color::Color;
pub use encode::CellPair;
pub use frame::FrameBuffer;
pub use input::{Input, TerminalInput};
pub use sprite::{Dims, Placement, Sprite};

verus! {

/// The process-wide default fill colour, supplied per frame.
pub struct BackgroundColor(pub Color);

/// A string written by game logic and drawn verbatim (not blended) as
/// cursor-positioned plain text after the pixel region.
pub struct TerminalTextOverlay {
    pub text: String,
}

/// Marker for the entity whose transform is the camera.
#[derive(Clone, Copy, Debug, Default, PartialEq, Eq, Structural)]
pub struct Camera;

/// Marker the embedding application installs its terminal systems around:
/// per frame, drain the input queue before game logic, then render.
#[derive(Clone, Copy, Debug, Default, PartialEq, Eq, Structural)]
pub struct TerminalPlugin;

} // verus!
