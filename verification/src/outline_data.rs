//! The outline of one glyph as the editor sees it: contours of drawing
//! commands, metrics, and for a composite glyph the tree of its components.
//!
//! Every coordinate, offset and metric is the bit pattern of a binary32
//! value, in font units, y upwards.

use vstd::prelude::*;

verus! {

/// The box that holds every point of an outline, control points included.
#[derive(Clone, Copy, Debug, PartialEq, Eq, Structural)]
pub struct GlyphBounds {
    pub x_min: u32,
    pub y_min: u32,
    pub x_max: u32,
    pub y_max: u32,
}

/// A point of an outline.
#[derive(Clone, Copy, Debug, PartialEq, Eq, Structural)]
pub struct Point {
    pub x: u32,
    pub y: u32,
}

/// A drawing command: move, line, quadratic curve, cubic curve, close.
#[derive(Clone, Copy, Debug, PartialEq, Eq, Structural)]
pub enum OutlineCommand {
    M { point: Point },
    L { point: Point },
    Q { ctrl: Point, point: Point },
    C { ctrl1: Point, ctrl2: Point, point: Point },
    Z,
}

/// The commands of one contour, starting with its move.
#[derive(Clone, Debug, PartialEq, Eq)]
pub struct Contour {
    pub commands: Vec<OutlineCommand>,
}

/// A component of a composite glyph: the glyph that it places, where it
/// places it, and the outline of that glyph, once resolved.
#[derive(Debug)]
pub struct ComponentOffset {
    pub glyph_id: u32,
    pub x_offset: u32,
    pub y_offset: u32,
    pub outline: Option<Box<GlyphOutlineData>>,
}

/// The outline of a glyph. A composite glyph has no contours of its own; it
/// has components.
#[derive(Debug)]
pub struct GlyphOutlineData {
    pub glyph_id: u32,
    pub glyph_name: Option<String>,
    pub contours: Vec<Contour>,
    pub advance_width: u32,
    pub lsb: u32,
    pub bounds: Option<GlyphBounds>,
    pub is_composite: bool,
    pub component_glyph_ids: Vec<u32>,
    pub components: Vec<ComponentOffset>,
}

/// The new place of one component of a composite glyph.
#[derive(Clone, Copy, Debug, PartialEq, Eq, Structural)]
pub struct CompositeOffsetUpdate {
    pub x_offset: u32,
    pub y_offset: u32,
}

} // verus!
