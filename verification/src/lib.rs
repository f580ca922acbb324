//! The core of a font inspector and editor: it decodes tables of a
//! TrueType/OpenType file, turns glyph outlines into drawing paths and back,
//! and rewrites `glyf`, `loca` and `hmtx` when a glyph is edited.

pub mod bytes;
pub mod composite;
pub mod editor;
pub mod error;
pub mod float_bits;
pub mod glyf;
pub mod glyph_view;
pub mod headers;
pub mod hmtx;
pub mod loca;
pub mod metadata;
pub mod names;
pub mod outline;
pub mod outline_data;
pub mod path;
pub mod sfnt;
pub mod table_view;
pub mod tables;
pub mod text;
pub mod typed;
