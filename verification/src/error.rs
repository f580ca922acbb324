//! The ways in which an operation of this library can fail.

use vstd::prelude::*;

verus! {

/// Why a drawing path could not be read.
#[derive(Clone, Copy, Debug, PartialEq, Eq, Structural)]
pub enum PathFault {
    /// A command letter was followed by fewer numbers than it takes.
    UnexpectedEnd,
    /// The token at this index stands where a number is due and is none.
    BadNumber { token: usize },
}

/// The error kinds of the library.
#[derive(Clone, Debug, PartialEq, Eq)]
pub enum FontError {
    /// The bytes are no font: bad header, or a table that leaves the file.
    MalformedFont,
    /// The font lacks the table with this tag.
    TableMissing { tag: u32 },
    /// The table with this tag is there and cannot be decoded.
    MalformedTable { tag: u32 },
    /// The drawing path cannot be read.
    BadPath { fault: PathFault },
    /// A cubic curve was handed to the `glyf` encoder, which holds quadratic curves only.
    CubicInGlyfTable,
    /// A composite glyph record ends in the middle of a component.
    MalformedComposite,
    /// The glyph id lies beyond what a font can number.
    GlyphIdOverflow { glyph_id: u32 },
    /// The font has no such glyph, or no record for it.
    GlyphNotFound { glyph_id: u32 },
    /// An offset into `glyf` does not fit the `loca` format of the font.
    LocaOverflow,
    /// The `name` table holds no record with the name id and platform id asked for.
    NoMatchingNameRecord { name_id: u16, platform_id: u16 },
    /// Outlines can be saved to `glyf` only; this other table was named.
    UnsupportedOutlineTable { table: String },
    /// The name of a table is shorter than the four bytes of a tag.
    InvalidTableName,
    /// The font that would result has more tables or more bytes than a font
    /// file can hold.
    FontTooLarge,
}

/// What an error kind says of itself.
pub open spec fn description(e: FontError) -> Seq<char> {
    match e {
        FontError::MalformedFont => "Invalid font file"@,
        FontError::TableMissing { .. } => "Table not found in font"@,
        FontError::MalformedTable { .. } => "Failed to read table"@,
        FontError::BadPath { fault } => match fault {
            PathFault::UnexpectedEnd => "unexpected end of path"@,
            PathFault::BadNumber { .. } => "bad number in path"@,
        },
        FontError::CubicInGlyfTable => "Cubic B\u{e9}zier (C) not supported in glyf table. Use a CFF font for cubic curves."@,
        FontError::MalformedComposite => "Malformed composite glyph"@,
        FontError::GlyphIdOverflow { .. } => "glyph_id exceeds maximum (65535)"@,
        FontError::GlyphNotFound { .. } => "Glyph not found"@,
        FontError::LocaOverflow => "glyf table too large for short loca format"@,
        FontError::NoMatchingNameRecord { .. } => "No name record found"@,
        FontError::UnsupportedOutlineTable { .. } => "Only the glyf table can be saved"@,
        FontError::InvalidTableName => "Invalid table name"@,
        FontError::FontTooLarge => "Font too large"@,
    }
}

impl FontError {
    /// Says in words what kind of error this is. The particulars, such as
    /// the tag or the glyph, are in the fields.
    pub fn describe(&self) -> (text: String)
        ensures
            text@ == description(*self),
    {
        match self {
            FontError::MalformedFont => "Invalid font file".to_owned(),
            FontError::TableMissing { .. } => "Table not found in font".to_owned(),
            FontError::MalformedTable { .. } => "Failed to read table".to_owned(),
            FontError::BadPath { fault } => match fault {
                PathFault::UnexpectedEnd => "unexpected end of path".to_owned(),
                PathFault::BadNumber { .. } => "bad number in path".to_owned(),
            },
            FontError::CubicInGlyfTable => "Cubic B\u{e9}zier (C) not supported in glyf table. Use a CFF font for cubic curves.".to_owned(),
            FontError::MalformedComposite => "Malformed composite glyph".to_owned(),
            FontError::GlyphIdOverflow { .. } => "glyph_id exceeds maximum (65535)".to_owned(),
            FontError::GlyphNotFound { .. } => "Glyph not found".to_owned(),
            FontError::LocaOverflow => "glyf table too large for short loca format".to_owned(),
            FontError::NoMatchingNameRecord { .. } => "No name record found".to_owned(),
            FontError::UnsupportedOutlineTable { .. } => "Only the glyf table can be saved".to_owned(),
            FontError::InvalidTableName => "Invalid table name".to_owned(),
            FontError::FontTooLarge => "Font too large".to_owned(),
        }
    }
}

} // verus!
