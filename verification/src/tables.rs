//! Fields of the font header tables that the library reads itself.
//!
//! `head`, `hhea` and `maxp` start with a fixed layout of big-endian fields.
//! A table that is shorter than that layout cannot be read.

use vstd::prelude::*;
use crate::bytes::{i16_at, read_i16, read_u16, u16_at};

verus! {

/// The length of the fixed layout of `head`.
pub const HEAD_LEN: usize = 54;

/// The length of the fixed layout of `hhea`.
pub const HHEA_LEN: usize = 36;

/// The length of the fixed layout of `maxp`.
pub const MAXP_LEN: usize = 6;

/// The length of the fixed layout of `OS/2`.
pub const OS2_LEN: usize = 78;

/// The bits of `head.flags` that have a meaning.
pub const HEAD_FLAGS: u16 = 0x781F;

/// The bits of `head.macStyle` that have a meaning.
pub const MAC_STYLE_FLAGS: u16 = 0x007F;

/// `head.indexToLocFormat`: 0 for the short format of `loca`, 1 for the long one.
pub open spec fn index_to_loc_format(head: Seq<u8>) -> int {
    i16_at(head, 50)
}

/// `head.unitsPerEm`.
pub open spec fn units_per_em(head: Seq<u8>) -> int {
    u16_at(head, 18)
}

/// The whole part of `head.fontRevision`, its high 16 bits, signed.
pub open spec fn revision_major(head: Seq<u8>) -> int {
    i16_at(head, 4)
}

/// The low 16 bits of `head.fontRevision`.
pub open spec fn revision_minor(head: Seq<u8>) -> int {
    u16_at(head, 6)
}

/// `maxp.numGlyphs`.
pub open spec fn num_glyphs(maxp: Seq<u8>) -> int {
    u16_at(maxp, 4)
}

/// `hhea.numberOfHMetrics`.
pub open spec fn number_of_h_metrics(hhea: Seq<u8>) -> int {
    u16_at(hhea, 34)
}

/// `hhea.advanceWidthMax`.
pub open spec fn advance_width_max(hhea: Seq<u8>) -> int {
    u16_at(hhea, 10)
}

/// Reads `head.indexToLocFormat`.
pub fn head_index_to_loc_format(head: &[u8]) -> (r: Option<i16>)
    ensures
        r == (if head.len() >= HEAD_LEN {
            Some(index_to_loc_format(head@) as i16)
        } else {
            None
        }),
{
    if head.len() >= HEAD_LEN {
        Some(read_i16(head, 50))
    } else {
        None
    }
}

/// Reads `head.unitsPerEm`.
pub fn head_units_per_em(head: &[u8]) -> (r: Option<u16>)
    ensures
        r == (if head.len() >= HEAD_LEN {
            Some(units_per_em(head@) as u16)
        } else {
            None
        }),
{
    if head.len() >= HEAD_LEN {
        Some(read_u16(head, 18))
    } else {
        None
    }
}

/// Reads `head.fontRevision` as its two halves.
pub fn head_font_revision(head: &[u8]) -> (r: Option<(i16, u16)>)
    ensures
        r == (if head.len() >= HEAD_LEN {
            Some((revision_major(head@) as i16, revision_minor(head@) as u16))
        } else {
            None
        }),
{
    if head.len() >= HEAD_LEN {
        Some((read_i16(head, 4), read_u16(head, 6)))
    } else {
        None
    }
}

/// Reads `maxp.numGlyphs`.
pub fn maxp_num_glyphs(maxp: &[u8]) -> (r: Option<u16>)
    ensures
        r == (if maxp.len() >= MAXP_LEN {
            Some(num_glyphs(maxp@) as u16)
        } else {
            None
        }),
{
    if maxp.len() >= MAXP_LEN {
        Some(read_u16(maxp, 4))
    } else {
        None
    }
}

/// Reads `hhea.numberOfHMetrics`.
pub fn hhea_number_of_h_metrics(hhea: &[u8]) -> (r: Option<u16>)
    ensures
        r == (if hhea.len() >= HHEA_LEN {
            Some(number_of_h_metrics(hhea@) as u16)
        } else {
            None
        }),
{
    if hhea.len() >= HHEA_LEN {
        Some(read_u16(hhea, 34))
    } else {
        None
    }
}

/// Reads `hhea.advanceWidthMax`.
pub fn hhea_advance_width_max(hhea: &[u8]) -> (r: Option<u16>)
    ensures
        r == (if hhea.len() >= HHEA_LEN {
            Some(advance_width_max(hhea@) as u16)
        } else {
            None
        }),
{
    if hhea.len() >= HHEA_LEN {
        Some(read_u16(hhea, 10))
    } else {
        None
    }
}

} // verus!
