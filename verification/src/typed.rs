//! Tables that `write-fonts` reads into their fields and writes out again.
//!
//! An edit of a typed table decodes it, changes fields and encodes it. Both
//! ends are the work of `write-fonts`. What it writes of `head`, `hhea` and
//! `maxp` is stated here byte for byte; what it writes of `OS/2`, whose
//! layout goes by its version in many steps, is named.

use vstd::prelude::*;
use skrifa::raw::{FontData, FontRead};
use write_fonts::tables::head::{Flags, Head, MacStyle};
use write_fonts::tables::hhea::Hhea;
use write_fonts::tables::maxp::Maxp;
use write_fonts::tables::os2::Os2;
use write_fonts::types::{Fixed, LongDateTime};
use crate::bytes::{i16_at, i16_be, i32_be, i64_be, u16_at, u16_be, zeros};
use crate::headers::{HeadTableUpdate, HheaTableUpdate};
use crate::tables::{HEAD_FLAGS, HEAD_LEN, HHEA_LEN, MAC_STYLE_FLAGS, MAXP_LEN, OS2_LEN};

verus! {

/// The `OS/2` table that `write-fonts` writes for the fields of `table` with
/// another `xAvgCharWidth`; `None` where it refuses to write them.
pub uninterp spec fn rewritten_os2(table: Seq<u8>, x_avg_char_width: i16) -> Option<Seq<u8>>;

/// The length of a `maxp` table of version 1, with its thirteen limits.
pub const MAXP_FULL_LEN: usize = 32;

/// The `maxp` table with another number of glyphs, as `Maxp` lays it down.
///
/// A table whose version has 1 for its whole part holds thirteen limits
/// behind the number of glyphs. Where it holds them all, the new table is of
/// version 1.0 and holds them too; where it holds some of them, there is no
/// new table; where it holds none, or is of another version, the new table
/// is of version 0.5 and ends with the number of glyphs.
pub open spec fn maxp_table(old: Seq<u8>, num_glyphs: u16) -> Option<Seq<u8>> {
    if u16_at(old, 0) == 1 && old.len() >= MAXP_FULL_LEN {
        Some(
            u16_be(1) + u16_be(0) + u16_be(num_glyphs as int) + old.subrange(
                6,
                MAXP_FULL_LEN as int,
            ),
        )
    } else if u16_at(old, 0) == 1 && old.len() >= 8 {
        None
    } else {
        Some(u16_be(0) + u16_be(0x5000) + u16_be(num_glyphs as int))
    }
}

/// Reads the table with `Maxp::read`, sets `num_glyphs` and writes it with
/// `dump_table`.
///
/// The result is `maxp_table`. `Maxp` reads each limit where the version
/// has it and the table is long enough for it, writes version 1.0 where it
/// has read any and 0.5 else, and is refused by `dump_table` where version
/// 1.0 lacks a limit.
#[verifier::external_body]
pub(crate) fn rewrite_maxp(table: &[u8], num_glyphs: u16) -> (r: Option<Vec<u8>>)
    requires
        table.len() >= MAXP_LEN,
    ensures
        match r {
            Some(t) => maxp_table(table@, num_glyphs) == Some(t@),
            None => maxp_table(table@, num_glyphs) is None,
        },
{
    let mut maxp = Maxp::read(FontData::new(table)).unwrap();
    maxp.num_glyphs = num_glyphs;
    write_fonts::dump_table(&maxp).ok()
}

/// Reads the table with `Os2::read`, sets `x_avg_char_width` and writes it
/// with `dump_table`.
///
/// The result is `rewritten_os2`. The table that is written holds every
/// field of the first version of the table, 78 bytes, and more in a later
/// version; it starts with two bytes of version and `x_avg_char_width` behind
/// them.
#[verifier::external_body]
pub(crate) fn rewrite_os2(table: &[u8], x_avg_char_width: i16) -> (r: Option<Vec<u8>>)
    requires
        table.len() >= OS2_LEN,
    ensures
        match r {
            Some(t) => rewritten_os2(table@, x_avg_char_width) == Some(t@) && t.len() >= OS2_LEN
                && i16_at(t@, 2) == x_avg_char_width,
            None => rewritten_os2(table@, x_avg_char_width) is None,
        },
{
    let mut os2 = Os2::read(FontData::new(table)).unwrap();
    os2.x_avg_char_width = x_avg_char_width;
    write_fonts::dump_table(&os2).ok()
}

/// The `head` table of an update, as `Head` lays it down: version 1.0, the
/// revision, the checksum adjustment and the magic number as the old table
/// has them, then the other fields of the update in the order of the table,
/// and 0 for the glyph data format. Of `flags` and `mac_style` only the bits
/// that have a meaning are written.
pub open spec fn head_table(old: Seq<u8>, u: HeadTableUpdate) -> Seq<u8> {
    u16_be(1) + u16_be(0) + i32_be(u.font_revision as int) + old.subrange(8, 16) + u16_be(
        (u.flags & HEAD_FLAGS) as int,
    ) + u16_be(u.units_per_em as int) + i64_be(u.created as int) + i64_be(u.modified as int)
        + i16_be(u.x_min as int) + i16_be(u.y_min as int) + i16_be(u.x_max as int) + i16_be(
        u.y_max as int,
    ) + u16_be((u.mac_style & MAC_STYLE_FLAGS) as int) + u16_be(u.lowest_rec_ppem as int) + i16_be(
        u.font_direction_hint as int,
    ) + i16_be(u.index_to_loc_format as int) + i16_be(0)
}

/// The `hhea` table of an update, as `Hhea` lays it down: version 1.0, the
/// three line metrics of the update, the four extents as the old table has
/// them, the three caret fields of the update, ten zero bytes for what is
/// reserved and for the metric data format, and the number of metrics as
/// the old table has it.
pub open spec fn hhea_table(old: Seq<u8>, u: HheaTableUpdate) -> Seq<u8> {
    u16_be(1) + u16_be(0) + i16_be(u.ascender as int) + i16_be(u.descender as int) + i16_be(
        u.line_gap as int,
    ) + old.subrange(10, 18) + i16_be(u.caret_slope_rise as int) + i16_be(
        u.caret_slope_run as int,
    ) + i16_be(u.caret_offset as int) + zeros(10) + old.subrange(34, 36)
}

/// Reads the table with `Head::read`, sets the thirteen fields and writes it
/// with `dump_table`. Flag bits that `Flags` and `MacStyle` do not know are
/// dropped on the way.
///
/// What is written is `head_table`: `Head` writes its fields in the order
/// of the table, each big-endian, with the version before them and a zero
/// behind them. `dump_table` refuses no such table: `Head` checks nothing
/// before it is written, and a table without offsets cannot fail to be
/// packed.
#[verifier::external_body]
pub(crate) fn rewrite_head(table: &[u8], u: &HeadTableUpdate) -> (r: Option<Vec<u8>>)
    requires
        table.len() >= HEAD_LEN,
    ensures
        match r {
            Some(t) => t@ == head_table(table@, *u),
            None => false,
        },
{
    let mut h = Head::read(FontData::new(table)).unwrap();
    h.font_revision = Fixed::from_bits(u.font_revision);
    (h.flags, h.mac_style) = (Flags::from_bits_truncate(u.flags), MacStyle::from_bits_truncate(u.mac_style));
    (h.created, h.modified) = (LongDateTime::new(u.created), LongDateTime::new(u.modified));
    (h.x_min, h.y_min, h.x_max, h.y_max) = (u.x_min, u.y_min, u.x_max, u.y_max);
    (h.units_per_em, h.lowest_rec_ppem) = (u.units_per_em, u.lowest_rec_ppem);
    h.font_direction_hint = u.font_direction_hint;
    h.index_to_loc_format = u.index_to_loc_format;
    write_fonts::dump_table(&h).ok()
}

/// Reads the table with `Hhea::read`, sets the six fields and writes it with
/// `dump_table`.
///
/// What is written is `hhea_table`: `Hhea` writes its fields in the order
/// of the table, each big-endian, with the version before them and zeros
/// where the table has none. `dump_table` refuses no such table: `Hhea`
/// checks nothing before it is written, and a table without offsets cannot
/// fail to be packed.
#[verifier::external_body]
pub(crate) fn rewrite_hhea(table: &[u8], u: &HheaTableUpdate) -> (r: Option<Vec<u8>>)
    requires
        table.len() >= HHEA_LEN,
    ensures
        match r {
            Some(t) => t@ == hhea_table(table@, *u),
            None => false,
        },
{
    let mut h = Hhea::read(FontData::new(table)).unwrap();
    h.ascender = u.ascender.into();
    h.descender = u.descender.into();
    h.line_gap = u.line_gap.into();
    h.caret_slope_rise = u.caret_slope_rise;
    h.caret_slope_run = u.caret_slope_run;
    h.caret_offset = u.caret_offset;
    write_fonts::dump_table(&h).ok()
}

} // verus!
