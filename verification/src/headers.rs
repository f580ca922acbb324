//! Edits of the header tables `head`, `hhea` and `maxp`.
//!
//! An edit reads the table into its fields, sets the fields that the editor
//! can change, and writes the table out again; `write-fonts` does both ends.
//! The font comes back with the new table and every other table carried over.

use vstd::prelude::*;
use crate::bytes::{
    i16_be, i32_be, i64_be, lemma_reads_i16, lemma_reads_i32, lemma_reads_i64, lemma_reads_u16,
    u16_be, zeros,
};
use crate::error::FontError;
use crate::sfnt::{
    check_font, font_table, font_with, is_font, read_table, replace_table, replaces, HEAD, HHEA,
    MAXP,
};
use crate::sfnt::same_but_checksum;
use crate::table_view::{head_fields, hhea_fields};
use crate::tables::{HEAD_FLAGS, HEAD_LEN, HHEA_LEN, MAC_STYLE_FLAGS, MAXP_LEN};
use crate::typed::{
    head_table, hhea_table, maxp_table, rewrite_head, rewrite_hhea, rewrite_maxp,
};

verus! {

/// The fields of `head` that the editor can change. `font_revision` is the
/// 16.16 fixed-point number as the table holds it.
#[derive(Clone, Copy, Debug, PartialEq, Eq, Structural)]
pub struct HeadTableUpdate {
    pub font_revision: i32,
    pub flags: u16,
    pub units_per_em: u16,
    pub created: i64,
    pub modified: i64,
    pub x_min: i16,
    pub y_min: i16,
    pub x_max: i16,
    pub y_max: i16,
    pub mac_style: u16,
    pub lowest_rec_ppem: u16,
    pub font_direction_hint: i16,
    pub index_to_loc_format: i16,
}

/// The fields of `hhea` that the editor can change.
#[derive(Clone, Copy, Debug, PartialEq, Eq, Structural)]
pub struct HheaTableUpdate {
    pub ascender: i16,
    pub descender: i16,
    pub line_gap: i16,
    pub caret_slope_rise: i16,
    pub caret_slope_run: i16,
    pub caret_offset: i16,
}

/// The field of `maxp` that the editor can change.
#[derive(Clone, Copy, Debug, PartialEq, Eq, Structural)]
pub struct MaxpTableUpdate {
    pub num_glyphs: u16,
}

/// What the edit of one header table makes of a font, where `rewritten` is
/// the new table for the old one, or `None` where `write-fonts` refuses to
/// write one.
///
/// The checks come in this order: the bytes must be a font, it must have the
/// table, the table must be as long as its fixed layout, `write-fonts` must
/// write the new table, and the new font must be put together.
pub open spec fn header_outcome(
    font: Seq<u8>,
    tag: u32,
    min_len: int,
    rewritten: spec_fn(Seq<u8>) -> Option<Seq<u8>>,
) -> Result<Seq<u8>, FontError> {
    if !is_font(font) {
        Err(FontError::MalformedFont)
    } else if font_table(font, tag) is None {
        Err(FontError::TableMissing { tag })
    } else if font_table(font, tag)->0.len() < min_len {
        Err(FontError::MalformedTable { tag })
    } else {
        match rewritten(font_table(font, tag)->0) {
            None => Err(FontError::MalformedTable { tag }),
            Some(table) => font_with(font, seq![tag], seq![table]),
        }
    }
}

/// Reads the table that an edit changes.
fn table_to_edit(font: &[u8], tag: u32, min_len: usize) -> (r: Result<Vec<u8>, FontError>)
    ensures
        match r {
            Ok(table) => is_font(font@) && font_table(font@, tag) == Some(table@)
                && table.len() >= min_len,
            Err(e) => e == (if !is_font(font@) {
                FontError::MalformedFont
            } else if font_table(font@, tag) is None {
                FontError::TableMissing { tag }
            } else {
                FontError::MalformedTable { tag }
            }) && (!is_font(font@) || font_table(font@, tag) is None || font_table(
                font@,
                tag,
            )->0.len() < min_len),
        },
{
    if !check_font(font) {
        return Err(FontError::MalformedFont);
    }
    match read_table(font, tag) {
        None => Err(FontError::TableMissing { tag }),
        Some(table) => if table.len() < min_len {
            Err(FontError::MalformedTable { tag })
        } else {
            Ok(table)
        },
    }
}

/// Sets the editable fields of `head`. The new table is `head_table`: the
/// fields of the update, of `flags` and `mac_style` the bits that have a
/// meaning, and everything else as the old table has it.
pub fn update_head_table(font: &[u8], updates: &HeadTableUpdate) -> (r: Result<Vec<u8>, FontError>)
    ensures
        match r {
            Ok(file) => header_outcome(
                font@,
                HEAD,
                HEAD_LEN as int,
                |t: Seq<u8>| Some(head_table(t, *updates)),
            ) == Ok::<Seq<u8>, FontError>(file@),
            Err(e) => header_outcome(
                font@,
                HEAD,
                HEAD_LEN as int,
                |t: Seq<u8>| Some(head_table(t, *updates)),
            ) == Err::<Seq<u8>, FontError>(e),
        },
        r matches Ok(file) ==> replaces(
            file@,
            font@,
            HEAD,
            head_table(font_table(font@, HEAD)->0, *updates),
        ),
{
    let table = match table_to_edit(font, HEAD, HEAD_LEN) {
        Ok(table) => table,
        Err(e) => {
            return Err(e);
        },
    };
    match rewrite_head(table.as_slice(), updates) {
        None => Err(FontError::MalformedTable { tag: HEAD }),
        Some(new_table) => replace_table(font, HEAD, new_table),
    }
}

/// Sets the editable fields of `hhea`. The new table is `hhea_table`: the
/// fields of the update, and the extents and the number of metrics as the
/// old table has them.
pub fn update_hhea_table(font: &[u8], updates: &HheaTableUpdate) -> (r: Result<Vec<u8>, FontError>)
    ensures
        match r {
            Ok(file) => header_outcome(
                font@,
                HHEA,
                HHEA_LEN as int,
                |t: Seq<u8>| Some(hhea_table(t, *updates)),
            ) == Ok::<Seq<u8>, FontError>(file@),
            Err(e) => header_outcome(
                font@,
                HHEA,
                HHEA_LEN as int,
                |t: Seq<u8>| Some(hhea_table(t, *updates)),
            ) == Err::<Seq<u8>, FontError>(e),
        },
        r matches Ok(file) ==> replaces(
            file@,
            font@,
            HHEA,
            hhea_table(font_table(font@, HHEA)->0, *updates),
        ),
{
    let table = match table_to_edit(font, HHEA, HHEA_LEN) {
        Ok(table) => table,
        Err(e) => {
            return Err(e);
        },
    };
    match rewrite_hhea(table.as_slice(), updates) {
        None => Err(FontError::MalformedTable { tag: HHEA }),
        Some(new_table) => replace_table(font, HHEA, new_table),
    }
}

/// The new `maxp` table counts the glyphs that it was given.
pub proof fn lemma_maxp_table_counts(old: Seq<u8>, num_glyphs: u16)
    ensures
        maxp_table(old, num_glyphs) matches Some(t) ==> t.len() >= MAXP_LEN
            && crate::tables::num_glyphs(t) == num_glyphs,
{
    match maxp_table(old, num_glyphs) {
        Some(t) => {
            assert(t.subrange(4, 6) =~= u16_be(num_glyphs as int));
            lemma_reads_u16(t, 4, num_glyphs as int);
        },
        None => {},
    }
}

/// Sets the number of glyphs in `maxp`. The new table is `maxp_table`: of
/// version 1.0 with the limits of the old table, or of version 0.5. The edit
/// fails, with `MalformedTable`, also on a table of version 1 that holds
/// some of its limits and not all.
pub fn update_maxp_table(font: &[u8], updates: &MaxpTableUpdate) -> (r: Result<Vec<u8>, FontError>)
    ensures
        match r {
            Ok(file) => header_outcome(
                font@,
                MAXP,
                MAXP_LEN as int,
                |t: Seq<u8>| maxp_table(t, updates.num_glyphs),
            ) == Ok::<Seq<u8>, FontError>(file@),
            Err(e) => header_outcome(
                font@,
                MAXP,
                MAXP_LEN as int,
                |t: Seq<u8>| maxp_table(t, updates.num_glyphs),
            ) == Err::<Seq<u8>, FontError>(e),
        },
        r matches Ok(file) ==> replaces(
            file@,
            font@,
            MAXP,
            maxp_table(font_table(font@, MAXP)->0, updates.num_glyphs)->0,
        ) && crate::tables::num_glyphs(font_table(file@, MAXP)->0) == updates.num_glyphs,
{
    let table = match table_to_edit(font, MAXP, MAXP_LEN) {
        Ok(table) => table,
        Err(e) => {
            return Err(e);
        },
    };
    proof {
        lemma_maxp_table_counts(table@, updates.num_glyphs);
    }
    match rewrite_maxp(table.as_slice(), updates.num_glyphs) {
        None => Err(FontError::MalformedTable { tag: MAXP }),
        Some(new_table) => replace_table(font, MAXP, new_table),
    }
}

/// An edit of `head` is shown: the table that a font holds after the edit,
/// which is `head_table` but for the checksum adjustment, has the fields of
/// the update, of `flags` and `mac_style` the bits that have a meaning, and
/// the magic number of the old table.
pub proof fn lemma_head_edit_is_shown(old: Seq<u8>, u: HeadTableUpdate, shown: Seq<u8>)
    requires
        old.len() >= HEAD_LEN,
        same_but_checksum(shown, head_table(old, u)),
    ensures
        shown.len() == HEAD_LEN,
        head_fields(shown).version_major == 1,
        head_fields(shown).version_minor == 0,
        head_fields(shown).font_revision == u.font_revision,
        head_fields(shown).magic_number == head_fields(old).magic_number,
        head_fields(shown).flags == u.flags & HEAD_FLAGS,
        head_fields(shown).units_per_em == u.units_per_em,
        head_fields(shown).created == u.created,
        head_fields(shown).modified == u.modified,
        head_fields(shown).x_min == u.x_min,
        head_fields(shown).y_min == u.y_min,
        head_fields(shown).x_max == u.x_max,
        head_fields(shown).y_max == u.y_max,
        head_fields(shown).mac_style == u.mac_style & MAC_STYLE_FLAGS,
        head_fields(shown).lowest_rec_ppem == u.lowest_rec_ppem,
        head_fields(shown).font_direction_hint == u.font_direction_hint,
        head_fields(shown).index_to_loc_format == u.index_to_loc_format,
        head_fields(shown).glyph_data_format == 0,
{
    let t = head_table(old, u);
    let given_flags = u.flags;
    let given_style = u.mac_style;
    let flags = given_flags & HEAD_FLAGS;
    let style = given_style & MAC_STYLE_FLAGS;
    assert(flags & 0x781F == flags) by (bit_vector)
        requires
            flags == given_flags & 0x781F,
    ;
    assert(style & 0x007F == style) by (bit_vector)
        requires
            style == given_style & 0x007F,
    ;
    assert(t.len() == 54);
    assert(t.subrange(0, 2) =~= u16_be(1));
    assert(t.subrange(2, 4) =~= u16_be(0));
    assert(t.subrange(4, 8) =~= i32_be(u.font_revision as int));
    assert(t.subrange(8, 16) =~= old.subrange(8, 16));
    assert(t.subrange(16, 18) =~= u16_be(flags as int));
    assert(t.subrange(18, 20) =~= u16_be(u.units_per_em as int));
    assert(t.subrange(20, 28) =~= i64_be(u.created as int));
    assert(t.subrange(28, 36) =~= i64_be(u.modified as int));
    assert(t.subrange(36, 38) =~= i16_be(u.x_min as int));
    assert(t.subrange(38, 40) =~= i16_be(u.y_min as int));
    assert(t.subrange(40, 42) =~= i16_be(u.x_max as int));
    assert(t.subrange(42, 44) =~= i16_be(u.y_max as int));
    assert(t.subrange(44, 46) =~= u16_be(style as int));
    assert(t.subrange(46, 48) =~= u16_be(u.lowest_rec_ppem as int));
    assert(t.subrange(48, 50) =~= i16_be(u.font_direction_hint as int));
    assert(t.subrange(50, 52) =~= i16_be(u.index_to_loc_format as int));
    assert(t.subrange(52, 54) =~= i16_be(0));
    lemma_reads_u16(t, 0, 1);
    lemma_reads_u16(t, 2, 0);
    lemma_reads_i32(t, 4, u.font_revision as int);
    lemma_reads_u16(t, 16, flags as int);
    lemma_reads_u16(t, 18, u.units_per_em as int);
    lemma_reads_i64(t, 20, u.created as int);
    lemma_reads_i64(t, 28, u.modified as int);
    lemma_reads_i16(t, 36, u.x_min as int);
    lemma_reads_i16(t, 38, u.y_min as int);
    lemma_reads_i16(t, 40, u.x_max as int);
    lemma_reads_i16(t, 42, u.y_max as int);
    lemma_reads_u16(t, 44, style as int);
    lemma_reads_u16(t, 46, u.lowest_rec_ppem as int);
    lemma_reads_i16(t, 48, u.font_direction_hint as int);
    lemma_reads_i16(t, 50, u.index_to_loc_format as int);
    lemma_reads_i16(t, 52, 0);
    assert(t.subrange(8, 16)[4] == old[12] && t.subrange(8, 16)[5] == old[13] && t.subrange(
        8,
        16,
    )[6] == old[14] && t.subrange(8, 16)[7] == old[15]);
    assert(t[12] == old[12] && t[13] == old[13] && t[14] == old[14] && t[15] == old[15]);
    assert(forall|i: int| 0 <= i < 54 && !(8 <= i < 12) ==> shown[i] == t[i]);
}

/// An edit of `hhea` is shown: the new table has the fields of the update,
/// and the extents and the number of metrics of the old table.
pub proof fn lemma_hhea_edit_is_shown(old: Seq<u8>, u: HheaTableUpdate)
    requires
        old.len() >= HHEA_LEN,
    ensures
        hhea_table(old, u).len() == HHEA_LEN,
        hhea_fields(hhea_table(old, u)).version_major == 1,
        hhea_fields(hhea_table(old, u)).version_minor == 0,
        hhea_fields(hhea_table(old, u)).ascender == u.ascender,
        hhea_fields(hhea_table(old, u)).descender == u.descender,
        hhea_fields(hhea_table(old, u)).line_gap == u.line_gap,
        hhea_fields(hhea_table(old, u)).advance_width_max == hhea_fields(old).advance_width_max,
        hhea_fields(hhea_table(old, u)).min_left_side_bearing == hhea_fields(
            old,
        ).min_left_side_bearing,
        hhea_fields(hhea_table(old, u)).min_right_side_bearing == hhea_fields(
            old,
        ).min_right_side_bearing,
        hhea_fields(hhea_table(old, u)).x_max_extent == hhea_fields(old).x_max_extent,
        hhea_fields(hhea_table(old, u)).caret_slope_rise == u.caret_slope_rise,
        hhea_fields(hhea_table(old, u)).caret_slope_run == u.caret_slope_run,
        hhea_fields(hhea_table(old, u)).caret_offset == u.caret_offset,
        hhea_fields(hhea_table(old, u)).number_of_hmetrics == hhea_fields(old).number_of_hmetrics,
{
    let t = hhea_table(old, u);
    assert(t.len() == 36);
    assert(t.subrange(0, 2) =~= u16_be(1));
    assert(t.subrange(2, 4) =~= u16_be(0));
    assert(t.subrange(4, 6) =~= i16_be(u.ascender as int));
    assert(t.subrange(6, 8) =~= i16_be(u.descender as int));
    assert(t.subrange(8, 10) =~= i16_be(u.line_gap as int));
    assert(t.subrange(10, 18) =~= old.subrange(10, 18));
    assert(t.subrange(18, 20) =~= i16_be(u.caret_slope_rise as int));
    assert(t.subrange(20, 22) =~= i16_be(u.caret_slope_run as int));
    assert(t.subrange(22, 24) =~= i16_be(u.caret_offset as int));
    assert(t.subrange(24, 34) =~= zeros(10));
    assert(t.subrange(34, 36) =~= old.subrange(34, 36));
    lemma_reads_u16(t, 0, 1);
    lemma_reads_u16(t, 2, 0);
    lemma_reads_i16(t, 4, u.ascender as int);
    lemma_reads_i16(t, 6, u.descender as int);
    lemma_reads_i16(t, 8, u.line_gap as int);
    lemma_reads_i16(t, 18, u.caret_slope_rise as int);
    lemma_reads_i16(t, 20, u.caret_slope_run as int);
    lemma_reads_i16(t, 22, u.caret_offset as int);
    assert forall|i: int| 10 <= i < 18 implies t[i] == old[i] by {
        assert(t.subrange(10, 18)[i - 10] == old.subrange(10, 18)[i - 10]);
    }
    assert forall|i: int| 34 <= i < 36 implies t[i] == old[i] by {
        assert(t.subrange(34, 36)[i - 34] == old.subrange(34, 36)[i - 34]);
    }
}

} // verus!
