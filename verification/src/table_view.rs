//! Tables as the inspector shows them: the fields of `head`, `hhea`, `maxp`,
//! `post` and `OS/2`, the records of `name`, the entries of `loca`, and for
//! every other table its size.

use vstd::prelude::*;
use vstd::utf8::encode_utf8;
use crate::bytes::{
    i16_at, i32_at, i64_at, read_i16, read_i32, read_i64, read_u16, read_u32, u16_at, u32_at,
};
use crate::editor::parsed_offsets;
use crate::error::FontError;
use crate::loca::parse_loca_offsets;
use crate::names::{fields_of, name_entries, read_names, NameEntry, NameFields};
use crate::sfnt::{
    check_font, font_table, is_font, read_table, HEAD, HHEA, LOCA, MAXP, NAME, OS2, POST,
};
use crate::tables::{
    head_index_to_loc_format, index_to_loc_format, maxp_num_glyphs, num_glyphs, HEAD_FLAGS,
    HEAD_LEN, HHEA_LEN, MAC_STYLE_FLAGS, MAXP_LEN, OS2_LEN,
};
use crate::text::chars_of;

verus! {

/// The length of the fixed layout of `post`.
pub const POST_LEN: usize = 32;

/// The fields of `head`. `font_revision` is the 16.16 fixed-point number as
/// the table holds it; of `flags` and `mac_style` only the bits that have a
/// meaning are shown.
#[derive(Clone, Copy, Debug, PartialEq, Eq, Structural)]
pub struct HeadView {
    pub version_major: u16,
    pub version_minor: u16,
    pub font_revision: i32,
    pub checksum_adjustment: u32,
    pub magic_number: u32,
    pub flags: u16,
    pub units_per_em: u16,
    pub created: i64,
    pub modified: i64,
    pub x_min: i16,
    pub y_min: i16,
    pub x_max: i16,
    pub y_max: i16,
    pub mac_style: u16,
    pub lowest_rec_ppem: u16,
    pub font_direction_hint: i16,
    pub index_to_loc_format: i16,
    pub glyph_data_format: i16,
}

/// The fields of `hhea` that the inspector shows.
#[derive(Clone, Copy, Debug, PartialEq, Eq, Structural)]
pub struct HheaView {
    pub version_major: u16,
    pub version_minor: u16,
    pub ascender: i16,
    pub descender: i16,
    pub line_gap: i16,
    pub advance_width_max: u16,
    pub min_left_side_bearing: i16,
    pub min_right_side_bearing: i16,
    pub x_max_extent: i16,
    pub caret_slope_rise: i16,
    pub caret_slope_run: i16,
    pub caret_offset: i16,
    pub number_of_hmetrics: u16,
}

/// The fields of `maxp` that the inspector shows. `version` is the 16.16
/// number as the table holds it.
#[derive(Clone, Copy, Debug, PartialEq, Eq, Structural)]
pub struct MaxpView {
    pub version: u32,
    pub num_glyphs: u16,
}

/// The fields of `post` that the inspector shows. `version` and
/// `italic_angle` are the 16.16 numbers as the table holds them.
#[derive(Clone, Copy, Debug, PartialEq, Eq, Structural)]
pub struct PostView {
    pub version: u32,
    pub italic_angle: i32,
    pub underline_position: i16,
    pub underline_thickness: i16,
    pub is_fixed_pitch: u32,
}

/// The fields of `OS/2` that the inspector shows. The two heights exist
/// from version 2 of the table on.
#[derive(Clone, Copy, Debug, PartialEq, Eq, Structural)]
pub struct Os2View {
    pub version: u16,
    pub x_avg_char_width: i16,
    pub us_weight_class: u16,
    pub us_width_class: u16,
    pub fs_type: u16,
    pub y_subscript_x_size: i16,
    pub y_subscript_y_size: i16,
    pub y_subscript_x_offset: i16,
    pub y_subscript_y_offset: i16,
    pub y_superscript_x_size: i16,
    pub y_superscript_y_size: i16,
    pub y_superscript_x_offset: i16,
    pub y_superscript_y_offset: i16,
    pub y_strikeout_size: i16,
    pub y_strikeout_position: i16,
    pub s_family_class: i16,
    pub sx_height: Option<i16>,
    pub s_cap_height: Option<i16>,
}

/// One entry of `loca`: where the record of the glyph starts in `glyf`, and
/// how long it is.
#[derive(Clone, Copy, Debug, PartialEq, Eq, Structural)]
pub struct LocaEntry {
    pub glyph_id: u32,
    pub offset: u32,
    pub length: u32,
}

/// The `loca` table as the inspector shows it.
#[derive(Clone, Debug, PartialEq, Eq)]
pub struct LocaView {
    pub is_long: bool,
    pub num_glyphs: u16,
    pub entries: Vec<LocaEntry>,
}

/// A table as the inspector shows it.
#[derive(Clone, Debug, PartialEq, Eq)]
pub enum TableView {
    Head(HeadView),
    /// The records of `name` whose strings can be decoded.
    Name(Vec<NameEntry>),
    Maxp(MaxpView),
    Hhea(HheaView),
    Post(PostView),
    Os2(Os2View),
    Loca(LocaView),
    /// A table that is shown by its size alone.
    Raw { tag: u32, size_bytes: usize },
}

/// The fields of a `head` table.
pub open spec fn head_fields(t: Seq<u8>) -> HeadView {
    HeadView {
        version_major: u16_at(t, 0) as u16,
        version_minor: u16_at(t, 2) as u16,
        font_revision: i32_at(t, 4) as i32,
        checksum_adjustment: u32_at(t, 8) as u32,
        magic_number: u32_at(t, 12) as u32,
        flags: (u16_at(t, 16) as u16) & HEAD_FLAGS,
        units_per_em: u16_at(t, 18) as u16,
        created: i64_at(t, 20) as i64,
        modified: i64_at(t, 28) as i64,
        x_min: i16_at(t, 36) as i16,
        y_min: i16_at(t, 38) as i16,
        x_max: i16_at(t, 40) as i16,
        y_max: i16_at(t, 42) as i16,
        mac_style: (u16_at(t, 44) as u16) & MAC_STYLE_FLAGS,
        lowest_rec_ppem: u16_at(t, 46) as u16,
        font_direction_hint: i16_at(t, 48) as i16,
        index_to_loc_format: i16_at(t, 50) as i16,
        glyph_data_format: i16_at(t, 52) as i16,
    }
}

/// The fields of a `hhea` table.
pub open spec fn hhea_fields(t: Seq<u8>) -> HheaView {
    HheaView {
        version_major: u16_at(t, 0) as u16,
        version_minor: u16_at(t, 2) as u16,
        ascender: i16_at(t, 4) as i16,
        descender: i16_at(t, 6) as i16,
        line_gap: i16_at(t, 8) as i16,
        advance_width_max: u16_at(t, 10) as u16,
        min_left_side_bearing: i16_at(t, 12) as i16,
        min_right_side_bearing: i16_at(t, 14) as i16,
        x_max_extent: i16_at(t, 16) as i16,
        caret_slope_rise: i16_at(t, 18) as i16,
        caret_slope_run: i16_at(t, 20) as i16,
        caret_offset: i16_at(t, 22) as i16,
        number_of_hmetrics: u16_at(t, 34) as u16,
    }
}

/// The fields of a `maxp` table.
pub open spec fn maxp_fields(t: Seq<u8>) -> MaxpView {
    MaxpView { version: u32_at(t, 0) as u32, num_glyphs: u16_at(t, 4) as u16 }
}

/// The fields of a `post` table.
pub open spec fn post_fields(t: Seq<u8>) -> PostView {
    PostView {
        version: u32_at(t, 0) as u32,
        italic_angle: i32_at(t, 4) as i32,
        underline_position: i16_at(t, 8) as i16,
        underline_thickness: i16_at(t, 10) as i16,
        is_fixed_pitch: u32_at(t, 12) as u32,
    }
}

/// A field that a table has from version 2 on, at `pos`: `None` in an older
/// table and in one that ends before the field does.
pub open spec fn version_2_field(t: Seq<u8>, pos: int) -> Option<i16> {
    if u16_at(t, 0) >= 2 && pos + 2 <= t.len() {
        Some(i16_at(t, pos) as i16)
    } else {
        None
    }
}

/// The fields of an `OS/2` table.
pub open spec fn os2_fields(t: Seq<u8>) -> Os2View {
    Os2View {
        version: u16_at(t, 0) as u16,
        x_avg_char_width: i16_at(t, 2) as i16,
        us_weight_class: u16_at(t, 4) as u16,
        us_width_class: u16_at(t, 6) as u16,
        fs_type: u16_at(t, 8) as u16,
        y_subscript_x_size: i16_at(t, 10) as i16,
        y_subscript_y_size: i16_at(t, 12) as i16,
        y_subscript_x_offset: i16_at(t, 14) as i16,
        y_subscript_y_offset: i16_at(t, 16) as i16,
        y_superscript_x_size: i16_at(t, 18) as i16,
        y_superscript_y_size: i16_at(t, 20) as i16,
        y_superscript_x_offset: i16_at(t, 22) as i16,
        y_superscript_y_offset: i16_at(t, 24) as i16,
        y_strikeout_size: i16_at(t, 26) as i16,
        y_strikeout_position: i16_at(t, 28) as i16,
        s_family_class: i16_at(t, 30) as i16,
        sx_height: version_2_field(t, 86),
        s_cap_height: version_2_field(t, 88),
    }
}

/// Decodes a `head` table.
pub fn decode_head(t: &[u8]) -> (r: Option<HeadView>)
    ensures
        r == (if t.len() >= HEAD_LEN { Some(head_fields(t@)) } else { None }),
{
    if t.len() < HEAD_LEN {
        return None;
    }
    Some(
        HeadView {
            version_major: read_u16(t, 0),
            version_minor: read_u16(t, 2),
            font_revision: read_i32(t, 4),
            checksum_adjustment: read_u32(t, 8),
            magic_number: read_u32(t, 12),
            flags: read_u16(t, 16) & HEAD_FLAGS,
            units_per_em: read_u16(t, 18),
            created: read_i64(t, 20),
            modified: read_i64(t, 28),
            x_min: read_i16(t, 36),
            y_min: read_i16(t, 38),
            x_max: read_i16(t, 40),
            y_max: read_i16(t, 42),
            mac_style: read_u16(t, 44) & MAC_STYLE_FLAGS,
            lowest_rec_ppem: read_u16(t, 46),
            font_direction_hint: read_i16(t, 48),
            index_to_loc_format: read_i16(t, 50),
            glyph_data_format: read_i16(t, 52),
        },
    )
}

/// Decodes a `hhea` table.
pub fn decode_hhea(t: &[u8]) -> (r: Option<HheaView>)
    ensures
        r == (if t.len() >= HHEA_LEN { Some(hhea_fields(t@)) } else { None }),
{
    if t.len() < HHEA_LEN {
        return None;
    }
    Some(
        HheaView {
            version_major: read_u16(t, 0),
            version_minor: read_u16(t, 2),
            ascender: read_i16(t, 4),
            descender: read_i16(t, 6),
            line_gap: read_i16(t, 8),
            advance_width_max: read_u16(t, 10),
            min_left_side_bearing: read_i16(t, 12),
            min_right_side_bearing: read_i16(t, 14),
            x_max_extent: read_i16(t, 16),
            caret_slope_rise: read_i16(t, 18),
            caret_slope_run: read_i16(t, 20),
            caret_offset: read_i16(t, 22),
            number_of_hmetrics: read_u16(t, 34),
        },
    )
}

/// Decodes a `maxp` table.
pub fn decode_maxp(t: &[u8]) -> (r: Option<MaxpView>)
    ensures
        r == (if t.len() >= MAXP_LEN { Some(maxp_fields(t@)) } else { None }),
{
    if t.len() < MAXP_LEN {
        return None;
    }
    Some(MaxpView { version: read_u32(t, 0), num_glyphs: read_u16(t, 4) })
}

/// Decodes a `post` table.
pub fn decode_post(t: &[u8]) -> (r: Option<PostView>)
    ensures
        r == (if t.len() >= POST_LEN { Some(post_fields(t@)) } else { None }),
{
    if t.len() < POST_LEN {
        return None;
    }
    Some(
        PostView {
            version: read_u32(t, 0),
            italic_angle: read_i32(t, 4),
            underline_position: read_i16(t, 8),
            underline_thickness: read_i16(t, 10),
            is_fixed_pitch: read_u32(t, 12),
        },
    )
}

/// Reads a field that the table has from version 2 on.
fn read_version_2_field(t: &[u8], pos: usize) -> (r: Option<i16>)
    requires
        t.len() >= 2,
        pos <= 0x1000,
    ensures
        r == version_2_field(t@, pos as int),
{
    if read_u16(t, 0) >= 2 && pos + 2 <= t.len() {
        Some(read_i16(t, pos))
    } else {
        None
    }
}

/// Decodes an `OS/2` table.
pub fn decode_os2(t: &[u8]) -> (r: Option<Os2View>)
    ensures
        r == (if t.len() >= OS2_LEN { Some(os2_fields(t@)) } else { None }),
{
    if t.len() < OS2_LEN {
        return None;
    }
    Some(
        Os2View {
            version: read_u16(t, 0),
            x_avg_char_width: read_i16(t, 2),
            us_weight_class: read_u16(t, 4),
            us_width_class: read_u16(t, 6),
            fs_type: read_u16(t, 8),
            y_subscript_x_size: read_i16(t, 10),
            y_subscript_y_size: read_i16(t, 12),
            y_subscript_x_offset: read_i16(t, 14),
            y_subscript_y_offset: read_i16(t, 16),
            y_superscript_x_size: read_i16(t, 18),
            y_superscript_y_size: read_i16(t, 20),
            y_superscript_x_offset: read_i16(t, 22),
            y_superscript_y_offset: read_i16(t, 24),
            y_strikeout_size: read_i16(t, 26),
            y_strikeout_position: read_i16(t, 28),
            s_family_class: read_i16(t, 30),
            sx_height: read_version_2_field(t, 86),
            s_cap_height: read_version_2_field(t, 88),
        },
    )
}

/// Entry `i` of the view of `loca`: the offset of glyph `i`, and up to the
/// next offset its length, which is 0 for the last entry and wherever the
/// next offset is the smaller one.
pub open spec fn loca_view_entry(offsets: Seq<u32>, i: int) -> LocaEntry {
    LocaEntry {
        glyph_id: i as u32,
        offset: offsets[i],
        length: if i + 1 < offsets.len() && offsets[i + 1] >= offsets[i] {
            (offsets[i + 1] - offsets[i]) as u32
        } else {
            0
        },
    }
}

/// Lists the entries of `loca` with the length of each glyph.
pub fn loca_entries(offsets: &[u32]) -> (entries: Vec<LocaEntry>)
    requires
        offsets.len() <= 0x1_0000,
    ensures
        entries.len() == offsets.len(),
        forall|i: int|
            0 <= i < entries.len() ==> (#[trigger] entries[i]) == loca_view_entry(offsets@, i),
{
    let mut entries: Vec<LocaEntry> = Vec::new();
    let mut i: usize = 0;
    while i < offsets.len()
        invariant
            i <= offsets.len() <= 0x1_0000,
            entries.len() == i,
            forall|k: int| 0 <= k < i ==> (#[trigger] entries[k]) == loca_view_entry(offsets@, k),
        decreases offsets.len() - i,
    {
        let offset = offsets[i];
        let length: u32 = if i + 1 < offsets.len() && offsets[i + 1] >= offset {
            offsets[i + 1] - offset
        } else {
            0
        };
        entries.push(LocaEntry { glyph_id: i as u32, offset, length });
        i += 1;
    }
    entries
}

/// Which view a table name asks for.
#[derive(Clone, Copy, Debug, PartialEq, Eq, Structural)]
pub enum TableKind {
    Head,
    Name,
    Maxp,
    Hhea,
    Post,
    Os2,
    Loca,
    /// Any other table, by the tag that the first four bytes of the name make.
    Other { tag: u32 },
}

/// The text of a four-byte tag.
pub open spec fn tag_chars(a: char, b: char, c: char, d: char) -> Seq<char> {
    seq![a, b, c, d]
}

/// The tag that four bytes make.
pub open spec fn tag_of(bytes: Seq<u8>) -> u32 {
    u32_at(bytes, 0) as u32
}

/// The view that a table name asks for: a name of fewer than four bytes
/// asks for none, the names of the seven tables with fields of their own ask
/// for those, and every other name asks for the table whose tag is its
/// first four bytes.
pub open spec fn kind_of(name: Seq<char>) -> Option<TableKind> {
    if encode_utf8(name).len() < 4 {
        None
    } else if name == tag_chars('h', 'e', 'a', 'd') {
        Some(TableKind::Head)
    } else if name == tag_chars('n', 'a', 'm', 'e') {
        Some(TableKind::Name)
    } else if name == tag_chars('m', 'a', 'x', 'p') {
        Some(TableKind::Maxp)
    } else if name == tag_chars('h', 'h', 'e', 'a') {
        Some(TableKind::Hhea)
    } else if name == tag_chars('p', 'o', 's', 't') {
        Some(TableKind::Post)
    } else if name == tag_chars('O', 'S', '/', '2') {
        Some(TableKind::Os2)
    } else if name == tag_chars('l', 'o', 'c', 'a') {
        Some(TableKind::Loca)
    } else {
        Some(TableKind::Other { tag: tag_of(encode_utf8(name)) })
    }
}

/// Tells whether the characters are the four given ones.
fn spells(chars: &Vec<char>, a: char, b: char, c: char, d: char) -> (r: bool)
    ensures
        r == (chars@ == tag_chars(a, b, c, d)),
{
    let r = chars.len() == 4 && chars[0] == a && chars[1] == b && chars[2] == c && chars[3] == d;
    assert(r == (chars@ =~= tag_chars(a, b, c, d)));
    r
}

/// Tells which view a table name asks for.
pub fn table_kind(table_name: &str) -> (r: Option<TableKind>)
    ensures
        r == kind_of(table_name@),
{
    let bytes = table_name.as_bytes();
    if bytes.len() < 4 {
        return None;
    }
    let chars = chars_of(table_name);
    if spells(&chars, 'h', 'e', 'a', 'd') {
        Some(TableKind::Head)
    } else if spells(&chars, 'n', 'a', 'm', 'e') {
        Some(TableKind::Name)
    } else if spells(&chars, 'm', 'a', 'x', 'p') {
        Some(TableKind::Maxp)
    } else if spells(&chars, 'h', 'h', 'e', 'a') {
        Some(TableKind::Hhea)
    } else if spells(&chars, 'p', 'o', 's', 't') {
        Some(TableKind::Post)
    } else if spells(&chars, 'O', 'S', '/', '2') {
        Some(TableKind::Os2)
    } else if spells(&chars, 'l', 'o', 'c', 'a') {
        Some(TableKind::Loca)
    } else {
        Some(TableKind::Other { tag: read_u32(bytes, 0) })
    }
}

/// The table with the tag, or why it cannot be shown: it is missing, or it
/// is shorter than its fixed layout.
pub open spec fn table_to_show(font: Seq<u8>, tag: u32, min_len: int) -> Result<Seq<u8>, FontError> {
    match font_table(font, tag) {
        None => Err(FontError::TableMissing { tag }),
        Some(t) => if t.len() < min_len {
            Err(FontError::MalformedTable { tag })
        } else {
            Ok(t)
        },
    }
}

/// Reads the table with the tag.
fn read_to_show(font: &[u8], tag: u32, min_len: usize) -> (r: Result<Vec<u8>, FontError>)
    ensures
        match r {
            Ok(t) => table_to_show(font@, tag, min_len as int) == Ok::<Seq<u8>, FontError>(t@),
            Err(e) => table_to_show(font@, tag, min_len as int) == Err::<Seq<u8>, FontError>(e),
        },
{
    match read_table(font, tag) {
        None => Err(FontError::TableMissing { tag }),
        Some(t) => if t.len() < min_len {
            Err(FontError::MalformedTable { tag })
        } else {
            Ok(t)
        },
    }
}

/// The records whose strings can be decoded, in their order.
pub open spec fn decodable(records: Seq<NameFields>) -> Seq<NameFields> {
    records.filter(|r: NameFields| r.text is Some)
}

/// Keeps the records whose strings can be decoded.
fn keep_decodable(entries: Vec<NameEntry>) -> (kept: Vec<NameEntry>)
    ensures
        fields_of(kept@) == decodable(fields_of(entries@)),
{
    let ghost records = fields_of(entries@);
    let ghost keep = |r: NameFields| r.text is Some;
    let mut kept: Vec<NameEntry> = Vec::new();
    let mut i: usize = 0;
    assert(records.take(0).filter(keep) =~= Seq::<NameFields>::empty()) by {
        reveal(Seq::filter);
    }
    while i < entries.len()
        invariant
            i <= entries.len(),
            records == fields_of(entries@),
            keep == (|r: NameFields| r.text is Some),
            fields_of(kept@) == records.take(i as int).filter(keep),
        decreases entries.len() - i,
    {
        proof {
            assert(records.take(i + 1).drop_last() =~= records.take(i as int));
            assert(records.take(i + 1).last() == entries@[i as int]@);
            reveal(Seq::filter);
        }
        if entries[i].text.is_some() {
            let ghost before = fields_of(kept@);
            kept.push(entries[i].clone_entry());
            assert(fields_of(kept@) =~= before.push(entries@[i as int]@));
        }
        i += 1;
    }
    assert(records.take(i as int) =~= records);
    kept
}

/// Shows a table of a font.
///
/// The checks come in this order: the bytes must be a font; the name must
/// have the four bytes of a tag; the table that it asks for must be there and
/// as long as its fixed layout. The view of `loca` needs `head` and `maxp` as
/// well, in that order before `loca` itself.
pub fn get_table_content(font: &[u8], table_name: &str) -> (r: Result<TableView, FontError>)
    ensures
        !is_font(font@) ==> r == Err::<TableView, FontError>(FontError::MalformedFont),
        is_font(font@) && kind_of(table_name@) is None ==> r == Err::<
            TableView,
            FontError,
        >(FontError::InvalidTableName),
        is_font(font@) && kind_of(table_name@) is Some ==> shows(
            r,
            font@,
            kind_of(table_name@)->0,
        ),
{
    if !check_font(font) {
        return Err(FontError::MalformedFont);
    }
    let kind = match table_kind(table_name) {
        Some(kind) => kind,
        None => {
            return Err(FontError::InvalidTableName);
        },
    };
    match kind {
        TableKind::Head => match read_to_show(font, HEAD, HEAD_LEN) {
            Ok(t) => Ok(TableView::Head(decode_head(t.as_slice()).unwrap())),
            Err(e) => Err(e),
        },
        TableKind::Hhea => match read_to_show(font, HHEA, HHEA_LEN) {
            Ok(t) => Ok(TableView::Hhea(decode_hhea(t.as_slice()).unwrap())),
            Err(e) => Err(e),
        },
        TableKind::Maxp => match read_to_show(font, MAXP, MAXP_LEN) {
            Ok(t) => Ok(TableView::Maxp(decode_maxp(t.as_slice()).unwrap())),
            Err(e) => Err(e),
        },
        TableKind::Post => match read_to_show(font, POST, POST_LEN) {
            Ok(t) => Ok(TableView::Post(decode_post(t.as_slice()).unwrap())),
            Err(e) => Err(e),
        },
        TableKind::Os2 => match read_to_show(font, OS2, OS2_LEN) {
            Ok(t) => Ok(TableView::Os2(decode_os2(t.as_slice()).unwrap())),
            Err(e) => Err(e),
        },
        TableKind::Name => match read_to_show(font, NAME, 0) {
            Ok(t) => match read_names(t.as_slice()) {
                Some(entries) => Ok(TableView::Name(keep_decodable(entries))),
                None => Err(FontError::MalformedTable { tag: NAME }),
            },
            Err(e) => Err(e),
        },
        TableKind::Loca => {
            let head = match read_to_show(font, HEAD, HEAD_LEN) {
                Ok(t) => t,
                Err(e) => {
                    return Err(e);
                },
            };
            let maxp = match read_to_show(font, MAXP, MAXP_LEN) {
                Ok(t) => t,
                Err(e) => {
                    return Err(e);
                },
            };
            let loca = match read_to_show(font, LOCA, 0) {
                Ok(t) => t,
                Err(e) => {
                    return Err(e);
                },
            };
            let is_long = head_index_to_loc_format(head.as_slice()).unwrap() != 0;
            let count = maxp_num_glyphs(maxp.as_slice()).unwrap();
            let offsets = parse_loca_offsets(loca.as_slice(), count as usize + 1, is_long);
            assert(offsets@ =~= parsed_offsets(loca@, count + 1, is_long));
            Ok(
                TableView::Loca(
                    LocaView {
                        is_long,
                        num_glyphs: count,
                        entries: loca_entries(offsets.as_slice()),
                    },
                ),
            )
        },
        TableKind::Other { tag } => match read_to_show(font, tag, 0) {
            Ok(t) => Ok(TableView::Raw { tag, size_bytes: t.len() }),
            Err(e) => Err(e),
        },
    }
}

/// `r` is what showing the table of the given kind gives.
pub open spec fn shows(r: Result<TableView, FontError>, font: Seq<u8>, kind: TableKind) -> bool {
    match kind {
        TableKind::Head => match table_to_show(font, HEAD, HEAD_LEN as int) {
            Ok(t) => r == Ok::<TableView, FontError>(TableView::Head(head_fields(t))),
            Err(e) => r == Err::<TableView, FontError>(e),
        },
        TableKind::Hhea => match table_to_show(font, HHEA, HHEA_LEN as int) {
            Ok(t) => r == Ok::<TableView, FontError>(TableView::Hhea(hhea_fields(t))),
            Err(e) => r == Err::<TableView, FontError>(e),
        },
        TableKind::Maxp => match table_to_show(font, MAXP, MAXP_LEN as int) {
            Ok(t) => r == Ok::<TableView, FontError>(TableView::Maxp(maxp_fields(t))),
            Err(e) => r == Err::<TableView, FontError>(e),
        },
        TableKind::Post => match table_to_show(font, POST, POST_LEN as int) {
            Ok(t) => r == Ok::<TableView, FontError>(TableView::Post(post_fields(t))),
            Err(e) => r == Err::<TableView, FontError>(e),
        },
        TableKind::Os2 => match table_to_show(font, OS2, OS2_LEN as int) {
            Ok(t) => r == Ok::<TableView, FontError>(TableView::Os2(os2_fields(t))),
            Err(e) => r == Err::<TableView, FontError>(e),
        },
        TableKind::Name => match table_to_show(font, NAME, 0) {
            Ok(t) => match name_entries(t) {
                Some(records) => r matches Ok(TableView::Name(entries)) && fields_of(entries@)
                    == decodable(records),
                None => r == Err::<TableView, FontError>(FontError::MalformedTable { tag: NAME }),
            },
            Err(e) => r == Err::<TableView, FontError>(e),
        },
        TableKind::Loca => {
            if table_to_show(font, HEAD, HEAD_LEN as int) is Err {
                r == Err::<TableView, FontError>(table_to_show(font, HEAD, HEAD_LEN as int)->Err_0)
            } else if table_to_show(font, MAXP, MAXP_LEN as int) is Err {
                r == Err::<TableView, FontError>(table_to_show(font, MAXP, MAXP_LEN as int)->Err_0)
            } else if table_to_show(font, LOCA, 0) is Err {
                r == Err::<TableView, FontError>(table_to_show(font, LOCA, 0)->Err_0)
            } else {
                let is_long = index_to_loc_format(font_table(font, HEAD)->0) != 0;
                let count = num_glyphs(font_table(font, MAXP)->0);
                let offsets = parsed_offsets(font_table(font, LOCA)->0, count + 1, is_long);
                &&& r matches Ok(TableView::Loca(view))
                &&& view.is_long == is_long
                &&& view.num_glyphs == count
                &&& view.entries.len() == count + 1
                &&& forall|i: int|
                    0 <= i <= count ==> (#[trigger] view.entries[i]) == loca_view_entry(
                        offsets,
                        i,
                    )
            }
        },
        TableKind::Other { tag } => match table_to_show(font, tag, 0) {
            Ok(t) => r == Ok::<TableView, FontError>(
                TableView::Raw { tag, size_bytes: t.len() as usize },
            ),
            Err(e) => r == Err::<TableView, FontError>(e),
        },
    }
}

} // verus!
