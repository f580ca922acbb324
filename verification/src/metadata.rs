//! What a font says of itself: names, version, glyph count, tables, hints.

use vstd::prelude::*;
use crate::error::FontError;
use crate::names::{name_entries, read_names, NameEntry, NameFields};
use crate::sfnt::{
    check_font, font_table, font_tags, is_font, read_table, read_tags, CFF, CVT, FPGM, HEAD, MAXP, NAME, PREP,
};
use crate::tables::{
    head_font_revision, maxp_num_glyphs, num_glyphs, revision_major, revision_minor, HEAD_LEN,
    MAXP_LEN,
};
use crate::text::{decimal, hex, push_decimal, push_hex, signed_decimal};

verus! {

/// What the inspector shows of a font file at first sight.
#[derive(Clone, Debug, PartialEq, Eq)]
pub struct FontMetadata {
    pub file_name: String,
    pub file_path: String,
    pub family_name: String,
    pub style_name: String,
    pub version: String,
    pub num_glyphs: u32,
    pub available_tables: Vec<String>,
}

/// Whether a font carries hints, and of which kind.
#[derive(Clone, Debug, PartialEq, Eq)]
pub struct HintingInfo {
    pub is_hinted: bool,
    pub hint_format: Option<String>,
}

/// One byte of a tag as text: the character itself where it is printable
/// ASCII, else its value in braces, `{0x..}`.
pub open spec fn tag_byte_text(b: int) -> Seq<char> {
    if 0x20 <= b <= 0x7E {
        seq![b as u8 as char]
    } else {
        seq!['{', '0', 'x'] + hex(b as nat, 2) + seq!['}']
    }
}

/// A tag as text, byte by byte.
pub open spec fn tag_text(tag: u32) -> Seq<char> {
    tag_byte_text(tag as int / 0x100_0000) + tag_byte_text(tag as int / 0x1_0000 % 0x100)
        + tag_byte_text(tag as int / 0x100 % 0x100) + tag_byte_text(tag as int % 0x100)
}

/// Appends one byte of a tag as text.
fn push_tag_byte(s: &mut String, b: u8)
    ensures
        final(s)@ == old(s)@ + tag_byte_text(b as int),
{
    if 0x20 <= b && b <= 0x7E {
        s.push(b as char);
        assert(s@ =~= old(s)@ + tag_byte_text(b as int));
    } else {
        s.push('{');
        s.push('0');
        s.push('x');
        push_hex(s, b as u32, 2);
        s.push('}');
        assert(s@ =~= old(s)@ + tag_byte_text(b as int));
    }
}

/// Writes a tag as text.
pub fn tag_name(tag: u32) -> (s: String)
    ensures
        s@ == tag_text(tag),
{
    let mut s = String::new();
    push_tag_byte(&mut s, (tag / 0x100_0000) as u8);
    push_tag_byte(&mut s, (tag / 0x1_0000 % 0x100) as u8);
    push_tag_byte(&mut s, (tag / 0x100 % 0x100) as u8);
    push_tag_byte(&mut s, (tag % 0x100) as u8);
    assert(s@ =~= tag_text(tag));
    s
}

/// The text of the first record with the given name id; `None` where there
/// is no such record or the string of that record cannot be decoded.
pub open spec fn first_name(records: Seq<NameFields>, name_id: u16) -> Option<Seq<char>>
    decreases records.len(),
{
    if records.len() == 0 {
        None
    } else if records[0].name_id == name_id {
        records[0].text
    } else {
        first_name(records.drop_first(), name_id)
    }
}

/// The name with the given id that a font shows, or the fallback where it
/// has none to show.
pub open spec fn shown_name(font: Seq<u8>, name_id: u16, fallback: Seq<char>) -> Seq<char> {
    match font_table(font, NAME) {
        None => fallback,
        Some(table) => match name_entries(table) {
            None => fallback,
            Some(records) => match first_name(records, name_id) {
                None => fallback,
                Some(text) => text,
            },
        },
    }
}

/// The version that a font shows: the two halves of `head.fontRevision` in
/// base 10 with a point between them, the first half with its sign.
pub open spec fn shown_version(font: Seq<u8>) -> Seq<char> {
    match font_table(font, HEAD) {
        Some(head) => if head.len() >= HEAD_LEN {
            signed_decimal(revision_major(head)) + seq!['.'] + decimal(revision_minor(head) as nat)
        } else {
            unknown_text()
        },
        None => unknown_text(),
    }
}

/// The number of glyphs that a font shows: that of `maxp`, or 0 without one.
pub open spec fn shown_glyph_count(font: Seq<u8>) -> int {
    match font_table(font, MAXP) {
        Some(maxp) => if maxp.len() >= MAXP_LEN {
            num_glyphs(maxp)
        } else {
            0
        },
        None => 0,
    }
}

/// The text `Unknown`.
pub open spec fn unknown_text() -> Seq<char> {
    seq!['U', 'n', 'k', 'n', 'o', 'w', 'n']
}

/// The text `Regular`.
pub open spec fn regular_text() -> Seq<char> {
    seq!['R', 'e', 'g', 'u', 'l', 'a', 'r']
}

/// The text `Unknown`.
fn unknown() -> (s: String)
    ensures
        s@ == unknown_text(),
{
    let mut s = String::new();
    s.push('U');
    s.push('n');
    s.push('k');
    s.push('n');
    s.push('o');
    s.push('w');
    s.push('n');
    assert(s@ =~= unknown_text());
    s
}

/// The text `Regular`.
fn regular() -> (s: String)
    ensures
        s@ == regular_text(),
{
    let mut s = String::new();
    s.push('R');
    s.push('e');
    s.push('g');
    s.push('u');
    s.push('l');
    s.push('a');
    s.push('r');
    assert(s@ =~= regular_text());
    s
}

/// Looks for the first record with the given name id.
fn find_name(entries: &Vec<NameEntry>, name_id: u16) -> (r: Option<String>)
    ensures
        match r {
            Some(text) => first_name(crate::names::fields_of(entries@), name_id) == Some(text@),
            None => first_name(crate::names::fields_of(entries@), name_id) is None,
        },
{
    let ghost records = crate::names::fields_of(entries@);
    let mut i: usize = 0;
    assert(records.skip(0) =~= records);
    while i < entries.len()
        invariant
            i <= entries.len(),
            records == crate::names::fields_of(entries@),
            first_name(records, name_id) == first_name(records.skip(i as int), name_id),
        decreases entries.len() - i,
    {
        proof {
            assert(records.skip(i as int)[0] == entries@[i as int]@);
            assert(records.skip(i as int).drop_first() =~= records.skip(i + 1));
        }
        if entries[i].name_id == name_id {
            return match &entries[i].text {
                Some(t) => Some(t.clone()),
                None => None,
            };
        }
        i += 1;
    }
    None
}

/// The tags of a font as texts.
pub open spec fn tag_texts(tags: Seq<u32>) -> Seq<Seq<char>> {
    tags.map_values(|t: u32| tag_text(t))
}

/// Describes a font: family and style from the first `name` records with
/// the ids 1 and 2, the version from `head.fontRevision`, the number of
/// glyphs from `maxp`, and the tags of its tables in the order of the table
/// directory. What the font does not say is filled in: `Unknown` for the
/// family and the version, `Regular` for the style, and 0 glyphs.
///
/// It fails, with `MalformedFont`, exactly on bytes that are no font.
pub fn parse_font(file_name: &str, file_path: &str, font: &[u8]) -> (r: Result<
    FontMetadata,
    FontError,
>)
    ensures
        match r {
            Ok(m) => {
                &&& is_font(font@)
                &&& m.file_name@ == file_name@
                &&& m.file_path@ == file_path@
                &&& m.family_name@ == shown_name(font@, 1, unknown_text())
                &&& m.style_name@ == shown_name(font@, 2, regular_text())
                &&& m.version@ == shown_version(font@)
                &&& m.num_glyphs == shown_glyph_count(font@)
                &&& crate::path::texts(m.available_tables@) == tag_texts(font_tags(font@)->0)
            },
            Err(e) => !is_font(font@) && e == FontError::MalformedFont,
        },
{
    if !check_font(font) {
        return Err(FontError::MalformedFont);
    }
    let tags = match read_tags(font) {
        Some(tags) => tags,
        None => {
            return Err(FontError::MalformedFont);
        },
    };
    let entries = match read_table(font, NAME) {
        Some(table) => read_names(table.as_slice()),
        None => None,
    };
    let (family_name, style_name) = match &entries {
        Some(entries) => (
            match find_name(entries, 1) {
                Some(text) => text,
                None => unknown(),
            },
            match find_name(entries, 2) {
                Some(text) => text,
                None => regular(),
            },
        ),
        None => (unknown(), regular()),
    };
    let revision = match read_table(font, HEAD) {
        Some(head) => head_font_revision(head.as_slice()),
        None => None,
    };
    let version = match revision {
        Some((major, minor)) => {
            let mut s = String::new();
            if major < 0 {
                s.push('-');
                push_decimal(&mut s, (-(major as i32)) as u32);
            } else {
                push_decimal(&mut s, major as u32);
            }
            s.push('.');
            push_decimal(&mut s, minor as u32);
            assert(s@ =~= shown_version(font@));
            s
        },
        None => unknown(),
    };
    let num_glyphs: u32 = match read_table(font, MAXP) {
        Some(maxp) => match maxp_num_glyphs(maxp.as_slice()) {
            Some(n) => n as u32,
            None => 0,
        },
        None => 0,
    };
    let mut available_tables: Vec<String> = Vec::new();
    let mut i: usize = 0;
    while i < tags.len()
        invariant
            i <= tags.len(),
            available_tables.len() == i,
            forall|k: int| 0 <= k < i ==> (#[trigger] available_tables[k])@ == tag_text(tags[k]),
        decreases tags.len() - i,
    {
        available_tables.push(tag_name(tags[i]));
        i += 1;
    }
    assert(crate::path::texts(available_tables@) =~= tag_texts(tags@));
    Ok(
        FontMetadata {
            file_name: file_name.to_owned(),
            file_path: file_path.to_owned(),
            family_name,
            style_name,
            version,
            num_glyphs,
            available_tables,
        },
    )
}

/// The text `truetype`.
pub open spec fn truetype_text() -> Seq<char> {
    seq!['t', 'r', 'u', 'e', 't', 'y', 'p', 'e']
}

/// The text `cff`.
pub open spec fn cff_text() -> Seq<char> {
    seq!['c', 'f', 'f']
}

/// The font has a table with this tag that holds at least one byte.
pub open spec fn has_filled_table(font: Seq<u8>, tag: u32) -> bool {
    font_table(font, tag) is Some && font_table(font, tag)->0.len() > 0
}

/// The font carries TrueType hints: one of `fpgm`, `prep` and `cvt ` is
/// there and not empty.
pub open spec fn has_truetype_hints(font: Seq<u8>) -> bool {
    has_filled_table(font, FPGM) || has_filled_table(font, PREP) || has_filled_table(font, CVT)
}

/// Tells whether the font has a table with this tag that is not empty.
fn table_is_filled(font: &[u8], tag: u32) -> (r: bool)
    ensures
        r == has_filled_table(font@, tag),
{
    match read_table(font, tag) {
        Some(table) => table.len() > 0,
        None => false,
    }
}

/// Tells whether a font carries hints: TrueType hints where one of `fpgm`,
/// `prep` and `cvt ` is there and not empty, else CFF hints where there is a
/// `CFF ` table, else none. No bytes at all are a font without hints.
///
/// It fails, with `MalformedFont`, exactly on bytes that are there and are no
/// font.
pub fn check_font_hinting(font: &[u8]) -> (r: Result<HintingInfo, FontError>)
    ensures
        match r {
            Ok(info) => {
                &&& font.len() == 0 || is_font(font@)
                &&& info.is_hinted == (font.len() > 0 && (has_truetype_hints(font@) || font_table(
                    font@,
                    CFF,
                ) is Some))
                &&& match info.hint_format {
                    Some(format) => info.is_hinted && format@ == (if has_truetype_hints(font@) {
                        truetype_text()
                    } else {
                        cff_text()
                    }),
                    None => !info.is_hinted,
                }
            },
            Err(e) => font.len() > 0 && !is_font(font@) && e == FontError::MalformedFont,
        },
{
    if font.len() == 0 {
        return Ok(HintingInfo { is_hinted: false, hint_format: None });
    }
    if !check_font(font) {
        return Err(FontError::MalformedFont);
    }
    if table_is_filled(font, FPGM) || table_is_filled(font, PREP) || table_is_filled(font, CVT) {
        let mut s = String::new();
        s.push('t');
        s.push('r');
        s.push('u');
        s.push('e');
        s.push('t');
        s.push('y');
        s.push('p');
        s.push('e');
        assert(s@ =~= truetype_text());
        return Ok(HintingInfo { is_hinted: true, hint_format: Some(s) });
    }
    if read_table(font, CFF).is_some() {
        let mut s = String::new();
        s.push('c');
        s.push('f');
        s.push('f');
        assert(s@ =~= cff_text());
        return Ok(HintingInfo { is_hinted: true, hint_format: Some(s) });
    }
    Ok(HintingInfo { is_hinted: false, hint_format: None })
}

} // verus!
