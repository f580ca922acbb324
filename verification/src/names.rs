//! The `name` table: its records, and the edit of one name.
//!
//! Decoding the strings of the records and writing a `name` table are the
//! work of `skrifa` and `write-fonts`. Which record an edit changes, and
//! that it changes no other, is decided here.

use vstd::prelude::*;
use skrifa::raw::tables::name::MacRomanMapping;
use skrifa::raw::tables::name::Name as NameTable;
use skrifa::raw::types::NameId;
use skrifa::raw::{FontData, FontRead};
use write_fonts::tables::name::{Name, NameRecord};
use crate::error::FontError;
use crate::sfnt::{
    check_font, font_table, font_with, is_font, read_table, replace_table, replaces, NAME,
};
use crate::text::chars_of;

verus! {

/// One record of the `name` table. `text` is `None` for a record whose
/// string cannot be decoded.
#[derive(Clone, Debug, PartialEq, Eq)]
pub struct NameEntry {
    pub platform_id: u16,
    pub encoding_id: u16,
    pub language_id: u16,
    pub name_id: u16,
    pub text: Option<String>,
}

/// A name record as plain values.
pub ghost struct NameFields {
    pub platform_id: u16,
    pub encoding_id: u16,
    pub language_id: u16,
    pub name_id: u16,
    pub text: Option<Seq<char>>,
}

impl View for NameEntry {
    type V = NameFields;

    open spec fn view(&self) -> NameFields {
        NameFields {
            platform_id: self.platform_id,
            encoding_id: self.encoding_id,
            language_id: self.language_id,
            name_id: self.name_id,
            text: match self.text {
                Some(t) => Some(t@),
                None => None,
            },
        }
    }
}

impl NameEntry {
    /// A copy of the record.
    pub fn clone_entry(&self) -> (r: NameEntry)
        ensures
            r@ == self@,
    {
        NameEntry {
            platform_id: self.platform_id,
            encoding_id: self.encoding_id,
            language_id: self.language_id,
            name_id: self.name_id,
            text: match &self.text {
                Some(t) => Some(t.clone()),
                None => None,
            },
        }
    }
}

/// The records of a list of name entries.
pub open spec fn fields_of(entries: Seq<NameEntry>) -> Seq<NameFields> {
    entries.map_values(|e: NameEntry| e@)
}

/// The name to set: the record with this name id and platform id gets the
/// value.
#[derive(Clone, Debug, PartialEq, Eq)]
pub struct NameTableUpdate {
    pub name_id: u16,
    pub platform_id: u16,
    pub value: String,
}

/// The records of a `name` table with their strings decoded, in the order of
/// the table; `None` for a table that cannot be read.
pub uninterp spec fn name_entries(table: Seq<u8>) -> Option<Seq<NameFields>>;

/// The `name` table that `write-fonts` writes for the records; `None` where
/// it refuses to write them.
pub uninterp spec fn encoded_names(records: Seq<NameFields>) -> Option<Seq<u8>>;

/// The character has a place in the Mac OS Roman encoding.
pub uninterp spec fn mac_roman_has(c: char) -> bool;

/// How `write-fonts` encodes the strings of a platform and encoding id:
/// 0 as UTF-16, 1 as Mac OS Roman, 2 not at all.
pub open spec fn encoding_kind(platform_id: u16, encoding_id: u16) -> int {
    if platform_id == 0 {
        0
    } else if platform_id == 1 && encoding_id == 0 {
        1
    } else if platform_id == 3 && (encoding_id == 0 || encoding_id == 1 || encoding_id == 10) {
        0
    } else {
        2
    }
}

/// How many 16-bit units the text takes in UTF-16.
pub open spec fn utf16_units(text: Seq<char>) -> int
    decreases text.len(),
{
    if text.len() == 0 {
        0
    } else {
        utf16_units(text.drop_last()) + (if text.last() as u32 >= 0x1_0000 { 2int } else { 1int })
    }
}

/// Every character of the text has a place in Mac OS Roman.
pub open spec fn all_mac_roman(text: Seq<char>) -> bool {
    forall|i: int| 0 <= i < text.len() ==> mac_roman_has(#[trigger] text[i])
}

/// The string of the record can be written in the encoding of the record,
/// with a length that fits 16 bits.
pub open spec fn text_fits(r: NameFields) -> bool {
    let text = match r.text {
        Some(t) => t,
        None => Seq::empty(),
    };
    if encoding_kind(r.platform_id, r.encoding_id) == 0 {
        2 * utf16_units(text) <= 0xFFFF
    } else if encoding_kind(r.platform_id, r.encoding_id) == 1 {
        text.len() <= 0xFFFF && all_mac_roman(text)
    } else {
        text.len() == 0
    }
}

/// The most records that a `name` table can list: six bytes of header and
/// twelve for each record come before the strings, and the offset to the
/// strings has 16 bits.
pub const MAX_NAME_RECORDS: usize = 5460;

/// The records can be handed to `write-fonts`: there are no more than a
/// `name` table has room to list before its strings, and each has a string
/// that can be written.
pub open spec fn writable(records: Seq<NameFields>) -> bool {
    &&& records.len() <= MAX_NAME_RECORDS
    &&& forall|i: int|
        0 <= i < records.len() ==> (#[trigger] records[i]).text is Some && text_fits(records[i])
}

/// Reads the table with `Name::read` and decodes the string of each record
/// of `name_record()` with `NameRecord::string` and `NameString::chars`.
///
/// The result is `name_entries`.
#[verifier::external_body]
pub(crate) fn read_names(table: &[u8]) -> (r: Option<Vec<NameEntry>>)
    ensures
        match r {
            Some(entries) => name_entries(table@) == Some(fields_of(entries@)),
            None => name_entries(table@) is None,
        },
{
    let name = NameTable::read(FontData::new(table)).ok()?;
    let data = name.string_data();
    let entry = |r: &skrifa::raw::tables::name::NameRecord| NameEntry {
        platform_id: r.platform_id(),
        encoding_id: r.encoding_id(),
        language_id: r.language_id(),
        name_id: r.name_id().to_u16(),
        text: r.string(data).ok().map(|s| s.chars().collect()),
    };
    Some(name.name_record().iter().map(entry).collect())
}

/// Asks `MacRomanMapping::encode` whether the character has a place in Mac
/// OS Roman.
///
/// The result is `mac_roman_has`.
#[verifier::external_body]
pub(crate) fn in_mac_roman(c: char) -> (r: bool)
    ensures
        r == mac_roman_has(c),
{
    MacRomanMapping.encode(c).is_some()
}

/// Makes a `Name` of the records with `Name::new` and writes it with
/// `dump_table`.
///
/// The result is `encoded_names`. `write-fonts` stops on a string that its
/// encoding cannot hold, on one that is too long for its 16-bit length, and
/// on more records than fit before the strings; `writable` leaves these out,
/// and records without a string.
#[verifier::external_body]
pub(crate) fn encode_names(entries: &Vec<NameEntry>) -> (r: Option<Vec<u8>>)
    requires
        writable(fields_of(entries@)),
    ensures
        match r {
            Some(t) => encoded_names(fields_of(entries@)) == Some(t@),
            None => encoded_names(fields_of(entries@)) is None,
        },
{
    let record = |e: &NameEntry| NameRecord::new(
        e.platform_id,
        e.encoding_id,
        e.language_id,
        NameId::new(e.name_id),
        e.text.clone().unwrap().into(),
    );
    write_fonts::dump_table(&Name::new(entries.iter().map(record).collect())).ok()
}

/// The record is the one that the update names.
pub open spec fn is_target(r: NameFields, name_id: u16, platform_id: u16) -> bool {
    r.name_id == name_id && r.platform_id == platform_id
}

/// A record after the update: a record that the update names gets the new
/// value, and every other keeps its string, with an empty string where it
/// had none that could be decoded. The ids stay as they are.
pub open spec fn patched_record(
    r: NameFields,
    name_id: u16,
    platform_id: u16,
    value: Seq<char>,
) -> NameFields {
    NameFields {
        platform_id: r.platform_id,
        encoding_id: r.encoding_id,
        language_id: r.language_id,
        name_id: r.name_id,
        text: if is_target(r, name_id, platform_id) {
            Some(value)
        } else {
            match r.text {
                Some(t) => Some(t),
                None => Some(Seq::empty()),
            }
        },
    }
}

/// The records after the update, in their old order.
pub open spec fn patched_records(
    records: Seq<NameFields>,
    name_id: u16,
    platform_id: u16,
    value: Seq<char>,
) -> Seq<NameFields> {
    records.map_values(|r: NameFields| patched_record(r, name_id, platform_id, value))
}

/// One of the records is named by the update.
pub open spec fn has_target(records: Seq<NameFields>, name_id: u16, platform_id: u16) -> bool {
    exists|i: int| 0 <= i < records.len() && is_target(#[trigger] records[i], name_id, platform_id)
}

/// An edit of one name changes no other: a record that the update does not
/// name keeps its platform, encoding, language and name id and its string,
/// and stays in its place.
pub proof fn lemma_name_edit_keeps_other_records(
    records: Seq<NameFields>,
    name_id: u16,
    platform_id: u16,
    value: Seq<char>,
    i: int,
)
    requires
        0 <= i < records.len(),
        !is_target(records[i], name_id, platform_id),
        records[i].text is Some,
    ensures
        patched_records(records, name_id, platform_id, value).len() == records.len(),
        patched_records(records, name_id, platform_id, value)[i] == records[i],
{
}

/// An edit of one name gives the value to every record that it names.
pub proof fn lemma_name_edit_sets_the_value(
    records: Seq<NameFields>,
    name_id: u16,
    platform_id: u16,
    value: Seq<char>,
    i: int,
)
    requires
        0 <= i < records.len(),
        is_target(records[i], name_id, platform_id),
    ensures
        patched_records(records, name_id, platform_id, value)[i].text == Some(value),
        patched_records(records, name_id, platform_id, value)[i].name_id == records[i].name_id,
        patched_records(records, name_id, platform_id, value)[i].platform_id
            == records[i].platform_id,
        patched_records(records, name_id, platform_id, value)[i].encoding_id
            == records[i].encoding_id,
        patched_records(records, name_id, platform_id, value)[i].language_id
            == records[i].language_id,
{
}

/// Applies the update to the records of a `name` table.
///
/// It fails, with `NoMatchingNameRecord`, exactly when no record has the
/// name id and platform id of the update.
pub fn patch_name_records(entries: &Vec<NameEntry>, updates: &NameTableUpdate) -> (r: Result<
    Vec<NameEntry>,
    FontError,
>)
    ensures
        match r {
            Ok(patched) => has_target(fields_of(entries@), updates.name_id, updates.platform_id)
                && fields_of(patched@) == patched_records(
                fields_of(entries@),
                updates.name_id,
                updates.platform_id,
                updates.value@,
            ),
            Err(e) => !has_target(fields_of(entries@), updates.name_id, updates.platform_id) && e
                == (FontError::NoMatchingNameRecord {
                name_id: updates.name_id,
                platform_id: updates.platform_id,
            }),
        },
{
    let ghost records = fields_of(entries@);
    let ghost wanted = patched_records(
        records,
        updates.name_id,
        updates.platform_id,
        updates.value@,
    );
    let mut patched: Vec<NameEntry> = Vec::new();
    let mut found = false;
    let mut i: usize = 0;
    while i < entries.len()
        invariant
            i <= entries.len(),
            records == fields_of(entries@),
            wanted == patched_records(
                records,
                updates.name_id,
                updates.platform_id,
                updates.value@,
            ),
            patched.len() == i,
            forall|k: int| 0 <= k < i ==> (#[trigger] patched[k])@ == wanted[k],
            found == (exists|k: int|
                0 <= k < i && is_target(#[trigger] records[k], updates.name_id, updates.platform_id)),
        decreases entries.len() - i,
    {
        let e = &entries[i];
        assert(records[i as int] == e@);
        let text = if e.name_id == updates.name_id && e.platform_id == updates.platform_id {
            found = true;
            updates.value.clone()
        } else {
            match &e.text {
                Some(t) => t.clone(),
                None => String::new(),
            }
        };
        patched.push(
            NameEntry {
                platform_id: e.platform_id,
                encoding_id: e.encoding_id,
                language_id: e.language_id,
                name_id: e.name_id,
                text: Some(text),
            },
        );
        i += 1;
    }
    if !found {
        return Err(
            FontError::NoMatchingNameRecord {
                name_id: updates.name_id,
                platform_id: updates.platform_id,
            },
        );
    }
    assert(fields_of(patched@) =~= wanted);
    Ok(patched)
}

/// Counts the 16-bit units of a text in UTF-16, up to a limit.
fn fits_utf16(chars: &Vec<char>) -> (r: bool)
    ensures
        r == (2 * utf16_units(chars@) <= 0xFFFF),
{
    let mut units: usize = 0;
    let mut i: usize = 0;
    assert(chars@.take(0) =~= Seq::<char>::empty());
    while i < chars.len()
        invariant
            i <= chars.len(),
            units == utf16_units(chars@.take(i as int)),
            units <= 0x7FFF,
        decreases chars.len() - i,
    {
        proof {
            assert(chars@.take(i + 1).drop_last() =~= chars@.take(i as int));
            lemma_utf16_units_grow(chars@, i + 1);
        }
        units = units + (if chars[i] as u32 >= 0x1_0000 { 2 } else { 1 });
        if units > 0x7FFF {
            return false;
        }
        i += 1;
    }
    assert(chars@.take(i as int) =~= chars@);
    true
}

/// A longer text takes no fewer units.
proof fn lemma_utf16_units_grow(text: Seq<char>, n: int)
    requires
        0 <= n <= text.len(),
    ensures
        0 <= utf16_units(text.take(n)) <= utf16_units(text),
    decreases text.len() - n,
{
    if n < text.len() {
        lemma_utf16_units_grow(text, n + 1);
        assert(text.take(n + 1).drop_last() =~= text.take(n));
    } else {
        assert(text.take(n) =~= text);
    }
    lemma_utf16_units_not_negative(text.take(n));
}

/// A text takes no less than no units.
proof fn lemma_utf16_units_not_negative(text: Seq<char>)
    ensures
        utf16_units(text) >= 0,
    decreases text.len(),
{
    if text.len() > 0 {
        lemma_utf16_units_not_negative(text.drop_last());
    }
}

/// Tells whether every character has a place in Mac OS Roman.
fn fits_mac_roman(chars: &Vec<char>) -> (r: bool)
    ensures
        r == (chars.len() <= 0xFFFF && all_mac_roman(chars@)),
{
    if chars.len() > 0xFFFF {
        return false;
    }
    let mut i: usize = 0;
    while i < chars.len()
        invariant
            i <= chars.len(),
            forall|k: int| 0 <= k < i ==> mac_roman_has(#[trigger] chars@[k]),
        decreases chars.len() - i,
    {
        if !in_mac_roman(chars[i]) {
            return false;
        }
        i += 1;
    }
    true
}

/// Tells whether a record has a string that can be written.
fn entry_fits(e: &NameEntry) -> (r: bool)
    ensures
        r == (e@.text is Some && text_fits(e@)),
{
    let chars = match &e.text {
        Some(t) => chars_of(t.as_str()),
        None => {
            return false;
        },
    };
    if e.platform_id == 0 || (e.platform_id == 3 && (e.encoding_id == 0 || e.encoding_id == 1
        || e.encoding_id == 10)) {
        fits_utf16(&chars)
    } else if e.platform_id == 1 && e.encoding_id == 0 {
        fits_mac_roman(&chars)
    } else {
        chars.len() == 0
    }
}

/// Tells whether the records can be handed to `write-fonts`.
pub fn can_write(entries: &Vec<NameEntry>) -> (r: bool)
    ensures
        r == writable(fields_of(entries@)),
{
    if entries.len() > MAX_NAME_RECORDS {
        return false;
    }
    let ghost records = fields_of(entries@);
    let mut i: usize = 0;
    while i < entries.len()
        invariant
            i <= entries.len(),
            records == fields_of(entries@),
            forall|k: int|
                0 <= k < i ==> (#[trigger] records[k]).text is Some && text_fits(records[k]),
        decreases entries.len() - i,
    {
        assert(records[i as int] == entries@[i as int]@);
        if !entry_fits(&entries[i]) {
            return false;
        }
        i += 1;
    }
    true
}

/// What the edit of one name makes of a font.
///
/// The checks come in this order: the bytes must be a font, it must have a
/// `name` table that can be read, one of its records must be named by the
/// update, the records must be such that `write-fonts` can take them and
/// does write them, and the new font must be put together.
pub open spec fn name_outcome(font: Seq<u8>, name_id: u16, platform_id: u16, value: Seq<char>)
    -> Result<Seq<u8>, FontError> {
    if !is_font(font) {
        Err(FontError::MalformedFont)
    } else if font_table(font, NAME) is None {
        Err(FontError::TableMissing { tag: NAME })
    } else if name_entries(font_table(font, NAME)->0) is None {
        Err(FontError::MalformedTable { tag: NAME })
    } else {
        let records = name_entries(font_table(font, NAME)->0)->0;
        let patched = patched_records(records, name_id, platform_id, value);
        if !has_target(records, name_id, platform_id) {
            Err(FontError::NoMatchingNameRecord { name_id, platform_id })
        } else if !writable(patched) || encoded_names(patched) is None {
            Err(FontError::MalformedTable { tag: NAME })
        } else {
            font_with(font, seq![NAME], seq![encoded_names(patched)->0])
        }
    }
}

/// Sets one name of a font: the string of every record with the name id and
/// platform id of the update becomes its value. Every other record keeps
/// its ids and its string, and every other table is carried over.
pub fn update_name_table(font: &[u8], updates: &NameTableUpdate) -> (r: Result<Vec<u8>, FontError>)
    ensures
        match r {
            Ok(file) => name_outcome(font@, updates.name_id, updates.platform_id, updates.value@)
                == Ok::<Seq<u8>, FontError>(file@),
            Err(e) => name_outcome(font@, updates.name_id, updates.platform_id, updates.value@)
                == Err::<Seq<u8>, FontError>(e),
        },
        r matches Ok(file) ==> replaces(
            file@,
            font@,
            NAME,
            encoded_names(
                patched_records(
                    name_entries(font_table(font@, NAME)->0)->0,
                    updates.name_id,
                    updates.platform_id,
                    updates.value@,
                ),
            )->0,
        ),
{
    if !check_font(font) {
        return Err(FontError::MalformedFont);
    }
    let table = match read_table(font, NAME) {
        Some(table) => table,
        None => {
            return Err(FontError::TableMissing { tag: NAME });
        },
    };
    let entries = match read_names(table.as_slice()) {
        Some(entries) => entries,
        None => {
            return Err(FontError::MalformedTable { tag: NAME });
        },
    };
    let patched = match patch_name_records(&entries, updates) {
        Ok(patched) => patched,
        Err(e) => {
            return Err(e);
        },
    };
    if !can_write(&patched) {
        return Err(FontError::MalformedTable { tag: NAME });
    }
    let new_table = match encode_names(&patched) {
        Some(t) => t,
        None => {
            return Err(FontError::MalformedTable { tag: NAME });
        },
    };
    replace_table(font, NAME, new_table)
}

} // verus!
