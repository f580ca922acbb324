//! The font file as a container of tables.
//!
//! Finding the tables of a font and putting a font together from tables is
//! the work of `skrifa` and `write-fonts`. What `skrifa` finds is stated
//! here over the bytes of the table directory; what `write-fonts` puts
//! together is named, with what reading it back gives. Everything that this
//! library decides, it decides on the table bytes that come out.

use vstd::prelude::*;
use skrifa::raw::types::Tag;
use skrifa::raw::FontRef;
use write_fonts::FontBuilder;
use crate::bytes::{read_u16, u16_at, u32_at};
use crate::error::FontError;

verus! {

/// The tag `head`.
pub const HEAD: u32 = 0x6865_6164;

/// The tag `hhea`.
pub const HHEA: u32 = 0x6868_6561;

/// The tag `maxp`.
pub const MAXP: u32 = 0x6D61_7870;

/// The tag `name`.
pub const NAME: u32 = 0x6E61_6D65;

/// The tag `OS/2`.
pub const OS2: u32 = 0x4F53_2F32;

/// The tag `post`.
pub const POST: u32 = 0x706F_7374;

/// The tag `loca`.
pub const LOCA: u32 = 0x6C6F_6361;

/// The tag `glyf`.
pub const GLYF: u32 = 0x676C_7966;

/// The tag `hmtx`.
pub const HMTX: u32 = 0x686D_7478;

/// The tag `fpgm`.
pub const FPGM: u32 = 0x6670_676D;

/// The tag `prep`.
pub const PREP: u32 = 0x7072_6570;

/// The tag `cvt `.
pub const CVT: u32 = 0x6376_7420;

/// The tag `CFF `.
pub const CFF: u32 = 0x4346_4620;

/// The length of the header of a font file, before the table records.
pub const HEADER_LEN: usize = 12;

/// The length of one record of the table directory: tag, checksum, offset
/// and length, four bytes each.
pub const RECORD_LEN: usize = 16;

/// The file starts as a font does: with twelve bytes of header whose first
/// four name TrueType outlines (1.0 or `true`) or CFF outlines (`OTTO`).
pub open spec fn has_font_header(font: Seq<u8>) -> bool {
    font.len() >= HEADER_LEN && (u32_at(font, 0) == 0x0001_0000 || u32_at(font, 0) == 0x7472_7565
        || u32_at(font, 0) == 0x4F54_544F)
}

/// How many records the table directory holds: as many as the header
/// counts, or none where the file ends before the last of them.
pub open spec fn record_count(font: Seq<u8>) -> int {
    if HEADER_LEN + RECORD_LEN * u16_at(font, 4) <= font.len() {
        u16_at(font, 4)
    } else {
        0
    }
}

/// The tag of record `i` of the table directory.
pub open spec fn record_tag(font: Seq<u8>, i: int) -> u32 {
    u32_at(font, HEADER_LEN + RECORD_LEN * i) as u32
}

/// The tags of the table directory of a font, in the order of its records,
/// each as the number that its four bytes make, first byte highest. `None`
/// for a file that does not start as a font does.
pub open spec fn font_tags(font: Seq<u8>) -> Option<Seq<u32>> {
    if has_font_header(font) {
        Some(Seq::new(record_count(font) as nat, |i: int| record_tag(font, i)))
    } else {
        None
    }
}

/// The first record from `from` on that has the tag, if one has.
pub open spec fn record_with(font: Seq<u8>, tag: u32, from: int) -> Option<int>
    decreases record_count(font) - from,
{
    if from < 0 || from >= record_count(font) {
        None
    } else if record_tag(font, from) == tag {
        Some(from)
    } else {
        record_with(font, tag, from + 1)
    }
}

/// The bytes that record `i` of the table directory points to: from its
/// offset on, as many as its length says. `None` where the offset is 0 or
/// the bytes do not all lie inside the file.
pub open spec fn record_bytes(font: Seq<u8>, i: int) -> Option<Seq<u8>> {
    let offset = u32_at(font, HEADER_LEN + RECORD_LEN * i + 8);
    let length = u32_at(font, HEADER_LEN + RECORD_LEN * i + 12);
    if offset == 0 || offset + length > font.len() {
        None
    } else {
        Some(font.subrange(offset, offset + length))
    }
}

/// The bytes of the table with the given tag: those that the first record
/// with the tag points to. `None` where the file is no font, where no record
/// has the tag, and where that record points outside the file.
pub open spec fn font_table(font: Seq<u8>, tag: u32) -> Option<Seq<u8>> {
    if !has_font_header(font) {
        None
    } else {
        match record_with(font, tag, 0) {
            Some(i) => record_bytes(font, i),
            None => None,
        }
    }
}

/// The font file that `FontBuilder` makes of the given tables and, for every
/// other tag, of the table that `font` has.
pub uninterp spec fn composed_font(font: Seq<u8>, tags: Seq<u32>, tables: Seq<Seq<u8>>) -> Seq<u8>;

/// The bytes are a font: its table directory can be read and lists as many
/// tables as the header counts, and every table that it lists can be had, so
/// none of them is declared to lie before the first byte or beyond the last.
pub open spec fn is_font(font: Seq<u8>) -> bool {
    &&& font.len() >= HEADER_LEN
    &&& font_tags(font) is Some
    &&& font_tags(font)->0.len() == u16_at(font, 4)
    &&& forall|i: int|
        0 <= i < font_tags(font)->0.len() ==> font_table(font, #[trigger] font_tags(font)->0[i])
            is Some
}

/// A table as bytes, with the tag under which a font holds it.
#[derive(Clone, Debug, PartialEq, Eq)]
pub struct RawTable {
    pub tag: u32,
    pub data: Vec<u8>,
}

/// The tags of a list of tables.
pub open spec fn tags_of(tables: Seq<RawTable>) -> Seq<u32> {
    tables.map_values(|t: RawTable| t.tag)
}

/// The bytes of a list of tables.
pub open spec fn contents(tables: Seq<RawTable>) -> Seq<Seq<u8>> {
    tables.map_values(|t: RawTable| t.data@)
}

/// The length of a table in a font file, with the padding that brings the
/// next table to a multiple of four.
pub open spec fn padded_len(len: int) -> int {
    len + (4 - len % 4) % 4
}

/// The padded lengths of the tables, added up.
pub open spec fn padded_total(tables: Seq<Seq<u8>>) -> int
    decreases tables.len(),
{
    if tables.len() == 0 {
        0
    } else {
        padded_total(tables.drop_last()) + padded_len(tables.last().len() as int)
    }
}

/// The padded lengths of the tables that a font has for the given tags,
/// added up; a tag without a table adds nothing.
pub open spec fn copied_total(font: Seq<u8>, tags: Seq<u32>) -> int
    decreases tags.len(),
{
    if tags.len() == 0 {
        0
    } else {
        copied_total(font, tags.drop_last()) + (match font_table(font, tags.last()) {
            Some(table) => padded_len(table.len() as int),
            None => 0,
        })
    }
}

/// The most that the font file can take which is made of the given tables
/// and of all tables of `font`: twelve bytes of header, sixteen for each
/// table record, and the padded tables.
pub open spec fn composed_size_bound(font: Seq<u8>, tags: Seq<u32>, tables: Seq<Seq<u8>>) -> int {
    12 + 16 * (tags.len() + font_tags(font)->0.len()) + padded_total(tables) + copied_total(
        font,
        font_tags(font)->0,
    )
}

/// The most tables that a font can be put together from: with one more, the
/// search range of the table directory no longer fits its 16 bits.
pub const MAX_TABLES: usize = 4095;

/// The font can be put together with the given tables: it is a font, each
/// tag has its table, there are no more tables than a directory can list,
/// and the file stays below 4 GiB, which is as far as its offsets reach.
pub open spec fn composable(font: Seq<u8>, tags: Seq<u32>, tables: Seq<Seq<u8>>) -> bool {
    &&& is_font(font)
    &&& tags.len() == tables.len()
    &&& tags.len() + font_tags(font)->0.len() <= MAX_TABLES
    &&& composed_size_bound(font, tags, tables) <= 0xFFFF_FFFF
}

/// The table that is given for the tag: the last one with that tag.
pub open spec fn given_table(tags: Seq<u32>, tables: Seq<Seq<u8>>, tag: u32) -> Option<Seq<u8>>
    decreases tags.len(),
{
    if tags.len() == 0 || tables.len() != tags.len() {
        None
    } else if tags.last() == tag {
        Some(tables.last())
    } else {
        given_table(tags.drop_last(), tables.drop_last(), tag)
    }
}

/// The table that the new font is to hold under the tag: the given one, or
/// without one the table that `font` has.
pub open spec fn table_to_hold(font: Seq<u8>, tags: Seq<u32>, tables: Seq<Seq<u8>>, tag: u32)
    -> Option<Seq<u8>> {
    match given_table(tags, tables, tag) {
        Some(table) => Some(table),
        None => font_table(font, tag),
    }
}

/// Two `head` tables are the same but for `checkSumAdjustment`, the four
/// bytes from the eighth on, which every font file has anew.
pub open spec fn same_but_checksum(a: Seq<u8>, b: Seq<u8>) -> bool {
    &&& a.len() == b.len()
    &&& forall|i: int| 0 <= i < a.len() && !(8 <= i < 12) ==> a[i] == b[i]
}

/// `file` is a font that holds under each tag the table that it is to hold,
/// `head` but for its checksum field.
pub open spec fn carries(file: Seq<u8>, font: Seq<u8>, tags: Seq<u32>, tables: Seq<Seq<u8>>)
    -> bool {
    &&& is_font(file)
    &&& forall|tag: u32|
        tag != HEAD ==> #[trigger] font_table(file, tag) == table_to_hold(font, tags, tables, tag)
    &&& match table_to_hold(font, tags, tables, HEAD) {
        Some(head) => font_table(file, HEAD) is Some && same_but_checksum(
            font_table(file, HEAD)->0,
            head,
        ),
        None => font_table(file, HEAD) is None,
    }
}

/// Calls `FontRef::new` and lists the tags of `table_directory().table_records()`.
///
/// The result is `font_tags`: `FontRef::new` takes a file of twelve bytes
/// or more whose first four bytes are one of three versions, and the records
/// are those that the header counts, or none where the file is too short
/// for them. The directory counts its records in 16 bits, so there are 65535
/// of them at the most.
#[verifier::external_body]
pub(crate) fn read_tags(font: &[u8]) -> (r: Option<Vec<u32>>)
    ensures
        match r {
            Some(tags) => font_tags(font@) == Some(tags@) && tags.len() <= 0xFFFF,
            None => font_tags(font@) is None,
        },
{
    let f = FontRef::new(font).ok()?;
    let records = f.table_directory().table_records();
    Some(records.iter().map(|r| u32::from_be_bytes(r.tag().to_be_bytes())).collect())
}

/// Calls `FontRef::new` and `FontRef::table_data`, and copies the table.
///
/// The result is `font_table`: `table_data` looks for the tag among the
/// records, by halving where the tags rise strictly, so that none occurs
/// twice, and from the front else; it hands out the bytes at the offset of
/// the record, unless the offset is 0 or the bytes leave the file. Only a
/// font has tables.
#[verifier::external_body]
pub(crate) fn read_table(font: &[u8], tag: u32) -> (r: Option<Vec<u8>>)
    ensures
        match r {
            Some(table) => font_table(font@, tag) == Some(table@) && font_tags(font@) is Some,
            None => font_table(font@, tag) is None,
        },
{
    let f = FontRef::new(font).ok()?;
    f.table_data(Tag::from_be_bytes(tag.to_be_bytes())).map(|d| d.as_bytes().to_vec())
}

/// Calls `FontBuilder::add_raw` for each given table, then
/// `copy_missing_tables` with `font`, then `build`.
///
/// The result is `composed_font`. It is a font whose header counts the
/// records of its directory and whose directory lists only tables that lie
/// inside it, and reading it finds under each tag what the builder was given
/// for it: the last table that was added
/// under the tag, else the table that `copy_missing_tables` took from `font`;
/// only into `head` does `build` write a new checksum adjustment. `build`
/// stops at 4096 tables, where the search range outgrows its field, and
/// counts the file's length in 32 bits; `composable` keeps both in bounds.
#[verifier::external_body]
pub(crate) fn compose(font: &[u8], tables: &Vec<RawTable>) -> (r: Vec<u8>)
    requires
        composable(font@, tags_of(tables@), contents(tables@)),
    ensures
        r@ == composed_font(font@, tags_of(tables@), contents(tables@)),
        carries(r@, font@, tags_of(tables@), contents(tables@)),
{
    let mut builder = FontBuilder::new();
    for table in tables.iter() {
        builder.add_raw(Tag::from_be_bytes(table.tag.to_be_bytes()), table.data.as_slice());
    }
    builder.copy_missing_tables(FontRef::new(font).unwrap());
    builder.build()
}

/// Tells whether the bytes are a font: whether the directory can be read, is
/// whole, and each table that it lists can be had.
pub fn check_font(font: &[u8]) -> (r: bool)
    ensures
        r == is_font(font@),
{
    if font.len() < HEADER_LEN {
        return false;
    }
    let tags = match read_tags(font) {
        Some(tags) => tags,
        None => {
            return false;
        },
    };
    if tags.len() != read_u16(font, 4) as usize {
        return false;
    }
    let mut i: usize = 0;
    while i < tags.len()
        invariant
            i <= tags.len(),
            font_tags(font@) == Some(tags@),
            forall|j: int| 0 <= j < i ==> font_table(font@, #[trigger] tags@[j]) is Some,
        decreases tags.len() - i,
    {
        if read_table(font, tags[i]).is_none() {
            return false;
        }
        i += 1;
    }
    true
}

/// The padded length of a table, or `None` beyond the 32 bits of a file offset.
fn padded(len: usize) -> (r: Option<u64>)
    ensures
        match r {
            Some(p) => p == padded_len(len as int) && p <= 0xFFFF_FFFF,
            None => padded_len(len as int) > 0xFFFF_FFFF,
        },
{
    if len > 0xFFFF_FFFF {
        return None;
    }
    let l: u64 = len as u64;
    let p: u64 = l + (4 - l % 4) % 4;
    if p > 0xFFFF_FFFF {
        None
    } else {
        Some(p)
    }
}

/// Totals of lengths are not negative.
proof fn lemma_totals_are_not_negative(font: Seq<u8>, tags: Seq<u32>, tables: Seq<Seq<u8>>)
    ensures
        padded_total(tables) >= 0,
        copied_total(font, tags) >= 0,
    decreases tags.len() + tables.len(),
{
    if tables.len() > 0 {
        lemma_totals_are_not_negative(font, tags, tables.drop_last());
    } else if tags.len() > 0 {
        lemma_totals_are_not_negative(font, tags.drop_last(), tables);
    }
}

/// Puts a font together from the given tables and, for every other tag, the
/// table that `font` has.
///
/// The new font holds each given table under its tag and every other table
/// of `font` as it was; `head` has its checksum adjustment anew.
///
/// It fails with `MalformedFont` where `font` is no font or lists a table
/// that does not lie inside it, and with `FontTooLarge` where the new file
/// would have more than 4095 tables or would reach 4 GiB, counting every
/// table of `font` and every given one.
pub fn compose_font(font: &[u8], tables: &Vec<RawTable>) -> (r: Result<Vec<u8>, FontError>)
    ensures
        match r {
            Ok(file) => font_with(font@, tags_of(tables@), contents(tables@)) == Ok::<
                Seq<u8>,
                FontError,
            >(file@) && carries(file@, font@, tags_of(tables@), contents(tables@)),
            Err(e) => font_with(font@, tags_of(tables@), contents(tables@)) == Err::<
                Seq<u8>,
                FontError,
            >(e),
        },
{
    let ghost given = contents(tables@);
    let ghost tags = tags_of(tables@);
    if !check_font(font) {
        return Err(FontError::MalformedFont);
    }
    let dir = match read_tags(font) {
        Some(dir) => dir,
        None => {
            return Err(FontError::MalformedFont);
        },
    };
    proof {
        lemma_totals_are_not_negative(font@, dir@, given);
    }
    if dir.len() > MAX_TABLES || tables.len() > MAX_TABLES - dir.len() {
        return Err(FontError::FontTooLarge);
    }
    let mut total: u64 = 12 + 16 * (tables.len() as u64 + dir.len() as u64);
    let mut i: usize = 0;
    assert(given.take(0) =~= Seq::<Seq<u8>>::empty());
    while i < tables.len()
        invariant
            i <= tables.len(),
            given == contents(tables@),
            total <= 0xFFFF_FFFF,
            total == 12 + 16 * (tables.len() + dir.len()) + padded_total(given.take(i as int)),
            padded_total(given) >= 0,
            copied_total(font@, dir@) >= 0,
            font_tags(font@) == Some(dir@),
            is_font(font@),
        decreases tables.len() - i,
    {
        proof {
            assert(given.take(i + 1).drop_last() =~= given.take(i as int));
            assert(given.take(i + 1).last() == tables@[i as int].data@);
            lemma_padded_total_grows(given, i + 1);
        }
        match padded(tables[i].data.len()) {
            Some(p) => {
                total = total + p;
            },
            None => {
                return Err(FontError::FontTooLarge);
            },
        }
        if total > 0xFFFF_FFFF {
            return Err(FontError::FontTooLarge);
        }
        i += 1;
    }
    assert(given.take(i as int) =~= given);
    let ghost base = total as int;
    let mut k: usize = 0;
    assert(dir@.take(0) =~= Seq::<u32>::empty());
    while k < dir.len()
        invariant
            k <= dir.len(),
            given == contents(tables@),
            total <= 0xFFFF_FFFF,
            base == 12 + 16 * (tables.len() + dir.len()) + padded_total(given),
            total == base + copied_total(font@, dir@.take(k as int)),
            font_tags(font@) == Some(dir@),
            is_font(font@),
        decreases dir.len() - k,
    {
        proof {
            assert(dir@.take(k + 1).drop_last() =~= dir@.take(k as int));
            assert(dir@.take(k + 1).last() == dir@[k as int]);
            lemma_copied_total_grows(font@, dir@, k + 1);
        }
        match read_table(font, dir[k]) {
            Some(table) => match padded(table.len()) {
                Some(p) => {
                    total = total + p;
                },
                None => {
                    return Err(FontError::FontTooLarge);
                },
            },
            None => {},
        }
        if total > 0xFFFF_FFFF {
            return Err(FontError::FontTooLarge);
        }
        k += 1;
    }
    assert(dir@.take(k as int) =~= dir@);
    Ok(compose(font, tables))
}

/// A total of padded lengths grows with each table that is counted.
proof fn lemma_padded_total_grows(tables: Seq<Seq<u8>>, n: int)
    requires
        0 <= n <= tables.len(),
    ensures
        padded_total(tables.take(n)) <= padded_total(tables),
    decreases tables.len() - n,
{
    if n < tables.len() {
        lemma_padded_total_grows(tables, n + 1);
        assert(tables.take(n + 1).drop_last() =~= tables.take(n));
    } else {
        assert(tables.take(n) =~= tables);
    }
}

/// A total of copied lengths grows with each tag that is counted.
proof fn lemma_copied_total_grows(font: Seq<u8>, tags: Seq<u32>, n: int)
    requires
        0 <= n <= tags.len(),
    ensures
        copied_total(font, tags.take(n)) <= copied_total(font, tags),
    decreases tags.len() - n,
{
    if n < tags.len() {
        lemma_copied_total_grows(font, tags, n + 1);
        assert(tags.take(n + 1).drop_last() =~= tags.take(n));
    } else {
        assert(tags.take(n) =~= tags);
    }
}

/// The font in which the given tables take the place of those that `font`
/// has under their tags; `MalformedFont` where `font` is none, and
/// `FontTooLarge` where the new file would have more tables or bytes than a
/// font file can hold.
pub open spec fn font_with(font: Seq<u8>, tags: Seq<u32>, tables: Seq<Seq<u8>>) -> Result<
    Seq<u8>,
    FontError,
> {
    if !is_font(font) {
        Err(FontError::MalformedFont)
    } else if composable(font, tags, tables) {
        Ok(composed_font(font, tags, tables))
    } else {
        Err(FontError::FontTooLarge)
    }
}

/// `file` is `font` with one table replaced: it holds the new table under
/// the tag and every other table of `font` as it was; `head`, replaced or
/// not, has its checksum adjustment anew.
pub open spec fn replaces(file: Seq<u8>, font: Seq<u8>, tag: u32, table: Seq<u8>) -> bool {
    &&& is_font(file)
    &&& forall|other: u32|
        other != tag && other != HEAD ==> #[trigger] font_table(file, other) == font_table(
            font,
            other,
        )
    &&& if tag == HEAD {
        font_table(file, HEAD) is Some && same_but_checksum(font_table(file, HEAD)->0, table)
    } else {
        &&& font_table(file, tag) == Some(table)
        &&& match font_table(font, HEAD) {
            Some(head) => font_table(file, HEAD) is Some && same_but_checksum(
                font_table(file, HEAD)->0,
                head,
            ),
            None => font_table(file, HEAD) is None,
        }
    }
}

/// Puts a font together with one table replaced, or added where `font` has
/// none under the tag.
///
/// It fails with `MalformedFont` where `font` is no font, and with
/// `FontTooLarge` exactly when the new file would have more than 4095 tables
/// or would reach 4 GiB.
pub fn replace_table(font: &[u8], tag: u32, table: Vec<u8>) -> (r: Result<Vec<u8>, FontError>)
    ensures
        match r {
            Ok(file) => font_with(font@, seq![tag], seq![table@]) == Ok::<Seq<u8>, FontError>(
                file@,
            ) && replaces(file@, font@, tag, table@),
            Err(e) => font_with(font@, seq![tag], seq![table@]) == Err::<Seq<u8>, FontError>(e),
        },
{
    let ghost bytes = table@;
    let mut given: Vec<RawTable> = Vec::new();
    given.push(RawTable { tag, data: table });
    let ghost tags = tags_of(given@);
    let ghost datas = contents(given@);
    assert(tags =~= seq![tag]);
    assert(datas =~= seq![bytes]);
    match compose_font(font, &given) {
        Ok(file) => {
            proof {
                reveal_with_fuel(given_table, 3);
                assert(tags.drop_last() =~= Seq::<u32>::empty());
                assert(given_table(tags, datas, tag) == Some(bytes));
                assert forall|other: u32| other != tag implies given_table(tags, datas, other)
                    is None by {}
                assert forall|other: u32| other != tag && other != HEAD implies #[trigger] font_table(
                    file@,
                    other,
                ) == font_table(font@, other) by {
                    assert(font_table(file@, other) == table_to_hold(font@, tags, datas, other));
                }
                if tag != HEAD {
                    assert(font_table(file@, tag) == table_to_hold(font@, tags, datas, tag));
                }
            }
            Ok(file)
        },
        Err(e) => Err(e),
    }
}

} // verus!
