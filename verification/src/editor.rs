//! Edits of glyph outlines: a font goes in as bytes and comes out as bytes.
//!
//! Saving an outline replaces one glyph of `glyf` or adds glyphs up to a new
//! one; `loca` is rebuilt in step, `hmtx` grows with the glyph count, and
//! `maxp` and `OS/2` follow. Moving the components of a composite glyph
//! replaces its record in `glyf`. Every other table is carried over.

use vstd::prelude::*;
use crate::bytes::{i16_at, zeros};
use crate::composite::{
    components_from, lemma_components_before_suffix, lemma_patched_glyph_reads_back,
    patch_composite_glyph_offsets, patched_all, patched_glyph, records_of, GLYPH_HEADER_LEN,
};
use crate::glyph_view::{composite_info, glyph_start, shown_info};
use crate::error::FontError;
use crate::glyf::{build_glyf_glyph_bytes, glyf_glyph_bytes, has_cubic};
use crate::hmtx::{
    added_glyphs, advance_widths, calculate_x_avg_char_width, extend_hmtx, read_advance_widths,
    x_avg_char_width,
};
use crate::loca::{
    glyph_record, lemma_rebuilt_glyph_is_found, lemma_rebuilt_tables_are_sound, loca_entry,
    loca_is_sound, loca_limit, parse_loca_offsets, rebuild_glyf_with_patch, rebuilt_glyf,
    rebuilt_loca, GlyfEdit,
};
use crate::outline_data::CompositeOffsetUpdate;
use crate::path::{
    commands_from, number_tokens, numbered, parse_svg_path_cmds, path_tokens, tokenize_svg_path,
    Token,
};
use crate::sfnt::{
    carries, check_font, compose_font, contents, font_table, font_with, given_table, is_font,
    read_table, replace_table, replaces, same_but_checksum, table_to_hold, tags_of, RawTable, GLYF,
    HEAD, HHEA, HMTX, LOCA, MAXP, OS2,
};
use crate::tables::{
    head_index_to_loc_format, hhea_number_of_h_metrics, hhea_advance_width_max,
    index_to_loc_format, maxp_num_glyphs, num_glyphs, HEAD_LEN, HHEA_LEN, MAXP_LEN, OS2_LEN,
};
use crate::text::{trim, trimmed, string_of};
use crate::typed::{maxp_table, rewrite_maxp, rewrite_os2, rewritten_os2};

verus! {

/// What the editor hands over to have an outline saved.
#[derive(Clone, Debug, PartialEq, Eq)]
pub struct SaveGlyphOutlineArgs {
    pub glyph_id: u32,
    /// The drawing path, y downwards, as the outline walker writes it.
    pub svg_path: String,
    /// The table that is to hold the outline. Only `glyf` can.
    pub table_name: String,
}

/// The tables that an edit of glyph outlines reads, each as the font holds
/// it, `None` for a table that the font lacks.
#[derive(Clone, Debug, PartialEq, Eq)]
pub struct OutlineTables {
    pub head: Option<Vec<u8>>,
    pub maxp: Option<Vec<u8>>,
    pub loca: Option<Vec<u8>>,
    pub glyf: Option<Vec<u8>>,
    pub hhea: Option<Vec<u8>>,
    pub hmtx: Option<Vec<u8>>,
}

/// The tables of `OutlineTables` as byte sequences.
pub ghost struct TableBytes {
    pub head: Option<Seq<u8>>,
    pub maxp: Option<Seq<u8>>,
    pub loca: Option<Seq<u8>>,
    pub glyf: Option<Seq<u8>>,
    pub hhea: Option<Seq<u8>>,
    pub hmtx: Option<Seq<u8>>,
}

/// The bytes of a table that may be absent.
pub open spec fn bytes_of(table: Option<Vec<u8>>) -> Option<Seq<u8>> {
    match table {
        Some(t) => Some(t@),
        None => None,
    }
}

impl View for OutlineTables {
    type V = TableBytes;

    open spec fn view(&self) -> TableBytes {
        TableBytes {
            head: bytes_of(self.head),
            maxp: bytes_of(self.maxp),
            loca: bytes_of(self.loca),
            glyf: bytes_of(self.glyf),
            hhea: bytes_of(self.hhea),
            hmtx: bytes_of(self.hmtx),
        }
    }
}

/// The outline tables of a font.
pub open spec fn outline_tables(font: Seq<u8>) -> TableBytes {
    TableBytes {
        head: font_table(font, HEAD),
        maxp: font_table(font, MAXP),
        loca: font_table(font, LOCA),
        glyf: font_table(font, GLYF),
        hhea: font_table(font, HHEA),
        hmtx: font_table(font, HMTX),
    }
}

/// Reads the outline tables of a font. It fails, with `MalformedFont`, on
/// bytes that are no font, and on nothing else.
pub fn read_outline_tables(font: &[u8]) -> (r: Result<OutlineTables, FontError>)
    ensures
        match r {
            Ok(tables) => is_font(font@) && tables@ == outline_tables(font@),
            Err(e) => !is_font(font@) && e == FontError::MalformedFont,
        },
{
    if !check_font(font) {
        return Err(FontError::MalformedFont);
    }
    Ok(
        OutlineTables {
            head: read_table(font, HEAD),
            maxp: read_table(font, MAXP),
            loca: read_table(font, LOCA),
            glyf: read_table(font, GLYF),
            hhea: read_table(font, HHEA),
            hmtx: read_table(font, HMTX),
        },
    )
}

/// Whether `loca` has the long format, as `head` says.
pub open spec fn loca_is_long(t: TableBytes) -> Result<bool, FontError> {
    match t.head {
        None => Err(FontError::TableMissing { tag: HEAD }),
        Some(head) => if head.len() < HEAD_LEN {
            Err(FontError::MalformedTable { tag: HEAD })
        } else {
            Ok(index_to_loc_format(head) != 0)
        },
    }
}

/// The number of glyphs, as `maxp` says.
pub open spec fn glyph_count(t: TableBytes) -> Result<int, FontError> {
    match t.maxp {
        None => Err(FontError::TableMissing { tag: MAXP }),
        Some(maxp) => if maxp.len() < MAXP_LEN {
            Err(FontError::MalformedTable { tag: MAXP })
        } else {
            Ok(num_glyphs(maxp))
        },
    }
}

/// The first `n` offsets of a `loca` table.
pub open spec fn parsed_offsets(loca: Seq<u8>, n: int, is_long: bool) -> Seq<u32> {
    Seq::new(n as nat, |i: int| loca_entry(loca, i, is_long) as u32)
}

/// The glyph tables after an outline has been saved.
pub ghost struct GlyphPlanBytes {
    pub glyf: Seq<u8>,
    pub loca: Seq<u8>,
    pub hmtx: Seq<u8>,
    pub is_new_glyph: bool,
    pub num_glyphs: int,
}

/// The glyph tables after an outline has been saved, and what the save did
/// to the glyph count.
#[derive(Clone, Debug, PartialEq, Eq)]
pub struct GlyphPlan {
    pub glyf: Vec<u8>,
    pub loca: Vec<u8>,
    pub hmtx: Vec<u8>,
    /// The glyph lay beyond the glyphs of the font, which has grown to hold it.
    pub is_new_glyph: bool,
    /// The number of glyphs that the font has now.
    pub num_glyphs: u16,
}

impl View for GlyphPlan {
    type V = GlyphPlanBytes;

    open spec fn view(&self) -> GlyphPlanBytes {
        GlyphPlanBytes {
            glyf: self.glyf@,
            loca: self.loca@,
            hmtx: self.hmtx@,
            is_new_glyph: self.is_new_glyph,
            num_glyphs: self.num_glyphs as int,
        }
    }
}

/// How many glyphs the font has once glyph `glyph_id` is saved.
pub open spec fn target_glyph_count(count: int, glyph_id: u32) -> int {
    if glyph_id >= count {
        glyph_id + 1
    } else {
        count
    }
}

/// What saving `new_glyph` as glyph `glyph_id` makes of the outline tables.
///
/// The checks come in this order: `head` and `maxp` must be there and long
/// enough, `loca` and `glyf` must be there, the glyph count must stay within
/// 65535, the new `glyf` must fit the `loca` format, `hhea` must be there and
/// long enough, and a font that grows must have an `hmtx` to extend.
pub open spec fn glyph_plan(t: TableBytes, glyph_id: u32, new_glyph: Seq<u8>) -> Result<
    GlyphPlanBytes,
    FontError,
> {
    if loca_is_long(t) is Err {
        Err(loca_is_long(t)->Err_0)
    } else if glyph_count(t) is Err {
        Err(glyph_count(t)->Err_0)
    } else if t.loca is None {
        Err(FontError::TableMissing { tag: LOCA })
    } else if t.glyf is None {
        Err(FontError::TableMissing { tag: GLYF })
    } else {
        let is_long = loca_is_long(t)->Ok_0;
        let count = glyph_count(t)->Ok_0;
        let target = target_glyph_count(count, glyph_id);
        let edit = GlyfEdit {
            glyf: t.glyf->0,
            offsets: parsed_offsets(t.loca->0, count + 1, is_long),
            glyph_id: glyph_id as int,
            new_glyph,
        };
        if target > 0xFFFF {
            Err(FontError::GlyphIdOverflow { glyph_id })
        } else if rebuilt_glyf(edit, target as nat).len() > loca_limit(is_long) {
            Err(FontError::LocaOverflow)
        } else if t.hhea is None {
            Err(FontError::TableMissing { tag: HHEA })
        } else if t.hhea->0.len() < HHEA_LEN {
            Err(FontError::MalformedTable { tag: HHEA })
        } else if glyph_id >= count && t.hmtx is None {
            Err(FontError::TableMissing { tag: HMTX })
        } else {
            Ok(
                GlyphPlanBytes {
                    glyf: rebuilt_glyf(edit, target as nat),
                    loca: rebuilt_loca(edit, is_long, (target + 1) as nat),
                    hmtx: match t.hmtx {
                        Some(hmtx) => hmtx + zeros(2 * added_glyphs(count, target)),
                        None => Seq::empty(),
                    },
                    is_new_glyph: glyph_id >= count,
                    num_glyphs: target,
                },
            )
        }
    }
}

/// Reads the format of `loca` from `head`.
fn read_loca_format(tables: &OutlineTables) -> (r: Result<bool, FontError>)
    ensures
        r == loca_is_long(tables@),
{
    match &tables.head {
        None => Err(FontError::TableMissing { tag: HEAD }),
        Some(head) => match head_index_to_loc_format(head.as_slice()) {
            None => Err(FontError::MalformedTable { tag: HEAD }),
            Some(format) => Ok(format != 0),
        },
    }
}

/// Reads the number of glyphs from `maxp`.
fn read_glyph_count(tables: &OutlineTables) -> (r: Result<u16, FontError>)
    ensures
        match r {
            Ok(n) => glyph_count(tables@) == Ok::<int, FontError>(n as int),
            Err(e) => glyph_count(tables@) == Err::<int, FontError>(e),
        },
{
    match &tables.maxp {
        None => Err(FontError::TableMissing { tag: MAXP }),
        Some(maxp) => match maxp_num_glyphs(maxp.as_slice()) {
            None => Err(FontError::MalformedTable { tag: MAXP }),
            Some(n) => Ok(n),
        },
    }
}

/// Works out the glyph tables of a font in which `new_glyph` is glyph
/// `glyph_id`: in place of the old glyph, or as a new glyph behind empty
/// glyphs that fill the numbers in between.
pub fn plan_glyph_save(tables: &OutlineTables, glyph_id: u32, new_glyph: &[u8]) -> (r: Result<
    GlyphPlan,
    FontError,
>)
    ensures
        match r {
            Ok(plan) => glyph_plan(tables@, glyph_id, new_glyph@) == Ok::<
                GlyphPlanBytes,
                FontError,
            >(plan@),
            Err(e) => glyph_plan(tables@, glyph_id, new_glyph@) == Err::<GlyphPlanBytes, FontError>(
                e,
            ),
        },
{
    let is_long = match read_loca_format(tables) {
        Ok(is_long) => is_long,
        Err(e) => {
            return Err(e);
        },
    };
    let count = match read_glyph_count(tables) {
        Ok(count) => count,
        Err(e) => {
            return Err(e);
        },
    };
    let loca = match &tables.loca {
        Some(loca) => loca,
        None => {
            return Err(FontError::TableMissing { tag: LOCA });
        },
    };
    let glyf = match &tables.glyf {
        Some(glyf) => glyf,
        None => {
            return Err(FontError::TableMissing { tag: GLYF });
        },
    };
    let offsets = parse_loca_offsets(loca.as_slice(), count as usize + 1, is_long);
    assert(offsets@ =~= parsed_offsets(loca@, count + 1, is_long));
    let is_new_glyph = glyph_id >= count as u32;
    if is_new_glyph && glyph_id >= 0xFFFF {
        return Err(FontError::GlyphIdOverflow { glyph_id });
    }
    let target: u16 = if is_new_glyph { (glyph_id + 1) as u16 } else { count };
    let (new_glyf, new_loca) = match rebuild_glyf_with_patch(
        glyf.as_slice(),
        offsets.as_slice(),
        glyph_id as usize,
        new_glyph,
        is_long,
        target as usize,
    ) {
        Ok(pair) => pair,
        Err(e) => {
            return Err(e);
        },
    };
    let hhea = match &tables.hhea {
        Some(hhea) => hhea,
        None => {
            return Err(FontError::TableMissing { tag: HHEA });
        },
    };
    let num_h_metrics = match hhea_number_of_h_metrics(hhea.as_slice()) {
        Some(n) => n,
        None => {
            return Err(FontError::MalformedTable { tag: HHEA });
        },
    };
    let default_advance = match hhea_advance_width_max(hhea.as_slice()) {
        Some(n) => n,
        None => {
            return Err(FontError::MalformedTable { tag: HHEA });
        },
    };
    let new_hmtx = match &tables.hmtx {
        Some(hmtx) => extend_hmtx(
            hmtx.as_slice(),
            count as usize,
            target as usize,
            num_h_metrics,
            default_advance,
        ),
        None => {
            if is_new_glyph {
                return Err(FontError::TableMissing { tag: HMTX });
            }
            Vec::new()
        },
    };
    Ok(
        GlyphPlan {
            glyf: new_glyf,
            loca: new_loca,
            hmtx: new_hmtx,
            is_new_glyph,
            num_glyphs: target,
        },
    )
}

/// A font after an outline has been saved to it.
#[derive(Clone, Debug, PartialEq, Eq)]
pub struct SavedFont {
    pub font: Vec<u8>,
    /// The glyph lay beyond the glyphs of the font, which has grown to hold it.
    pub is_new_glyph: bool,
    /// The number of glyphs that the font has now.
    pub num_glyphs: u16,
}

/// What `SavedFont` holds, as plain values.
pub ghost struct SavedBytes {
    pub font: Seq<u8>,
    pub is_new_glyph: bool,
    pub num_glyphs: int,
}

impl View for SavedFont {
    type V = SavedBytes;

    open spec fn view(&self) -> SavedBytes {
        SavedBytes {
            font: self.font@,
            is_new_glyph: self.is_new_glyph,
            num_glyphs: self.num_glyphs as int,
        }
    }
}

/// The font in which the tables of the plan have taken the place of the old
/// ones. Where the glyph count has grown, `maxp` is written anew with the
/// new count.
pub open spec fn planned_font(font: Seq<u8>, plan: GlyphPlanBytes) -> Result<Seq<u8>, FontError> {
    if plan.is_new_glyph {
        match maxp_table(font_table(font, MAXP)->0, plan.num_glyphs as u16) {
            None => Err(FontError::MalformedTable { tag: MAXP }),
            Some(maxp) => font_with(
                font,
                seq![GLYF, LOCA, HMTX, MAXP],
                seq![plan.glyf, plan.loca, plan.hmtx, maxp],
            ),
        }
    } else {
        font_with(font, seq![GLYF, LOCA, HMTX], seq![plan.glyf, plan.loca, plan.hmtx])
    }
}

/// The tokens of a drawing path, each with the number that was read from it.
pub open spec fn read_tokens(path: Seq<char>, numbers: Seq<Option<u32>>) -> Seq<Token> {
    numbered(path_tokens(path), numbers)
}

/// The font of a plan as it is handed back: where the font has grown,
/// `OS/2.xAvgCharWidth` is set to the mean advance width of its glyphs, as
/// the font with the planned tables has them.
pub open spec fn finished_font(file: Seq<u8>, plan: GlyphPlanBytes) -> Result<Seq<u8>, FontError> {
    if plan.is_new_glyph {
        x_avg_outcome(file, advance_widths(file, plan.num_glyphs))
    } else {
        Ok(file)
    }
}

/// What saving the outline that `tokens` spell as glyph `glyph_id` makes of
/// a font.
///
/// The checks come in this order: the bytes must be a font, the path must
/// parse, it must hold no cubic curve, the glyph tables must be planned
/// (`glyph_plan`), the new font must be put together, and where it has grown,
/// `OS/2.xAvgCharWidth` must be brought up to date (`finished_font`).
pub open spec fn save_outcome(font: Seq<u8>, glyph_id: u32, tokens: Seq<Token>) -> Result<
    SavedBytes,
    FontError,
> {
    if !is_font(font) {
        Err(FontError::MalformedFont)
    } else {
        match commands_from(tokens, 0) {
            Err(fault) => Err(FontError::BadPath { fault }),
            Ok(cmds) => if has_cubic(cmds) {
                Err(FontError::CubicInGlyfTable)
            } else {
                match glyph_plan(outline_tables(font), glyph_id, glyf_glyph_bytes(cmds)) {
                    Err(e) => Err(e),
                    Ok(plan) => match planned_font(font, plan) {
                        Err(e) => Err(e),
                        Ok(file) => match finished_font(file, plan) {
                            Err(e) => Err(e),
                            Ok(done) => Ok(
                                SavedBytes {
                                    font: done,
                                    is_new_glyph: plan.is_new_glyph,
                                    num_glyphs: plan.num_glyphs,
                                },
                            ),
                        },
                    },
                }
            },
        }
    }
}

/// The text `glyf`.
pub open spec fn glyf_name() -> Seq<char> {
    seq!['g', 'l', 'y', 'f']
}

/// Tells whether the characters spell `glyf`.
fn is_glyf(name: &Vec<char>) -> (r: bool)
    ensures
        r == (name@ == glyf_name()),
{
    let r = name.len() == 4 && name[0] == 'g' && name[1] == 'l' && name[2] == 'y' && name[3]
        == 'f';
    assert(r == (name@ =~= glyf_name()));
    r
}

/// Tells whether outlines can be saved to the table that is named: to `glyf`
/// only, whatever blanks stand around the name. Any other name is refused
/// with `UnsupportedOutlineTable`, which holds the name without its blanks.
pub fn check_outline_table(table_name: &str) -> (r: Result<(), FontError>)
    ensures
        match r {
            Ok(_) => trimmed(table_name@) == glyf_name(),
            Err(e) => trimmed(table_name@) != glyf_name() && (e matches FontError::UnsupportedOutlineTable {
                table,
            } && table@ == trimmed(table_name@)),
        },
{
    let name = trim(table_name);
    if is_glyf(&name) {
        Ok(())
    } else {
        Err(FontError::UnsupportedOutlineTable { table: string_of(&name, 0, name.len()) })
    }
}

/// The glyph tables of a font agree with one another: `head` and `maxp` can
/// be read, and `loca` fits the number of glyphs of `maxp` and the length of
/// `glyf`.
pub open spec fn glyph_tables_agree(file: Seq<u8>) -> bool {
    let t = outline_tables(file);
    &&& loca_is_long(t) is Ok
    &&& glyph_count(t) is Ok
    &&& t.loca is Some
    &&& t.glyf is Some
    &&& loca_is_sound(
        t.loca->0,
        loca_is_long(t)->Ok_0,
        glyph_count(t)->Ok_0,
        t.glyf->0.len() as int,
    )
}

/// `OS/2` of `file` is that of `font` with `xAvgCharWidth` brought up to
/// date: where `font` has an `OS/2` table that can be read, the field of the
/// table of `file` holds the mean advance width of the glyphs of the font
/// with the planned tables; else the table is as it was.
pub open spec fn os2_follows(file: Seq<u8>, font: Seq<u8>, plan: GlyphPlanBytes) -> bool {
    if font_table(font, OS2) is None || font_table(font, OS2)->0.len() < OS2_LEN {
        font_table(file, OS2) == font_table(font, OS2)
    } else {
        &&& font_table(file, OS2) is Some
        &&& font_table(file, OS2)->0.len() >= OS2_LEN
        &&& i16_at(font_table(file, OS2)->0, 2) == x_avg_char_width(
            advance_widths(planned_font(font, plan)->Ok_0, plan.num_glyphs),
        )
    }
}

/// `file` is `font` after the save: it has `glyf`, `loca` and `hmtx` of the
/// plan, its `maxp` counts the glyphs of the plan and is that of `font`
/// where no glyph was added, its `OS/2` follows where one was, its `head` is
/// that of `font` but for the checksum, and every other table is that of
/// `font`.
pub open spec fn saved_as_planned(file: Seq<u8>, font: Seq<u8>, plan: GlyphPlanBytes) -> bool {
    &&& is_font(file)
    &&& font_table(file, GLYF) == Some(plan.glyf)
    &&& font_table(file, LOCA) == Some(plan.loca)
    &&& font_table(file, HMTX) == Some(plan.hmtx)
    &&& glyph_count(outline_tables(file)) == Ok::<int, FontError>(plan.num_glyphs)
    &&& (!plan.is_new_glyph ==> font_table(file, MAXP) == font_table(font, MAXP))
    &&& (plan.is_new_glyph ==> os2_follows(file, font, plan))
    &&& match font_table(font, HEAD) {
        Some(head) => font_table(file, HEAD) is Some && same_but_checksum(
            font_table(file, HEAD)->0,
            head,
        ),
        None => font_table(file, HEAD) is None,
    }
    &&& forall|tag: u32|
        tag != GLYF && tag != LOCA && tag != HMTX && tag != MAXP && tag != HEAD && (tag != OS2
            || !plan.is_new_glyph) ==> #[trigger] font_table(file, tag) == font_table(font, tag)
}

/// `file` is `font` with the glyph tables of the plan: it has `glyf`, `loca`
/// and `hmtx` of the plan, its `maxp` counts the glyphs of the plan and is
/// that of `font` where no glyph was added, its `head` is that of `font` but
/// for the checksum, and every other table is that of `font`.
pub open spec fn built_as_planned(file: Seq<u8>, font: Seq<u8>, plan: GlyphPlanBytes) -> bool {
    &&& is_font(file)
    &&& font_table(file, GLYF) == Some(plan.glyf)
    &&& font_table(file, LOCA) == Some(plan.loca)
    &&& font_table(file, HMTX) == Some(plan.hmtx)
    &&& glyph_count(outline_tables(file)) == Ok::<int, FontError>(plan.num_glyphs)
    &&& (!plan.is_new_glyph ==> font_table(file, MAXP) == font_table(font, MAXP))
    &&& match font_table(font, HEAD) {
        Some(head) => font_table(file, HEAD) is Some && same_but_checksum(
            font_table(file, HEAD)->0,
            head,
        ),
        None => font_table(file, HEAD) is None,
    }
    &&& forall|tag: u32|
        tag != GLYF && tag != LOCA && tag != HMTX && tag != MAXP && tag != HEAD
            ==> #[trigger] font_table(file, tag) == font_table(font, tag)
}

/// Among tables with tags that differ from one another, the table that is
/// given under a tag is the one with that tag.
proof fn lemma_given_tables(tags: Seq<u32>, tables: Seq<Seq<u8>>, tag: u32)
    requires
        tags.len() == tables.len(),
        forall|i: int, j: int| 0 <= i < j < tags.len() ==> tags[i] != tags[j],
    ensures
        forall|i: int|
            0 <= i < tags.len() && #[trigger] tags[i] == tag ==> given_table(tags, tables, tag)
                == Some(tables[i]),
        (forall|i: int| 0 <= i < tags.len() ==> #[trigger] tags[i] != tag) ==> given_table(
            tags,
            tables,
            tag,
        ) is None,
    decreases tags.len(),
{
    if tags.len() > 0 {
        let front = tags.drop_last();
        let front_tables = tables.drop_last();
        assert forall|i: int, j: int| 0 <= i < j < front.len() implies front[i] != front[j] by {
            assert(front[i] == tags[i] && front[j] == tags[j]);
        }
        lemma_given_tables(front, front_tables, tag);
        assert forall|i: int| 0 <= i < tags.len() && #[trigger] tags[i] == tag implies given_table(
            tags,
            tables,
            tag,
        ) == Some(tables[i]) by {
            if i < tags.len() - 1 {
                assert(front[i] == tags[i]);
                assert(front_tables[i] == tables[i]);
                assert(tags.last() != tag);
            }
        }
        if forall|i: int| 0 <= i < tags.len() ==> #[trigger] tags[i] != tag {
            assert forall|i: int| 0 <= i < front.len() implies #[trigger] front[i] != tag by {
                assert(front[i] == tags[i]);
            }
        }
    }
}

/// Puts the font together that a plan describes.
fn apply_plan(font: &[u8], tables: &OutlineTables, plan: GlyphPlan) -> (r: Result<
    Vec<u8>,
    FontError,
>)
    requires
        is_font(font@),
        tables@ == outline_tables(font@),
        plan.is_new_glyph ==> tables.maxp is Some && tables.maxp->0.len() >= MAXP_LEN,
        !plan.is_new_glyph ==> glyph_count(tables@) == Ok::<int, FontError>(
            plan.num_glyphs as int,
        ),
    ensures
        match r {
            Ok(file) => planned_font(font@, plan@) == Ok::<Seq<u8>, FontError>(file@)
                && built_as_planned(file@, font@, plan@),
            Err(e) => planned_font(font@, plan@) == Err::<Seq<u8>, FontError>(e),
        },
{
    let ghost p = plan@;
    let mut given: Vec<RawTable> = Vec::new();
    given.push(RawTable { tag: GLYF, data: plan.glyf });
    given.push(RawTable { tag: LOCA, data: plan.loca });
    given.push(RawTable { tag: HMTX, data: plan.hmtx });
    if plan.is_new_glyph {
        let old_maxp = match &tables.maxp {
            Some(maxp) => maxp,
            None => {
                return Err(FontError::MalformedTable { tag: MAXP });
            },
        };
        proof {
            crate::headers::lemma_maxp_table_counts(old_maxp@, plan.num_glyphs);
        }
        match rewrite_maxp(old_maxp.as_slice(), plan.num_glyphs) {
            Some(maxp) => {
                given.push(RawTable { tag: MAXP, data: maxp });
                assert(tags_of(given@) =~= seq![GLYF, LOCA, HMTX, MAXP]);
                assert(contents(given@) =~= seq![p.glyf, p.loca, p.hmtx, maxp@]);
            },
            None => {
                return Err(FontError::MalformedTable { tag: MAXP });
            },
        }
    } else {
        assert(tags_of(given@) =~= seq![GLYF, LOCA, HMTX]);
        assert(contents(given@) =~= seq![p.glyf, p.loca, p.hmtx]);
    }
    let ghost tags = tags_of(given@);
    let ghost datas = contents(given@);
    match compose_font(font, &given) {
        Ok(file) => {
            proof {
                assert(carries(file@, font@, tags, datas));
                lemma_given_tables(tags, datas, GLYF);
                lemma_given_tables(tags, datas, LOCA);
                lemma_given_tables(tags, datas, HMTX);
                lemma_given_tables(tags, datas, MAXP);
                lemma_given_tables(tags, datas, HEAD);
                assert(font_table(file@, GLYF) == table_to_hold(font@, tags, datas, GLYF));
                assert(font_table(file@, LOCA) == table_to_hold(font@, tags, datas, LOCA));
                assert(font_table(file@, HMTX) == table_to_hold(font@, tags, datas, HMTX));
                assert(font_table(file@, MAXP) == table_to_hold(font@, tags, datas, MAXP));
                assert forall|tag: u32|
                    tag != GLYF && tag != LOCA && tag != HMTX && tag != MAXP && tag
                        != HEAD implies #[trigger] font_table(file@, tag) == font_table(
                    font@,
                    tag,
                ) by {
                    lemma_given_tables(tags, datas, tag);
                    assert(font_table(file@, tag) == table_to_hold(font@, tags, datas, tag));
                }
            }
            Ok(file)
        },
        Err(e) => Err(e),
    }
}

/// Saves an outline to a font.
///
/// `numbers` holds, for each token of `args.svg_path` in turn, the number
/// that the token spells, as the bit pattern of a binary32 value, and `None`
/// for a token that spells none. The outline becomes glyph `args.glyph_id`:
/// it replaces that glyph, or, where the font has fewer glyphs, the font
/// grows up to it.
///
/// It fails with `UnsupportedOutlineTable` exactly when `args.table_name`,
/// trimmed, is not `glyf`; every other outcome is that of `save_outcome`.
///
/// The font that comes back is `font` with new glyph tables, and where it
/// has grown, with `OS/2.xAvgCharWidth` brought up to date
/// (`saved_as_planned`). Its glyph tables agree with one another, and its
/// `glyf` holds the record of the outline where its `loca` says that the
/// glyph starts, and the record of every other glyph as it was.
pub fn save_glyph_outline(font: &[u8], args: &SaveGlyphOutlineArgs, numbers: &[Option<u32>]) -> (r:
    Result<SavedFont, FontError>)
    ensures
        trimmed(args.table_name@) != glyf_name() ==> (r matches Err(
            FontError::UnsupportedOutlineTable { table },
        ) && table@ == trimmed(args.table_name@)),
        trimmed(args.table_name@) == glyf_name() ==> (match r {
            Ok(saved) => save_outcome(
                font@,
                args.glyph_id,
                read_tokens(args.svg_path@, numbers@),
            ) == Ok::<SavedBytes, FontError>(saved@),
            Err(e) => save_outcome(font@, args.glyph_id, read_tokens(args.svg_path@, numbers@))
                == Err::<SavedBytes, FontError>(e),
        }),
        r matches Ok(saved) ==> {
            let tokens = read_tokens(args.svg_path@, numbers@);
            let record = glyf_glyph_bytes(commands_from(tokens, 0)->Ok_0);
            let plan = glyph_plan(outline_tables(font@), args.glyph_id, record)->Ok_0;
            &&& saved_as_planned(saved.font@, font@, plan)
            &&& glyph_tables_agree(saved.font@)
            &&& holds_glyph(saved.font@, args.glyph_id, record)
            &&& keeps_glyphs(saved.font@, font@, args.glyph_id)
        },
{
    match check_outline_table(args.table_name.as_str()) {
        Ok(()) => {},
        Err(e) => {
            return Err(e);
        },
    }
    let tables = match read_outline_tables(font) {
        Ok(tables) => tables,
        Err(e) => {
            return Err(e);
        },
    };
    let texts = tokenize_svg_path(args.svg_path.as_str());
    let tokens = number_tokens(&texts, numbers);
    let cmds = match parse_svg_path_cmds(tokens.as_slice()) {
        Ok(cmds) => cmds,
        Err(e) => {
            return Err(e);
        },
    };
    let new_glyph = match build_glyf_glyph_bytes(cmds.as_slice()) {
        Ok(bytes) => bytes,
        Err(e) => {
            return Err(e);
        },
    };
    let plan = match plan_glyph_save(&tables, args.glyph_id, new_glyph.as_slice()) {
        Ok(plan) => plan,
        Err(e) => {
            return Err(e);
        },
    };
    let is_new_glyph = plan.is_new_glyph;
    let num_glyphs = plan.num_glyphs;
    let ghost planned = plan@;
    let file = match apply_plan(font, &tables, plan) {
        Ok(file) => file,
        Err(e) => {
            return Err(e);
        },
    };
    proof {
        lemma_planned_tables_agree(file@, font@, args.glyph_id, new_glyph@);
    }
    if !is_new_glyph {
        return Ok(SavedFont { font: file, is_new_glyph, num_glyphs });
    }
    let widths = read_advance_widths(file.as_slice(), num_glyphs);
    match update_x_avg_char_width(file.as_slice(), widths.as_slice()) {
        Ok(done) => {
            proof {
                lemma_glyph_tables_carry(done@, file@);
                assert(holds_glyph(file@, args.glyph_id, new_glyph@));
                assert forall|i: u32|
                    i < glyph_count(outline_tables(done@))->Ok_0 && i
                        != args.glyph_id implies #[trigger] holds_glyph(
                    done@,
                    i,
                    kept_record(font@, i),
                ) by {
                    assert(holds_glyph(file@, i, kept_record(font@, i)));
                }
            }
            Ok(SavedFont { font: done, is_new_glyph, num_glyphs })
        },
        Err(e) => Err(e),
    }
}

/// A font that has the glyph tables of another, and its `head` but for the
/// checksum, has glyph tables that agree as those do, and holds the glyphs
/// that the other holds.
proof fn lemma_glyph_tables_carry(done: Seq<u8>, file: Seq<u8>)
    requires
        glyph_tables_agree(file),
        font_table(done, GLYF) == font_table(file, GLYF),
        font_table(done, LOCA) == font_table(file, LOCA),
        font_table(done, MAXP) == font_table(file, MAXP),
        font_table(done, HEAD) is Some,
        same_but_checksum(font_table(done, HEAD)->0, font_table(file, HEAD)->0),
    ensures
        glyph_tables_agree(done),
        forall|i: u32, record: Seq<u8>| #[trigger]
            holds_glyph(file, i, record) ==> holds_glyph(done, i, record),
{
    let old_head = font_table(file, HEAD)->0;
    let new_head = font_table(done, HEAD)->0;
    assert(new_head[50] == old_head[50] && new_head[51] == old_head[51]);
    assert(loca_is_long(outline_tables(done)) == loca_is_long(outline_tables(file)));
}

/// The `glyf` table of the font holds the record for the glyph where its
/// `loca` says that the glyph starts.
pub open spec fn holds_glyph(file: Seq<u8>, glyph_id: u32, record: Seq<u8>) -> bool {
    let t = outline_tables(file);
    let start = loca_entry(t.loca->0, glyph_id as int, loca_is_long(t)->Ok_0);
    &&& glyph_tables_agree(file)
    &&& glyph_id < glyph_count(t)->Ok_0
    &&& start + record.len() <= t.glyf->0.len()
    &&& t.glyf->0.subrange(start, start + record.len()) == record
}

/// The record that a glyph has in a font: the bytes of `glyf` that `loca`
/// bounds for it, and nothing for a glyph that `loca` does not bound inside
/// `glyf`.
pub open spec fn kept_record(font: Seq<u8>, i: u32) -> Seq<u8> {
    let t = outline_tables(font);
    glyph_record(
        GlyfEdit {
            glyf: t.glyf->0,
            offsets: parsed_offsets(t.loca->0, glyph_count(t)->Ok_0 + 1, loca_is_long(t)->Ok_0),
            glyph_id: -1,
            new_glyph: Seq::empty(),
        },
        i as int,
    )
}

/// Every glyph of `file` but glyph `glyph_id` has the record that it had in
/// `font`: `glyf` holds it where `loca` says that the glyph starts.
pub open spec fn keeps_glyphs(file: Seq<u8>, font: Seq<u8>, glyph_id: u32) -> bool {
    forall|i: u32|
        i < glyph_count(outline_tables(file))->Ok_0 && i != glyph_id ==> #[trigger] holds_glyph(
            file,
            i,
            kept_record(font, i),
        )
}

/// A font that was saved as planned has glyph tables that agree, holds the
/// new glyph, and keeps every other.
proof fn lemma_planned_tables_agree(
    file: Seq<u8>,
    font: Seq<u8>,
    glyph_id: u32,
    record: Seq<u8>,
)
    requires
        glyph_plan(outline_tables(font), glyph_id, record) is Ok,
        built_as_planned(file, font, glyph_plan(outline_tables(font), glyph_id, record)->Ok_0),
    ensures
        glyph_tables_agree(file),
        holds_glyph(file, glyph_id, record),
        keeps_glyphs(file, font, glyph_id),
{
    let t = outline_tables(font);
    let is_long = loca_is_long(t)->Ok_0;
    let count = glyph_count(t)->Ok_0;
    let target = target_glyph_count(count, glyph_id);
    let edit = GlyfEdit {
        glyf: t.glyf->0,
        offsets: parsed_offsets(t.loca->0, count + 1, is_long),
        glyph_id: glyph_id as int,
        new_glyph: record,
    };
    let after = outline_tables(file);
    let old_head = t.head->0;
    let new_head = after.head->0;
    assert(new_head[50] == old_head[50] && new_head[51] == old_head[51]);
    assert(loca_is_long(after) == Ok::<bool, FontError>(is_long));
    lemma_rebuilt_tables_are_sound(edit, is_long, target as nat);
    lemma_rebuilt_glyph_is_found(edit, is_long, target as nat, glyph_id as nat);
    assert forall|i: u32| i < target && i != glyph_id implies #[trigger] holds_glyph(
        file,
        i,
        kept_record(font, i),
    ) by {
        lemma_rebuilt_glyph_is_found(edit, is_long, target as nat, i as nat);
        assert(glyph_record(edit, i as int) == kept_record(font, i));
    }
}

/// What setting `OS/2.xAvgCharWidth` to the mean of the advance widths makes
/// of a font: a font without an `OS/2` table that can be read stays as it
/// is.
pub open spec fn x_avg_outcome(font: Seq<u8>, widths: Seq<Option<i32>>) -> Result<
    Seq<u8>,
    FontError,
> {
    if !is_font(font) {
        Err(FontError::MalformedFont)
    } else if font_table(font, OS2) is None || font_table(font, OS2)->0.len() < OS2_LEN {
        Ok(font)
    } else {
        match rewritten_os2(font_table(font, OS2)->0, x_avg_char_width(widths) as i16) {
            None => Err(FontError::MalformedTable { tag: OS2 }),
            Some(os2) => font_with(font, seq![OS2], seq![os2]),
        }
    }
}

/// Brings `OS/2.xAvgCharWidth` up to date after the font has gained glyphs.
///
/// `widths` holds the advance width of each glyph of the font, `None` for a
/// glyph without metrics. The field becomes their mean, rounded towards
/// zero. A font whose `OS/2` table cannot be read comes back as it is; in
/// every other font that comes back, the field of the new table holds the
/// mean and every other table is carried over.
pub fn update_x_avg_char_width(font: &[u8], widths: &[Option<i32>]) -> (r: Result<
    Vec<u8>,
    FontError,
>)
    ensures
        match r {
            Ok(file) => x_avg_outcome(font@, widths@) == Ok::<Seq<u8>, FontError>(file@),
            Err(e) => x_avg_outcome(font@, widths@) == Err::<Seq<u8>, FontError>(e),
        },
        r matches Ok(file) ==> if font_table(font@, OS2) is None || font_table(font@, OS2)->0.len()
            < OS2_LEN {
            file@ == font@
        } else {
            &&& replaces(
                file@,
                font@,
                OS2,
                rewritten_os2(font_table(font@, OS2)->0, x_avg_char_width(widths@) as i16)->0,
            )
            &&& font_table(file@, OS2)->0.len() >= OS2_LEN
            &&& i16_at(font_table(file@, OS2)->0, 2) == x_avg_char_width(widths@)
        },
{
    if !check_font(font) {
        return Err(FontError::MalformedFont);
    }
    let avg = calculate_x_avg_char_width(widths);
    let old = match read_table(font, OS2) {
        Some(table) => table,
        None => {
            return Ok(copy_of(font));
        },
    };
    if old.len() < OS2_LEN {
        return Ok(copy_of(font));
    }
    match rewrite_os2(old.as_slice(), avg) {
        None => Err(FontError::MalformedTable { tag: OS2 }),
        Some(os2) => replace_table(font, OS2, os2),
    }
}

/// A copy of the bytes.
fn copy_of(bytes: &[u8]) -> (v: Vec<u8>)
    ensures
        v@ == bytes@,
{
    let mut v: Vec<u8> = Vec::new();
    v.extend_from_slice(bytes);
    assert(v@ =~= bytes@);
    v
}

/// What moving the components of glyph `glyph_id` makes of `glyf` and
/// `loca`.
///
/// The checks come in this order: `head` and `maxp` must be there and long
/// enough, `loca` and `glyf` must be there, the glyph must be one of the
/// font's and have a record inside `glyf`, the record must be patched
/// (`patched_glyph`), and the new `glyf` must fit the `loca` format.
pub open spec fn composite_plan(
    t: TableBytes,
    glyph_id: u32,
    updates: Seq<CompositeOffsetUpdate>,
) -> Result<(Seq<u8>, Seq<u8>), FontError> {
    if loca_is_long(t) is Err {
        Err(loca_is_long(t)->Err_0)
    } else if glyph_count(t) is Err {
        Err(glyph_count(t)->Err_0)
    } else if t.loca is None {
        Err(FontError::TableMissing { tag: LOCA })
    } else if t.glyf is None {
        Err(FontError::TableMissing { tag: GLYF })
    } else {
        let is_long = loca_is_long(t)->Ok_0;
        let count = glyph_count(t)->Ok_0;
        let glyf = t.glyf->0;
        let offsets = parsed_offsets(t.loca->0, count + 1, is_long);
        if glyph_id >= count {
            Err(FontError::GlyphNotFound { glyph_id })
        } else if offsets[glyph_id as int] >= offsets[glyph_id + 1] || offsets[glyph_id + 1]
            > glyf.len() {
            Err(FontError::GlyphNotFound { glyph_id })
        } else {
            match patched_glyph(
                glyf.subrange(offsets[glyph_id as int] as int, offsets[glyph_id + 1] as int),
                updates,
            ) {
                None => Err(FontError::MalformedComposite),
                Some(record) => {
                    let edit = GlyfEdit {
                        glyf,
                        offsets,
                        glyph_id: glyph_id as int,
                        new_glyph: record,
                    };
                    if rebuilt_glyf(edit, count as nat).len() > loca_limit(is_long) {
                        Err(FontError::LocaOverflow)
                    } else {
                        Ok(
                            (
                                rebuilt_glyf(edit, count as nat),
                                rebuilt_loca(edit, is_long, (count + 1) as nat),
                            ),
                        )
                    }
                },
            }
        }
    }
}

/// Works out `glyf` and `loca` of a font in which the components of the
/// composite glyph `glyph_id` have the given offsets.
pub fn plan_composite_update(
    tables: &OutlineTables,
    glyph_id: u32,
    updates: &[CompositeOffsetUpdate],
) -> (r: Result<(Vec<u8>, Vec<u8>), FontError>)
    ensures
        match r {
            Ok((glyf, loca)) => composite_plan(tables@, glyph_id, updates@) == Ok::<
                (Seq<u8>, Seq<u8>),
                FontError,
            >((glyf@, loca@)),
            Err(e) => composite_plan(tables@, glyph_id, updates@) == Err::<
                (Seq<u8>, Seq<u8>),
                FontError,
            >(e),
        },
{
    let is_long = match read_loca_format(tables) {
        Ok(is_long) => is_long,
        Err(e) => {
            return Err(e);
        },
    };
    let count = match read_glyph_count(tables) {
        Ok(count) => count,
        Err(e) => {
            return Err(e);
        },
    };
    let loca = match &tables.loca {
        Some(loca) => loca,
        None => {
            return Err(FontError::TableMissing { tag: LOCA });
        },
    };
    let glyf = match &tables.glyf {
        Some(glyf) => glyf,
        None => {
            return Err(FontError::TableMissing { tag: GLYF });
        },
    };
    let offsets = parse_loca_offsets(loca.as_slice(), count as usize + 1, is_long);
    assert(offsets@ =~= parsed_offsets(loca@, count + 1, is_long));
    if glyph_id >= count as u32 {
        return Err(FontError::GlyphNotFound { glyph_id });
    }
    let start = offsets[glyph_id as usize] as usize;
    let end = offsets[glyph_id as usize + 1] as usize;
    if start >= end || end > glyf.len() {
        return Err(FontError::GlyphNotFound { glyph_id });
    }
    let record = match patch_composite_glyph_offsets(&glyf.as_slice()[start..end], updates) {
        Ok(record) => record,
        Err(e) => {
            return Err(e);
        },
    };
    rebuild_glyf_with_patch(
        glyf.as_slice(),
        offsets.as_slice(),
        glyph_id as usize,
        record.as_slice(),
        is_long,
        count as usize,
    )
}

/// What moving the components of glyph `glyph_id` makes of a font.
pub open spec fn composite_outcome(
    font: Seq<u8>,
    glyph_id: u32,
    updates: Seq<CompositeOffsetUpdate>,
) -> Result<Seq<u8>, FontError> {
    if !is_font(font) {
        Err(FontError::MalformedFont)
    } else {
        match composite_plan(outline_tables(font), glyph_id, updates) {
            Err(e) => Err(e),
            Ok((glyf, loca)) => font_with(font, seq![GLYF, LOCA], seq![glyf, loca]),
        }
    }
}

/// `file` is `font` with `glyf` and `loca` rebuilt: its `head` is that of
/// `font` but for the checksum, and every other table is that of `font`.
pub open spec fn rebuilt_in(file: Seq<u8>, font: Seq<u8>, glyf: Seq<u8>, loca: Seq<u8>) -> bool {
    &&& is_font(file)
    &&& font_table(file, GLYF) == Some(glyf)
    &&& font_table(file, LOCA) == Some(loca)
    &&& match font_table(font, HEAD) {
        Some(head) => font_table(file, HEAD) is Some && same_but_checksum(
            font_table(file, HEAD)->0,
            head,
        ),
        None => font_table(file, HEAD) is None,
    }
    &&& forall|tag: u32|
        tag != GLYF && tag != LOCA && tag != HEAD ==> #[trigger] font_table(file, tag)
            == font_table(font, tag)
}

/// The record of a glyph in a font: the bytes of `glyf` between the offset
/// of the glyph and the next one in `loca`.
pub open spec fn glyph_bytes(font: Seq<u8>, glyph_id: u32) -> Seq<u8> {
    let t = outline_tables(font);
    let offsets = parsed_offsets(
        t.loca->0,
        glyph_count(t)->Ok_0 + 1,
        loca_is_long(t)->Ok_0,
    );
    t.glyf->0.subrange(offsets[glyph_id as int] as int, offsets[glyph_id + 1] as int)
}

/// A font whose `glyf` and `loca` were rebuilt for a composite glyph has
/// glyph tables that agree, and holds the patched glyph.
proof fn lemma_composite_tables_agree(
    file: Seq<u8>,
    font: Seq<u8>,
    glyph_id: u32,
    updates: Seq<CompositeOffsetUpdate>,
)
    requires
        composite_plan(outline_tables(font), glyph_id, updates) is Ok,
        rebuilt_in(
            file,
            font,
            composite_plan(outline_tables(font), glyph_id, updates)->Ok_0.0,
            composite_plan(outline_tables(font), glyph_id, updates)->Ok_0.1,
        ),
    ensures
        glyph_tables_agree(file),
        holds_glyph(file, glyph_id, patched_glyph(glyph_bytes(font, glyph_id), updates)->0),
        keeps_glyphs(file, font, glyph_id),
{
    let t = outline_tables(font);
    let is_long = loca_is_long(t)->Ok_0;
    let count = glyph_count(t)->Ok_0;
    let offsets = parsed_offsets(t.loca->0, count + 1, is_long);
    let record = patched_glyph(glyph_bytes(font, glyph_id), updates)->0;
    let edit = GlyfEdit { glyf: t.glyf->0, offsets, glyph_id: glyph_id as int, new_glyph: record };
    let after = outline_tables(file);
    let old_head = t.head->0;
    let new_head = after.head->0;
    assert(new_head[50] == old_head[50] && new_head[51] == old_head[51]);
    assert(loca_is_long(after) == Ok::<bool, FontError>(is_long));
    assert(after.maxp == t.maxp);
    lemma_rebuilt_tables_are_sound(edit, is_long, count as nat);
    lemma_rebuilt_glyph_is_found(edit, is_long, count as nat, glyph_id as nat);
    assert forall|i: u32| i < count && i != glyph_id implies #[trigger] holds_glyph(
        file,
        i,
        kept_record(font, i),
    ) by {
        lemma_rebuilt_glyph_is_found(edit, is_long, count as nat, i as nat);
        assert(glyph_record(edit, i as int) == kept_record(font, i));
    }
}

/// After its components were moved, a composite glyph is shown with them:
/// the font that comes back holds for the glyph the components that it had,
/// each with its glyph, with the offset that it was to have, and with the
/// flags that this offset asks for.
///
/// This holds of a font whose `head` names one of the two formats of `loca`,
/// and of a glyph whose record starts with a negative number of contours.
pub proof fn lemma_moved_components_are_shown(
    file: Seq<u8>,
    font: Seq<u8>,
    glyph_id: u32,
    updates: Seq<CompositeOffsetUpdate>,
)
    requires
        composite_outcome(font, glyph_id, updates) == Ok::<Seq<u8>, FontError>(file),
        glyph_tables_agree(file),
        holds_glyph(file, glyph_id, patched_glyph(glyph_bytes(font, glyph_id), updates)->0),
        index_to_loc_format(font_table(file, HEAD)->0) == 0 || index_to_loc_format(
            font_table(file, HEAD)->0,
        ) == 1,
        i16_at(glyph_bytes(font, glyph_id), 0) < 0,
    ensures
        components_from(records_of(glyph_bytes(font, glyph_id)), 0) is Some,
        composite_info(outline_tables(file), glyph_id) is Some,
        shown_info(outline_tables(file), glyph_id).0,
        patched_all(
            shown_info(outline_tables(file), glyph_id).1,
            components_from(records_of(glyph_bytes(font, glyph_id)), 0)->0,
            updates,
            0,
        ),
{
    let old = glyph_bytes(font, glyph_id);
    let record = patched_glyph(old, updates)->0;
    let t = outline_tables(file);
    let glyf = t.glyf->0;
    let is_long = loca_is_long(t)->Ok_0;
    let start = loca_entry(t.loca->0, glyph_id as int, is_long);
    lemma_patched_glyph_reads_back(old, updates);
    assert(glyph_start(t.loca->0, index_to_loc_format(t.head->0) == 1, glyph_id) == Some(start));
    let held = glyf.subrange(start, start + record.len());
    assert(held[0] == glyf[start] && held[1] == glyf[start + 1]);
    assert(record.subrange(0, 10)[0] == record[0] && record.subrange(0, 10)[1] == record[1]);
    assert(old.subrange(0, 10)[0] == old[0] && old.subrange(0, 10)[1] == old[1]);
    assert(i16_at(glyf, start) == i16_at(old, 0));
    let rest = glyf.subrange(start + GLYPH_HEADER_LEN, glyf.len() as int);
    let suffix = glyf.subrange(start + record.len(), glyf.len() as int);
    assert(rest =~= records_of(record) + suffix);
    lemma_components_before_suffix(records_of(record), suffix, 0);
}

/// Moves the components of a composite glyph: update `i` is the new offset
/// of component `i`. The font comes back with `glyf` and `loca` rebuilt and
/// every other table carried over (`rebuilt_in`). Its glyph tables agree
/// with one another, and its `glyf` holds the patched record of the glyph
/// where its `loca` says that the glyph starts, and the record of every
/// other glyph as it was.
pub fn update_composite_offsets(
    font: &[u8],
    composite_glyph_id: u32,
    components: Vec<CompositeOffsetUpdate>,
) -> (r: Result<Vec<u8>, FontError>)
    ensures
        match r {
            Ok(file) => composite_outcome(font@, composite_glyph_id, components@) == Ok::<
                Seq<u8>,
                FontError,
            >(file@),
            Err(e) => composite_outcome(font@, composite_glyph_id, components@) == Err::<
                Seq<u8>,
                FontError,
            >(e),
        },
        r matches Ok(file) ==> {
            let plan = composite_plan(outline_tables(font@), composite_glyph_id, components@)->Ok_0;
            &&& rebuilt_in(file@, font@, plan.0, plan.1)
            &&& glyph_tables_agree(file@)
            &&& holds_glyph(
                file@,
                composite_glyph_id,
                patched_glyph(glyph_bytes(font@, composite_glyph_id), components@)->0,
            )
            &&& keeps_glyphs(file@, font@, composite_glyph_id)
        },
{
    let tables = match read_outline_tables(font) {
        Ok(tables) => tables,
        Err(e) => {
            return Err(e);
        },
    };
    let (glyf, loca) = match plan_composite_update(
        &tables,
        composite_glyph_id,
        components.as_slice(),
    ) {
        Ok(pair) => pair,
        Err(e) => {
            return Err(e);
        },
    };
    let mut given: Vec<RawTable> = Vec::new();
    let ghost glyf_bytes = glyf@;
    let ghost loca_bytes = loca@;
    given.push(RawTable { tag: GLYF, data: glyf });
    given.push(RawTable { tag: LOCA, data: loca });
    let ghost tags = tags_of(given@);
    let ghost datas = contents(given@);
    assert(tags =~= seq![GLYF, LOCA]);
    assert(datas =~= seq![glyf_bytes, loca_bytes]);
    match compose_font(font, &given) {
        Ok(file) => {
            proof {
                lemma_given_tables(tags, datas, GLYF);
                lemma_given_tables(tags, datas, LOCA);
                lemma_given_tables(tags, datas, HEAD);
                assert(font_table(file@, GLYF) == table_to_hold(font@, tags, datas, GLYF));
                assert(font_table(file@, LOCA) == table_to_hold(font@, tags, datas, LOCA));
                assert forall|tag: u32|
                    tag != GLYF && tag != LOCA && tag != HEAD implies #[trigger] font_table(
                    file@,
                    tag,
                ) == font_table(font@, tag) by {
                    lemma_given_tables(tags, datas, tag);
                    assert(font_table(file@, tag) == table_to_hold(font@, tags, datas, tag));
                }
                lemma_composite_tables_agree(file@, font@, composite_glyph_id, components@);
            }
            Ok(file)
        },
        Err(e) => Err(e),
    }
}

} // verus!
