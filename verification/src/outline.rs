//! The outlines of all glyphs of a font, and the stream in which a page of
//! them goes to the host.
//!
//! The stream is little-endian throughout. It starts with the number of
//! glyphs of the font, the number of glyphs of the page and the units per
//! em; one record follows for each glyph of the page.

use std::collections::HashMap;
use vstd::prelude::*;
use vstd::string::StrSliceExecFns;
use vstd::utf8::encode_utf8;
use crate::bytes::{push_u16_le, push_u32_le, u16_le, u32_le};
use crate::error::FontError;
use crate::outline_data::GlyphBounds;
use crate::sfnt::{check_font, font_table, is_font, read_table, HEAD, MAXP};
use crate::tables::{
    head_units_per_em, maxp_num_glyphs, num_glyphs, units_per_em, HEAD_LEN, MAXP_LEN,
};
use crate::text::{hex, push_hex};

verus! {

/// The outline of one glyph as a drawing path, y downwards. The advance
/// width and the bounds are bit patterns of binary32 values.
#[derive(Clone, Debug, PartialEq, Eq)]
pub struct GlyphOutline {
    pub glyph_id: u32,
    pub glyph_name: Option<String>,
    pub svg_path: String,
    pub advance_width: u32,
    pub bounds: Option<GlyphBounds>,
}

/// The outlines of a font: one for each glyph whose path is not empty, in
/// the order of the glyph ids.
#[derive(Clone, Debug, PartialEq, Eq)]
pub struct OutlineSet {
    pub outlines: Vec<GlyphOutline>,
    pub units_per_em: u16,
    /// The number of glyphs of the font, as `maxp` gives it.
    pub num_glyphs: u32,
}

/// The bytes of the bounds of a record: a 1 and the four numbers, or a 0.
pub open spec fn bounds_bytes(bounds: Option<GlyphBounds>) -> Seq<u8> {
    match bounds {
        Some(b) => seq![1u8] + u32_le(b.x_min as int) + u32_le(b.y_min as int) + u32_le(
            b.x_max as int,
        ) + u32_le(b.y_max as int),
        None => seq![0u8],
    }
}

/// The name of a glyph as the stream holds it: UTF-8, nothing for no name.
pub open spec fn name_bytes(name: Option<String>) -> Seq<u8> {
    match name {
        Some(n) => encode_utf8(n@),
        None => Seq::empty(),
    }
}

/// The record of one glyph: id, advance width, bounds, the name behind its
/// length in 16 bits, the path behind its length in 32 bits. A length that
/// does not fit its field keeps its low bits.
pub open spec fn outline_record(g: GlyphOutline) -> Seq<u8> {
    u32_le(g.glyph_id as int) + u32_le(g.advance_width as int) + bounds_bytes(g.bounds) + u16_le(
        name_bytes(g.glyph_name).len() as int % 0x1_0000,
    ) + name_bytes(g.glyph_name) + u32_le(encode_utf8(g.svg_path@).len() as int % 0x1_0000_0000)
        + encode_utf8(g.svg_path@)
}

/// The records of the glyphs, one after the other.
pub open spec fn outline_records(outlines: Seq<GlyphOutline>) -> Seq<u8>
    decreases outlines.len(),
{
    if outlines.len() == 0 {
        Seq::empty()
    } else {
        outline_records(outlines.drop_last()) + outline_record(outlines.last())
    }
}

/// The stream of a page: the header, then the records.
pub open spec fn outline_stream(outlines: Seq<GlyphOutline>, total_glyphs: u32, units_per_em: u16)
    -> Seq<u8> {
    u32_le(total_glyphs as int) + u32_le(outlines.len() as int % 0x1_0000_0000) + u16_le(
        units_per_em as int,
    ) + outline_records(outlines)
}

/// Appends the record of one glyph.
fn push_outline_record(buf: &mut Vec<u8>, glyph: &GlyphOutline)
    ensures
        final(buf)@ == old(buf)@ + outline_record(*glyph),
{
    push_u32_le(buf, glyph.glyph_id);
    push_u32_le(buf, glyph.advance_width);
    let ghost a = u32_le(glyph.glyph_id as int) + u32_le(glyph.advance_width as int);
    assert(buf@ =~= old(buf)@ + a);
    match &glyph.bounds {
        Some(b) => {
            buf.push(1);
            push_u32_le(buf, b.x_min);
            push_u32_le(buf, b.y_min);
            push_u32_le(buf, b.x_max);
            push_u32_le(buf, b.y_max);
        },
        None => {
            buf.push(0);
        },
    }
    let ghost b = bounds_bytes(glyph.bounds);
    assert(buf@ =~= old(buf)@ + a + b);
    match &glyph.glyph_name {
        Some(name) => {
            let bytes = name.as_str().as_bytes();
            push_u16_le(buf, (bytes.len() % 0x1_0000) as u16);
            buf.extend_from_slice(bytes);
        },
        None => {
            push_u16_le(buf, 0);
        },
    }
    let ghost c = u16_le(name_bytes(glyph.glyph_name).len() as int % 0x1_0000) + name_bytes(
        glyph.glyph_name,
    );
    assert(buf@ =~= old(buf)@ + a + b + c);
    let path = glyph.svg_path.as_str().as_bytes();
    push_u32_le(buf, (path.len() as u64 % 0x1_0000_0000) as u32);
    buf.extend_from_slice(path);
    let ghost d = u32_le(encode_utf8(glyph.svg_path@).len() as int % 0x1_0000_0000) + encode_utf8(
        glyph.svg_path@,
    );
    assert(buf@ =~= old(buf)@ + a + b + c + d);
    assert(old(buf)@ + a + b + c + d =~= old(buf)@ + outline_record(*glyph));
}

/// Writes the stream of the given outlines.
pub fn encode_glyph_outlines_binary(
    outlines: &[GlyphOutline],
    total_glyphs: u32,
    units_per_em: u16,
) -> (buf: Vec<u8>)
    ensures
        buf@ == outline_stream(outlines@, total_glyphs, units_per_em),
{
    let mut buf: Vec<u8> = Vec::new();
    push_u32_le(&mut buf, total_glyphs);
    push_u32_le(&mut buf, (outlines.len() as u64 % 0x1_0000_0000) as u32);
    push_u16_le(&mut buf, units_per_em);
    let ghost header = buf@;
    let mut i: usize = 0;
    assert(outlines@.take(0) =~= Seq::<GlyphOutline>::empty());
    assert(buf@ =~= header + outline_records(outlines@.take(0)));
    while i < outlines.len()
        invariant
            i <= outlines.len(),
            buf@ == header + outline_records(outlines@.take(i as int)),
        decreases outlines.len() - i,
    {
        push_outline_record(&mut buf, &outlines[i]);
        proof {
            let now = outlines@.take(i + 1);
            assert(now.drop_last() =~= outlines@.take(i as int));
            assert(now.last() == outlines@[i as int]);
            assert(buf@ =~= header + outline_records(now));
        }
        i += 1;
    }
    assert(outlines@.take(i as int) =~= outlines@);
    assert(header =~= u32_le(total_glyphs as int) + u32_le(outlines.len() as int % 0x1_0000_0000)
        + u16_le(units_per_em as int));
    buf
}

/// Where a page starts among `n` outlines: at `offset`, or at the end where
/// `offset` lies beyond it.
pub open spec fn page_start(offset: int, n: int) -> int {
    if offset < n {
        offset
    } else {
        n
    }
}

/// Where a page ends among `n` outlines: `limit` outlines behind `offset`,
/// or at the end where that lies beyond it.
pub open spec fn page_end(offset: int, limit: int, n: int) -> int {
    if offset + limit < n {
        offset + limit
    } else {
        n
    }
}

/// The outlines of a page.
pub open spec fn page_of(outlines: Seq<GlyphOutline>, offset: u32, limit: u32) -> Seq<
    GlyphOutline,
> {
    outlines.subrange(
        page_start(offset as int, outlines.len() as int),
        page_end(offset as int, limit as int, outlines.len() as int),
    )
}

/// Writes the stream of one page of the outlines of a font: the outlines
/// from `offset` on, `limit` of them at the most. A page that lies beyond
/// the outlines is empty; its stream is the header alone. The header gives
/// the number of glyphs of the font, whatever the page holds.
pub fn get_glyph_outlines_binary(set: &OutlineSet, offset: u32, limit: u32) -> (buf: Vec<u8>)
    ensures
        buf@ == outline_stream(
            page_of(set.outlines@, offset, limit),
            set.num_glyphs,
            set.units_per_em,
        ),
{
    let n: usize = set.outlines.len();
    let start: usize = if (offset as u64) < n as u64 { offset as usize } else { n };
    let reach: u64 = offset as u64 + limit as u64;
    let end: usize = if reach < n as u64 { reach as usize } else { n };
    encode_glyph_outlines_binary(
        &set.outlines.as_slice()[start..end],
        set.num_glyphs,
        set.units_per_em,
    )
}

/// How many outlines the pages hold that lie one behind the other from
/// `offset` on, each as long as its limit.
pub open spec fn pages_total(limits: Seq<int>, offset: int, n: int) -> int
    decreases limits.len(),
{
    if limits.len() == 0 {
        0
    } else {
        page_end(offset, limits[0], n) - page_start(offset, n) + pages_total(
            limits.drop_first(),
            offset + limits[0],
            n,
        )
    }
}

/// The limits of the pages, added up.
pub open spec fn limits_sum(limits: Seq<int>) -> int
    decreases limits.len(),
{
    if limits.len() == 0 {
        0
    } else {
        limits[0] + limits_sum(limits.drop_first())
    }
}

/// Pages that follow one another hold every outline once: from `offset` on
/// they hold the outlines from `offset` to where the last page ends.
pub proof fn lemma_pages_cover(limits: Seq<int>, offset: int, n: int)
    requires
        0 <= offset,
        0 <= n,
        forall|i: int| 0 <= i < limits.len() ==> 0 <= #[trigger] limits[i],
    ensures
        limits_sum(limits) >= 0,
        pages_total(limits, offset, n) == page_start(offset + limits_sum(limits), n) - page_start(
            offset,
            n,
        ),
    decreases limits.len(),
{
    if limits.len() > 0 {
        let rest = limits.drop_first();
        assert forall|i: int| 0 <= i < rest.len() implies 0 <= #[trigger] rest[i] by {
            assert(rest[i] == limits[i + 1]);
        }
        lemma_pages_cover(rest, offset + limits[0], n);
    }
}

/// The batch counts of pages that start at the first outline, follow one
/// another and reach the last one add up to the number of outlines.
pub proof fn lemma_pages_hold_all(limits: Seq<int>, n: int)
    requires
        0 <= n <= limits_sum(limits),
        forall|i: int| 0 <= i < limits.len() ==> 0 <= #[trigger] limits[i],
    ensures
        pages_total(limits, 0, n) == n,
{
    lemma_pages_cover(limits, 0, n);
}

/// The name of a glyph after the first code point that maps to it: `U+` and
/// the code point in base 16, upper case, four digits or more.
pub open spec fn code_point_name(code_point: u32) -> Seq<char> {
    seq!['U', '+'] + hex(code_point as nat, 4)
}

/// Writes the name of a glyph after a code point.
pub fn glyph_name_for(code_point: u32) -> (name: String)
    ensures
        name@ == code_point_name(code_point),
{
    let mut name = String::new();
    name.push('U');
    name.push('+');
    push_hex(&mut name, code_point, 4);
    assert(name@ =~= code_point_name(code_point));
    name
}

/// What drawing one glyph gave: its path, y downwards, its advance width
/// and the box around its points.
#[derive(Clone, Debug, PartialEq, Eq)]
pub struct DrawnGlyph {
    pub glyph_id: u32,
    pub svg_path: String,
    pub advance_width: u32,
    pub bounds: GlyphBounds,
}

/// A character mapping: the code point and the glyph that it maps to.
#[derive(Clone, Copy, Debug, PartialEq, Eq, Structural)]
pub struct CharMapping {
    pub code_point: u32,
    pub glyph_id: u32,
}

/// The first code point, in the order of the mappings, that maps to the
/// glyph.
pub open spec fn first_code_point(mappings: Seq<CharMapping>, glyph_id: u32) -> Option<u32>
    decreases mappings.len(),
{
    if mappings.len() == 0 {
        None
    } else {
        match first_code_point(mappings.drop_last(), glyph_id) {
            Some(c) => Some(c),
            None => if mappings.last().glyph_id == glyph_id {
                Some(mappings.last().code_point)
            } else {
                None
            },
        }
    }
}

/// An outline as plain values.
pub ghost struct OutlineFields {
    pub glyph_id: u32,
    pub glyph_name: Option<Seq<char>>,
    pub svg_path: Seq<char>,
    pub advance_width: u32,
    pub bounds: Option<GlyphBounds>,
}

impl View for GlyphOutline {
    type V = OutlineFields;

    open spec fn view(&self) -> OutlineFields {
        OutlineFields {
            glyph_id: self.glyph_id,
            glyph_name: match self.glyph_name {
                Some(n) => Some(n@),
                None => None,
            },
            svg_path: self.svg_path@,
            advance_width: self.advance_width,
            bounds: self.bounds,
        }
    }
}

/// The outline of a drawn glyph: named after the first code point that maps
/// to it, if one does.
pub open spec fn outline_of(g: DrawnGlyph, mappings: Seq<CharMapping>) -> OutlineFields {
    OutlineFields {
        glyph_id: g.glyph_id,
        glyph_name: match first_code_point(mappings, g.glyph_id) {
            Some(c) => Some(code_point_name(c)),
            None => None,
        },
        svg_path: g.svg_path@,
        advance_width: g.advance_width,
        bounds: Some(g.bounds),
    }
}

/// The outlines of the drawn glyphs whose path is not empty, in their order.
pub open spec fn outlines_of(drawn: Seq<DrawnGlyph>, mappings: Seq<CharMapping>) -> Seq<
    OutlineFields,
>
    decreases drawn.len(),
{
    if drawn.len() == 0 {
        Seq::empty()
    } else if drawn.last().svg_path@.len() == 0 {
        outlines_of(drawn.drop_last(), mappings)
    } else {
        outlines_of(drawn.drop_last(), mappings).push(outline_of(drawn.last(), mappings))
    }
}

/// The outlines of a list as plain values.
pub open spec fn outline_fields(outlines: Seq<GlyphOutline>) -> Seq<OutlineFields> {
    outlines.map_values(|g: GlyphOutline| g@)
}

/// The index holds for the glyph the first code point that maps to it, and
/// nothing for a glyph that no code point maps to.
pub open spec fn indexed(index: Map<u32, u32>, mappings: Seq<CharMapping>, glyph_id: u32) -> bool {
    match first_code_point(mappings, glyph_id) {
        Some(c) => index.contains_key(glyph_id) && index[glyph_id] == c,
        None => !index.contains_key(glyph_id),
    }
}

/// Indexes the mappings by glyph: each glyph with the first code point that
/// maps to it.
fn index_by_glyph(mappings: &[CharMapping]) -> (index: HashMap<u32, u32>)
    ensures
        forall|g: u32| #[trigger] indexed(index@, mappings@, g),
{
    broadcast use vstd::std_specs::hash::group_hash_axioms;

    let mut index: HashMap<u32, u32> = HashMap::new();
    let mut i: usize = 0;
    assert(mappings@.take(0) =~= Seq::<CharMapping>::empty());
    while i < mappings.len()
        invariant
            i <= mappings.len(),
            forall|g: u32| #[trigger] indexed(index@, mappings@.take(i as int), g),
        decreases mappings.len() - i,
    {
        let m = mappings[i];
        proof {
            assert(mappings@.take(i + 1).drop_last() =~= mappings@.take(i as int));
            assert(mappings@.take(i + 1).last() == m);
        }
        let ghost before = index@;
        if !index.contains_key(&m.glyph_id) {
            index.insert(m.glyph_id, m.code_point);
        }
        assert forall|g: u32| #[trigger] indexed(index@, mappings@.take(i + 1), g) by {
            assert(indexed(before, mappings@.take(i as int), g));
        }
        i += 1;
    }
    assert(mappings@.take(i as int) =~= mappings@);
    index
}

/// Gathers the outlines of a font from what drawing its glyphs gave: a
/// glyph whose path is empty has no outline, and every other has one, in
/// the order in which the glyphs come. An outline is named after the first
/// code point that maps to its glyph.
pub fn extract_glyph_outlines(drawn: &[DrawnGlyph], mappings: &[CharMapping]) -> (outlines: Vec<
    GlyphOutline,
>)
    ensures
        outline_fields(outlines@) == outlines_of(drawn@, mappings@),
{
    broadcast use vstd::std_specs::hash::group_hash_axioms;

    let index = index_by_glyph(mappings);
    let mut outlines: Vec<GlyphOutline> = Vec::new();
    let mut i: usize = 0;
    assert(drawn@.take(0) =~= Seq::<DrawnGlyph>::empty());
    assert(outline_fields(outlines@) =~= outlines_of(drawn@.take(0), mappings@));
    while i < drawn.len()
        invariant
            i <= drawn.len(),
            forall|g: u32| #[trigger] indexed(index@, mappings@, g),
            outline_fields(outlines@) == outlines_of(drawn@.take(i as int), mappings@),
        decreases drawn.len() - i,
    {
        let g = &drawn[i];
        proof {
            assert(drawn@.take(i + 1).drop_last() =~= drawn@.take(i as int));
            assert(drawn@.take(i + 1).last() == *g);
        }
        if g.svg_path.as_str().unicode_len() != 0 {
            assert(indexed(index@, mappings@, g.glyph_id));
            let glyph_name = match index.get(&g.glyph_id) {
                Some(c) => Some(glyph_name_for(*c)),
                None => None,
            };
            let ghost before = outline_fields(outlines@);
            outlines.push(
                GlyphOutline {
                    glyph_id: g.glyph_id,
                    glyph_name,
                    svg_path: g.svg_path.clone(),
                    advance_width: g.advance_width,
                    bounds: Some(g.bounds),
                },
            );
            assert(outline_fields(outlines@) =~= before.push(outline_of(*g, mappings@)));
        }
        i += 1;
    }
    assert(drawn@.take(i as int) =~= drawn@);
    outlines
}

/// The units per em that the outlines of a font go out with: those of
/// `head`, or 1000 where `head` cannot be read.
pub open spec fn stream_units_per_em(font: Seq<u8>) -> int {
    match font_table(font, HEAD) {
        Some(head) => if head.len() >= HEAD_LEN {
            units_per_em(head)
        } else {
            1000
        },
        None => 1000,
    }
}

/// The number of glyphs that the outlines of a font go out with: that of
/// `maxp`, or the number of outlines where `maxp` cannot be read.
pub open spec fn stream_glyph_count(font: Seq<u8>, outlines: int) -> int {
    match font_table(font, MAXP) {
        Some(maxp) => if maxp.len() >= MAXP_LEN {
            num_glyphs(maxp)
        } else {
            outlines % 0x1_0000_0000
        },
        None => outlines % 0x1_0000_0000,
    }
}

/// Joins the outlines of a font with what its pages say of the font: the
/// units per em of `head` and the number of glyphs of `maxp`.
///
/// It fails, with `MalformedFont`, exactly on bytes that are no font.
pub fn outline_set(font: &[u8], outlines: Vec<GlyphOutline>) -> (r: Result<OutlineSet, FontError>)
    ensures
        match r {
            Ok(set) => {
                &&& is_font(font@)
                &&& set.outlines == outlines
                &&& set.units_per_em == stream_units_per_em(font@)
                &&& set.num_glyphs == stream_glyph_count(font@, outlines.len() as int)
            },
            Err(e) => !is_font(font@) && e == FontError::MalformedFont,
        },
{
    if !check_font(font) {
        return Err(FontError::MalformedFont);
    }
    let units_per_em: u16 = match read_table(font, HEAD) {
        Some(head) => match head_units_per_em(head.as_slice()) {
            Some(u) => u,
            None => 1000,
        },
        None => 1000,
    };
    let fallback: u32 = (outlines.len() as u64 % 0x1_0000_0000) as u32;
    let num_glyphs: u32 = match read_table(font, MAXP) {
        Some(maxp) => match maxp_num_glyphs(maxp.as_slice()) {
            Some(n) => n as u32,
            None => fallback,
        },
        None => fallback,
    };
    Ok(OutlineSet { outlines, units_per_em, num_glyphs })
}

} // verus!
