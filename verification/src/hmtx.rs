//! The horizontal metrics table, `hmtx`.
//!
//! It holds `num_h_metrics` long entries (advance width, then left side
//! bearing, 16 bits each) and after them one left side bearing for each
//! further glyph, which has the advance width of the last long entry.

use vstd::prelude::*;
use skrifa::instance::{LocationRef, Size};
use skrifa::{FontRef, GlyphId, MetadataProvider};
use crate::bytes::{i16_at, low_i16, read_i16, zeros};

verus! {

/// The advance width of a glyph in font units, as the glyph metrics of
/// `skrifa` give it for the font at its own size and default location,
/// without its fraction; `None` where `skrifa` has no metrics for the glyph
/// or takes the bytes for no font.
pub uninterp spec fn font_advance_width(font: Seq<u8>, glyph_id: u32) -> Option<i32>;

/// The advance widths of the first `count` glyphs of a font.
pub open spec fn advance_widths(font: Seq<u8>, count: int) -> Seq<Option<i32>> {
    Seq::new(count as nat, |g: int| font_advance_width(font, g as u32))
}

/// Calls `FontRef::new`, `glyph_metrics` with `Size::unscaled` and the
/// default location, and `GlyphMetrics::advance_width`, and takes the whole
/// part of what comes back.
///
/// The result is `font_advance_width`.
#[verifier::external_body]
pub(crate) fn read_advance_width(font: &[u8], glyph_id: u32) -> (r: Option<i32>)
    ensures
        r == font_advance_width(font@, glyph_id),
{
    let f = FontRef::new(font).ok()?;
    let metrics = f.glyph_metrics(Size::unscaled(), LocationRef::default());
    metrics.advance_width(GlyphId::new(glyph_id)).map(|w| w as i32)
}

/// Reads the advance widths of the first `count` glyphs of a font.
pub fn read_advance_widths(font: &[u8], count: u16) -> (widths: Vec<Option<i32>>)
    ensures
        widths@ == advance_widths(font@, count as int),
{
    let mut widths: Vec<Option<i32>> = Vec::new();
    let mut g: u16 = 0;
    while g < count
        invariant
            g <= count,
            widths.len() == g,
            forall|k: int|
                0 <= k < g ==> (#[trigger] widths[k]) == font_advance_width(font@, k as u32),
        decreases count - g,
    {
        widths.push(read_advance_width(font, g as u32));
        g += 1;
    }
    assert(widths@ =~= advance_widths(font@, count as int));
    widths
}

/// How many glyphs a font gains when its glyph count goes from `current` to
/// `target`.
pub open spec fn added_glyphs(current: int, target: int) -> nat {
    if target > current {
        (target - current) as nat
    } else {
        0
    }
}

/// Where in `hmtx` the left side bearing of glyph `glyph_id` stands.
pub open spec fn lsb_position(num_h_metrics: int, glyph_id: int) -> int {
    if glyph_id < num_h_metrics {
        4 * glyph_id + 2
    } else {
        4 * num_h_metrics + 2 * (glyph_id - num_h_metrics)
    }
}

/// The left side bearing of a glyph, 0 where the table is too short to hold
/// it.
pub open spec fn hmtx_lsb(hmtx: Seq<u8>, num_h_metrics: int, glyph_id: int) -> int {
    let at = lsb_position(num_h_metrics, glyph_id);
    if at + 2 <= hmtx.len() {
        i16_at(hmtx, at)
    } else {
        0
    }
}

/// Reads the left side bearing of a glyph straight from `hmtx`.
pub fn get_hmtx_lsb(hmtx_data: &[u8], num_h_metrics: u16, glyph_id: u32) -> (lsb: i16)
    ensures
        lsb == hmtx_lsb(hmtx_data@, num_h_metrics as int, glyph_id as int),
{
    let h: u64 = num_h_metrics as u64;
    let g: u64 = glyph_id as u64;
    let at: u64 = if g < h {
        4 * g + 2
    } else {
        4 * h + 2 * (g - h)
    };
    if at + 2 <= hmtx_data.len() as u64 {
        read_i16(hmtx_data, at as usize)
    } else {
        0
    }
}

/// Extends `hmtx` for the glyphs that a font gains: the old bytes, then a
/// left side bearing of 0 for each new glyph. The new glyphs take the
/// advance width of the last long entry, so `num_h_metrics` stays as it is
/// and no advance width is written.
pub fn extend_hmtx(
    hmtx_data: &[u8],
    current_num_glyphs: usize,
    target_num_glyphs: usize,
    num_h_metrics: u16,
    default_advance_width: u16,
) -> (new_hmtx: Vec<u8>)
    ensures
        new_hmtx@ == hmtx_data@ + zeros(
            2 * added_glyphs(current_num_glyphs as int, target_num_glyphs as int),
        ),
{
    let mut new_hmtx: Vec<u8> = Vec::new();
    new_hmtx.extend_from_slice(hmtx_data);
    let mut g: usize = current_num_glyphs;
    assert(new_hmtx@ =~= hmtx_data@ + zeros(0));
    while g < target_num_glyphs
        invariant
            current_num_glyphs <= g,
            g <= target_num_glyphs || g == current_num_glyphs,
            new_hmtx@ == hmtx_data@ + zeros((2 * (g - current_num_glyphs)) as nat),
        decreases target_num_glyphs - g,
    {
        new_hmtx.push(0);
        new_hmtx.push(0);
        g += 1;
        assert(new_hmtx@ =~= hmtx_data@ + zeros((2 * (g - current_num_glyphs)) as nat));
    }
    new_hmtx
}

/// A glyph that `extend_hmtx` added has a left side bearing of 0, where the
/// old table held exactly the entries of the old glyphs.
pub proof fn lemma_added_glyph_has_zero_lsb(
    hmtx: Seq<u8>,
    num_h_metrics: int,
    current: int,
    target: int,
    glyph_id: int,
)
    requires
        0 <= num_h_metrics <= current <= glyph_id < target,
        hmtx.len() == 4 * num_h_metrics + 2 * (current - num_h_metrics),
    ensures
        hmtx_lsb(hmtx + zeros(2 * added_glyphs(current, target)), num_h_metrics, glyph_id) == 0,
{
}

/// The sum of the advance widths that are there.
pub open spec fn width_sum(widths: Seq<Option<i32>>) -> int
    decreases widths.len(),
{
    if widths.len() == 0 {
        0
    } else {
        width_sum(widths.drop_last()) + (match widths.last() {
            Some(w) => w as int,
            None => 0,
        })
    }
}

/// How many advance widths are there.
pub open spec fn width_count(widths: Seq<Option<i32>>) -> int
    decreases widths.len(),
{
    if widths.len() == 0 {
        0
    } else {
        width_count(widths.drop_last()) + (if widths.last() is Some { 1int } else { 0int })
    }
}

/// `total / count`, rounded towards zero.
pub open spec fn mean_towards_zero(total: int, count: int) -> int
    recommends
        count > 0,
{
    if total >= 0 {
        total / count
    } else {
        -((-total) / count)
    }
}

/// The value of `xAvgCharWidth` for a font whose glyphs have these advance
/// widths (`None` for a glyph without metrics).
pub open spec fn x_avg_char_width(widths: Seq<Option<i32>>) -> int {
    if width_count(widths) > 0 {
        low_i16(mean_towards_zero(width_sum(widths), width_count(widths)))
    } else {
        0
    }
}

/// The sum of the widths lies within what so many 32-bit numbers can make.
proof fn lemma_width_bounds(widths: Seq<Option<i32>>)
    ensures
        0 <= width_count(widths) <= widths.len(),
        -0x8000_0000 * width_count(widths) <= width_sum(widths) <= 0x7FFF_FFFF * width_count(
            widths,
        ),
    decreases widths.len(),
{
    if widths.len() > 0 {
        lemma_width_bounds(widths.drop_last());
    }
}

/// Computes `xAvgCharWidth`: the mean, rounded towards zero, of the advance
/// widths of the glyphs that have metrics, as the 16-bit field holds it; 0
/// where no glyph has metrics.
pub fn calculate_x_avg_char_width(widths: &[Option<i32>]) -> (avg: i16)
    ensures
        avg == x_avg_char_width(widths@),
{
    let mut total: i128 = 0;
    let mut count: i128 = 0;
    let mut i: usize = 0;
    while i < widths.len()
        invariant
            i <= widths.len(),
            total == width_sum(widths@.take(i as int)),
            count == width_count(widths@.take(i as int)),
        decreases widths.len() - i,
    {
        proof {
            lemma_width_bounds(widths@.take(i as int));
            assert(widths@.take(i + 1).drop_last() =~= widths@.take(i as int));
        }
        match widths[i] {
            Some(w) => {
                total = total + w as i128;
                count = count + 1;
            },
            None => {},
        }
        i += 1;
    }
    proof {
        assert(widths@.take(i as int) =~= widths@);
        lemma_width_bounds(widths@);
    }
    if count > 0 {
        low_word(mean_of(total, count))
    } else {
        0
    }
}

/// `total / count`, rounded towards zero.
fn mean_of(total: i128, count: i128) -> (mean: i128)
    requires
        count > 0,
        -0x8000_0000 * count <= total <= 0x7FFF_FFFF * count,
        count <= 0xFFFF_FFFF_FFFF_FFFF,
    ensures
        mean == mean_towards_zero(total as int, count as int),
        -0x8000_0000 <= mean <= 0x7FFF_FFFF,
{
    assert(-0x8000_0000 * 0xFFFF_FFFF_FFFF_FFFF <= total <= 0x7FFF_FFFF * 0xFFFF_FFFF_FFFF_FFFF)
        by (nonlinear_arith)
        requires
            0 < count <= 0xFFFF_FFFF_FFFF_FFFF,
            -0x8000_0000 * count <= total <= 0x7FFF_FFFF * count,
    ;
    let mean: i128 = if total >= 0 {
        total / count
    } else {
        -((-total) / count)
    };
    assert(-0x8000_0000 <= mean <= 0x7FFF_FFFF) by (nonlinear_arith)
        requires
            count > 0,
            -0x8000_0000 * count <= total <= 0x7FFF_FFFF * count,
            mean == mean_towards_zero(total as int, count as int),
    ;
    mean
}

/// The number that the low 16 bits of a 32-bit number stand for.
fn low_word(v: i128) -> (r: i16)
    requires
        -0x8000_0000 <= v <= 0x7FFF_FFFF,
    ensures
        r == low_i16(v as int),
{
    let low: i128 = (v + 0x8000_0000) % 0x1_0000;
    assert(low == (v as int) % 0x1_0000) by {
        assert((v + 0x8000 * 0x1_0000) % 0x1_0000 == (v as int) % 0x1_0000) by (nonlinear_arith)
            requires
                -0x8000_0000 <= v <= 0x7FFF_FFFF,
        ;
    }
    if low >= 0x8000 {
        (low - 0x1_0000) as i16
    } else {
        low as i16
    }
}

} // verus!
