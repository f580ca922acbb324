//! The editor's view of one glyph, built from what drawing gave and from
//! the tables of the font.
//!
//! A simple glyph has the contours that drawing it gave. A composite glyph
//! is not drawn: its components are read from `glyf`, and the outline of
//! each is built in turn, down to a depth of five.

use vstd::prelude::*;
use crate::bytes::{i16_at, read_i16, read_u16, read_u32, u16_at, u32_at};
use crate::composite::{
    components_from, describes, describes_all, lemma_components_are_some,
    parse_composite_components, Component, GLYPH_HEADER_LEN,
};
use crate::error::FontError;
use crate::editor::{OutlineTables, TableBytes};
use crate::float_bits::{
    from_i16, is_finite, is_less, is_nan, less_than, order_key, whole_bits,
};
use crate::hmtx::{get_hmtx_lsb, hmtx_lsb};
use crate::outline_data::{
    ComponentOffset, Contour, GlyphBounds, GlyphOutlineData, OutlineCommand, Point,
};
use crate::tables::{
    head_index_to_loc_format, hhea_number_of_h_metrics, index_to_loc_format, number_of_h_metrics,
    HEAD_LEN, HHEA_LEN,
};

verus! {

/// The deepest level at which a component is still resolved.
pub const MAX_DEPTH: u8 = 5;

/// The largest finite number, where a search for the smallest starts.
pub const LARGEST: u32 = 0x7F7F_FFFF;

/// The smallest finite number, where a search for the largest starts.
pub const SMALLEST: u32 = 0xFF7F_FFFF;

/// What drawing one glyph gave. `advance_width` is `None` for a glyph
/// without metrics, and `commands` is `None` for a glyph that the font has
/// no outline for.
#[derive(Clone, Debug, PartialEq, Eq)]
pub struct GlyphDrawing {
    pub glyph_id: u32,
    pub advance_width: Option<u32>,
    pub commands: Option<Vec<OutlineCommand>>,
}

/// The contours that the commands have finished: a move finishes the
/// contour before it, if that holds a command.
pub open spec fn finished_contours(cmds: Seq<OutlineCommand>) -> Seq<Seq<OutlineCommand>>
    decreases cmds.len(),
{
    if cmds.len() == 0 {
        Seq::empty()
    } else if cmds.last() is M && open_contour(cmds.drop_last()).len() > 0 {
        finished_contours(cmds.drop_last()).push(open_contour(cmds.drop_last()))
    } else {
        finished_contours(cmds.drop_last())
    }
}

/// The contour that is open after the commands: the commands since the last
/// move, that move included.
pub open spec fn open_contour(cmds: Seq<OutlineCommand>) -> Seq<OutlineCommand>
    decreases cmds.len(),
{
    if cmds.len() == 0 {
        Seq::empty()
    } else if cmds.last() is M {
        seq![cmds.last()]
    } else {
        open_contour(cmds.drop_last()).push(cmds.last())
    }
}

/// The contours of a drawing: one for each move, and one before the first
/// move if the drawing starts without one.
pub open spec fn contours_of(cmds: Seq<OutlineCommand>) -> Seq<Seq<OutlineCommand>> {
    if open_contour(cmds).len() > 0 {
        finished_contours(cmds).push(open_contour(cmds))
    } else {
        finished_contours(cmds)
    }
}

/// The commands of each contour of a list.
pub open spec fn contour_commands(contours: Seq<Contour>) -> Seq<Seq<OutlineCommand>> {
    contours.map_values(|c: Contour| c.commands@)
}

/// Splits the commands of a drawing into contours.
pub fn split_contours(cmds: &[OutlineCommand]) -> (contours: Vec<Contour>)
    ensures
        contour_commands(contours@) == contours_of(cmds@),
{
    let mut contours: Vec<Contour> = Vec::new();
    let mut current: Vec<OutlineCommand> = Vec::new();
    let mut i: usize = 0;
    assert(cmds@.take(0) =~= Seq::<OutlineCommand>::empty());
    assert(contour_commands(contours@) =~= finished_contours(cmds@.take(0)));
    while i < cmds.len()
        invariant
            i <= cmds.len(),
            contour_commands(contours@) == finished_contours(cmds@.take(i as int)),
            current@ == open_contour(cmds@.take(i as int)),
        decreases cmds.len() - i,
    {
        proof {
            assert(cmds@.take(i + 1).drop_last() =~= cmds@.take(i as int));
            assert(cmds@.take(i + 1).last() == cmds@[i as int]);
        }
        let ghost done = contour_commands(contours@);
        match cmds[i] {
            OutlineCommand::M { point } => {
                if current.len() > 0 {
                    let ghost finished = current@;
                    contours.push(Contour { commands: current });
                    assert(contour_commands(contours@) =~= done.push(finished));
                    current = Vec::new();
                }
                current.push(cmds[i]);
                assert(current@ =~= seq![cmds@[i as int]]);
            },
            _ => {
                current.push(cmds[i]);
            },
        }
        i += 1;
    }
    assert(cmds@.take(i as int) =~= cmds@);
    if current.len() > 0 {
        let ghost done = contour_commands(contours@);
        let ghost finished = current@;
        contours.push(Contour { commands: current });
        assert(contour_commands(contours@) =~= done.push(finished));
    }
    contours
}

/// The points of a command, control points first.
pub open spec fn points_of(cmd: OutlineCommand) -> Seq<Point> {
    match cmd {
        OutlineCommand::M { point } => seq![point],
        OutlineCommand::L { point } => seq![point],
        OutlineCommand::Q { ctrl, point } => seq![ctrl, point],
        OutlineCommand::C { ctrl1, ctrl2, point } => seq![ctrl1, ctrl2, point],
        OutlineCommand::Z => Seq::empty(),
    }
}

/// The points of all commands, in order.
pub open spec fn drawing_points(cmds: Seq<OutlineCommand>) -> Seq<Point>
    decreases cmds.len(),
{
    if cmds.len() == 0 {
        Seq::empty()
    } else {
        drawing_points(cmds.drop_last()) + points_of(cmds.last())
    }
}

/// The smaller of two numbers. What is no number is passed over; of two that
/// are equal, the first stays.
#[verifier::opaque]
pub open spec fn smaller(a: u32, b: u32) -> u32 {
    if is_nan(a) {
        b
    } else if less_than(b, a) {
        b
    } else {
        a
    }
}

/// The larger of two numbers. What is no number is passed over; of two that
/// are equal, the first stays.
#[verifier::opaque]
pub open spec fn larger(a: u32, b: u32) -> u32 {
    if is_nan(a) {
        b
    } else if less_than(a, b) {
        b
    } else {
        a
    }
}

/// The box around the points, grown from the empty box whose smallest
/// corner is the largest number and whose largest corner is the smallest.
pub open spec fn box_around(points: Seq<Point>) -> GlyphBounds
    decreases points.len(),
{
    if points.len() == 0 {
        GlyphBounds { x_min: LARGEST, y_min: LARGEST, x_max: SMALLEST, y_max: SMALLEST }
    } else {
        let b = box_around(points.drop_last());
        let p = points.last();
        GlyphBounds {
            x_min: smaller(b.x_min, p.x),
            y_min: smaller(b.y_min, p.y),
            x_max: larger(b.x_max, p.x),
            y_max: larger(b.y_max, p.y),
        }
    }
}

/// The bounds of a drawing: the box around its points, if that box has a
/// width.
pub open spec fn drawing_bounds(cmds: Seq<OutlineCommand>) -> Option<GlyphBounds> {
    let b = box_around(drawing_points(cmds));
    if less_than(b.x_min, b.x_max) {
        Some(b)
    } else {
        None
    }
}

/// The box holds the point: neither coordinate lies outside it. A
/// coordinate that is no number lies nowhere.
pub open spec fn encloses(b: GlyphBounds, p: Point) -> bool {
    &&& is_nan(p.x) || (!less_than(p.x, b.x_min) && !less_than(b.x_max, p.x))
    &&& is_nan(p.y) || (!less_than(p.y, b.y_min) && !less_than(b.y_max, p.y))
}

/// The box around points holds each of them.
pub proof fn lemma_box_encloses(points: Seq<Point>, i: int)
    requires
        0 <= i < points.len(),
    ensures
        encloses(box_around(points), points[i]),
        !is_nan(box_around(points).x_min),
        !is_nan(box_around(points).y_min),
        !is_nan(box_around(points).x_max),
        !is_nan(box_around(points).y_max),
    decreases points.len(),
{
    reveal(smaller);
    reveal(larger);
    lemma_box_is_numbers(points);
    if i < points.len() - 1 {
        lemma_box_encloses(points.drop_last(), i);
        lemma_box_is_numbers(points.drop_last());
    } else {
        lemma_box_is_numbers(points.drop_last());
    }
}

/// No side of the box around points is a NaN.
proof fn lemma_box_is_numbers(points: Seq<Point>)
    ensures
        !is_nan(box_around(points).x_min),
        !is_nan(box_around(points).y_min),
        !is_nan(box_around(points).x_max),
        !is_nan(box_around(points).y_max),
    decreases points.len(),
{
    reveal(smaller);
    reveal(larger);
    if points.len() > 0 {
        lemma_box_is_numbers(points.drop_last());
    } else {
        assert(!is_nan(LARGEST));
        assert(!is_nan(SMALLEST));
    }
}

/// The smaller of two numbers.
fn min_bits(a: u32, b: u32) -> (r: u32)
    ensures
        r == smaller(a, b),
{
    reveal(smaller);
    if a % 0x8000_0000 > 0x7F80_0000 {
        b
    } else if is_less(b, a) {
        b
    } else {
        a
    }
}

/// The larger of two numbers.
fn max_bits(a: u32, b: u32) -> (r: u32)
    ensures
        r == larger(a, b),
{
    reveal(larger);
    if a % 0x8000_0000 > 0x7F80_0000 {
        b
    } else if is_less(a, b) {
        b
    } else {
        a
    }
}

/// Grows a box to hold a point.
fn grow(b: GlyphBounds, p: Point) -> (r: GlyphBounds)
    ensures
        r == (GlyphBounds {
            x_min: smaller(b.x_min, p.x),
            y_min: smaller(b.y_min, p.y),
            x_max: larger(b.x_max, p.x),
            y_max: larger(b.y_max, p.y),
        }),
{
    GlyphBounds {
        x_min: min_bits(b.x_min, p.x),
        y_min: min_bits(b.y_min, p.y),
        x_max: max_bits(b.x_max, p.x),
        y_max: max_bits(b.y_max, p.y),
    }
}

/// The box around points and one more is the box around the points, grown
/// to hold that one.
proof fn lemma_box_push(points: Seq<Point>, p: Point)
    ensures
        box_around(points.push(p)) == (GlyphBounds {
            x_min: smaller(box_around(points).x_min, p.x),
            y_min: smaller(box_around(points).y_min, p.y),
            x_max: larger(box_around(points).x_max, p.x),
            y_max: larger(box_around(points).y_max, p.y),
        }),
{
    assert(points.push(p).drop_last() =~= points);
}

/// Grows the box around some points to hold the points of a command.
fn grow_by_command(b: GlyphBounds, cmd: OutlineCommand, Ghost(before): Ghost<Seq<Point>>) -> (r:
    GlyphBounds)
    requires
        b == box_around(before),
    ensures
        r == box_around(before + points_of(cmd)),
{
    match cmd {
        OutlineCommand::M { point } => {
            proof {
                lemma_box_push(before, point);
                assert(before + points_of(cmd) =~= before.push(point));
            }
            grow(b, point)
        },
        OutlineCommand::L { point } => {
            proof {
                lemma_box_push(before, point);
                assert(before + points_of(cmd) =~= before.push(point));
            }
            grow(b, point)
        },
        OutlineCommand::Q { ctrl, point } => {
            proof {
                lemma_box_push(before, ctrl);
                lemma_box_push(before.push(ctrl), point);
                assert(before + points_of(cmd) =~= before.push(ctrl).push(point));
            }
            grow(grow(b, ctrl), point)
        },
        OutlineCommand::C { ctrl1, ctrl2, point } => {
            proof {
                lemma_box_push(before, ctrl1);
                lemma_box_push(before.push(ctrl1), ctrl2);
                lemma_box_push(before.push(ctrl1).push(ctrl2), point);
                assert(before + points_of(cmd) =~= before.push(ctrl1).push(ctrl2).push(point));
            }
            grow(grow(grow(b, ctrl1), ctrl2), point)
        },
        OutlineCommand::Z => {
            assert(before + points_of(cmd) =~= before);
            b
        },
    }
}

/// Works out the box around the points of a drawing, control points
/// included. Of a drawing without points it is the empty box, whose smallest
/// corner is the largest number and whose largest corner is the smallest.
pub fn bounding_box(cmds: &[OutlineCommand]) -> (b: GlyphBounds)
    ensures
        b == box_around(drawing_points(cmds@)),
{
    let mut b = GlyphBounds { x_min: LARGEST, y_min: LARGEST, x_max: SMALLEST, y_max: SMALLEST };
    let mut i: usize = 0;
    assert(cmds@.take(0) =~= Seq::<OutlineCommand>::empty());
    while i < cmds.len()
        invariant
            i <= cmds.len(),
            b == box_around(drawing_points(cmds@.take(i as int))),
        decreases cmds.len() - i,
    {
        proof {
            assert(cmds@.take(i + 1).drop_last() =~= cmds@.take(i as int));
            assert(cmds@.take(i + 1).last() == cmds@[i as int]);
        }
        b = grow_by_command(b, cmds[i], Ghost(drawing_points(cmds@.take(i as int))));
        i += 1;
    }
    assert(cmds@.take(i as int) =~= cmds@);
    b
}

/// Works out the bounds of a drawing: the box around its points, where that
/// box has a width.
pub fn bounds_of(cmds: &[OutlineCommand]) -> (r: Option<GlyphBounds>)
    ensures
        r == drawing_bounds(cmds@),
{
    let b = bounding_box(cmds);
    if is_less(b.x_min, b.x_max) {
        Some(b)
    } else {
        None
    }
}

/// Where the record of a glyph starts in `glyf`, as `loca` says; `None`
/// where `loca` has no entry for the glyph.
pub open spec fn glyph_start(loca: Seq<u8>, is_long: bool, glyph_id: u32) -> Option<int> {
    if is_long {
        if 4 * glyph_id + 4 <= loca.len() {
            Some(u32_at(loca, 4 * glyph_id))
        } else {
            None
        }
    } else {
        if 2 * glyph_id + 2 <= loca.len() {
            Some(2 * u16_at(loca, 2 * glyph_id))
        } else {
            None
        }
    }
}

/// Whether a glyph is composite, and its components. A glyph is composite
/// where its record starts with a negative number of contours. Where `glyf`,
/// `loca` or `head` is missing or the record cannot be found, the glyph
/// counts as simple. `None` for a composite glyph whose record is cut short:
/// `glyf` ends inside its header or inside a component that is due, or
/// before one.
pub open spec fn composite_info(t: TableBytes, glyph_id: u32) -> Option<(bool, Seq<Component>)> {
    if t.glyf is None || t.loca is None || t.head is None || t.head->0.len() < HEAD_LEN {
        Some((false, Seq::empty()))
    } else {
        let glyf = t.glyf->0;
        match glyph_start(t.loca->0, index_to_loc_format(t.head->0) == 1, glyph_id) {
            None => Some((false, Seq::empty())),
            Some(start) => if start + 2 > glyf.len() || i16_at(glyf, start) >= 0 {
                Some((false, Seq::empty()))
            } else if start + GLYPH_HEADER_LEN > glyf.len() {
                None
            } else {
                match components_from(
                    glyf.subrange(start + GLYPH_HEADER_LEN, glyf.len() as int),
                    0,
                ) {
                    Some(components) => Some((true, components)),
                    None => None,
                }
            },
        }
    }
}

/// Whether a glyph whose record is whole is composite, and its components.
pub open spec fn shown_info(t: TableBytes, glyph_id: u32) -> (bool, Seq<Component>) {
    composite_info(t, glyph_id)->0
}

/// A composite glyph has at least one component, and a simple glyph none.
pub proof fn lemma_composite_has_components(t: TableBytes, glyph_id: u32)
    requires
        composite_info(t, glyph_id) is Some,
    ensures
        shown_info(t, glyph_id).0 <==> shown_info(t, glyph_id).1.len() > 0,
{
    if shown_info(t, glyph_id).0 {
        let glyf = t.glyf->0;
        let start = glyph_start(t.loca->0, index_to_loc_format(t.head->0) == 1, glyph_id)->0;
        lemma_components_are_some(glyf.subrange(start + GLYPH_HEADER_LEN, glyf.len() as int), 0);
    }
}

/// Tells whether a glyph is composite, and reads its components.
///
/// It fails, with `MalformedComposite`, exactly on a composite glyph whose
/// record is cut short.
pub fn get_composite_info(tables: &OutlineTables, glyph_id: u32) -> (r: Result<
    (bool, Vec<ComponentOffset>),
    FontError,
>)
    ensures
        match r {
            Ok((is_composite, list)) => composite_info(tables@, glyph_id) is Some && is_composite
                == shown_info(tables@, glyph_id).0 && describes_all(
                list@,
                shown_info(tables@, glyph_id).1,
            ),
            Err(e) => composite_info(tables@, glyph_id) is None && e
                == FontError::MalformedComposite,
        },
{
    let glyf = match &tables.glyf {
        Some(glyf) => glyf,
        None => {
            return Ok((false, Vec::new()));
        },
    };
    let loca = match &tables.loca {
        Some(loca) => loca,
        None => {
            return Ok((false, Vec::new()));
        },
    };
    let is_long = match &tables.head {
        Some(head) => match head_index_to_loc_format(head.as_slice()) {
            Some(format) => format == 1,
            None => {
                return Ok((false, Vec::new()));
            },
        },
        None => {
            return Ok((false, Vec::new()));
        },
    };
    let g: u64 = glyph_id as u64;
    let start: u64 = if is_long {
        if 4 * g + 4 > loca.len() as u64 {
            return Ok((false, Vec::new()));
        }
        read_u32(loca.as_slice(), (4 * g) as usize) as u64
    } else {
        if 2 * g + 2 > loca.len() as u64 {
            return Ok((false, Vec::new()));
        }
        2 * (read_u16(loca.as_slice(), (2 * g) as usize) as u64)
    };
    if start + 2 > glyf.len() as u64 {
        return Ok((false, Vec::new()));
    }
    if read_i16(glyf.as_slice(), start as usize) >= 0 {
        return Ok((false, Vec::new()));
    }
    if start + GLYPH_HEADER_LEN as u64 > glyf.len() as u64 {
        return Err(FontError::MalformedComposite);
    }
    let body = &glyf.as_slice()[start as usize + GLYPH_HEADER_LEN..glyf.len()];
    match parse_composite_components(body) {
        Ok(list) => Ok((true, list)),
        Err(e) => Err(e),
    }
}

/// The left side bearing that a glyph shows: that of `hmtx`, 0 where `hmtx`
/// is missing or `hhea` cannot be read.
pub open spec fn shown_lsb(t: TableBytes, glyph_id: u32) -> int {
    if t.hmtx is None || t.hhea is None || t.hhea->0.len() < HHEA_LEN {
        0
    } else {
        hmtx_lsb(t.hmtx->0, number_of_h_metrics(t.hhea->0), glyph_id as int)
    }
}

/// Reads the left side bearing of a glyph.
fn read_lsb(tables: &OutlineTables, glyph_id: u32) -> (lsb: i16)
    ensures
        lsb == shown_lsb(tables@, glyph_id),
{
    let hmtx = match &tables.hmtx {
        Some(hmtx) => hmtx,
        None => {
            return 0;
        },
    };
    let count = match &tables.hhea {
        Some(hhea) => match hhea_number_of_h_metrics(hhea.as_slice()) {
            Some(n) => n,
            None => {
                return 0;
            },
        },
        None => {
            return 0;
        },
    };
    get_hmtx_lsb(hmtx.as_slice(), count, glyph_id)
}

/// The drawing of a glyph among the drawings: the first one with its id.
pub open spec fn drawing_of(drawings: Seq<GlyphDrawing>, glyph_id: u32) -> Option<GlyphDrawing>
    decreases drawings.len(),
{
    if drawings.len() == 0 {
        None
    } else if drawings[0].glyph_id == glyph_id {
        Some(drawings[0])
    } else {
        drawing_of(drawings.drop_first(), glyph_id)
    }
}

/// The glyph is there at this depth: the depth is within bounds, and the
/// glyph was drawn and has an outline.
pub open spec fn resolvable(drawings: Seq<GlyphDrawing>, glyph_id: u32, depth: int) -> bool {
    &&& depth <= MAX_DEPTH
    &&& drawing_of(drawings, glyph_id) is Some
    &&& drawing_of(drawings, glyph_id)->0.commands is Some
}

/// The glyph can be shown at this depth: it is there, and if it is
/// composite, its record is whole.
pub open spec fn viewable(t: TableBytes, drawings: Seq<GlyphDrawing>, glyph_id: u32, depth: int)
    -> bool {
    resolvable(drawings, glyph_id, depth) && composite_info(t, glyph_id) is Some
}

/// Why a glyph cannot be shown: it is not there, or its composite record is
/// cut short.
pub open spec fn view_fault(drawings: Seq<GlyphDrawing>, glyph_id: u32, depth: int) -> FontError {
    if resolvable(drawings, glyph_id, depth) {
        FontError::MalformedComposite
    } else {
        FontError::GlyphNotFound { glyph_id }
    }
}

/// `d` is the view of glyph `glyph_id` at the given depth.
///
/// It has the advance width of the drawing, 0 without one, and the left
/// side bearing of `hmtx`. A simple glyph has the contours and the bounds of
/// its drawing and no components. A composite glyph has no contours and no
/// bounds; it has the components of its record, each with the view of its
/// glyph one level deeper, or with none where that glyph cannot be shown
/// there.
pub open spec fn is_view_of(
    d: GlyphOutlineData,
    t: TableBytes,
    drawings: Seq<GlyphDrawing>,
    glyph_id: u32,
    depth: int,
) -> bool
    decreases MAX_DEPTH + 1 - depth,
{
    let drawing = drawing_of(drawings, glyph_id)->0;
    let info = composite_info(t, glyph_id)->0;
    &&& viewable(t, drawings, glyph_id, depth)
    &&& d.glyph_id == glyph_id
    &&& d.glyph_name is None
    &&& d.advance_width == (match drawing.advance_width {
        Some(w) => w,
        None => 0,
    })
    &&& d.lsb == whole_bits(shown_lsb(t, glyph_id))
    &&& d.is_composite == info.0
    &&& d.components.len() == info.1.len()
    &&& d.component_glyph_ids.len() == info.1.len()
    &&& forall|i: int|
        0 <= i < info.1.len() ==> (#[trigger] d.component_glyph_ids[i]) == info.1[i].glyph_id
    &&& forall|i: int|
        0 <= i < info.1.len() ==> {
            let c = #[trigger] d.components[i];
            &&& c.glyph_id == info.1[i].glyph_id
            &&& c.x_offset == whole_bits(info.1[i].x)
            &&& c.y_offset == whole_bits(info.1[i].y)
            &&& (info.0 && depth < MAX_DEPTH ==> match c.outline {
                Some(inner) => is_view_of(*inner, t, drawings, c.glyph_id, depth + 1),
                None => !viewable(t, drawings, c.glyph_id, depth + 1),
            })
            &&& (!info.0 || depth >= MAX_DEPTH ==> c.outline is None)
        }
    &&& if info.0 {
        d.contours.len() == 0 && d.bounds is None
    } else {
        contour_commands(d.contours@) == contours_of(drawing.commands->0@) && d.bounds
            == drawing_bounds(drawing.commands->0@)
    }
}

/// Looks for the drawing of a glyph.
fn find_drawing(drawings: &[GlyphDrawing], glyph_id: u32) -> (r: Option<usize>)
    ensures
        match r {
            Some(i) => i < drawings.len() && drawing_of(drawings@, glyph_id) == Some(
                drawings@[i as int],
            ),
            None => drawing_of(drawings@, glyph_id) is None,
        },
{
    let mut i: usize = 0;
    assert(drawings@.skip(0) =~= drawings@);
    while i < drawings.len()
        invariant
            i <= drawings.len(),
            drawing_of(drawings@, glyph_id) == drawing_of(drawings@.skip(i as int), glyph_id),
        decreases drawings.len() - i,
    {
        proof {
            assert(drawings@.skip(i as int)[0] == drawings@[i as int]);
            assert(drawings@.skip(i as int).drop_first() =~= drawings@.skip(i + 1));
        }
        if drawings[i].glyph_id == glyph_id {
            return Some(i);
        }
        i += 1;
    }
    None
}

/// Builds the view of a glyph, and of the components of a composite glyph
/// down to five levels below it. A component whose glyph cannot be shown is
/// left without an outline.
///
/// It fails with `GlyphNotFound` for a glyph that was not drawn or has no
/// outline, and beyond the fifth level for every glyph; else with
/// `MalformedComposite` for a composite glyph whose record is cut short.
pub fn build_glyph_outline_data_recursive(
    tables: &OutlineTables,
    drawings: &[GlyphDrawing],
    glyph_id: u32,
    depth: u8,
) -> (r: Result<GlyphOutlineData, FontError>)
    ensures
        match r {
            Ok(d) => is_view_of(d, tables@, drawings@, glyph_id, depth as int),
            Err(e) => !viewable(tables@, drawings@, glyph_id, depth as int) && e == view_fault(
                drawings@,
                glyph_id,
                depth as int,
            ),
        },
    decreases MAX_DEPTH + 1 - depth,
{
    if depth > MAX_DEPTH {
        return Err(FontError::GlyphNotFound { glyph_id });
    }
    let at = match find_drawing(drawings, glyph_id) {
        Some(at) => at,
        None => {
            return Err(FontError::GlyphNotFound { glyph_id });
        },
    };
    let drawing = &drawings[at];
    let cmds = match &drawing.commands {
        Some(cmds) => cmds,
        None => {
            return Err(FontError::GlyphNotFound { glyph_id });
        },
    };
    let advance_width = match drawing.advance_width {
        Some(w) => w,
        None => 0,
    };
    let lsb = from_i16(read_lsb(tables, glyph_id));
    let (is_composite, parsed) = match get_composite_info(tables, glyph_id) {
        Ok(pair) => pair,
        Err(e) => {
            return Err(e);
        },
    };
    let ghost info = shown_info(tables@, glyph_id);
    let mut components: Vec<ComponentOffset> = Vec::new();
    let mut component_glyph_ids: Vec<u32> = Vec::new();
    let mut i: usize = 0;
    while i < parsed.len()
        invariant
            i <= parsed.len(),
            depth <= MAX_DEPTH,
            composite_info(tables@, glyph_id) is Some,
            info == shown_info(tables@, glyph_id),
            is_composite == info.0,
            parsed.len() == info.1.len(),
            forall|k: int| 0 <= k < parsed.len() ==> describes(#[trigger] parsed[k], info.1[k]),
            components.len() == i,
            component_glyph_ids.len() == i,
            forall|k: int|
                0 <= k < i ==> (#[trigger] component_glyph_ids[k]) == info.1[k].glyph_id,
            forall|k: int|
                0 <= k < i ==> {
                    let c = #[trigger] components[k];
                    &&& c.glyph_id == info.1[k].glyph_id
                    &&& c.x_offset == whole_bits(info.1[k].x)
                    &&& c.y_offset == whole_bits(info.1[k].y)
                    &&& (info.0 && depth < MAX_DEPTH ==> match c.outline {
                        Some(inner) => is_view_of(
                            *inner,
                            tables@,
                            drawings@,
                            c.glyph_id,
                            depth + 1,
                        ),
                        None => !viewable(tables@, drawings@, c.glyph_id, depth + 1),
                    })
                    &&& (!info.0 || depth >= MAX_DEPTH ==> c.outline is None)
                },
        decreases parsed.len() - i,
    {
        let p = &parsed[i];
        let outline = if is_composite && depth < MAX_DEPTH {
            match build_glyph_outline_data_recursive(tables, drawings, p.glyph_id, depth + 1) {
                Ok(inner) => Some(Box::new(inner)),
                Err(_) => None,
            }
        } else {
            None
        };
        components.push(
            ComponentOffset {
                glyph_id: p.glyph_id,
                x_offset: p.x_offset,
                y_offset: p.y_offset,
                outline,
            },
        );
        component_glyph_ids.push(p.glyph_id);
        i += 1;
    }
    let (contours, bounds) = if is_composite {
        (Vec::new(), None)
    } else {
        (split_contours(cmds.as_slice()), bounds_of(cmds.as_slice()))
    };
    Ok(
        GlyphOutlineData {
            glyph_id,
            glyph_name: None,
            contours,
            advance_width,
            lsb,
            bounds,
            is_composite,
            component_glyph_ids,
            components,
        },
    )
}

/// Builds the view of a glyph for the editor.
///
/// It fails with `GlyphNotFound` exactly when the glyph was not drawn or has
/// no outline, and else with `MalformedComposite` exactly when the glyph is
/// composite and its record is cut short.
pub fn get_glyph_outline_data(tables: &OutlineTables, drawings: &[GlyphDrawing], glyph_id: u32)
    -> (r: Result<GlyphOutlineData, FontError>)
    ensures
        match r {
            Ok(d) => is_view_of(d, tables@, drawings@, glyph_id, 0),
            Err(e) => !viewable(tables@, drawings@, glyph_id, 0) && e == view_fault(
                drawings@,
                glyph_id,
                0,
            ),
        },
{
    build_glyph_outline_data_recursive(tables, drawings, glyph_id, 0)
}

/// Building the view of glyph `root` at `depth` asks for the drawing of
/// glyph `g`: `g` is the glyph itself, or a glyph that one of its components
/// asks for one level deeper.
pub open spec fn asks_for(t: TableBytes, root: u32, depth: int, g: u32) -> bool
    decreases MAX_DEPTH + 1 - depth,
{
    depth <= MAX_DEPTH && (g == root || (depth < MAX_DEPTH && composite_info(t, root) is Some
        && exists|i: int|
        0 <= i < shown_info(t, root).1.len() && asks_for(
            t,
            #[trigger] shown_info(t, root).1[i].glyph_id as u32,
            depth + 1,
            g,
        )))
}

/// Adds to `ids` the glyphs whose drawings the view of a glyph asks for,
/// and no others.
fn collect_glyphs(tables: &OutlineTables, glyph_id: u32, depth: u8, ids: &mut Vec<u32>)
    ensures
        forall|g: u32|
            #[trigger] final(ids)@.contains(g) <==> old(ids)@.contains(g) || asks_for(
                tables@,
                glyph_id,
                depth as int,
                g,
            ),
    decreases MAX_DEPTH + 1 - depth,
{
    if depth > MAX_DEPTH {
        return ;
    }
    ids.push(glyph_id);
    assert(ids@.last() == glyph_id);
    assert forall|g: u32| old(ids)@.contains(g) implies ids@.contains(g) by {
        let k = choose|k: int| 0 <= k < old(ids)@.len() && old(ids)@[k] == g;
        assert(ids@[k] == g);
    }
    assert forall|g: u32| ids@.contains(g) implies old(ids)@.contains(g) || g == glyph_id by {
        let k = choose|k: int| 0 <= k < ids@.len() && ids@[k] == g;
        if k < old(ids)@.len() {
            assert(old(ids)@[k] == g);
        }
    }
    if depth == MAX_DEPTH {
        return ;
    }
    let (is_composite, parsed) = match get_composite_info(tables, glyph_id) {
        Ok(pair) => pair,
        Err(_) => {
            return ;
        },
    };
    let ghost info = shown_info(tables@, glyph_id);
    let mut i: usize = 0;
    while i < parsed.len()
        invariant
            i <= parsed.len(),
            depth < MAX_DEPTH,
            composite_info(tables@, glyph_id) is Some,
            info == shown_info(tables@, glyph_id),
            parsed.len() == info.1.len(),
            forall|k: int| 0 <= k < parsed.len() ==> describes(#[trigger] parsed[k], info.1[k]),
            ids@.contains(glyph_id),
            forall|g: u32| old(ids)@.contains(g) ==> ids@.contains(g),
            forall|g: u32|
                #[trigger] ids@.contains(g) ==> old(ids)@.contains(g) || asks_for(
                    tables@,
                    glyph_id,
                    depth as int,
                    g,
                ),
            forall|k: int, g: u32|
                0 <= k < i && #[trigger] asks_for(
                    tables@,
                    info.1[k].glyph_id as u32,
                    depth + 1,
                    g,
                ) ==> ids@.contains(g),
        decreases parsed.len() - i,
    {
        let ghost before = ids@;
        collect_glyphs(tables, parsed[i].glyph_id, depth + 1, ids);
        assert(describes(parsed[i as int], info.1[i as int]));
        assert forall|g: u32| #[trigger] ids@.contains(g) implies old(ids)@.contains(g)
            || asks_for(tables@, glyph_id, depth as int, g) by {
            if !before.contains(g) {
                assert(asks_for(tables@, info.1[i as int].glyph_id as u32, depth + 1, g));
            }
        }
        assert forall|k: int, g: u32|
            0 <= k < i + 1 && #[trigger] asks_for(
                tables@,
                info.1[k].glyph_id as u32,
                depth + 1,
                g,
            ) implies ids@.contains(g) by {
            if k < i {
                assert(before.contains(g));
            }
        }
        i += 1;
    }
    assert forall|g: u32| asks_for(tables@, glyph_id, depth as int, g) implies ids@.contains(
        g,
    ) by {
        if g != glyph_id {
            let k = choose|k: int|
                0 <= k < info.1.len() && asks_for(
                    tables@,
                    #[trigger] info.1[k].glyph_id as u32,
                    depth + 1,
                    g,
                );
            assert(ids@.contains(g));
        }
    }
}

/// Lists the glyphs whose drawings the view of a glyph asks for: the glyph
/// itself and, for a composite glyph, what its components ask for, down to
/// five levels below it, and no other glyph. A glyph may be listed more than
/// once.
pub fn glyphs_to_draw(tables: &OutlineTables, glyph_id: u32) -> (ids: Vec<u32>)
    ensures
        forall|g: u32| #[trigger] ids@.contains(g) <==> asks_for(tables@, glyph_id, 0, g),
{
    let mut ids: Vec<u32> = Vec::new();
    collect_glyphs(tables, glyph_id, 0, &mut ids);
    ids
}

/// A command of the open contour is a command of the drawing.
proof fn lemma_open_command_is_drawn(cmds: Seq<OutlineCommand>, j: int) -> (n: int)
    requires
        0 <= j < open_contour(cmds).len(),
    ensures
        0 <= n < cmds.len(),
        cmds[n] == open_contour(cmds)[j],
    decreases cmds.len(),
{
    if cmds.last() is M || j == open_contour(cmds).len() - 1 {
        cmds.len() - 1
    } else {
        lemma_open_command_is_drawn(cmds.drop_last(), j)
    }
}

/// A command of a finished contour is a command of the drawing.
proof fn lemma_finished_command_is_drawn(cmds: Seq<OutlineCommand>, i: int, j: int) -> (n: int)
    requires
        0 <= i < finished_contours(cmds).len(),
        0 <= j < finished_contours(cmds)[i].len(),
    ensures
        0 <= n < cmds.len(),
        cmds[n] == finished_contours(cmds)[i][j],
    decreases cmds.len(),
{
    let before = cmds.drop_last();
    if cmds.last() is M && open_contour(before).len() > 0 && i == finished_contours(before).len() {
        lemma_open_command_is_drawn(before, j)
    } else {
        lemma_finished_command_is_drawn(before, i, j)
    }
}

/// A point of a command of the drawing is a point of the drawing.
proof fn lemma_point_is_drawn(cmds: Seq<OutlineCommand>, n: int, k: int) -> (m: int)
    requires
        0 <= n < cmds.len(),
        0 <= k < points_of(cmds[n]).len(),
    ensures
        0 <= m < drawing_points(cmds).len(),
        drawing_points(cmds)[m] == points_of(cmds[n])[k],
    decreases cmds.len(),
{
    if n == cmds.len() - 1 {
        drawing_points(cmds.drop_last()).len() + k
    } else {
        lemma_point_is_drawn(cmds.drop_last(), n, k)
    }
}

/// The box around the points of a drawing holds every point of every
/// contour of the drawing.
pub proof fn lemma_box_holds_the_contours(cmds: Seq<OutlineCommand>, i: int, j: int, k: int)
    requires
        0 <= i < contours_of(cmds).len(),
        0 <= j < contours_of(cmds)[i].len(),
        0 <= k < points_of(contours_of(cmds)[i][j]).len(),
    ensures
        encloses(box_around(drawing_points(cmds)), points_of(contours_of(cmds)[i][j])[k]),
{
    let n = if i < finished_contours(cmds).len() {
        lemma_finished_command_is_drawn(cmds, i, j)
    } else {
        lemma_open_command_is_drawn(cmds, j)
    };
    let m = lemma_point_is_drawn(cmds, n, k);
    lemma_box_encloses(drawing_points(cmds), m);
}

/// Every coordinate of the commands is a number that is no infinity.
pub open spec fn all_finite(cmds: Seq<OutlineCommand>) -> bool {
    forall|m: int|
        0 <= m < drawing_points(cmds).len() ==> is_finite((#[trigger] drawing_points(cmds)[m]).x)
            && is_finite(drawing_points(cmds)[m].y)
}

/// One of the points of the contours has this x.
pub open spec fn reaches_x(contours: Seq<Seq<OutlineCommand>>, x: u32) -> bool {
    exists|i: int, j: int, k: int|
        0 <= i < contours.len() && 0 <= j < contours[i].len() && 0 <= k < points_of(
            contours[i][j],
        ).len() && (#[trigger] points_of(#[trigger] contours[i][j])[k]).x == x
}

/// One of the points of the contours has this y.
pub open spec fn reaches_y(contours: Seq<Seq<OutlineCommand>>, y: u32) -> bool {
    exists|i: int, j: int, k: int|
        0 <= i < contours.len() && 0 <= j < contours[i].len() && 0 <= k < points_of(
            contours[i][j],
        ).len() && (#[trigger] points_of(#[trigger] contours[i][j])[k]).y == y
}

/// Where the points are numbers that are no infinities, each side of the
/// box around them is a coordinate of one of them.
proof fn lemma_box_is_reached(points: Seq<Point>) -> (r: (int, int, int, int))
    requires
        points.len() > 0,
        forall|m: int|
            0 <= m < points.len() ==> is_finite((#[trigger] points[m]).x) && is_finite(
                points[m].y,
            ),
    ensures
        0 <= r.0 < points.len() && points[r.0].x == box_around(points).x_min,
        0 <= r.1 < points.len() && points[r.1].y == box_around(points).y_min,
        0 <= r.2 < points.len() && points[r.2].x == box_around(points).x_max,
        0 <= r.3 < points.len() && points[r.3].y == box_around(points).y_max,
    decreases points.len(),
{
    reveal(smaller);
    reveal(larger);
    let before = points.drop_last();
    let b = box_around(before);
    let p = points.last();
    let last = points.len() - 1;
    assert(is_finite(points[last].x) && is_finite(points[last].y));
    if before.len() == 0 {
        assert(order_key(LARGEST) == 0x7F7F_FFFF && order_key(SMALLEST) == -0x7F7F_FFFF);
        (last, last, last, last)
    } else {
        assert forall|m: int| 0 <= m < before.len() implies is_finite((#[trigger] before[m]).x)
            && is_finite(before[m].y) by {
            assert(before[m] == points[m]);
        }
        let r = lemma_box_is_reached(before);
        lemma_box_is_numbers(before);
        (
            if box_around(points).x_min == b.x_min {
                r.0
            } else {
                last
            },
            if box_around(points).y_min == b.y_min {
                r.1
            } else {
                last
            },
            if box_around(points).x_max == b.x_max {
                r.2
            } else {
                last
            },
            if box_around(points).y_max == b.y_max {
                r.3
            } else {
                last
            },
        )
    }
}

/// A point of the drawing is a point of one of its commands.
proof fn lemma_point_has_a_command(cmds: Seq<OutlineCommand>, m: int) -> (r: (int, int))
    requires
        0 <= m < drawing_points(cmds).len(),
    ensures
        0 <= r.0 < cmds.len(),
        0 <= r.1 < points_of(cmds[r.0]).len(),
        points_of(cmds[r.0])[r.1] == drawing_points(cmds)[m],
    decreases cmds.len(),
{
    let before = drawing_points(cmds.drop_last());
    if m < before.len() {
        lemma_point_has_a_command(cmds.drop_last(), m)
    } else {
        (cmds.len() - 1, m - before.len())
    }
}

/// A command of the drawing stands in a contour that is finished, or in the
/// one that is open.
proof fn lemma_command_has_a_place(cmds: Seq<OutlineCommand>, n: int) -> (r: (bool, int, int))
    requires
        0 <= n < cmds.len(),
    ensures
        r.0 ==> 0 <= r.1 < finished_contours(cmds).len() && 0 <= r.2 < finished_contours(
            cmds,
        )[r.1].len() && finished_contours(cmds)[r.1][r.2] == cmds[n],
        !r.0 ==> 0 <= r.2 < open_contour(cmds).len() && open_contour(cmds)[r.2] == cmds[n],
    decreases cmds.len(),
{
    let before = cmds.drop_last();
    if n == cmds.len() - 1 {
        (false, 0, open_contour(cmds).len() - 1)
    } else {
        let r = lemma_command_has_a_place(before, n);
        assert(before[n] == cmds[n]);
        if r.0 {
            r
        } else if cmds.last() is M {
            (true, finished_contours(before).len() as int, r.2)
        } else {
            r
        }
    }
}

/// A command of the drawing stands in one of its contours.
proof fn lemma_command_has_a_contour(cmds: Seq<OutlineCommand>, n: int) -> (r: (int, int))
    requires
        0 <= n < cmds.len(),
    ensures
        0 <= r.0 < contours_of(cmds).len(),
        0 <= r.1 < contours_of(cmds)[r.0].len(),
        contours_of(cmds)[r.0][r.1] == cmds[n],
{
    let r = lemma_command_has_a_place(cmds, n);
    if r.0 {
        (r.1, r.2)
    } else {
        (finished_contours(cmds).len() as int, r.2)
    }
}

/// The bounds of a drawing are reached: where every coordinate is a number
/// that is no infinity, each side of the bounds is a coordinate of a point
/// of the contours.
pub proof fn lemma_bounds_are_reached(cmds: Seq<OutlineCommand>)
    requires
        drawing_bounds(cmds) is Some,
        all_finite(cmds),
    ensures
        reaches_x(contours_of(cmds), drawing_bounds(cmds)->0.x_min),
        reaches_y(contours_of(cmds), drawing_bounds(cmds)->0.y_min),
        reaches_x(contours_of(cmds), drawing_bounds(cmds)->0.x_max),
        reaches_y(contours_of(cmds), drawing_bounds(cmds)->0.y_max),
{
    let points = drawing_points(cmds);
    let contours = contours_of(cmds);
    if points.len() == 0 {
        assert(order_key(LARGEST) == 0x7F7F_FFFF && order_key(SMALLEST) == -0x7F7F_FFFF);
        assert(false);
    }
    let r = lemma_box_is_reached(points);
    let a = lemma_point_has_a_command(cmds, r.0);
    let at = lemma_command_has_a_contour(cmds, a.0);
    assert(points_of(contours[at.0][at.1])[a.1].x == drawing_bounds(cmds)->0.x_min);
    let a = lemma_point_has_a_command(cmds, r.1);
    let at = lemma_command_has_a_contour(cmds, a.0);
    assert(points_of(contours[at.0][at.1])[a.1].y == drawing_bounds(cmds)->0.y_min);
    let a = lemma_point_has_a_command(cmds, r.2);
    let at = lemma_command_has_a_contour(cmds, a.0);
    assert(points_of(contours[at.0][at.1])[a.1].x == drawing_bounds(cmds)->0.x_max);
    let a = lemma_point_has_a_command(cmds, r.3);
    let at = lemma_command_has_a_contour(cmds, a.0);
    assert(points_of(contours[at.0][at.1])[a.1].y == drawing_bounds(cmds)->0.y_max);
}

/// The bounds of a view are reached: where every coordinate of the drawing
/// is a number that is no infinity, each side of the bounds is a coordinate
/// of a point of the contours of the view.
pub proof fn lemma_view_bounds_are_reached(
    d: GlyphOutlineData,
    t: TableBytes,
    drawings: Seq<GlyphDrawing>,
    glyph_id: u32,
    depth: int,
)
    requires
        is_view_of(d, t, drawings, glyph_id, depth),
        d.bounds is Some,
        all_finite(drawing_of(drawings, glyph_id)->0.commands->0@),
    ensures
        reaches_x(contour_commands(d.contours@), d.bounds->0.x_min),
        reaches_y(contour_commands(d.contours@), d.bounds->0.y_min),
        reaches_x(contour_commands(d.contours@), d.bounds->0.x_max),
        reaches_y(contour_commands(d.contours@), d.bounds->0.y_max),
{
    lemma_bounds_are_reached(drawing_of(drawings, glyph_id)->0.commands->0@);
}

/// The view of a glyph is of one of two kinds. A composite glyph has no
/// contours and no bounds of its own, and at least one component. A simple
/// glyph has no components. Bounds, where the view has any, hold every point
/// of its contours; a coordinate that is no number lies nowhere, and is held
/// by any.
pub proof fn lemma_view_is_simple_or_composite(
    d: GlyphOutlineData,
    t: TableBytes,
    drawings: Seq<GlyphDrawing>,
    glyph_id: u32,
    depth: int,
)
    requires
        is_view_of(d, t, drawings, glyph_id, depth),
    ensures
        d.is_composite ==> d.contours.len() == 0 && d.bounds is None && d.components.len() > 0
            && d.component_glyph_ids.len() == d.components.len(),
        !d.is_composite ==> d.components.len() == 0 && d.component_glyph_ids.len() == 0,
        d.bounds is Some ==> forall|i: int, j: int, k: int|
            0 <= i < d.contours.len() && 0 <= j < d.contours[i].commands.len() && 0 <= k
                < points_of(d.contours[i].commands[j]).len() ==> encloses(
                d.bounds->0,
                #[trigger] points_of(#[trigger] d.contours[i].commands[j])[k],
            ),
{
    lemma_composite_has_components(t, glyph_id);
    if d.bounds is Some {
        let cmds = drawing_of(drawings, glyph_id)->0.commands->0@;
        assert forall|i: int, j: int, k: int|
            0 <= i < d.contours.len() && 0 <= j < d.contours[i].commands.len() && 0 <= k
                < points_of(d.contours[i].commands[j]).len() implies encloses(
            d.bounds->0,
            #[trigger] points_of(#[trigger] d.contours[i].commands[j])[k],
        ) by {
            assert(contour_commands(d.contours@)[i] == d.contours[i].commands@);
            lemma_box_holds_the_contours(cmds, i, j, k);
        }
    }
}

/// No view reaches deeper than five levels: at the fifth level below the
/// glyph that was asked for, every component is left without an outline.
pub proof fn lemma_depth_is_bounded(
    d: GlyphOutlineData,
    t: TableBytes,
    drawings: Seq<GlyphDrawing>,
    glyph_id: u32,
)
    requires
        is_view_of(d, t, drawings, glyph_id, MAX_DEPTH as int),
    ensures
        forall|i: int| 0 <= i < d.components.len() ==> (#[trigger] d.components[i]).outline is None,
{
}

} // verus!
