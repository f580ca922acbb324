//! The simple-glyph record of the `glyf` table, built from path commands.
//!
//! The record holds the number of contours, the bounding box, the index of
//! the last point of each contour, an empty instruction stream, one flag
//! byte per point, and the coordinates as differences from point to point.
//! Nothing is packed: every flag is either 1 (on the curve) or 0, and every
//! difference takes 16 bits.

use vstd::prelude::*;
use crate::bytes::{i16_at, i16_be, low_i16, push_i16_be, push_u16_be, u16_at, u16_be};
use crate::error::FontError;
use crate::float_bits::{round_to_i16, rounded_i16};
use crate::path::SvgCmd;

verus! {

/// A point of a glyph outline, in font units.
#[derive(Clone, Copy, Debug, PartialEq, Eq, Structural)]
pub struct GlyphPoint {
    pub x: i16,
    pub y: i16,
    pub on_curve: bool,
}

/// The point at the given coordinates, each rounded to the nearest font unit.
pub open spec fn rounded_point(x: u32, y: u32, on_curve: bool) -> GlyphPoint {
    GlyphPoint { x: rounded_i16(x) as i16, y: rounded_i16(y) as i16, on_curve }
}

/// The points that a command adds to the outline: its end point, on the
/// curve, and before it the control point of a quadratic curve, off the
/// curve.
pub open spec fn command_points(cmd: SvgCmd) -> Seq<GlyphPoint> {
    match cmd {
        SvgCmd::MoveTo(x, y) => seq![rounded_point(x, y, true)],
        SvgCmd::LineTo(x, y) => seq![rounded_point(x, y, true)],
        SvgCmd::QuadTo(cx, cy, x, y) => seq![
            rounded_point(cx, cy, false),
            rounded_point(x, y, true),
        ],
        SvgCmd::CurveTo(..) => Seq::empty(),
        SvgCmd::Close => Seq::empty(),
    }
}

/// One of the commands is a cubic curve.
pub open spec fn has_cubic(cmds: Seq<SvgCmd>) -> bool {
    exists|i: int| 0 <= i < cmds.len() && (#[trigger] cmds[i]) is CurveTo
}

/// The points of all commands, in order.
pub open spec fn all_points(cmds: Seq<SvgCmd>) -> Seq<GlyphPoint>
    decreases cmds.len(),
{
    if cmds.len() == 0 {
        Seq::empty()
    } else {
        all_points(cmds.drop_last()) + command_points(cmds.last())
    }
}

/// How many points the contour holds that is still open after the commands.
/// A move starts a new contour with its own point; a close leaves none open.
pub open spec fn open_points(cmds: Seq<SvgCmd>) -> nat
    decreases cmds.len(),
{
    if cmds.len() == 0 {
        0
    } else {
        match cmds.last() {
            SvgCmd::MoveTo(..) => 1,
            SvgCmd::Close => 0,
            _ => open_points(cmds.drop_last()) + command_points(cmds.last()).len(),
        }
    }
}

/// The index of the last point of each contour that the commands have
/// ended. A move and a close end the contour that is open, if it holds a
/// point.
pub open spec fn closed_ends(cmds: Seq<SvgCmd>) -> Seq<int>
    decreases cmds.len(),
{
    if cmds.len() == 0 {
        Seq::empty()
    } else {
        let before = cmds.drop_last();
        if (cmds.last() is MoveTo || cmds.last() is Close) && open_points(before) > 0 {
            closed_ends(before).push(all_points(before).len() - 1)
        } else {
            closed_ends(before)
        }
    }
}

/// The index of the last point of each contour: those that the commands
/// have ended, and the one that is open at the end if it holds a point.
pub open spec fn contour_ends(cmds: Seq<SvgCmd>) -> Seq<int> {
    if open_points(cmds) > 0 {
        closed_ends(cmds).push(all_points(cmds).len() - 1)
    } else {
        closed_ends(cmds)
    }
}

/// The x coordinates of the points.
pub open spec fn xs(points: Seq<GlyphPoint>) -> Seq<int> {
    points.map_values(|p: GlyphPoint| p.x as int)
}

/// The y coordinates of the points.
pub open spec fn ys(points: Seq<GlyphPoint>) -> Seq<int> {
    points.map_values(|p: GlyphPoint| p.y as int)
}

/// The smallest of the numbers; 0 of none.
pub open spec fn min_of(v: Seq<int>) -> int
    decreases v.len(),
{
    if v.len() == 0 {
        0
    } else if v.len() == 1 {
        v[0]
    } else if v.last() < min_of(v.drop_last()) {
        v.last()
    } else {
        min_of(v.drop_last())
    }
}

/// The largest of the numbers; 0 of none.
pub open spec fn max_of(v: Seq<int>) -> int
    decreases v.len(),
{
    if v.len() == 0 {
        0
    } else if v.len() == 1 {
        v[0]
    } else if v.last() > max_of(v.drop_last()) {
        v.last()
    } else {
        max_of(v.drop_last())
    }
}

/// The contour ends as the record holds them: 16 bits each, of which an index
/// beyond 65535 keeps the low ones.
pub open spec fn ends_bytes(ends: Seq<int>) -> Seq<u8>
    decreases ends.len(),
{
    if ends.len() == 0 {
        Seq::empty()
    } else {
        ends_bytes(ends.drop_last()) + u16_be(ends.last() % 0x1_0000)
    }
}

/// One flag byte per point: 1 on the curve, 0 off it.
pub open spec fn flag_bytes(points: Seq<GlyphPoint>) -> Seq<u8> {
    points.map_values(|p: GlyphPoint| if p.on_curve { 1u8 } else { 0u8 })
}

/// The coordinates as the record holds them: each as its difference from the
/// one before it, the first from 0, in 16 signed bits. A difference beyond
/// that range keeps its low 16 bits, so that adding the differences up in 16
/// bits gives the coordinates again.
pub open spec fn delta_bytes(v: Seq<int>) -> Seq<u8>
    decreases v.len(),
{
    if v.len() == 0 {
        Seq::empty()
    } else {
        let before = if v.len() >= 2 { v[v.len() - 2] } else { 0 };
        delta_bytes(v.drop_last()) + i16_be(low_i16(v.last() - before))
    }
}

/// The simple-glyph record of an outline with at least one point.
pub open spec fn simple_glyph_record(points: Seq<GlyphPoint>, ends: Seq<int>) -> Seq<u8> {
    i16_be(low_i16(ends.len() as int)) + i16_be(min_of(xs(points))) + i16_be(min_of(ys(points)))
        + i16_be(max_of(xs(points))) + i16_be(max_of(ys(points))) + ends_bytes(ends) + u16_be(0)
        + flag_bytes(points) + delta_bytes(xs(points)) + delta_bytes(ys(points))
}

/// The `glyf` record of the outline that the commands draw: nothing at all
/// for an outline without points, which is a valid empty glyph.
pub open spec fn glyf_glyph_bytes(cmds: Seq<SvgCmd>) -> Seq<u8> {
    if all_points(cmds).len() == 0 {
        Seq::empty()
    } else {
        simple_glyph_record(all_points(cmds), contour_ends(cmds))
    }
}

/// The open contour is part of the points.
proof fn lemma_open_points_bound(cmds: Seq<SvgCmd>)
    ensures
        open_points(cmds) <= all_points(cmds).len(),
    decreases cmds.len(),
{
    if cmds.len() > 0 {
        lemma_open_points_bound(cmds.drop_last());
    }
}

/// The smallest and largest coordinate of each axis.
fn bounding_box(pts: &Vec<GlyphPoint>) -> (b: (i16, i16, i16, i16))
    requires
        pts.len() > 0,
    ensures
        b.0 == min_of(xs(pts@)),
        b.1 == min_of(ys(pts@)),
        b.2 == max_of(xs(pts@)),
        b.3 == max_of(ys(pts@)),
{
    let mut x_min: i16 = pts[0].x;
    let mut y_min: i16 = pts[0].y;
    let mut x_max: i16 = pts[0].x;
    let mut y_max: i16 = pts[0].y;
    let mut i: usize = 1;
    assert(xs(pts@.take(1)) =~= seq![pts@[0].x as int]);
    assert(ys(pts@.take(1)) =~= seq![pts@[0].y as int]);
    while i < pts.len()
        invariant
            1 <= i <= pts.len(),
            x_min == min_of(xs(pts@.take(i as int))),
            y_min == min_of(ys(pts@.take(i as int))),
            x_max == max_of(xs(pts@.take(i as int))),
            y_max == max_of(ys(pts@.take(i as int))),
        decreases pts.len() - i,
    {
        proof {
            let now = pts@.take(i + 1);
            assert(now.drop_last() =~= pts@.take(i as int));
            assert(xs(now).drop_last() =~= xs(pts@.take(i as int)));
            assert(ys(now).drop_last() =~= ys(pts@.take(i as int)));
            assert(xs(now).last() == pts@[i as int].x);
            assert(ys(now).last() == pts@[i as int].y);
        }
        let p = pts[i];
        if p.x < x_min {
            x_min = p.x;
        }
        if p.y < y_min {
            y_min = p.y;
        }
        if p.x > x_max {
            x_max = p.x;
        }
        if p.y > y_max {
            y_max = p.y;
        }
        i += 1;
    }
    assert(pts@.take(i as int) =~= pts@);
    (x_min, y_min, x_max, y_max)
}

/// Appends the coordinates of one axis as 16-bit differences.
fn push_deltas(buf: &mut Vec<u8>, pts: &Vec<GlyphPoint>, vertical: bool)
    ensures
        final(buf)@ == old(buf)@ + delta_bytes(if vertical { ys(pts@) } else { xs(pts@) }),
{
    let ghost all = if vertical { ys(pts@) } else { xs(pts@) };
    let mut prev: i16 = 0;
    let mut i: usize = 0;
    assert(all.take(0) =~= Seq::<int>::empty());
    assert(buf@ =~= old(buf)@ + delta_bytes(all.take(0)));
    while i < pts.len()
        invariant
            i <= pts.len(),
            all == (if vertical { ys(pts@) } else { xs(pts@) }),
            all.len() == pts.len(),
            prev == (if i == 0 { 0 } else { all[i - 1] }),
            buf@ == old(buf)@ + delta_bytes(all.take(i as int)),
        decreases pts.len() - i,
    {
        let cur: i16 = if vertical { pts[i].y } else { pts[i].x };
        let d: i32 = cur as i32 - prev as i32;
        let wrapped: i16 = if d > 0x7FFF {
            (d - 0x1_0000) as i16
        } else if d < -0x8000 {
            (d + 0x1_0000) as i16
        } else {
            d as i16
        };
        assert(wrapped == low_i16(d as int));
        let ghost before = buf@;
        push_i16_be(buf, wrapped);
        proof {
            let now = all.take(i + 1);
            assert(now.drop_last() =~= all.take(i as int));
            assert(now.last() == cur);
            assert(now.len() >= 2 ==> now[now.len() - 2] == prev);
            assert(buf@ =~= old(buf)@ + delta_bytes(now));
        }
        prev = cur;
        i += 1;
    }
    assert(all.take(i as int) =~= all);
}

/// Builds the `glyf` record of a simple glyph from path commands in font
/// space, each coordinate rounded to the nearest font unit.
///
/// A move starts a contour and a close ends one; a contour that is open when
/// a move comes, or when the commands end, is ended there. The `glyf` table
/// holds quadratic curves only: a cubic curve anywhere among the commands is
/// refused with `CubicInGlyfTable`, and nothing else is.
pub fn build_glyf_glyph_bytes(cmds: &[SvgCmd]) -> (r: Result<Vec<u8>, FontError>)
    ensures
        match r {
            Ok(bytes) => !has_cubic(cmds@) && bytes@ == glyf_glyph_bytes(cmds@),
            Err(e) => has_cubic(cmds@) && e == FontError::CubicInGlyfTable,
        },
{
    let mut pts: Vec<GlyphPoint> = Vec::new();
    let mut ends: Vec<usize> = Vec::new();
    let mut open: usize = 0;
    let mut i: usize = 0;
    assert(cmds@.take(0) =~= Seq::<SvgCmd>::empty());
    assert(ends@.map_values(|e: usize| e as int) =~= closed_ends(cmds@.take(0)));
    while i < cmds.len()
        invariant
            i <= cmds.len(),
            !has_cubic(cmds@.take(i as int)),
            pts@ == all_points(cmds@.take(i as int)),
            open == open_points(cmds@.take(i as int)),
            ends@.map_values(|e: usize| e as int) == closed_ends(cmds@.take(i as int)),
        decreases cmds.len() - i,
    {
        let ghost before = cmds@.take(i as int);
        let ghost now = cmds@.take(i + 1);
        let ghost old_ends = ends@;
        let ghost old_pts = pts@;
        proof {
            assert(now.drop_last() =~= before);
            assert(now.last() == cmds@[i as int]);
            lemma_open_points_bound(before);
        }
        match cmds[i] {
            SvgCmd::MoveTo(x, y) => {
                if open > 0 {
                    ends.push(pts.len() - 1);
                }
                pts.push(GlyphPoint { x: round_to_i16(x), y: round_to_i16(y), on_curve: true });
                open = 1;
            },
            SvgCmd::LineTo(x, y) => {
                pts.push(GlyphPoint { x: round_to_i16(x), y: round_to_i16(y), on_curve: true });
                let held: usize = pts.len();
                assert(open < held);
                open = open + 1;
            },
            SvgCmd::QuadTo(cx, cy, x, y) => {
                pts.push(
                    GlyphPoint { x: round_to_i16(cx), y: round_to_i16(cy), on_curve: false },
                );
                pts.push(GlyphPoint { x: round_to_i16(x), y: round_to_i16(y), on_curve: true });
                let held: usize = pts.len();
                assert(open + 2 <= held);
                open = open + 2;
            },
            SvgCmd::CurveTo(..) => {
                assert(cmds@[i as int] is CurveTo);
                return Err(FontError::CubicInGlyfTable);
            },
            SvgCmd::Close => {
                if open > 0 {
                    ends.push(pts.len() - 1);
                }
                open = 0;
            },
        }
        proof {
            assert(pts@ =~= old_pts + command_points(cmds@[i as int]));
            assert(ends@.map_values(|e: usize| e as int) =~= closed_ends(now));
            assert forall|k: int| 0 <= k < now.len() implies !((#[trigger] now[k]) is CurveTo) by {
                if k < i {
                    assert(before[k] == now[k]);
                }
            }
        }
        i += 1;
    }
    proof {
        assert(cmds@.take(i as int) =~= cmds@);
        lemma_open_points_bound(cmds@);
    }
    if open > 0 {
        ends.push(pts.len() - 1);
    }
    assert(ends@.map_values(|e: usize| e as int) =~= contour_ends(cmds@));
    if pts.len() == 0 {
        return Ok(Vec::new());
    }
    let ghost points = pts@;
    let ghost end_list = contour_ends(cmds@);
    let (x_min, y_min, x_max, y_max) = bounding_box(&pts);
    let mut buf: Vec<u8> = Vec::new();
    let count: u16 = (ends.len() % 0x1_0000) as u16;
    let count_signed: i16 = if count >= 0x8000 {
        (count as i32 - 0x1_0000) as i16
    } else {
        count as i16
    };
    assert(count_signed == low_i16(end_list.len() as int));
    push_i16_be(&mut buf, count_signed);
    push_i16_be(&mut buf, x_min);
    push_i16_be(&mut buf, y_min);
    push_i16_be(&mut buf, x_max);
    push_i16_be(&mut buf, y_max);
    let ghost head = buf@;
    let mut k: usize = 0;
    assert(end_list.take(0) =~= Seq::<int>::empty());
    assert(buf@ =~= head + ends_bytes(end_list.take(0)));
    while k < ends.len()
        invariant
            k <= ends.len(),
            end_list == ends@.map_values(|e: usize| e as int),
            buf@ == head + ends_bytes(end_list.take(k as int)),
        decreases ends.len() - k,
    {
        let ghost before = buf@;
        push_u16_be(&mut buf, (ends[k] % 0x1_0000) as u16);
        proof {
            let now = end_list.take(k + 1);
            assert(now.drop_last() =~= end_list.take(k as int));
            assert(now.last() == ends@[k as int]);
            assert(buf@ =~= head + ends_bytes(now));
        }
        k += 1;
    }
    assert(end_list.take(k as int) =~= end_list);
    push_u16_be(&mut buf, 0);
    let ghost with_ends = buf@;
    let mut j: usize = 0;
    assert(buf@ =~= with_ends + flag_bytes(points.take(0)));
    while j < pts.len()
        invariant
            j <= pts.len(),
            points == pts@,
            buf@ == with_ends + flag_bytes(points.take(j as int)),
        decreases pts.len() - j,
    {
        buf.push(if pts[j].on_curve { 1 } else { 0 });
        j += 1;
        assert(buf@ =~= with_ends + flag_bytes(points.take(j as int)));
    }
    assert(points.take(j as int) =~= points);
    push_deltas(&mut buf, &pts, false);
    push_deltas(&mut buf, &pts, true);
    assert(buf@ =~= simple_glyph_record(points, end_list));
    Ok(buf)
}

/// The number of contours that a record announces.
pub open spec fn record_contours(record: Seq<u8>) -> int {
    i16_at(record, 0)
}

/// The index of the last point of contour `k`, as a record holds it behind
/// its ten bytes of header.
pub open spec fn record_end(record: Seq<u8>, k: int) -> int {
    u16_at(record, 10 + 2 * k)
}

/// The number of points of a record: one more than the last contour end.
pub open spec fn record_points(record: Seq<u8>) -> int {
    record_end(record, record_contours(record) - 1) + 1
}

/// Where the flags of a record start: behind the header, the contour ends,
/// the length of the instructions and the instructions.
pub open spec fn record_flags_start(record: Seq<u8>) -> int {
    12 + 2 * record_contours(record) + u16_at(record, 10 + 2 * record_contours(record))
}

/// The first `count` of the 16-bit differences that stand from `start` on,
/// added up.
pub open spec fn summed(record: Seq<u8>, start: int, count: int) -> int
    decreases count,
{
    if count <= 0 {
        0
    } else {
        summed(record, start, count - 1) + i16_at(record, start + 2 * (count - 1))
    }
}

/// Whether point `i` of a record lies on the curve: the lowest bit of its
/// flag. The flags stand one byte per point where none of them repeats.
pub open spec fn record_on_curve(record: Seq<u8>, i: int) -> bool {
    record[record_flags_start(record) + i] % 2 == 1
}

/// The x coordinate of point `i` of a record whose flags pack nothing: the
/// differences of all points stand behind the flags in 16 bits each, and
/// those up to the point add up to its coordinate.
pub open spec fn record_x(record: Seq<u8>, i: int) -> int {
    summed(record, record_flags_start(record) + record_points(record), i + 1)
}

/// The y coordinate of point `i` of a record whose flags pack nothing: the
/// differences in y stand behind those in x.
pub open spec fn record_y(record: Seq<u8>, i: int) -> int {
    summed(record, record_flags_start(record) + 3 * record_points(record), i + 1)
}

/// The step to coordinate `j` from the one before it, and to the first
/// from 0.
pub open spec fn step(v: Seq<int>, j: int) -> int {
    v[j] - (if j > 0 {
        v[j - 1]
    } else {
        0
    })
}

/// Each step from one coordinate to the next, and from 0 to the first, fits
/// 16 signed bits.
pub open spec fn steps_fit(v: Seq<int>) -> bool {
    forall|j: int| 0 <= j < v.len() ==> -0x8000 <= #[trigger] step(v, j) < 0x8000
}

/// Every contour end is the index of a point, and where no contour is open
/// the last contour ends with the last point.
proof fn lemma_ends_are_point_indices(cmds: Seq<SvgCmd>)
    ensures
        forall|k: int|
            0 <= k < closed_ends(cmds).len() ==> 0 <= #[trigger] closed_ends(cmds)[k] < all_points(
                cmds,
            ).len(),
        open_points(cmds) == 0 && all_points(cmds).len() > 0 ==> closed_ends(cmds).len() > 0
            && closed_ends(cmds).last() == all_points(cmds).len() - 1,
    decreases cmds.len(),
{
    if cmds.len() > 0 {
        let before = cmds.drop_last();
        lemma_ends_are_point_indices(before);
        lemma_open_points_bound(before);
        assert forall|k: int| 0 <= k < closed_ends(cmds).len() implies 0 <= #[trigger] closed_ends(
            cmds,
        )[k] < all_points(cmds).len() by {
            if k < closed_ends(before).len() {
                assert(closed_ends(cmds)[k] == closed_ends(before)[k]);
            }
        }
    }
}

/// The contour ends take two bytes each.
proof fn lemma_ends_bytes_len(ends: Seq<int>)
    ensures
        ends_bytes(ends).len() == 2 * ends.len(),
    decreases ends.len(),
{
    if ends.len() > 0 {
        lemma_ends_bytes_len(ends.drop_last());
    }
}

/// Contour end `k` is read back from its place, as far as it fits 16 bits.
proof fn lemma_ends_bytes_hold(ends: Seq<int>, k: int)
    requires
        0 <= k < ends.len(),
    ensures
        u16_at(ends_bytes(ends), 2 * k) == ends[k] % 0x1_0000,
    decreases ends.len(),
{
    let before = ends.drop_last();
    lemma_ends_bytes_len(before);
    if k < ends.len() - 1 {
        lemma_ends_bytes_hold(before, k);
        assert(ends_bytes(ends)[2 * k] == ends_bytes(before)[2 * k]);
        assert(ends_bytes(ends)[2 * k + 1] == ends_bytes(before)[2 * k + 1]);
    } else {
        let v = ends.last() % 0x1_0000;
        assert(ends_bytes(ends)[2 * k] == u16_be(v)[0]);
        assert(ends_bytes(ends)[2 * k + 1] == u16_be(v)[1]);
    }
}

/// The differences take two bytes each.
proof fn lemma_delta_bytes_len(v: Seq<int>)
    ensures
        delta_bytes(v).len() == 2 * v.len(),
    decreases v.len(),
{
    if v.len() > 0 {
        lemma_delta_bytes_len(v.drop_last());
    }
}

/// Difference `j` is read back from its place where the step fits 16 bits.
proof fn lemma_delta_bytes_hold(v: Seq<int>, j: int)
    requires
        0 <= j < v.len(),
        steps_fit(v),
    ensures
        i16_at(delta_bytes(v), 2 * j) == step(v, j),
    decreases v.len(),
{
    let before = v.drop_last();
    lemma_delta_bytes_len(before);
    if j < v.len() - 1 {
        assert forall|i: int| 0 <= i < before.len() implies -0x8000 <= #[trigger] step(before, i)
            < 0x8000 by {
            assert(step(before, i) == step(v, i));
        }
        lemma_delta_bytes_hold(before, j);
        assert(step(before, j) == step(v, j));
        assert(delta_bytes(v)[2 * j] == delta_bytes(before)[2 * j]);
        assert(delta_bytes(v)[2 * j + 1] == delta_bytes(before)[2 * j + 1]);
    } else {
        let d = step(v, j);
        assert(-0x8000 <= d < 0x8000);
        assert(low_i16(d) == d);
        assert(delta_bytes(v)[2 * j] == i16_be(d)[0]);
        assert(delta_bytes(v)[2 * j + 1] == i16_be(d)[1]);
    }
}

/// The differences up to a coordinate add up to the coordinate, where they
/// stand at `start` in a record and every step fits 16 bits.
proof fn lemma_steps_add_up(record: Seq<u8>, start: int, v: Seq<int>, i: int)
    requires
        0 <= start,
        start + 2 * v.len() <= record.len(),
        record.subrange(start, start + 2 * v.len()) == delta_bytes(v),
        steps_fit(v),
        0 <= i < v.len(),
    ensures
        summed(record, start, i + 1) == v[i],
    decreases i,
{
    lemma_delta_bytes_len(v);
    lemma_delta_bytes_hold(v, i);
    let part = record.subrange(start, start + 2 * v.len());
    assert(part[2 * i] == record[start + 2 * i]);
    assert(part[2 * i + 1] == record[start + 2 * i + 1]);
    assert(i16_at(record, start + 2 * i) == step(v, i));
    if i > 0 {
        lemma_steps_add_up(record, start, v, i - 1);
    } else {
        assert(summed(record, start, 0) == 0);
    }
}

/// What was written can be read back: a record that was built from a path
/// holds the contour ends of the path, and for each point of the path, in
/// order, its coordinates and whether it lies on the curve.
///
/// This holds of a path with at least one point and no more points and
/// contours than the 16 bits of their fields count, whose points lie no
/// further from one another on either axis than a 16-bit difference reaches.
pub proof fn lemma_record_reads_back(cmds: Seq<SvgCmd>)
    requires
        0 < all_points(cmds).len() <= 0x1_0000,
        contour_ends(cmds).len() < 0x8000,
        steps_fit(xs(all_points(cmds))),
        steps_fit(ys(all_points(cmds))),
    ensures
        record_contours(glyf_glyph_bytes(cmds)) == contour_ends(cmds).len(),
        forall|k: int|
            0 <= k < contour_ends(cmds).len() ==> record_end(glyf_glyph_bytes(cmds), k)
                == #[trigger] contour_ends(cmds)[k],
        record_points(glyf_glyph_bytes(cmds)) == all_points(cmds).len(),
        forall|i: int|
            0 <= i < all_points(cmds).len() ==> {
                let p = #[trigger] all_points(cmds)[i];
                &&& record_x(glyf_glyph_bytes(cmds), i) == p.x
                &&& record_y(glyf_glyph_bytes(cmds), i) == p.y
                &&& record_on_curve(glyf_glyph_bytes(cmds), i) == p.on_curve
            },
{
    let points = all_points(cmds);
    let ends = contour_ends(cmds);
    let record = glyf_glyph_bytes(cmds);
    let n = points.len() as int;
    let m = ends.len() as int;
    let header = i16_be(low_i16(m)) + i16_be(min_of(xs(points))) + i16_be(min_of(ys(points)))
        + i16_be(max_of(xs(points))) + i16_be(max_of(ys(points)));
    lemma_ends_are_point_indices(cmds);
    lemma_open_points_bound(cmds);
    lemma_ends_bytes_len(ends);
    lemma_delta_bytes_len(xs(points));
    lemma_delta_bytes_len(ys(points));
    assert(header.len() == 10);
    assert(record == header + ends_bytes(ends) + u16_be(0) + flag_bytes(points) + delta_bytes(
        xs(points),
    ) + delta_bytes(ys(points)));
    assert(record.len() == 12 + 2 * m + 5 * n);
    assert(m > 0 && ends.last() == n - 1);
    assert(record[0] == i16_be(low_i16(m))[0] && record[1] == i16_be(low_i16(m))[1]);
    assert(record_contours(record) == m);
    assert forall|k: int| 0 <= k < m implies record_end(record, k) == #[trigger] ends[k] by {
        lemma_ends_bytes_hold(ends, k);
        assert(record[10 + 2 * k] == ends_bytes(ends)[2 * k]);
        assert(record[10 + 2 * k + 1] == ends_bytes(ends)[2 * k + 1]);
        if k < closed_ends(cmds).len() {
            assert(ends[k] == closed_ends(cmds)[k]);
        }
    }
    assert(ends[m - 1] == ends.last());
    assert(record_points(record) == n);
    assert(record[10 + 2 * m] == u16_be(0)[0] && record[10 + 2 * m + 1] == u16_be(0)[1]);
    assert(record_flags_start(record) == 12 + 2 * m);
    let x_start = 12 + 2 * m + n;
    let y_start = 12 + 2 * m + 3 * n;
    assert(record.subrange(x_start, x_start + 2 * n) =~= delta_bytes(xs(points)));
    assert(record.subrange(y_start, y_start + 2 * n) =~= delta_bytes(ys(points)));
    assert forall|i: int| 0 <= i < n implies {
        let p = #[trigger] points[i];
        &&& record_x(record, i) == p.x
        &&& record_y(record, i) == p.y
        &&& record_on_curve(record, i) == p.on_curve
    } by {
        lemma_steps_add_up(record, x_start, xs(points), i);
        lemma_steps_add_up(record, y_start, ys(points), i);
        assert(record[12 + 2 * m + i] == flag_bytes(points)[i]);
    }
}

} // verus!
