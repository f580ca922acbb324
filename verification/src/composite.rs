//! The component records of a composite glyph in `glyf`.
//!
//! Behind the ten bytes of the glyph header stands one record per
//! component: flags, the glyph that is placed, two arguments (16 bits each,
//! or 8), and a transform of 0, 2, 4 or 8 bytes. A flag says whether another
//! record follows; behind the last one the glyph may hold instructions.

use vstd::prelude::*;
use crate::bytes::{
    i16_at, i16_be, i8_byte, i8_of, push_i16_be, push_i8, push_u16_be, read_i16, read_i8, read_u16,
    u16_at, u16_be,
};
use crate::error::FontError;
use crate::float_bits::{
    fits_i8, from_i16, in_i8_range, is_whole, lemma_i8_range_rounds_inside,
    lemma_whole_round_trip, round_to_i16, rounded_i16, whole_bits,
};
use crate::outline_data::{ComponentOffset, CompositeOffsetUpdate};

verus! {

/// The arguments are 16 bits each, not 8.
pub const ARG_1_AND_2_ARE_WORDS: u16 = 0x0001;

/// The arguments are an offset, not a pair of point numbers.
pub const ARGS_ARE_XY_VALUES: u16 = 0x0002;

/// The transform is one scale.
pub const WE_HAVE_A_SCALE: u16 = 0x0008;

/// Another component follows.
pub const MORE_COMPONENTS: u16 = 0x0020;

/// The transform is one scale for each axis.
pub const WE_HAVE_AN_X_AND_Y_SCALE: u16 = 0x0040;

/// The transform is a two by two matrix.
pub const WE_HAVE_A_TWO_BY_TWO: u16 = 0x0080;

/// The length of the glyph header that stands before the first component.
pub const GLYPH_HEADER_LEN: usize = 10;

/// How many bytes the two arguments take.
pub open spec fn args_len(flags: u16) -> int {
    if flags & ARG_1_AND_2_ARE_WORDS != 0 {
        4
    } else {
        2
    }
}

/// How many bytes the transform takes.
pub open spec fn transform_len(flags: u16) -> int {
    if flags & WE_HAVE_A_TWO_BY_TWO != 0 {
        8
    } else if flags & WE_HAVE_AN_X_AND_Y_SCALE != 0 {
        4
    } else if flags & WE_HAVE_A_SCALE != 0 {
        2
    } else {
        0
    }
}

/// The flags of the component that starts at `pos`.
pub open spec fn flags_at(data: Seq<u8>, pos: int) -> u16 {
    u16_at(data, pos) as u16
}

/// The offset of the component that starts at `pos`: its two arguments, or
/// (0, 0) where the arguments are point numbers.
pub open spec fn offset_at(data: Seq<u8>, pos: int) -> (int, int) {
    let flags = flags_at(data, pos);
    if flags & ARGS_ARE_XY_VALUES == 0 {
        (0, 0)
    } else if flags & ARG_1_AND_2_ARE_WORDS != 0 {
        (i16_at(data, pos + 4), i16_at(data, pos + 6))
    } else {
        (i8_of(data[pos + 4]), i8_of(data[pos + 5]))
    }
}

/// Where the component that starts at `pos` ends.
pub open spec fn component_end(data: Seq<u8>, pos: int) -> int {
    pos + 4 + args_len(flags_at(data, pos)) + transform_len(flags_at(data, pos))
}

/// What a component record says: its flags, the glyph, and the offset of
/// the glyph in font units.
pub ghost struct Component {
    pub flags: u16,
    pub glyph_id: int,
    pub x: int,
    pub y: int,
}

/// The component that starts at `pos`.
pub open spec fn component_at(data: Seq<u8>, pos: int) -> Component {
    Component {
        flags: flags_at(data, pos),
        glyph_id: u16_at(data, pos + 2),
        x: offset_at(data, pos).0,
        y: offset_at(data, pos).1,
    }
}

/// The component that is due at `pos` is whole: the data holds its flags,
/// its glyph, its arguments and its transform.
pub open spec fn is_whole_component(data: Seq<u8>, pos: int) -> bool {
    0 <= pos && pos + 4 <= data.len() && component_end(data, pos) <= data.len()
}

/// The components that a record stream holds from `pos` on, where one is
/// due: the one at `pos`, and as long as the flags announce another, the
/// next one. `None` where the data ends inside a component that is due, or
/// before it.
pub open spec fn components_from(data: Seq<u8>, pos: int) -> Option<Seq<Component>>
    decreases data.len() - pos,
{
    if !is_whole_component(data, pos) {
        None
    } else if flags_at(data, pos) & MORE_COMPONENTS == 0 {
        Some(seq![component_at(data, pos)])
    } else {
        match components_from(data, component_end(data, pos)) {
            Some(rest) => Some(seq![component_at(data, pos)] + rest),
            None => None,
        }
    }
}

/// The records of components as `parse_composite_components` hands them
/// out.
pub open spec fn describes_all(list: Seq<ComponentOffset>, components: Seq<Component>) -> bool {
    &&& list.len() == components.len()
    &&& forall|i: int| 0 <= i < list.len() ==> describes(#[trigger] list[i], components[i])
}

/// A stream of components holds at least one.
pub proof fn lemma_components_are_some(data: Seq<u8>, pos: int)
    requires
        components_from(data, pos) is Some,
    ensures
        components_from(data, pos)->0.len() >= 1,
        components_from(data, pos)->0[0] == component_at(data, pos),
{
}

/// The record of a component as `parse_composite_components` hands it out.
pub open spec fn describes(c: ComponentOffset, v: Component) -> bool {
    &&& c.glyph_id == v.glyph_id
    &&& c.x_offset == whole_bits(v.x)
    &&& c.y_offset == whole_bits(v.y)
    &&& c.outline is None
}

/// Reads the two arguments of the component at `pos` as an offset.
fn read_offset(data: &[u8], pos: usize, flags: u16) -> (r: (i16, i16))
    requires
        pos + 4 + args_len(flags) <= data.len(),
        flags == flags_at(data@, pos as int),
    ensures
        r.0 == offset_at(data@, pos as int).0,
        r.1 == offset_at(data@, pos as int).1,
{
    if flags & ARG_1_AND_2_ARE_WORDS != 0 {
        let x = read_i16(data, pos + 4);
        let y = read_i16(data, pos + 6);
        if flags & ARGS_ARE_XY_VALUES != 0 {
            (x, y)
        } else {
            (0, 0)
        }
    } else {
        let x = read_i8(data, pos + 4);
        let y = read_i8(data, pos + 5);
        if flags & ARGS_ARE_XY_VALUES != 0 {
            (x as i16, y as i16)
        } else {
            (0, 0)
        }
    }
}

/// The length of the transform that the flags announce.
fn transform_size(flags: u16) -> (n: usize)
    ensures
        n == transform_len(flags),
{
    if flags & WE_HAVE_A_TWO_BY_TWO != 0 {
        8
    } else if flags & WE_HAVE_AN_X_AND_Y_SCALE != 0 {
        4
    } else if flags & WE_HAVE_A_SCALE != 0 {
        2
    } else {
        0
    }
}

/// Reads the component records of a composite glyph: the glyph and the
/// offset of each component, in order. `data` starts behind the glyph
/// header, where the first component is due.
///
/// It fails, with `MalformedComposite`, exactly when the data ends inside
/// the flags, the glyph, the arguments or the transform of a component that
/// is due, or before it.
pub fn parse_composite_components(data: &[u8]) -> (r: Result<Vec<ComponentOffset>, FontError>)
    ensures
        match r {
            Ok(list) => components_from(data@, 0) is Some && describes_all(
                list@,
                components_from(data@, 0)->0,
            ),
            Err(e) => components_from(data@, 0) is None && e == FontError::MalformedComposite,
        },
{
    let mut components: Vec<ComponentOffset> = Vec::new();
    let mut pos: usize = 0;
    let ghost mut done: Seq<Component> = Seq::empty();
    loop
        invariant
            pos <= data.len(),
            describes_all(components@, done),
            components_from(data@, 0) == (match components_from(data@, pos as int) {
                Some(rest) => Some(done + rest),
                None => None,
            }),
        decreases data.len() - pos,
    {
        if data.len() - pos < 4 {
            return Err(FontError::MalformedComposite);
        }
        let flags = read_u16(data, pos);
        let glyph_id = read_u16(data, pos + 2);
        let wide: usize = if flags & ARG_1_AND_2_ARE_WORDS != 0 { 4 } else { 2 };
        let extra: usize = transform_size(flags);
        if data.len() - pos - 4 < wide + extra {
            return Err(FontError::MalformedComposite);
        }
        let (x, y) = read_offset(data, pos, flags);
        let ghost first = component_at(data@, pos as int);
        components.push(
            ComponentOffset {
                glyph_id: glyph_id as u32,
                x_offset: from_i16(x),
                y_offset: from_i16(y),
                outline: None,
            },
        );
        let ghost before = done;
        proof {
            done = done.push(first);
        }
        if flags & MORE_COMPONENTS == 0 {
            assert(before + seq![first] =~= done);
            return Ok(components);
        }
        proof {
            match components_from(data@, component_end(data@, pos as int)) {
                Some(rest) => {
                    assert(before + (seq![first] + rest) =~= done + rest);
                },
                None => {},
            }
        }
        pos = pos + 4 + wide + extra;
    }
}

/// The offset that component `index` is to have: the update at that place,
/// or the offset that the record holds where the updates have ended.
pub open spec fn new_offset(
    data: Seq<u8>,
    pos: int,
    updates: Seq<CompositeOffsetUpdate>,
    index: int,
) -> (u32, u32) {
    if 0 <= index < updates.len() {
        (updates[index].x_offset, updates[index].y_offset)
    } else {
        (whole_bits(offset_at(data, pos).0), whole_bits(offset_at(data, pos).1))
    }
}

/// The new offset needs 16 bits for an argument: one of its parts lies
/// outside -128 to 127.
pub open spec fn needs_words(offset: (u32, u32)) -> bool {
    !in_i8_range(offset.0) || !in_i8_range(offset.1)
}

/// The flags of a patched component: the arguments are an offset, and they
/// are 16 bits each exactly where the offset needs that. Nothing else
/// changes.
pub open spec fn patched_flags(flags: u16, words: bool) -> u16 {
    if words {
        flags | ARGS_ARE_XY_VALUES | ARG_1_AND_2_ARE_WORDS
    } else {
        (flags | ARGS_ARE_XY_VALUES) & !ARG_1_AND_2_ARE_WORDS
    }
}

/// The two arguments of a patched component: the offset rounded to the
/// nearest font unit, in the width that the flags announce.
pub open spec fn patched_args(offset: (u32, u32)) -> Seq<u8> {
    if needs_words(offset) {
        i16_be(rounded_i16(offset.0)) + i16_be(rounded_i16(offset.1))
    } else {
        seq![i8_byte(rounded_i16(offset.0)), i8_byte(rounded_i16(offset.1))]
    }
}

/// The patched record of the component at `pos`: new flags, the same glyph,
/// the new arguments, and the transform as it was.
pub open spec fn patched_component(
    data: Seq<u8>,
    pos: int,
    updates: Seq<CompositeOffsetUpdate>,
    index: int,
) -> Seq<u8> {
    let offset = new_offset(data, pos, updates, index);
    let flags = flags_at(data, pos);
    u16_be(patched_flags(flags, needs_words(offset)) as int) + data.subrange(pos + 2, pos + 4)
        + patched_args(offset) + data.subrange(pos + 4 + args_len(flags), component_end(data, pos))
}

/// The patched record stream from `pos` on, where a component is due and
/// `index` counts the components before `pos`. `None` where the data ends
/// inside a component that is due, or before it. Behind the last component
/// everything is kept.
pub open spec fn patched_from(
    data: Seq<u8>,
    pos: int,
    updates: Seq<CompositeOffsetUpdate>,
    index: int,
) -> Option<Seq<u8>>
    decreases data.len() - pos,
{
    if !is_whole_component(data, pos) {
        None
    } else if flags_at(data, pos) & MORE_COMPONENTS == 0 {
        Some(
            patched_component(data, pos, updates, index) + data.subrange(
                component_end(data, pos),
                data.len() as int,
            ),
        )
    } else {
        match patched_from(data, component_end(data, pos), updates, index + 1) {
            Some(rest) => Some(patched_component(data, pos, updates, index) + rest),
            None => None,
        }
    }
}

/// The composite glyph with new offsets: the header as it was, then the
/// patched records. `None` for a glyph that is shorter than its header, that
/// ends with it, or that is cut short inside a component.
pub open spec fn patched_glyph(data: Seq<u8>, updates: Seq<CompositeOffsetUpdate>) -> Option<
    Seq<u8>,
> {
    if data.len() < GLYPH_HEADER_LEN {
        None
    } else {
        match patched_from(data, GLYPH_HEADER_LEN as int, updates, 0) {
            Some(body) => Some(data.subrange(0, GLYPH_HEADER_LEN as int) + body),
            None => None,
        }
    }
}

/// Writes a composite glyph anew with other offsets for its components.
///
/// The updates go to the components by position; a component without an
/// update keeps its offset. Each component is written with flags that say
/// that its arguments are an offset, in 8 bits each where both parts of the
/// offset lie in -128 to 127 and in 16 bits each otherwise; the offset is
/// rounded to the nearest font unit. Glyph ids, transforms and what stands
/// behind the last component are kept byte for byte.
///
/// It fails, with `MalformedComposite`, exactly when the glyph is shorter
/// than its header or ends inside a component that is due, or before it:
/// exactly when its components cannot be read.
pub fn patch_composite_glyph_offsets(
    glyph_data: &[u8],
    updates: &[CompositeOffsetUpdate],
) -> (r: Result<Vec<u8>, FontError>)
    ensures
        match r {
            Ok(out) => patched_glyph(glyph_data@, updates@) == Some(out@),
            Err(e) => patched_glyph(glyph_data@, updates@) is None && e
                == FontError::MalformedComposite,
        },
{
    if glyph_data.len() < GLYPH_HEADER_LEN {
        return Err(FontError::MalformedComposite);
    }
    let mut output: Vec<u8> = Vec::new();
    output.extend_from_slice(&glyph_data[0..GLYPH_HEADER_LEN]);
    let ghost header = glyph_data@.subrange(0, GLYPH_HEADER_LEN as int);
    assert(output@ =~= header);
    let mut pos: usize = GLYPH_HEADER_LEN;
    let mut index: usize = 0;
    let ghost mut done: Seq<u8> = Seq::empty();
    assert(output@ =~= header + done);
    loop
        invariant
            GLYPH_HEADER_LEN <= pos <= glyph_data.len(),
            index <= pos,
            output@ == header + done,
            header == glyph_data@.subrange(0, GLYPH_HEADER_LEN as int),
            patched_from(glyph_data@, GLYPH_HEADER_LEN as int, updates@, 0) == (match patched_from(
                glyph_data@,
                pos as int,
                updates@,
                index as int,
            ) {
                Some(rest) => Some(done + rest),
                None => None,
            }),
        decreases glyph_data.len() - pos,
    {
        if glyph_data.len() - pos < 4 {
            return Err(FontError::MalformedComposite);
        }
        let flags = read_u16(glyph_data, pos);
        let wide: usize = if flags & ARG_1_AND_2_ARE_WORDS != 0 { 4 } else { 2 };
        let extra: usize = transform_size(flags);
        if glyph_data.len() - pos - 4 < wide + extra {
            return Err(FontError::MalformedComposite);
        }
        let end: usize = pos + 4 + wide + extra;
        push_patched_component(&mut output, glyph_data, pos, updates, index);
        let ghost record = patched_component(glyph_data@, pos as int, updates@, index as int);
        if flags & MORE_COMPONENTS == 0 {
            append_range(&mut output, glyph_data, end, glyph_data.len());
            assert(output@ =~= header + (done + (record + glyph_data@.subrange(
                end as int,
                glyph_data.len() as int,
            ))));
            return Ok(output);
        }
        proof {
            let rest = patched_from(glyph_data@, end as int, updates@, index + 1);
            if rest is Some {
                assert(done + (record + rest->0) =~= (done + record) + rest->0);
            }
            assert(output@ =~= header + (done + record));
            done = done + record;
        }
        pos = end;
        index = index + 1;
    }
}

/// Appends `data[from..to]`.
fn append_range(buf: &mut Vec<u8>, data: &[u8], from: usize, to: usize)
    requires
        from <= to <= data.len(),
    ensures
        final(buf)@ == old(buf)@ + data@.subrange(from as int, to as int),
{
    buf.extend_from_slice(&data[from..to]);
    assert(buf@ =~= old(buf)@ + data@.subrange(from as int, to as int));
}

/// Appends the two arguments of a patched component.
fn push_patched_args(output: &mut Vec<u8>, x: u32, y: u32)
    ensures
        final(output)@ == old(output)@ + patched_args((x, y)),
{
    if !fits_i8(x) || !fits_i8(y) {
        push_i16_be(output, round_to_i16(x));
        push_i16_be(output, round_to_i16(y));
        assert(output@ =~= old(output)@ + patched_args((x, y)));
    } else {
        proof {
            lemma_i8_range_rounds_inside(x);
            lemma_i8_range_rounds_inside(y);
        }
        push_i8(output, round_to_i16(x) as i8);
        push_i8(output, round_to_i16(y) as i8);
        assert(output@ =~= old(output)@ + patched_args((x, y)));
    }
}

/// The offset that component `index` is to have.
fn offset_for(data: &[u8], pos: usize, flags: u16, updates: &[CompositeOffsetUpdate], index: usize)
    -> (r: (u32, u32))
    requires
        pos + 4 + args_len(flags) <= data.len(),
        flags == flags_at(data@, pos as int),
    ensures
        r == new_offset(data@, pos as int, updates@, index as int),
{
    if index < updates.len() {
        (updates[index].x_offset, updates[index].y_offset)
    } else {
        let (x, y) = read_offset(data, pos, flags);
        (from_i16(x), from_i16(y))
    }
}

/// Appends the patched record of the component at `pos`.
fn push_patched_component(
    output: &mut Vec<u8>,
    data: &[u8],
    pos: usize,
    updates: &[CompositeOffsetUpdate],
    index: usize,
)
    requires
        pos + 4 <= data.len(),
        component_end(data@, pos as int) <= data.len(),
    ensures
        final(output)@ == old(output)@ + patched_component(
            data@,
            pos as int,
            updates@,
            index as int,
        ),
{
    let flags = read_u16(data, pos);
    let wide: usize = if flags & ARG_1_AND_2_ARE_WORDS != 0 { 4 } else { 2 };
    let end: usize = pos + 4 + wide + transform_size(flags);
    let (new_x, new_y) = offset_for(data, pos, flags, updates, index);
    let words = !fits_i8(new_x) || !fits_i8(new_y);
    let new_flags: u16 = if words {
        flags | ARGS_ARE_XY_VALUES | ARG_1_AND_2_ARE_WORDS
    } else {
        (flags | ARGS_ARE_XY_VALUES) & !ARG_1_AND_2_ARE_WORDS
    };
    let ghost a = u16_be(new_flags as int);
    let ghost b = data@.subrange(pos + 2, pos + 4);
    let ghost c = patched_args((new_x, new_y));
    let ghost d = data@.subrange(pos + 4 + wide, end as int);
    push_u16_be(output, new_flags);
    append_range(output, data, pos + 2, pos + 4);
    push_patched_args(output, new_x, new_y);
    append_range(output, data, pos + 4 + wide, end);
    assert(output@ == old(output)@ + a + b + c + d);
    assert(patched_component(data@, pos as int, updates@, index as int) == a + b + c + d);
    assert(old(output)@ + a + b + c + d =~= old(output)@ + (a + b + c + d));
}

/// The flags of a patched component say that its arguments are an offset,
/// and that they are 16 bits each exactly where the new offset needs that.
/// Every other flag is as it was, so the transform keeps its length and the
/// record stream ends where it ended.
pub proof fn lemma_patched_flags(flags: u16, words: bool)
    ensures
        patched_flags(flags, words) & ARGS_ARE_XY_VALUES != 0,
        (patched_flags(flags, words) & ARG_1_AND_2_ARE_WORDS != 0) == words,
        patched_flags(flags, words) & !3u16 == flags & !3u16,
        transform_len(patched_flags(flags, words)) == transform_len(flags),
        (patched_flags(flags, words) & MORE_COMPONENTS == 0) == (flags & MORE_COMPONENTS == 0),
        args_len(patched_flags(flags, words)) == (if words { 4int } else { 2int }),
{
    let with = flags | 0x0002u16 | 0x0001u16;
    let without = (flags | 0x0002u16) & !0x0001u16;
    assert(with & 0x0002 != 0 && with & 0x0001 != 0 && with & !3u16 == flags & !3u16 && with
        & 0x0080 == flags & 0x0080 && with & 0x0040 == flags & 0x0040 && with & 0x0008 == flags
        & 0x0008 && with & 0x0020 == flags & 0x0020) by (bit_vector)
        requires
            with == flags | 0x0002u16 | 0x0001u16,
    ;
    assert(without & 0x0002 != 0 && without & 0x0001 == 0 && without & !3u16 == flags & !3u16
        && without & 0x0080 == flags & 0x0080 && without & 0x0040 == flags & 0x0040 && without
        & 0x0008 == flags & 0x0008 && without & 0x0020 == flags & 0x0020) by (bit_vector)
        requires
            without == (flags | 0x0002u16) & !0x0001u16,
    ;
}

/// The offset that a component is to have where `index` is its place among
/// the components: the update at that place, or its own offset where the
/// updates have ended.
pub open spec fn target_of(c: Component, updates: Seq<CompositeOffsetUpdate>, index: int) -> (
    u32,
    u32,
) {
    if 0 <= index < updates.len() {
        (updates[index].x_offset, updates[index].y_offset)
    } else {
        (whole_bits(c.x), whole_bits(c.y))
    }
}

/// A component after the patch: its glyph as it was, the offset rounded to
/// the nearest font unit, and flags that say that the arguments are an
/// offset, in 16 bits each exactly where the offset needs that.
pub open spec fn patched_to(c: Component, target: (u32, u32)) -> Component {
    Component {
        flags: patched_flags(c.flags, needs_words(target)),
        glyph_id: c.glyph_id,
        x: rounded_i16(target.0),
        y: rounded_i16(target.1),
    }
}

/// A composite glyph can be patched exactly when its components can be
/// read.
pub proof fn lemma_patch_follows_parse(
    data: Seq<u8>,
    pos: int,
    updates: Seq<CompositeOffsetUpdate>,
    index: int,
)
    ensures
        patched_from(data, pos, updates, index) is Some <==> components_from(data, pos) is Some,
    decreases data.len() - pos,
{
    if is_whole_component(data, pos) && flags_at(data, pos) & MORE_COMPONENTS != 0 {
        lemma_patch_follows_parse(data, component_end(data, pos), updates, index + 1);
    }
}

/// What stands behind a prefix is read as if the prefix were not there.
proof fn lemma_components_behind_prefix(prefix: Seq<u8>, data: Seq<u8>, pos: int)
    requires
        0 <= pos,
    ensures
        components_from(prefix + data, prefix.len() + pos) == components_from(data, pos),
    decreases data.len() - pos,
{
    let whole = prefix + data;
    let at = prefix.len() + pos;
    if pos + 4 <= data.len() {
        assert(whole[at] == data[pos]);
        assert(whole[at + 1] == data[pos + 1]);
        assert(whole[at + 2] == data[pos + 2]);
        assert(whole[at + 3] == data[pos + 3]);
        let flags = flags_at(data, pos);
        assert(flags_at(whole, at) == flags);
        assert(component_end(whole, at) == prefix.len() + component_end(data, pos));
        if component_end(data, pos) <= data.len() {
            assert(whole[at + 4] == data[pos + 4]);
            assert(whole[at + 5] == data[pos + 5]);
            if args_len(flags) == 4 {
                assert(whole[at + 6] == data[pos + 6]);
                assert(whole[at + 7] == data[pos + 7]);
            }
            assert(component_at(whole, at) == component_at(data, pos));
            if flags & MORE_COMPONENTS != 0 {
                lemma_components_behind_prefix(prefix, data, component_end(data, pos));
            }
        }
    }
}

/// What stands behind a stream of components does not change what is read.
pub proof fn lemma_components_before_suffix(data: Seq<u8>, suffix: Seq<u8>, pos: int)
    requires
        components_from(data, pos) is Some,
    ensures
        components_from(data + suffix, pos) == components_from(data, pos),
    decreases data.len() - pos,
{
    let whole = data + suffix;
    assert(whole[pos] == data[pos] && whole[pos + 1] == data[pos + 1]);
    assert(whole[pos + 2] == data[pos + 2] && whole[pos + 3] == data[pos + 3]);
    let flags = flags_at(data, pos);
    assert(flags_at(whole, pos) == flags);
    assert(whole[pos + 4] == data[pos + 4] && whole[pos + 5] == data[pos + 5]);
    if args_len(flags) == 4 {
        assert(whole[pos + 6] == data[pos + 6] && whole[pos + 7] == data[pos + 7]);
    }
    assert(component_at(whole, pos) == component_at(data, pos));
    if flags & MORE_COMPONENTS != 0 {
        lemma_components_before_suffix(data, suffix, component_end(data, pos));
    }
}

/// The first component of a patched stream is the patched first component.
proof fn lemma_patched_component_reads_back(
    data: Seq<u8>,
    pos: int,
    updates: Seq<CompositeOffsetUpdate>,
    index: int,
    rest: Seq<u8>,
)
    requires
        is_whole_component(data, pos),
    ensures
        ({
            let record = patched_component(data, pos, updates, index);
            let out = record + rest;
            let c = component_at(data, pos);
            &&& record.len() == component_end(out, 0)
            &&& record.len() >= 6
            &&& is_whole_component(out, 0)
            &&& new_offset(data, pos, updates, index) == target_of(c, updates, index)
            &&& component_at(out, 0) == patched_to(c, target_of(c, updates, index))
        }),
{
    let flags = flags_at(data, pos);
    let target = new_offset(data, pos, updates, index);
    let words = needs_words(target);
    let new_flags = patched_flags(flags, words);
    let record = patched_component(data, pos, updates, index);
    let out = record + rest;
    let a = u16_be(new_flags as int);
    let b = data.subrange(pos + 2, pos + 4);
    let c = patched_args(target);
    let d = data.subrange(pos + 4 + args_len(flags), component_end(data, pos));
    lemma_patched_flags(flags, words);
    assert(record =~= a + b + c + d);
    assert(out[0] == a[0] && out[1] == a[1]);
    assert(out[2] == b[0] && out[3] == b[1]);
    assert(flags_at(out, 0) == new_flags);
    let x = rounded_i16(target.0);
    let y = rounded_i16(target.1);
    if words {
        assert(c.len() == 4);
        assert(out[4] == i16_be(x)[0] && out[5] == i16_be(x)[1]);
        assert(out[6] == i16_be(y)[0] && out[7] == i16_be(y)[1]);
        assert(i16_at(out, 4) == x);
        assert(i16_at(out, 6) == y);
    } else {
        lemma_i8_range_rounds_inside(target.0);
        lemma_i8_range_rounds_inside(target.1);
        assert(c.len() == 2);
        assert(out[4] == i8_byte(x) && out[5] == i8_byte(y));
    }
}

/// The components of a patched stream are the components that were there,
/// each patched to the offset that it was to have.
pub open spec fn patched_all(
    after: Seq<Component>,
    before: Seq<Component>,
    updates: Seq<CompositeOffsetUpdate>,
    index: int,
) -> bool {
    &&& after.len() == before.len()
    &&& forall|i: int|
        0 <= i < before.len() ==> (#[trigger] after[i]) == patched_to(
            before[i],
            target_of(before[i], updates, index + i),
        )
}

/// Reading a patched record stream gives the components that were there,
/// each with its glyph, with the offset that it was to have, rounded to the
/// nearest font unit, and with the flags that this offset asks for.
pub proof fn lemma_patch_reads_back(
    data: Seq<u8>,
    pos: int,
    updates: Seq<CompositeOffsetUpdate>,
    index: int,
)
    requires
        patched_from(data, pos, updates, index) is Some,
    ensures
        components_from(data, pos) is Some,
        components_from(patched_from(data, pos, updates, index)->0, 0) is Some,
        patched_all(
            components_from(patched_from(data, pos, updates, index)->0, 0)->0,
            components_from(data, pos)->0,
            updates,
            index,
        ),
    decreases data.len() - pos,
{
    let out = patched_from(data, pos, updates, index)->0;
    let flags = flags_at(data, pos);
    let end = component_end(data, pos);
    let record = patched_component(data, pos, updates, index);
    let c = component_at(data, pos);
    let first = patched_to(c, target_of(c, updates, index));
    lemma_patch_follows_parse(data, pos, updates, index);
    lemma_patched_flags(flags, needs_words(new_offset(data, pos, updates, index)));
    if flags & MORE_COMPONENTS == 0 {
        let rest = data.subrange(end, data.len() as int);
        lemma_patched_component_reads_back(data, pos, updates, index, rest);
        assert(components_from(out, 0) == Some(seq![first]));
    } else {
        let rest = patched_from(data, end, updates, index + 1)->0;
        lemma_patched_component_reads_back(data, pos, updates, index, rest);
        lemma_patch_reads_back(data, end, updates, index + 1);
        lemma_components_behind_prefix(record, rest, 0);
        let tail_after = components_from(rest, 0)->0;
        let tail_before = components_from(data, end)->0;
        let after = components_from(out, 0)->0;
        let before = components_from(data, pos)->0;
        assert(components_from(out, 0) == Some(seq![first] + tail_after));
        assert(before == seq![c] + tail_before);
        assert forall|i: int| 0 <= i < before.len() implies (#[trigger] after[i]) == patched_to(
            before[i],
            target_of(before[i], updates, index + i),
        ) by {
            if i > 0 {
                assert(after[i] == tail_after[i - 1]);
                assert(before[i] == tail_before[i - 1]);
            }
        }
    }
}

/// The records of a glyph: what stands behind its header.
pub open spec fn records_of(glyph: Seq<u8>) -> Seq<u8> {
    glyph.subrange(GLYPH_HEADER_LEN as int, glyph.len() as int)
}

/// Reading a patched composite glyph gives the header that the glyph had
/// and its components, each with its glyph, with the offset that it was to
/// have, rounded to the nearest font unit, and with flags that say that the
/// arguments are an offset, in 16 bits each exactly where one part of the
/// offset lies outside -128 to 127.
pub proof fn lemma_patched_glyph_reads_back(glyph: Seq<u8>, updates: Seq<CompositeOffsetUpdate>)
    requires
        patched_glyph(glyph, updates) is Some,
    ensures
        ({
            let start = GLYPH_HEADER_LEN as int;
            let out = patched_glyph(glyph, updates)->0;
            &&& out.len() >= start
            &&& out.subrange(0, start) == glyph.subrange(0, start)
            &&& components_from(records_of(glyph), 0) matches Some(before)
            &&& components_from(records_of(out), 0) matches Some(after)
            &&& patched_all(after, before, updates, 0)
            &&& forall|i: int|
                0 <= i < after.len() ==> {
                    let target = target_of(before[i], updates, i);
                    &&& (#[trigger] after[i]).flags & ARGS_ARE_XY_VALUES != 0
                    &&& (after[i].flags & ARG_1_AND_2_ARE_WORDS != 0) == needs_words(target)
                    &&& after[i].glyph_id == before[i].glyph_id
                    &&& after[i].x == rounded_i16(target.0)
                    &&& after[i].y == rounded_i16(target.1)
                }
        }),
{
    let start = GLYPH_HEADER_LEN as int;
    let header = glyph.subrange(0, start);
    let body = patched_from(glyph, start, updates, 0)->0;
    lemma_patch_reads_back(glyph, start, updates, 0);
    assert((header + body).subrange(0, start) =~= header);
    assert(records_of(header + body) =~= body);
    assert(header + records_of(glyph) =~= glyph);
    lemma_components_behind_prefix(header, records_of(glyph), 0);
    let before = components_from(records_of(glyph), 0)->0;
    let after = components_from(body, 0)->0;
    assert forall|i: int| 0 <= i < after.len() implies {
        let target = target_of(before[i], updates, i);
        &&& (#[trigger] after[i]).flags & ARGS_ARE_XY_VALUES != 0
        &&& (after[i].flags & ARG_1_AND_2_ARE_WORDS != 0) == needs_words(target)
    } by {
        lemma_patched_flags(before[i].flags, needs_words(target_of(before[i], updates, i)));
    }
}

/// The stream from `pos` on is whole, each of its components holds an
/// offset in the width that the offset needs, and the updates from `index`
/// on are the offsets that the components hold.
pub open spec fn holds_offsets(
    data: Seq<u8>,
    pos: int,
    updates: Seq<CompositeOffsetUpdate>,
    index: int,
) -> bool
    decreases data.len() - pos,
{
    let flags = flags_at(data, pos);
    &&& 0 <= pos
    &&& pos + 4 <= data.len()
    &&& component_end(data, pos) <= data.len()
    &&& 0 <= index < updates.len()
    &&& is_whole(updates[index].x_offset, offset_at(data, pos).0)
    &&& is_whole(updates[index].y_offset, offset_at(data, pos).1)
    &&& flags & ARGS_ARE_XY_VALUES != 0
    &&& (flags & ARG_1_AND_2_ARE_WORDS != 0) == needs_words(
        (updates[index].x_offset, updates[index].y_offset),
    )
    &&& (flags & MORE_COMPONENTS != 0 ==> holds_offsets(
        data,
        component_end(data, pos),
        updates,
        index + 1,
    ))
}

/// Two bytes are the big-endian bytes of the number that they hold.
proof fn lemma_bytes_are_their_number(data: Seq<u8>, pos: int)
    requires
        0 <= pos,
        pos + 2 <= data.len(),
    ensures
        u16_be(u16_at(data, pos)) == data.subrange(pos, pos + 2),
        i16_be(i16_at(data, pos)) == data.subrange(pos, pos + 2),
{
    assert(u16_be(u16_at(data, pos)) =~= data.subrange(pos, pos + 2));
    assert(i16_be(i16_at(data, pos)) =~= data.subrange(pos, pos + 2));
}

/// Writing back the offsets that a composite glyph holds changes nothing,
/// where the glyph holds each offset in the width that the offset needs: in
/// 8 bits each where both parts lie in -128 to 127, in 16 bits each
/// otherwise.
pub proof fn lemma_same_offsets_change_nothing(
    data: Seq<u8>,
    pos: int,
    updates: Seq<CompositeOffsetUpdate>,
    index: int,
)
    requires
        holds_offsets(data, pos, updates, index),
    ensures
        patched_from(data, pos, updates, index) == Some(data.subrange(pos, data.len() as int)),
    decreases data.len() - pos,
{
    let flags = flags_at(data, pos);
    let end = component_end(data, pos);
    let target = (updates[index].x_offset, updates[index].y_offset);
    let words = needs_words(target);
    let x = offset_at(data, pos).0;
    let y = offset_at(data, pos).1;
    assert(new_offset(data, pos, updates, index) == target);
    assert(patched_flags(flags, words) == flags) by {
        assert(flags & 0x0002 != 0 && flags & 0x0001 != 0 ==> (flags | 0x0002u16 | 0x0001u16)
            == flags) by (bit_vector);
        assert(flags & 0x0002 != 0 && flags & 0x0001 == 0 ==> ((flags | 0x0002u16)
            & !0x0001u16) == flags) by (bit_vector);
    }
    lemma_whole_round_trip(target.0, x);
    lemma_whole_round_trip(target.1, y);
    lemma_bytes_are_their_number(data, pos);
    if words {
        lemma_bytes_are_their_number(data, pos + 4);
        lemma_bytes_are_their_number(data, pos + 6);
        assert(patched_args(target) =~= data.subrange(pos + 4, pos + 8));
    } else {
        assert(i8_byte(i8_of(data[pos + 4])) == data[pos + 4]);
        assert(i8_byte(i8_of(data[pos + 5])) == data[pos + 5]);
        assert(patched_args(target) =~= data.subrange(pos + 4, pos + 6));
    }
    let record = patched_component(data, pos, updates, index);
    assert(record =~= data.subrange(pos, end));
    if flags & MORE_COMPONENTS != 0 {
        lemma_same_offsets_change_nothing(data, end, updates, index + 1);
        assert(record + data.subrange(end, data.len() as int) =~= data.subrange(
            pos,
            data.len() as int,
        ));
    } else {
        assert(record + data.subrange(end, data.len() as int) =~= data.subrange(
            pos,
            data.len() as int,
        ));
    }
}

} // verus!
