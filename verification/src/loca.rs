//! The `loca` table and the rebuild of `glyf` with `loca` in step.
//!
//! `loca` holds one offset into `glyf` per glyph and one more that marks the
//! end. The short format stores each offset halved in 16 bits, the long
//! format stores it as it is in 32 bits.

use vstd::prelude::*;
use crate::bytes::{
    lemma_u16_be_round_trip, lemma_u32_be_round_trip, push_u16_be, push_u32_be, read_u16, read_u32,
    u16_at, u16_be, u32_at, u32_be, zeros,
};
use crate::error::FontError;

verus! {

/// The offset that entry `i` of a `loca` table stands for. An entry that the
/// table is too short to hold counts as 0.
pub open spec fn loca_entry(loca: Seq<u8>, i: int, is_long: bool) -> int {
    if is_long {
        if 4 * i + 4 <= loca.len() {
            u32_at(loca, 4 * i)
        } else {
            0
        }
    } else {
        if 2 * i + 2 <= loca.len() {
            2 * u16_at(loca, 2 * i)
        } else {
            0
        }
    }
}

/// Decodes the first `n_plus_one` entries of a `loca` table.
pub fn parse_loca_offsets(loca: &[u8], n_plus_one: usize, is_long: bool) -> (offsets: Vec<u32>)
    ensures
        offsets.len() == n_plus_one,
        forall|i: int|
            0 <= i < n_plus_one ==> (#[trigger] offsets[i]) == loca_entry(loca@, i, is_long),
{
    let mut v: Vec<u32> = Vec::new();
    let width: usize = if is_long { 4 } else { 2 };
    let held: usize = loca.len() / width;
    let mut i: usize = 0;
    while i < n_plus_one
        invariant
            i <= n_plus_one,
            v.len() == i,
            width == (if is_long { 4usize } else { 2usize }),
            held == loca.len() / width,
            forall|k: int| 0 <= k < i ==> (#[trigger] v[k]) == loca_entry(loca@, k, is_long),
        decreases n_plus_one - i,
    {
        if i < held {
            if is_long {
                v.push(read_u32(loca, i * 4));
            } else {
                let half: u32 = read_u16(loca, i * 2) as u32;
                v.push(half * 2);
            }
        } else {
            v.push(0);
        }
        i += 1;
    }
    v
}

/// One edit of a `glyf` table: the table and its offsets as they are, and the
/// record that glyph `glyph_id` is to have.
pub ghost struct GlyfEdit {
    pub glyf: Seq<u8>,
    pub offsets: Seq<u32>,
    pub glyph_id: int,
    pub new_glyph: Seq<u8>,
}

/// The record of glyph `i` after the edit, before padding: the new record for
/// the edited glyph, the old bytes for a glyph that `offsets` bounds inside
/// `glyf`, and nothing for any other.
pub open spec fn glyph_record(e: GlyfEdit, i: int) -> Seq<u8> {
    if i == e.glyph_id {
        e.new_glyph
    } else if 0 <= i && i + 1 < e.offsets.len() && e.offsets[i] < e.offsets[i + 1] && e.offsets[i
        + 1] <= e.glyf.len() {
        e.glyf.subrange(e.offsets[i] as int, e.offsets[i + 1] as int)
    } else {
        Seq::empty()
    }
}

/// `s` followed by as many zero bytes as bring its length to a multiple of 4.
pub open spec fn pad4(s: Seq<u8>) -> Seq<u8> {
    s + zeros(((4 - s.len() % 4) % 4) as nat)
}

/// The new `glyf` table up to and without glyph `n`: the padded records of
/// the glyphs before it, in order.
pub open spec fn rebuilt_glyf(e: GlyfEdit, n: nat) -> Seq<u8>
    decreases n,
{
    if n == 0 {
        Seq::empty()
    } else {
        pad4(rebuilt_glyf(e, (n - 1) as nat) + glyph_record(e, n - 1))
    }
}

/// The bytes of one `loca` entry.
pub open spec fn loca_entry_bytes(offset: int, is_long: bool) -> Seq<u8> {
    if is_long {
        u32_be(offset)
    } else {
        u16_be(offset / 2)
    }
}

/// The first `n` entries of the new `loca` table: entry `i` is where glyph
/// `i` starts in the new `glyf`.
pub open spec fn rebuilt_loca(e: GlyfEdit, is_long: bool, n: nat) -> Seq<u8>
    decreases n,
{
    if n == 0 {
        Seq::empty()
    } else {
        rebuilt_loca(e, is_long, (n - 1) as nat) + loca_entry_bytes(
            rebuilt_glyf(e, (n - 1) as nat).len() as int,
            is_long,
        )
    }
}

/// The largest offset that a `loca` table of the given format can hold.
pub open spec fn loca_limit(is_long: bool) -> int {
    if is_long {
        0xFFFF_FFFF
    } else {
        0x1_FFFE
    }
}

/// Every glyph of the new `glyf` starts at a multiple of 4.
pub proof fn lemma_rebuilt_glyf_aligned(e: GlyfEdit, n: nat)
    ensures
        rebuilt_glyf(e, n).len() % 4 == 0,
    decreases n,
{
    if n > 0 {
        lemma_rebuilt_glyf_aligned(e, (n - 1) as nat);
    }
}

/// The new `glyf` grows with each glyph: a later glyph starts no earlier.
pub proof fn lemma_rebuilt_glyf_monotonic(e: GlyfEdit, i: nat, j: nat)
    requires
        i <= j,
    ensures
        rebuilt_glyf(e, i).len() <= rebuilt_glyf(e, j).len(),
    decreases j,
{
    if i < j {
        lemma_rebuilt_glyf_monotonic(e, i, (j - 1) as nat);
    }
}

/// The new `glyf` holds the record of glyph `i` unchanged at the offset that
/// the new `loca` gives for it, and `rebuilt_glyf(e, n)` keeps it for every
/// later `n`.
pub proof fn lemma_rebuilt_glyf_holds_record(e: GlyfEdit, i: nat, n: nat)
    requires
        i < n,
    ensures
        rebuilt_glyf(e, i).len() + glyph_record(e, i as int).len() <= rebuilt_glyf(e, n).len(),
        rebuilt_glyf(e, n).subrange(
            rebuilt_glyf(e, i).len() as int,
            (rebuilt_glyf(e, i).len() + glyph_record(e, i as int).len()) as int,
        ) == glyph_record(e, i as int),
    decreases n,
{
    let start = rebuilt_glyf(e, i).len() as int;
    let rec = glyph_record(e, i as int);
    if n == i + 1 {
        assert(rebuilt_glyf(e, n).subrange(start, start + rec.len()) =~= rec);
    } else {
        lemma_rebuilt_glyf_holds_record(e, i, (n - 1) as nat);
        let prev = rebuilt_glyf(e, (n - 1) as nat);
        assert(rebuilt_glyf(e, n).subrange(start, start + rec.len()) =~= prev.subrange(
            start,
            start + rec.len(),
        ));
    }
}

/// The length of the first `n` entries of the new `loca`.
pub proof fn lemma_rebuilt_loca_len(e: GlyfEdit, is_long: bool, n: nat)
    ensures
        rebuilt_loca(e, is_long, n).len() == (if is_long { 4 * n } else { 2 * n }),
    decreases n,
{
    if n > 0 {
        lemma_rebuilt_loca_len(e, is_long, (n - 1) as nat);
    }
}

/// Decoding entry `i` of the new `loca` gives the start of glyph `i` in the
/// new `glyf`, as long as that start fits the format.
pub proof fn lemma_rebuilt_loca_decodes(e: GlyfEdit, is_long: bool, n: nat, i: nat)
    requires
        i < n,
        rebuilt_glyf(e, i).len() <= loca_limit(is_long),
    ensures
        loca_entry(rebuilt_loca(e, is_long, n), i as int, is_long) == rebuilt_glyf(e, i).len(),
    decreases n,
{
    let off = rebuilt_glyf(e, i).len() as int;
    let k = i as int;
    lemma_rebuilt_loca_len(e, is_long, n);
    lemma_rebuilt_loca_len(e, is_long, (n - 1) as nat);
    let head = rebuilt_loca(e, is_long, (n - 1) as nat);
    let whole = rebuilt_loca(e, is_long, n);
    if i + 1 == n {
        lemma_rebuilt_glyf_aligned(e, i);
        if is_long {
            lemma_u32_be_round_trip(head, off);
        } else {
            lemma_u16_be_round_trip(head, off / 2);
        }
    } else {
        lemma_rebuilt_loca_decodes(e, is_long, (n - 1) as nat, i);
        if is_long {
            assert(whole[4 * k] == head[4 * k]);
            assert(whole[4 * k + 1] == head[4 * k + 1]);
            assert(whole[4 * k + 2] == head[4 * k + 2]);
            assert(whole[4 * k + 3] == head[4 * k + 3]);
        } else {
            assert(whole[2 * k] == head[2 * k]);
            assert(whole[2 * k + 1] == head[2 * k + 1]);
        }
    }
}

/// Of the rebuilt `loca` of a font with `n` glyphs, as a reader decodes it:
/// every entry is a multiple of 4, and no entry is smaller than the one
/// before it.
pub proof fn lemma_rebuilt_loca_is_padded_and_monotonic(e: GlyfEdit, is_long: bool, n: nat)
    requires
        rebuilt_glyf(e, n).len() <= loca_limit(is_long),
    ensures
        forall|i: int|
            0 <= i <= n ==> (#[trigger] loca_entry(
                rebuilt_loca(e, is_long, n + 1),
                i,
                is_long,
            )) % 4 == 0,
        forall|i: int, j: int|
            #![trigger
                loca_entry(rebuilt_loca(e, is_long, n + 1), i, is_long),
                loca_entry(rebuilt_loca(e, is_long, n + 1), j, is_long)
            ]
            0 <= i <= j <= n ==> loca_entry(rebuilt_loca(e, is_long, n + 1), i, is_long)
                <= loca_entry(rebuilt_loca(e, is_long, n + 1), j, is_long),
{
    let loca = rebuilt_loca(e, is_long, n + 1);
    assert forall|i: int| 0 <= i <= n implies loca_entry(loca, i, is_long) == rebuilt_glyf(
        e,
        i as nat,
    ).len() && rebuilt_glyf(e, i as nat).len() % 4 == 0 by {
        lemma_rebuilt_glyf_monotonic(e, i as nat, n);
        lemma_rebuilt_loca_decodes(e, is_long, n + 1, i as nat);
        lemma_rebuilt_glyf_aligned(e, i as nat);
    }
    assert forall|i: int, j: int| 0 <= i <= j <= n implies #[trigger] loca_entry(loca, i, is_long)
        <= #[trigger] loca_entry(loca, j, is_long) by {
        lemma_rebuilt_glyf_monotonic(e, i as nat, j as nat);
    }
}

/// A `loca` table fits a font of `count` glyphs and a `glyf` table of the
/// given length: it has one entry for each glyph and one more, every entry
/// is a multiple of 4, no entry is smaller than the one before it, and the
/// last one is the length of `glyf`.
pub open spec fn loca_is_sound(loca: Seq<u8>, is_long: bool, count: int, glyf_len: int) -> bool {
    &&& loca.len() == (count + 1) * (if is_long { 4int } else { 2int })
    &&& forall|i: int| 0 <= i <= count ==> (#[trigger] loca_entry(loca, i, is_long)) % 4 == 0
    &&& forall|i: int, j: int|
        #![trigger loca_entry(loca, i, is_long), loca_entry(loca, j, is_long)]
        0 <= i <= j <= count ==> loca_entry(loca, i, is_long) <= loca_entry(loca, j, is_long)
    &&& loca_entry(loca, count, is_long) == glyf_len
}

/// The rebuilt `loca` fits the rebuilt `glyf`.
pub proof fn lemma_rebuilt_tables_are_sound(e: GlyfEdit, is_long: bool, n: nat)
    requires
        rebuilt_glyf(e, n).len() <= loca_limit(is_long),
    ensures
        loca_is_sound(
            rebuilt_loca(e, is_long, n + 1),
            is_long,
            n as int,
            rebuilt_glyf(e, n).len() as int,
        ),
{
    lemma_rebuilt_loca_is_padded_and_monotonic(e, is_long, n);
    lemma_rebuilt_loca_len(e, is_long, n + 1);
    lemma_rebuilt_loca_decodes(e, is_long, n + 1, n);
}

/// The rebuilt `glyf` holds the record of each glyph where the rebuilt
/// `loca` says that the glyph starts.
pub proof fn lemma_rebuilt_glyph_is_found(e: GlyfEdit, is_long: bool, n: nat, i: nat)
    requires
        i < n,
        rebuilt_glyf(e, n).len() <= loca_limit(is_long),
    ensures
        ({
            let start = loca_entry(rebuilt_loca(e, is_long, n + 1), i as int, is_long);
            &&& start + glyph_record(e, i as int).len() <= rebuilt_glyf(e, n).len()
            &&& rebuilt_glyf(e, n).subrange(start, start + glyph_record(e, i as int).len())
                == glyph_record(e, i as int)
        }),
{
    lemma_rebuilt_glyf_monotonic(e, i, n);
    lemma_rebuilt_loca_decodes(e, is_long, n + 1, i);
    lemma_rebuilt_glyf_holds_record(e, i, n);
}

/// Appends zero bytes until the length is a multiple of 4.
fn pad_to_four(buf: &mut Vec<u8>)
    ensures
        final(buf)@ == pad4(old(buf)@),
{
    let rem: usize = buf.len() % 4;
    let missing: usize = if rem == 0 { 0 } else { 4 - rem };
    let mut k: usize = 0;
    while k < missing
        invariant
            k <= missing,
            missing == (4 - old(buf)@.len() % 4) % 4,
            buf@ == old(buf)@ + zeros(k as nat),
        decreases missing - k,
    {
        buf.push(0);
        k += 1;
        assert(buf@ =~= old(buf)@ + zeros(k as nat));
    }
}

/// Rebuilds `glyf` with one glyph replaced or added, and `loca` to match.
///
/// Glyphs `0..target_num_glyphs` are written in order, each padded to a
/// multiple of 4: the new record for `glyph_id`, the old bytes for every
/// other glyph that the old offsets bound inside `glyf`, nothing for the
/// rest. It fails, with `LocaOverflow`, exactly when the new table is longer
/// than the `loca` format can address.
pub fn rebuild_glyf_with_patch(
    glyf: &[u8],
    offsets: &[u32],
    glyph_id: usize,
    new_glyph: &[u8],
    is_long: bool,
    target_num_glyphs: usize,
) -> (r: Result<(Vec<u8>, Vec<u8>), FontError>)
    ensures
        ({
            let e = GlyfEdit {
                glyf: glyf@,
                offsets: offsets@,
                glyph_id: glyph_id as int,
                new_glyph: new_glyph@,
            };
            let n = target_num_glyphs as nat;
            match r {
                Ok((new_glyf, new_loca)) => {
                    &&& rebuilt_glyf(e, n).len() <= loca_limit(is_long)
                    &&& new_glyf@ == rebuilt_glyf(e, n)
                    &&& new_loca@ == rebuilt_loca(e, is_long, n + 1)
                },
                Err(err) => {
                    &&& rebuilt_glyf(e, n).len() > loca_limit(is_long)
                    &&& err == FontError::LocaOverflow
                },
            }
        }),
{
    let ghost e = GlyfEdit {
        glyf: glyf@,
        offsets: offsets@,
        glyph_id: glyph_id as int,
        new_glyph: new_glyph@,
    };
    let limit: u32 = if is_long { 0xFFFF_FFFF } else { 0x1_FFFE };
    let mut new_glyf: Vec<u8> = Vec::new();
    let mut new_loca: Vec<u8> = Vec::new();
    let mut i: usize = 0;
    while i < target_num_glyphs
        invariant
            i <= target_num_glyphs,
            limit == loca_limit(is_long),
            e.glyf == glyf@,
            e.offsets == offsets@,
            e.glyph_id == glyph_id,
            e.new_glyph == new_glyph@,
            new_glyf@ == rebuilt_glyf(e, i as nat),
            new_loca@ == rebuilt_loca(e, is_long, i as nat),
        decreases target_num_glyphs - i,
    {
        if new_glyf.len() > 0xFFFF_FFFF || new_glyf.len() as u32 > limit {
            proof {
                lemma_rebuilt_glyf_monotonic(e, i as nat, target_num_glyphs as nat);
            }
            return Err(FontError::LocaOverflow);
        }
        let start: u32 = new_glyf.len() as u32;
        if is_long {
            push_u32_be(&mut new_loca, start);
        } else {
            push_u16_be(&mut new_loca, (start / 2) as u16);
        }
        let ghost before = new_glyf@;
        if i == glyph_id {
            new_glyf.extend_from_slice(new_glyph);
        } else if i + 1 < offsets.len() {
            let from: usize = offsets[i] as usize;
            let to: usize = offsets[i + 1] as usize;
            if from < to && to <= glyf.len() {
                new_glyf.extend_from_slice(&glyf[from..to]);
            }
        }
        assert(new_glyf@ =~= before + glyph_record(e, i as int));
        pad_to_four(&mut new_glyf);
        i += 1;
    }
    if new_glyf.len() > 0xFFFF_FFFF || new_glyf.len() as u32 > limit {
        return Err(FontError::LocaOverflow);
    }
    let end: u32 = new_glyf.len() as u32;
    if is_long {
        push_u32_be(&mut new_loca, end);
    } else {
        push_u16_be(&mut new_loca, (end / 2) as u16);
    }
    Ok((new_glyf, new_loca))
}

} // verus!
