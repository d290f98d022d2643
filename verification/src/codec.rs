//! Little-endian byte codec helpers shared by the metadata page, the node
//! layout and the quantizer blobs.  Each writer appends a fixed-width field
//! to a byte vector; each reader decodes it from a stated offset.

use vstd::prelude::*;
use vstd::bytes::{
    spec_u16_to_le_bytes, spec_u16_from_le_bytes, spec_u32_to_le_bytes, spec_u32_from_le_bytes,
    spec_u64_to_le_bytes, spec_u64_from_le_bytes, u16_to_le_bytes, u16_from_le_bytes,
    u32_to_le_bytes, u32_from_le_bytes, u64_to_le_bytes, u64_from_le_bytes,
    lemma_auto_spec_u16_to_from_le_bytes, lemma_auto_spec_u32_to_from_le_bytes,
    lemma_auto_spec_u64_to_from_le_bytes,
};
use vstd::slice::slice_subrange;
use crate::distance::COMP_BOUND;

verus! {

/// The byte a boolean is stored as.
pub open spec fn spec_bool_byte(b: bool) -> u8 {
    if b {
        1u8
    } else {
        0u8
    }
}

/// The bytes a fixed-point vector component is stored as: its value shifted
/// up by `COMP_BOUND` so that it fits an unsigned field.
pub open spec fn spec_comp_to_le_bytes(c: i32) -> Seq<u8> {
    spec_u32_to_le_bytes((c + COMP_BOUND) as u32)
}

/// The component a stored unsigned field decodes to.
pub open spec fn spec_comp_from_le_bytes(s: Seq<u8>) -> i32 {
    (spec_u32_from_le_bytes(s) - COMP_BOUND) as i32
}

pub fn put_u16(out: &mut Vec<u8>, x: u16)
    ensures
        final(out)@ == old(out)@ + spec_u16_to_le_bytes(x),
{
    let mut b = u16_to_le_bytes(x);
    out.append(&mut b);
}

pub fn put_u32(out: &mut Vec<u8>, x: u32)
    ensures
        final(out)@ == old(out)@ + spec_u32_to_le_bytes(x),
{
    let mut b = u32_to_le_bytes(x);
    out.append(&mut b);
}

pub fn put_u64(out: &mut Vec<u8>, x: u64)
    ensures
        final(out)@ == old(out)@ + spec_u64_to_le_bytes(x),
{
    let mut b = u64_to_le_bytes(x);
    out.append(&mut b);
}

pub fn put_bool(out: &mut Vec<u8>, b: bool)
    ensures
        final(out)@ == old(out)@ + seq![spec_bool_byte(b)],
{
    let byte: u8 = if b {
        1u8
    } else {
        0u8
    };
    out.push(byte);
    proof {
        assert(out@ =~= old(out)@ + seq![spec_bool_byte(b)]);
    }
}

pub fn put_comp(out: &mut Vec<u8>, c: i32)
    requires
        -COMP_BOUND <= c <= COMP_BOUND,
    ensures
        final(out)@ == old(out)@ + spec_comp_to_le_bytes(c),
{
    put_u32(out, (c + COMP_BOUND) as u32)
}

pub fn read_u16(s: &[u8], off: usize) -> (r: u16)
    requires
        off + 2 <= s@.len(),
    ensures
        r == spec_u16_from_le_bytes(s@.subrange(off as int, off as int + 2)),
{
    let n: usize = s.len();
    assert(off + 2 <= n);
    let sl = slice_subrange(s, off, off + 2);
    u16_from_le_bytes(sl)
}

pub fn read_u32(s: &[u8], off: usize) -> (r: u32)
    requires
        off + 4 <= s@.len(),
    ensures
        r == spec_u32_from_le_bytes(s@.subrange(off as int, off as int + 4)),
{
    let n: usize = s.len();
    assert(off + 4 <= n);
    let sl = slice_subrange(s, off, off + 4);
    u32_from_le_bytes(sl)
}

pub fn read_u64(s: &[u8], off: usize) -> (r: u64)
    requires
        off + 8 <= s@.len(),
    ensures
        r == spec_u64_from_le_bytes(s@.subrange(off as int, off as int + 8)),
{
    let n: usize = s.len();
    assert(off + 8 <= n);
    let sl = slice_subrange(s, off, off + 8);
    u64_from_le_bytes(sl)
}

/// Decode a stored component; `None` exactly when the field is outside the
/// component range.
pub fn read_comp(s: &[u8], off: usize) -> (r: Option<i32>)
    requires
        off + 4 <= s@.len(),
    ensures
        ({
            let u = spec_u32_from_le_bytes(s@.subrange(off as int, off as int + 4));
            match r {
                Some(c) => u <= 2 * COMP_BOUND && c == spec_comp_from_le_bytes(
                    s@.subrange(off as int, off as int + 4),
                ) && -COMP_BOUND <= c <= COMP_BOUND,
                None => u > 2 * COMP_BOUND,
            }
        }),
{
    let u = read_u32(s, off);
    if u <= 2 * (COMP_BOUND as u32) {
        Some((u as i64 - COMP_BOUND as i64) as i32)
    } else {
        None
    }
}

/// Round-trip for components: decoding what was encoded gives the value
/// back, and the stored field is in range.
pub proof fn lemma_comp_roundtrip(c: i32)
    requires
        -COMP_BOUND <= c <= COMP_BOUND,
    ensures
        spec_comp_to_le_bytes(c).len() == 4,
        spec_u32_from_le_bytes(spec_comp_to_le_bytes(c)) <= 2 * COMP_BOUND,
        spec_comp_from_le_bytes(spec_comp_to_le_bytes(c)) == c,
{
    lemma_auto_spec_u32_to_from_le_bytes();
}

/// Round-trip autos for the unsigned fields, re-exported for the codecs
/// built on these helpers.
pub proof fn lemma_le_bytes_autos()
    ensures
        forall|x: u16|
            #[trigger] spec_u16_to_le_bytes(x).len() == 2 && spec_u16_from_le_bytes(
                spec_u16_to_le_bytes(x),
            ) == x,
        forall|s: Seq<u8>|
            s.len() == 2 ==> #[trigger] spec_u16_to_le_bytes(spec_u16_from_le_bytes(s)) == s,
        forall|x: u32|
            #[trigger] spec_u32_to_le_bytes(x).len() == 4 && spec_u32_from_le_bytes(
                spec_u32_to_le_bytes(x),
            ) == x,
        forall|s: Seq<u8>|
            s.len() == 4 ==> #[trigger] spec_u32_to_le_bytes(spec_u32_from_le_bytes(s)) == s,
        forall|x: u64|
            #[trigger] spec_u64_to_le_bytes(x).len() == 8 && spec_u64_from_le_bytes(
                spec_u64_to_le_bytes(x),
            ) == x,
        forall|s: Seq<u8>|
            s.len() == 8 ==> #[trigger] spec_u64_to_le_bytes(spec_u64_from_le_bytes(s)) == s,
{
    lemma_auto_spec_u16_to_from_le_bytes();
    lemma_auto_spec_u32_to_from_le_bytes();
    lemma_auto_spec_u64_to_from_le_bytes();
}

} // verus!
