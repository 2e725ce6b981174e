//! Alignment arithmetic: rounding a stream position up to a boundary and
//! describing the padding to emit or skip.

use vstd::prelude::*;

verus! {

/// The next multiple of `boundary` at or after `pos`.
pub open spec fn align_up(pos: int, boundary: int) -> int
    recommends
        boundary > 0,
        pos >= 0,
{
    if pos % boundary == 0 {
        pos
    } else {
        pos + (boundary - pos % boundary)
    }
}

pub proof fn lemma_align_up(pos: int, boundary: int)
    requires
        boundary > 0,
        pos >= 0,
    ensures
        pos <= align_up(pos, boundary) < pos + boundary,
        align_up(pos, boundary) % boundary == 0,
{
    if pos % boundary != 0 {
        vstd::arithmetic::div_mod::lemma_mod_bound(pos, boundary);
        vstd::arithmetic::div_mod::lemma_fundamental_div_mod(pos, boundary);
        let q = pos / boundary;
        assert(align_up(pos, boundary) == (q + 1) * boundary) by (nonlinear_arith)
            requires
                boundary > 0,
                pos == boundary * q + pos % boundary,
                align_up(pos, boundary) == pos + (boundary - pos % boundary),
        ;
        vstd::arithmetic::div_mod::lemma_mod_multiples_basic(q + 1, boundary);
    }
}

/// Shifting by a multiple of the boundary commutes with aligning.
pub proof fn lemma_align_up_add_multiple(a: int, x: int, boundary: int)
    requires
        boundary > 0,
        a >= 0,
        x >= 0,
        a % boundary == 0,
    ensures
        align_up(a + x, boundary) == a + align_up(x, boundary),
{
    vstd::arithmetic::div_mod::lemma_fundamental_div_mod(a, boundary);
    vstd::arithmetic::div_mod::lemma_mod_multiples_vanish(a / boundary, x, boundary);
    assert(boundary * (a / boundary) + x == a + x);
    assert((a + x) % boundary == x % boundary);
}

/// Number of filler bytes needed so that `position + padding` is the next
/// multiple of `boundary` (0 if already aligned).
pub fn pad_to(position: usize, boundary: usize) -> (padding: usize)
    requires
        boundary > 0,
        position + boundary <= usize::MAX,
    ensures
        padding < boundary,
        position + padding == align_up(position as int, boundary as int),
        (position + padding) as int % boundary as int == 0,
{
    proof {
        lemma_align_up(position as int, boundary as int);
    }
    let rem: usize = position % boundary;
    if rem == 0 {
        0
    } else {
        boundary - rem
    }
}

/// `pad_to` over the 32-bit positions that archive size fields use.
pub fn pad_to32(position: u32, boundary: u32) -> (padding: u32)
    requires
        boundary > 0,
        position + boundary <= u32::MAX,
    ensures
        padding < boundary,
        position + padding == align_up(position as int, boundary as int),
        (position + padding) as int % boundary as int == 0,
{
    proof {
        lemma_align_up(position as int, boundary as int);
    }
    let rem: u32 = position % boundary;
    if rem == 0 {
        0
    } else {
        boundary - rem
    }
}

} // verus!
