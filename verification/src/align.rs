//! Rounding an address to a power-of-two boundary.
//!
//! The spec functions speak of multiples: `round_down` is the greatest
//! multiple of the alignment that does not exceed an address, `round_up` the
//! least one that is not below it. The executable functions compute both with
//! a bit mask, which is correct exactly because the alignment is a power of
//! two.

use vstd::arithmetic::div_mod::{lemma_fundamental_div_mod, lemma_mod_multiples_basic};
use vstd::arithmetic::power2::{
    is_pow2, is_pow2_equiv, lemma2_to64, lemma_pow2_adds, lemma_pow2_pos,
    lemma_pow2_strictly_increases, pow2,
};
use vstd::bits::{lemma_usize_low_bits_mask_is_mod, low_bits_mask};
use vstd::prelude::*;

verus! {

/// Whether `pos` is a multiple of `align`.
pub open spec fn is_aligned(pos: int, align: int) -> bool {
    pos % align == 0
}

/// The greatest multiple of `align` that is at most `pos`.
pub open spec fn round_down(pos: int, align: int) -> int {
    pos - pos % align
}

/// The least multiple of `align` that is at least `pos`.
pub open spec fn round_up(pos: int, align: int) -> int {
    round_down(pos + align - 1, align)
}

/// `round_down(pos, align)` is a multiple of `align`, lies less than one
/// alignment step below `pos`, and no multiple of `align` lies strictly
/// between it and `pos`.
pub proof fn lemma_round_down(pos: int, align: int)
    requires
        align > 0,
    ensures
        is_aligned(round_down(pos, align), align),
        pos - align < round_down(pos, align) <= pos,
        forall|m: int| #[trigger] is_aligned(m, align) && m <= pos ==> m <= round_down(pos, align),
{
    let q = pos / align;
    lemma_fundamental_div_mod(pos, align);
    lemma_mod_multiples_basic(q, align);
    assert(round_down(pos, align) == q * align) by (nonlinear_arith)
        requires
            pos == align * q + pos % align,
    ;
    assert forall|m: int| #[trigger] is_aligned(m, align) && m <= pos implies m <= round_down(
        pos,
        align,
    ) by {
        let qm = m / align;
        lemma_fundamental_div_mod(m, align);
        assert(qm * align <= q * align) by (nonlinear_arith)
            requires
                align > 0,
                align * qm < align * q + align,
        ;
    }
}

/// `round_up(pos, align)` is a multiple of `align`, lies less than one
/// alignment step above `pos`, and no multiple of `align` lies strictly
/// between `pos` and it.
pub proof fn lemma_round_up(pos: int, align: int)
    requires
        align > 0,
    ensures
        is_aligned(round_up(pos, align), align),
        pos <= round_up(pos, align) < pos + align,
        forall|m: int| #[trigger] is_aligned(m, align) && pos <= m ==> round_up(pos, align) <= m,
{
    lemma_round_down(pos + align - 1, align);
    let up = round_up(pos, align);
    assert forall|m: int| #[trigger] is_aligned(m, align) && pos <= m implies up <= m by {
        if m < up {
            // `up - align` is a multiple too, and `m` would lie strictly
            // between it and `up` while `up - align < pos <= m`.
            let qu = up / align;
            let qm = m / align;
            lemma_fundamental_div_mod(up, align);
            lemma_fundamental_div_mod(m, align);
            assert(false) by (nonlinear_arith)
                requires
                    align > 0,
                    up == align * qu,
                    m == align * qm,
                    m < up,
                    up - align < m,
            ;
        }
    }
}

/// A power of two is at least one.
pub proof fn lemma_pow2_positive(n: int)
    requires
        is_pow2(n),
    ensures
        n >= 1,
{
    reveal(is_pow2);
}

/// A power of two that fits a machine word is `2^k` for some `k` below the
/// word's width, and the word's range ends at the next multiple of it.
proof fn lemma_pow2_word(align: usize) -> (k: nat)
    requires
        is_pow2(align as int),
    ensures
        k < usize::BITS,
        align == pow2(k),
        align >= 1,
        is_aligned(usize::MAX + 1, align as int),
{
    is_pow2_equiv(align as int);
    let k = choose|i: nat| vstd::arithmetic::power::pow(2, i) == align as int;
    lemma2_to64();
    lemma_pow2_pos(k);
    let bits = usize::BITS as nat;
    assert(usize::MAX + 1 == pow2(bits));
    if k >= bits {
        if k > bits {
            lemma_pow2_strictly_increases(bits, k);
        }
        assert(false);
    }
    let rest = (bits - k) as nat;
    lemma_pow2_adds(rest, k);
    lemma_mod_multiples_basic(pow2(rest) as int, align as int);
    k
}

/// Rounding up stays within the machine word exactly when adding the
/// alignment's mask does.
pub proof fn lemma_round_up_fits(pos: usize, align: usize)
    requires
        is_pow2(align as int),
    ensures
        align >= 1,
        round_up(pos as int, align as int) <= usize::MAX <==> pos + align - 1 <= usize::MAX,
{
    let _ = lemma_pow2_word(align);
    lemma_round_down(pos + align - 1, align as int);
}

/// What is aligned to a power of two is aligned to every smaller one.
pub proof fn lemma_aligned_to_smaller(pos: int, big: int, small: int)
    requires
        is_pow2(big),
        is_pow2(small),
        small <= big,
        is_aligned(pos, big),
    ensures
        is_aligned(pos, small),
{
    lemma_pow2_positive(big);
    lemma_pow2_positive(small);
    is_pow2_equiv(big);
    is_pow2_equiv(small);
    let k = choose|i: nat| vstd::arithmetic::power::pow(2, i) == big;
    let j = choose|i: nat| vstd::arithmetic::power::pow(2, i) == small;
    lemma_pow2_pos(k);
    lemma_pow2_pos(j);
    if j > k {
        lemma_pow2_strictly_increases(k, j);
    }
    let rest = (k - j) as nat;
    lemma_pow2_adds(rest, j);
    let q = pos / big;
    lemma_fundamental_div_mod(pos, big);
    assert(pos == (q * pow2(rest)) * small) by (nonlinear_arith)
        requires
            pos == big * q,
            big == pow2(rest) * small,
    ;
    lemma_mod_multiples_basic(q * pow2(rest), small);
}

/// Clearing the bits below a power of two rounds down to it.
proof fn lemma_mask_rounds_down(pos: usize, align: usize)
    requires
        is_pow2(align as int),
    ensures
        align >= 1,
        pos & !((align - 1) as usize) == round_down(pos as int, align as int),
{
    let k = lemma_pow2_word(align);
    let mask = (align - 1) as usize;
    assert(mask == low_bits_mask(k) as usize);
    lemma_usize_low_bits_mask_is_mod(pos, k);
    assert(pos & mask == pos % align);
    assert(pos & !mask == pos - (pos & mask)) by (bit_vector);
}

/// Rounds `pos` down to a multiple of `align`.
pub fn align_down(pos: usize, align: usize) -> (r: usize)
    requires
        is_pow2(align as int),
    ensures
        r == round_down(pos as int, align as int),
{
    proof {
        lemma_mask_rounds_down(pos, align);
    }
    pos & !(align - 1)
}

/// Rounds `pos` up to a multiple of `align`, or reports that the multiple
/// lies beyond the last address.
pub fn align_up(pos: usize, align: usize) -> (r: Option<usize>)
    requires
        is_pow2(align as int),
    ensures
        match r {
            Some(at) => at == round_up(pos as int, align as int),
            None => round_up(pos as int, align as int) > usize::MAX,
        },
{
    proof {
        lemma_round_up_fits(pos, align);
    }
    match pos.checked_add(align - 1) {
        Some(padded) => Some(align_down(padded, align)),
        None => None,
    }
}

} // verus!
