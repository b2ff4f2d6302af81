//! Rounding of addresses and offsets up to a power-of-two boundary.

use vstd::prelude::*;

verus! {

/// `a` is a power of two.
pub open spec fn is_pow2(a: usize) -> bool {
    a > 0 && a & ((a - 1) as usize) == 0
}

/// The smallest multiple of `a` that is not below `x`.
pub open spec fn align_up_spec(x: int, a: int) -> int {
    if x % a == 0 {
        x
    } else {
        x - x % a + a
    }
}

/// Align `what` upwards to a multiple of `how`, which must be a power of two.
pub fn align_up(what: usize, how: usize) -> (r: usize)
    requires
        is_pow2(how),
        what + (how - 1) <= usize::MAX,
    ensures
        r == align_up_spec(what as int, how as int),
{
    let rem = what % how;
    assert(1 <= rem < how && rem <= what || rem == 0) by (nonlinear_arith)
        requires
            rem == what % how,
            how > 0,
    ;
    if rem == 0 {
        what
    } else {
        what - rem + how
    }
}

/// Aligning twice gives what aligning once gives, and the result is the least
/// multiple of `a` that is not below `x`.
pub proof fn lemma_align_up(x: int, a: int)
    requires
        0 <= x,
        0 < a,
    ensures
        align_up_spec(align_up_spec(x, a), a) == align_up_spec(x, a),
        align_up_spec(x, a) % a == 0,
        x <= align_up_spec(x, a) < x + a,
        forall|m: int| #[trigger] (m % a) == 0 && x <= m ==> align_up_spec(x, a) <= m,
{
    let r = align_up_spec(x, a);
    assert(r % a == 0 && x <= r < x + a) by (nonlinear_arith)
        requires
            0 <= x,
            0 < a,
            r == (if x % a == 0 { x } else { x - x % a + a }),
    ;
    assert forall|m: int| #[trigger] (m % a) == 0 && x <= m implies r <= m by {
        assert(r <= m) by (nonlinear_arith)
            requires
                0 <= x <= m,
                0 < a,
                m % a == 0,
                r % a == 0,
                x <= r < x + a,
        ;
    }
}

/// Aligning to four is idempotent and gives the least multiple of four not
/// below `x`.
pub proof fn lemma_align_up_four(x: int)
    requires
        0 <= x,
    ensures
        align_up_spec(align_up_spec(x, 4), 4) == align_up_spec(x, 4),
        align_up_spec(x, 4) % 4 == 0,
        x <= align_up_spec(x, 4) < x + 4,
        forall|m: int| #[trigger] (m % 4) == 0 && x <= m ==> align_up_spec(x, 4) <= m,
{
    lemma_align_up(x, 4);
}

/// No multiple of four lies above `usize::MAX - 3` and within `usize`.
pub proof fn lemma_align_four_past_max(x: int)
    requires
        usize::MAX - 3 < x,
    ensures
        align_up_spec(x, 4) > usize::MAX,
{
    assert(usize::MAX == 0xffff_ffff || usize::MAX == 0xffff_ffff_ffff_ffff);
}

/// The alignments of the primitive types are powers of two.
pub proof fn lemma_small_pow2()
    ensures
        is_pow2(1),
        is_pow2(2),
        is_pow2(4),
        is_pow2(8),
        is_pow2(16),
{
    assert(1usize & 0usize == 0) by (bit_vector);
    assert(2usize & 1usize == 0) by (bit_vector);
    assert(4usize & 3usize == 0) by (bit_vector);
    assert(8usize & 7usize == 0) by (bit_vector);
    assert(16usize & 15usize == 0) by (bit_vector);
}

} // verus!
