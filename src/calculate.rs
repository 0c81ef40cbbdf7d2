//! Rounding sizes up to an alignment.
use vstd::prelude::*;

verus! {

/// `val` rounded up to the next multiple of `align` (unchanged for `align == 0`).
pub open spec fn round_up(val: int, align: int) -> int {
    if align == 0 {
        val
    } else {
        ((val + align - 1) / align) * align
    }
}

/// Rounds `val` up to the next multiple of `align`; `align == 0` leaves it unchanged.
pub fn quick_align(val: usize, align: usize) -> (r: usize)
    requires
        align == 0 || val as int + (align as int - 1) <= usize::MAX,
    ensures
        r == round_up(val as int, align as int),
        align > 0 ==> r % align == 0 && val <= r < val + align,
        align == 0 ==> r == val,
{
    if align == 0 {
        return val;
    }
    let q = val / align;
    let rem = val % align;
    proof {
        let v = val as int;
        let a = align as int;
        assert(v == q * a + rem) by (nonlinear_arith)
            requires
                q == v / a,
                rem == v % a,
                a > 0,
        ;
        assert(q * a <= v) by (nonlinear_arith)
            requires
                v == q * a + rem,
                0 <= rem,
        ;
    }
    if rem == 0 {
        proof {
            let v = val as int;
            let a = align as int;
            assert((v + a - 1) / a == q && (q * a) % a == 0) by (nonlinear_arith)
                requires
                    v == q * a,
                    a > 0,
                    q >= 0,
            ;
        }
        val
    } else {
        proof {
            let v = val as int;
            let a = align as int;
            assert((v + a - 1) / a == q + 1 && ((q + 1) * a) % a == 0 && (q + 1) * a == v - rem + a)
                by (nonlinear_arith)
                requires
                    v == q * a + rem,
                    0 < rem < a,
                    q >= 0,
            ;
        }
        val - rem + align
    }
}

} // verus!
