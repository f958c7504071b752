//! Single-precision numbers by their IEEE 754 bits. The library does no
//! floating-point arithmetic; it orders and compares what was computed elsewhere.

use vstd::prelude::*;

verus! {

/// The bits of 1.0.
pub const ONE_BITS: u32 = 0x3f80_0000;

/// The bits of positive infinity.
pub const INFINITY_BITS: u32 = 0x7f80_0000;

/// The bits of the number without its sign.
pub open spec fn magnitude(bits: u32) -> int {
    if bits >= 0x8000_0000 {
        bits - 0x8000_0000
    } else {
        bits as int
    }
}

/// Whether the number is neither infinite nor a NaN.
pub open spec fn finite(bits: u32) -> bool {
    magnitude(bits) < INFINITY_BITS
}

/// Whether the bits are those of a NaN, which stands in no order to any number.
pub open spec fn nan(bits: u32) -> bool {
    magnitude(bits) > INFINITY_BITS
}

/// Whether the first number is greater than the second. No NaN is greater than
/// anything, and nothing is greater than a NaN.
pub open spec fn greater(a: u32, b: u32) -> bool {
    !nan(a) && !nan(b) && place(a) > place(b)
}

/// The place of the number in the order of numbers: of two numbers the smaller
/// has the smaller place, both zeros have place zero, and every NaN stands below
/// negative infinity.
pub open spec fn place(bits: u32) -> int {
    if nan(bits) {
        -(INFINITY_BITS + 1)
    } else if bits >= 0x8000_0000 {
        -magnitude(bits)
    } else {
        magnitude(bits)
    }
}

/// The place of the number in the order of numbers.
pub fn place_of(bits: u32) -> (r: i64)
    ensures
        r == place(bits),
{
    let m: u32 = if bits >= 0x8000_0000 {
        bits - 0x8000_0000
    } else {
        bits
    };
    if m > INFINITY_BITS {
        -(INFINITY_BITS as i64 + 1)
    } else if bits >= 0x8000_0000 {
        -(m as i64)
    } else {
        m as i64
    }
}

/// Whether the bits are those of a NaN.
pub fn is_nan(bits: u32) -> (r: bool)
    ensures
        r == nan(bits),
{
    let m: u32 = if bits >= 0x8000_0000 {
        bits - 0x8000_0000
    } else {
        bits
    };
    m > INFINITY_BITS
}

/// Whether the first number is greater than the second.
pub fn is_greater(a: u32, b: u32) -> (r: bool)
    ensures
        r == greater(a, b),
{
    !is_nan(a) && !is_nan(b) && place_of(a) > place_of(b)
}

/// Whether the number is neither infinite nor a NaN.
pub fn is_finite(bits: u32) -> (r: bool)
    ensures
        r == finite(bits),
{
    let m: u32 = if bits >= 0x8000_0000 {
        bits - 0x8000_0000
    } else {
        bits
    };
    m < INFINITY_BITS
}

/// Whether the number is from 0 to 1.
pub open spec fn in_unit_range(bits: u32) -> bool {
    0 <= place(bits) <= ONE_BITS
}

/// Whether the number is from 0 to 1.
pub fn is_in_unit_range(bits: u32) -> (r: bool)
    ensures
        r == in_unit_range(bits),
{
    let p: i64 = place_of(bits);
    0 <= p && p <= ONE_BITS as i64
}

// ---- Values -------------------------------------------------------------------------

/// The exponent that the bits of a number hold.
pub open spec fn exponent(bits: u32) -> int {
    (bits as int / 0x80_0000) % 256
}

/// The fraction that the bits of a number hold.
pub open spec fn fraction(bits: u32) -> int {
    bits as int % 0x80_0000
}

/// The value of a number that is neither infinite nor a NaN, in units of the smallest
/// number above zero.
pub open spec fn value(bits: u32) -> int {
    let size = if exponent(bits) == 0 {
        fraction(bits)
    } else {
        (0x80_0000 + fraction(bits)) * vstd::arithmetic::power2::pow2((exponent(bits) - 1) as nat)
    };
    if bits as int / 0x8000_0000 == 1 {
        -size
    } else {
        size
    }
}

/// Whether no single-precision number is nearer to the fraction `num / den`, which is
/// above zero and below the numbers that are all whole.
pub open spec fn is_nearest(bits: u32, num: int, den: int) -> bool {
    let exact = num * vstd::arithmetic::power2::pow2((150 - exponent(bits)) as nat);
    let held = (0x80_0000 + fraction(bits)) * den;
    &&& bits < 0x8000_0000
    &&& 1 <= exponent(bits) <= 150
    &&& 2 * (held - exact) <= den
    &&& 2 * (exact - held) <= den
}

proof fn lemma_size_grows(a: u32, b: u32)
    requires
        a < b < INFINITY_BITS,
    ensures
        0 <= value(a) < value(b),
{
    let ea = exponent(a);
    let eb = exponent(b);
    let fa = fraction(a);
    let fb = fraction(b);
    assert(a as int == ea * 0x80_0000 + fa);
    assert(b as int == eb * 0x80_0000 + fb);
    assert(ea <= eb);
    if ea > 0 {
        let p = vstd::arithmetic::power2::pow2((ea - 1) as nat) as int;
        vstd::arithmetic::power2::lemma_pow2_pos((ea - 1) as nat);
        assert((0x80_0000 + fa) * p >= 0) by (nonlinear_arith)
            requires
                fa >= 0,
                p > 0,
        ;
    }
    if ea == eb {
        if ea > 0 {
            let p = vstd::arithmetic::power2::pow2((ea - 1) as nat) as int;
            assert((0x80_0000 + fa) * p < (0x80_0000 + fb) * p) by (nonlinear_arith)
                requires
                    fa < fb,
                    p > 0,
            ;
        }
    } else {
        let q = vstd::arithmetic::power2::pow2((eb - 1) as nat) as int;
        vstd::arithmetic::power2::lemma_pow2_pos((eb - 1) as nat);
        assert((0x80_0000 + fb) * q >= 0x80_0000 * q) by (nonlinear_arith)
            requires
                fb >= 0,
                q > 0,
        ;
        if ea == 0 {
            assert(0x80_0000 * q >= 0x80_0000) by (nonlinear_arith)
                requires
                    q >= 1,
            ;
        } else {
            let p = vstd::arithmetic::power2::pow2((ea - 1) as nat) as int;
            vstd::arithmetic::power2::lemma_pow2_pos((ea - 1) as nat);
            vstd::arithmetic::power2::lemma_pow2_unfold(ea as nat);
            if ea < eb - 1 {
                vstd::arithmetic::power2::lemma_pow2_strictly_increases(ea as nat, (eb - 1) as nat);
            }
            assert(2 * p <= q);
            assert((0x80_0000 + fa) * p < 0x80_0000 * q) by (nonlinear_arith)
                requires
                    0 <= fa < 0x80_0000,
                    p > 0,
                    2 * p <= q,
            ;
        }
    }
}

/// Numbers are ordered by their values: of two numbers that are neither infinite nor a
/// NaN, one is greater exactly where its value is. Infinity is greater than any of
/// them, and a NaN stands in no order.
pub proof fn lemma_numbers_are_ordered_by_value(a: u32, b: u32)
    ensures
        exponent(a) < 255 && exponent(b) < 255 ==> {
            &&& greater(a, b) <==> value(a) > value(b)
            &&& place(a) == place(b) <==> value(a) == value(b)
            &&& place(a) > place(b) <==> value(a) > value(b)
            &&& place(a) > 0 <==> value(a) > 0
        },
        exponent(a) == 255 && fraction(a) == 0 && a < 0x8000_0000 && exponent(b) < 255 ==> greater(
            a,
            b,
        ),
        exponent(a) == 255 && fraction(a) != 0 ==> !greater(a, b) && !greater(b, a) && nan(a),
        nan(a) ==> exponent(a) == 255 && fraction(a) != 0,
        finite(a) <==> exponent(a) < 255,
{
    let ma = magnitude(a) as u32;
    let mb = magnitude(b) as u32;
    assert(exponent(a) == exponent(ma) && fraction(a) == fraction(ma));
    assert(exponent(b) == exponent(mb) && fraction(b) == fraction(mb));
    assert(magnitude(a) == exponent(a) * 0x80_0000 + fraction(a));
    assert(magnitude(b) == exponent(b) * 0x80_0000 + fraction(b));
    if exponent(a) < 255 && exponent(b) < 255 {
        assert(value(0) == 0);
        if ma < mb {
            lemma_size_grows(ma, mb);
        } else if mb < ma {
            lemma_size_grows(mb, ma);
        }
        if ma > 0 {
            lemma_size_grows(0, ma);
        }
        if mb > 0 {
            lemma_size_grows(0, mb);
        }
        assert(value(a) == if a >= 0x8000_0000 {
            -value(ma)
        } else {
            value(ma)
        });
        assert(value(b) == if b >= 0x8000_0000 {
            -value(mb)
        } else {
            value(mb)
        });
    }
}

/// The bits of one are those of one.
pub proof fn lemma_one()
    ensures
        is_nearest(ONE_BITS, 1, 1),
{
    vstd::arithmetic::power2::lemma2_to64();
    assert(exponent(ONE_BITS) == 127);
}

} // verus!
