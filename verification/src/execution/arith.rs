use vstd::prelude::*;
use vstd::arithmetic::div_mod::lemma_mod_multiples_vanish;
use vstd::arithmetic::power::{lemma_pow0, lemma_pow_multiplies, lemma_square_is_pow2, pow};

verus! {

/// The value of `i64` that a mathematical integer wraps to: the one that
/// differs from it by a multiple of 2^64.
pub open spec fn wrap(x: int) -> i64 {
    (((x + 0x8000_0000_0000_0000) % 0x1_0000_0000_0000_0000) - 0x8000_0000_0000_0000) as i64
}

/// The magnitude of an integer.
pub open spec fn magnitude(x: int) -> int {
    if x < 0 {
        -x
    } else {
        x
    }
}

/// The quotient of a division that rounds toward zero.
pub open spec fn truncated_div(a: int, b: int) -> int
    recommends
        b != 0,
{
    if (a < 0) == (b < 0) {
        magnitude(a) / magnitude(b)
    } else {
        -(magnitude(a) / magnitude(b))
    }
}

/// The remainder of a division that rounds toward zero; it has the sign of
/// the dividend.
pub open spec fn truncated_rem(a: int, b: int) -> int
    recommends
        b != 0,
{
    if a < 0 {
        -(magnitude(a) % magnitude(b))
    } else {
        magnitude(a) % magnitude(b)
    }
}

/// Addition that wraps around at the bounds of `i64`.
pub fn int_add(a: i64, b: i64) -> (r: i64)
    ensures
        r == wrap(a + b),
{
    a.wrapping_add(b)
}

/// Subtraction that wraps around at the bounds of `i64`.
pub fn int_sub(a: i64, b: i64) -> (r: i64)
    ensures
        r == wrap(a - b),
{
    a.wrapping_sub(b)
}

/// Multiplication that wraps around at the bounds of `i64`.
pub fn int_mul(a: i64, b: i64) -> (r: i64)
    ensures
        r == wrap(a * b),
{
    a.wrapping_mul(b)
}

/// Division that rounds toward zero and wraps around at the bounds of
/// `i64`; nothing for a zero divisor.
pub fn int_div(a: i64, b: i64) -> (r: Option<i64>)
    ensures
        b == 0 ==> r is None,
        b != 0 ==> r == Some(wrap(truncated_div(a as int, b as int))),
{
    if b == 0 {
        None
    } else if a == i64::MIN && b == -1 {
        assert(truncated_div(a as int, b as int) == 0x8000_0000_0000_0000) by {
            assert(0x8000_0000_0000_0000int / 1 == 0x8000_0000_0000_0000int);
        }
        Some(i64::MIN)
    } else {
        proof {
            lemma_truncated_div_fits(a as int, b as int);
        }
        let q = a.checked_div(b);
        assert(q == Some(truncated_div(a as int, b as int) as i64));
        q
    }
}

proof fn lemma_truncated_div_fits(x: int, d: int)
    requires
        i64::MIN <= x <= i64::MAX,
        i64::MIN <= d <= i64::MAX,
        d != 0,
        !(x == i64::MIN && d == -1),
    ensures
        i64::MIN <= truncated_div(x, d) <= i64::MAX,
        i64::MIN <= truncated_rem(x, d) <= i64::MAX,
        truncated_div(x, d) == (if x == 0 {
            0
        } else if x > 0 && d > 0 {
            x / d
        } else if x < 0 && d < 0 {
            ((x * -1) / (d * -1))
        } else if x < 0 {
            ((x * -1) / d) * -1
        } else {
            (x / (d * -1)) * -1
        }),
        truncated_rem(x, d) == (if x == 0 {
            0
        } else if x > 0 && d > 0 {
            x % d
        } else if x < 0 && d < 0 {
            ((x * -1) % (d * -1)) * -1
        } else if x < 0 {
            ((x * -1) % d) * -1
        } else {
            x % (d * -1)
        }),
{
    let ma = magnitude(x);
    let mb = magnitude(d);
    assert(x * -1 == -x);
    assert(d * -1 == -d);
    assert(0 <= ma / mb <= ma && 0 <= ma % mb < mb) by (nonlinear_arith)
        requires
            ma >= 0,
            mb > 0,
    ;
    assert((ma / mb) * -1 == -(ma / mb));
    assert((ma % mb) * -1 == -(ma % mb));
    if mb == 1 {
        assert(ma / 1 == ma && ma % 1 == 0) by (nonlinear_arith);
    }
    if x == i64::MIN && mb > 1 {
        assert(ma / mb < ma) by (nonlinear_arith)
            requires
                ma > 0,
                mb > 1,
        ;
    }
    if x == 0 {
        assert(0int / mb == 0 && 0int % mb == 0) by (nonlinear_arith)
            requires
                mb > 0,
        ;
    }
}

/// The remainder of the division that rounds toward zero; nothing for a
/// zero divisor.
pub fn int_rem(a: i64, b: i64) -> (r: Option<i64>)
    ensures
        b == 0 ==> r is None,
        b != 0 ==> r == Some(wrap(truncated_rem(a as int, b as int))),
{
    if b == 0 {
        None
    } else if a == i64::MIN && b == -1 {
        assert(truncated_rem(a as int, b as int) == 0) by {
            assert(0x8000_0000_0000_0000int % 1 == 0);
        }
        Some(0)
    } else {
        proof {
            lemma_truncated_div_fits(a as int, b as int);
        }
        let q = a.checked_rem(b);
        assert(q == Some(truncated_rem(a as int, b as int) as i64));
        q
    }
}

/// The magnitude of an integer, wrapped to `i64`: the least value is its own
/// magnitude.
pub fn int_abs(a: i64) -> (r: i64)
    ensures
        r == wrap(magnitude(a as int)),
{
    if a == i64::MIN {
        a
    } else if a < 0 {
        -a
    } else {
        a
    }
}

/// Wrapping a factor before a product is taken does not change what the
/// product wraps to.
pub proof fn lemma_wrap_product(x: int, y: int)
    ensures
        wrap(wrap(x) * y) == wrap(x * y),
        wrap(y * wrap(x)) == wrap(y * x),
{
    let m: int = 0x1_0000_0000_0000_0000;
    let h: int = 0x8000_0000_0000_0000;
    let q = (x + h) / m;
    let w = wrap(x) as int;
    assert(w == x - m * q);
    assert(w * y + h == m * (-(q * y)) + (x * y + h)) by (nonlinear_arith)
        requires
            w == x - m * q,
    ;
    lemma_mod_multiples_vanish(-(q * y), x * y + h, m);
    assert(y * w == w * y) by (nonlinear_arith);
    assert(y * x == x * y) by (nonlinear_arith);
}

/// Wrapping the base before a power is taken does not change what the
/// power wraps to.
pub proof fn lemma_wrap_power(x: int, n: nat)
    ensures
        wrap(pow(wrap(x) as int, n)) == wrap(pow(x, n)),
    decreases n,
{
    reveal(pow);
    if n > 0 {
        let w = wrap(x) as int;
        let rest = (n - 1) as nat;
        lemma_wrap_power(x, rest);
        lemma_wrap_product(pow(w, rest), w);
        lemma_wrap_product(pow(x, rest), w);
        lemma_wrap_product(x, pow(x, rest));
    }
}

/// A power with an even exponent is a power of the square, and one more
/// factor makes the odd exponent that follows.
proof fn lemma_power_of_square(x: int, half: nat)
    ensures
        pow(x * x, half) == pow(x, 2 * half),
        x * pow(x * x, half) == pow(x, 2 * half + 1),
{
    lemma_square_is_pow2(x);
    lemma_pow_multiplies(x, 2, half);
    reveal(pow);
}

/// Raises `base` to the power `exponent`, wrapping around at the bounds
/// of `i64`: by squaring the base and halving the exponent.
pub fn int_pow(base: i64, exponent: u64) -> (r: i64)
    ensures
        r == wrap(pow(base as int, exponent as nat)),
    decreases exponent,
{
    if exponent == 0 {
        proof {
            lemma_pow0(base as int);
        }
        1
    } else {
        let square = base.wrapping_mul(base);
        let half = int_pow(square, exponent / 2);
        proof {
            let m = (exponent / 2) as nat;
            lemma_wrap_power(base * base, m);
            lemma_power_of_square(base as int, m);
            lemma_wrap_product(pow(base * base, m), base as int);
        }
        if exponent % 2 == 1 {
            base.wrapping_mul(half)
        } else {
            half
        }
    }
}

} // verus!
