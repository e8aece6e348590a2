//! Operands: IEEE-754 double-precision values, held by their bit patterns.
//!
//! A pattern is read as a sign, an eleven-bit exponent and a fifty-two-bit
//! fraction. Everything here is exact: comparisons, sign changes, and the
//! conversions between patterns and the integers they denote.

use vstd::arithmetic::div_mod::{
    lemma_div_by_multiple, lemma_fundamental_div_mod, lemma_fundamental_div_mod_converse,
    lemma_mod_multiples_basic, lemma_small_mod,
};
use vstd::arithmetic::power2::{
    lemma2_to64, lemma2_to64_rest, lemma_pow2_adds, lemma_pow2_pos, lemma_pow2_strictly_increases,
    pow2,
};
use vstd::bits::{lemma_u64_pow2_no_overflow, lemma_u64_shl_is_mul};
use vstd::prelude::*;

verus! {

/// An operand: the bit pattern of a double-precision value.
pub type Num = u64;

/// The sign bit of a pattern.
pub const SIGN_BIT: u64 = 0x8000_0000_0000_0000;

/// All bits of a pattern but the sign.
pub const MAGNITUDE_MASK: u64 = 0x7FFF_FFFF_FFFF_FFFF;

/// The pattern of positive infinity; magnitudes above it are not numbers.
pub const INFINITY: u64 = 0x7FF0_0000_0000_0000;

/// The pattern of zero.
pub const ZERO: u64 = 0;

/// The pattern of four.
pub const FOUR: u64 = 0x4010_0000_0000_0000;

/// The pattern of one quarter.
pub const QUARTER: u64 = 0x3FD0_0000_0000_0000;

/// The pattern of the double nearest to one thousandth.
pub const THOUSANDTH: u64 = 0x3F50_624D_D2F1_A9FC;

/// The pattern of the double nearest to one ten-millionth.
pub const TEN_MILLIONTH: u64 = 0x3E7A_D7F2_9ABC_AF48;

/// Whether the sign bit is set.
pub open spec fn is_negative(x: u64) -> bool {
    x >= SIGN_BIT
}

/// The pattern without its sign bit.
pub open spec fn magnitude(x: u64) -> u64 {
    if x >= SIGN_BIT {
        (x - SIGN_BIT) as u64
    } else {
        x
    }
}

/// Whether the pattern is not a number.
pub open spec fn is_nan(x: u64) -> bool {
    magnitude(x) > INFINITY
}

/// Whether the pattern is a number other than an infinity.
pub open spec fn is_finite_num(x: u64) -> bool {
    magnitude(x) < INFINITY
}

/// The place of a number in the order of the doubles: magnitudes grow with
/// their patterns, negative numbers mirror the positive ones, and the two
/// zeros share a place.
pub open spec fn rank(x: u64) -> int {
    if is_negative(x) {
        -(magnitude(x) as int)
    } else {
        magnitude(x) as int
    }
}

/// `x < y` as doubles: false whenever either is not a number.
pub open spec fn num_lt(x: u64, y: u64) -> bool {
    !is_nan(x) && !is_nan(y) && rank(x) < rank(y)
}

/// `x == y` as doubles: false whenever either is not a number.
pub open spec fn num_eq(x: u64, y: u64) -> bool {
    !is_nan(x) && !is_nan(y) && rank(x) == rank(y)
}

/// `x <= y` as doubles: false whenever either is not a number.
pub open spec fn num_le(x: u64, y: u64) -> bool {
    !is_nan(x) && !is_nan(y) && rank(x) <= rank(y)
}

/// The pattern of `-x`.
pub open spec fn negated(x: u64) -> u64 {
    if x >= SIGN_BIT {
        (x - SIGN_BIT) as u64
    } else {
        (x + SIGN_BIT) as u64
    }
}

/// The pattern without its sign bit: the absolute value.
pub fn abs(x: Num) -> (r: Num)
    ensures
        r == magnitude(x),
{
    assert(x & 0x7FFF_FFFF_FFFF_FFFF == if x >= 0x8000_0000_0000_0000 {
        (x - 0x8000_0000_0000_0000) as u64
    } else {
        x
    }) by (bit_vector);
    x & MAGNITUDE_MASK
}

/// The pattern with its sign bit flipped: the negation.
pub fn neg(x: Num) -> (r: Num)
    ensures
        r == negated(x),
{
    assert(x ^ 0x8000_0000_0000_0000 == if x >= 0x8000_0000_0000_0000 {
        (x - 0x8000_0000_0000_0000) as u64
    } else {
        (x + 0x8000_0000_0000_0000) as u64
    }) by (bit_vector);
    x ^ SIGN_BIT
}

/// Whether the pattern is a number other than an infinity.
pub fn is_finite(x: Num) -> (b: bool)
    ensures
        b == is_finite_num(x),
{
    abs(x) < INFINITY
}

/// `x < y` as doubles.
pub fn lt(x: Num, y: Num) -> (b: bool)
    ensures
        b == num_lt(x, y),
{
    let mx = abs(x);
    let my = abs(y);
    if mx > INFINITY || my > INFINITY {
        false
    } else if x >= SIGN_BIT {
        if y >= SIGN_BIT {
            mx > my
        } else {
            mx != 0 || my != 0
        }
    } else {
        y < SIGN_BIT && mx < my
    }
}

/// `x <= y` as doubles.
pub fn le(x: Num, y: Num) -> (b: bool)
    ensures
        b == num_le(x, y),
{
    lt(x, y) || eq(x, y)
}

/// `x == y` as doubles.
pub fn eq(x: Num, y: Num) -> (b: bool)
    ensures
        b == num_eq(x, y),
{
    let mx = abs(x);
    let my = abs(y);
    if mx > INFINITY || my > INFINITY {
        false
    } else {
        x == y || (mx == 0 && my == 0)
    }
}

/// Two to the fifty-second: the weight of the exponent field in a pattern.
pub const FRACTION_SPAN: u64 = 0x10_0000_0000_0000;

/// The exponent field of a pattern.
pub open spec fn exponent(x: u64) -> int {
    magnitude(x) as int / (FRACTION_SPAN as int)
}

/// The fraction field of a pattern.
pub open spec fn fraction(x: u64) -> int {
    magnitude(x) as int % (FRACTION_SPAN as int)
}

/// The integer that, scaled by a power of two, is the absolute value: the
/// fraction, with the implied leading bit for all but the smallest exponent.
pub open spec fn significand(x: u64) -> int {
    if exponent(x) == 0 {
        fraction(x)
    } else {
        fraction(x) + FRACTION_SPAN
    }
}

/// The power of two by which the significand is scaled, plus 1075: the
/// exponent field, where the smallest exponent counts as one.
pub open spec fn scale(x: u64) -> int {
    if exponent(x) == 0 {
        1
    } else {
        exponent(x)
    }
}

/// Whether the pattern is a finite number without a fractional part.
pub open spec fn is_integral(x: u64) -> bool {
    is_finite_num(x) && (scale(x) >= 1075 || significand(x) % (pow2(
        (1075 - scale(x)) as nat,
    ) as int) == 0)
}

/// The absolute value of an integral pattern.
pub open spec fn integer_magnitude(x: u64) -> int {
    if scale(x) >= 1075 {
        significand(x) * pow2((scale(x) - 1075) as nat)
    } else {
        significand(x) / (pow2((1075 - scale(x)) as nat) as int)
    }
}

/// The integer that an integral pattern denotes.
pub open spec fn integer_value(x: u64) -> int {
    if is_negative(x) {
        -integer_magnitude(x)
    } else {
        integer_magnitude(x)
    }
}

/// What the strict conversion gives: the integer that `x` denotes, where `x`
/// is integral and lies between the least `i64` and two to the sixty-third;
/// that upper end itself is given as the greatest `i64`.
pub open spec fn strict_integer(x: u64) -> Option<i64> {
    if is_integral(x) && i64::MIN <= integer_value(x) <= i64::MAX + 1 {
        if integer_value(x) > i64::MAX {
            Some(i64::MAX)
        } else {
            Some(integer_value(x) as i64)
        }
    } else {
        None
    }
}

/// Converts an operand to the integer it denotes, or `None` where it has a
/// fractional part, is not finite, or is out of range. Two to the
/// sixty-third, the one value of the range that no `i64` holds, is given as
/// the greatest `i64`.
pub fn strict_f64_to_i64(x: Num) -> (r: Option<i64>)
    ensures
        r == strict_integer(x),
{
    let mag = abs(x);
    let negative = x >= SIGN_BIT;
    if mag >= INFINITY {
        return None;
    }
    let e: u64 = mag / FRACTION_SPAN;
    let m: u64 = mag % FRACTION_SPAN;
    assert(e < 2047);
    if e == 0 {
        proof {
            lemma_pow2_strictly_increases(52, 1074);
            lemma2_to64_rest();
            lemma_small_mod(m as nat, pow2(1074));
        }
        return if m == 0 {
            Some(0)
        } else {
            None
        };
    }
    let s: u64 = m + FRACTION_SPAN;
    if e >= 1075 {
        let shift: u64 = e - 1075;
        proof {
            lemma_pow2_pos(shift as nat);
        }
        if shift > 11 || (shift == 11 && s > FRACTION_SPAN) {
            proof {
                lemma2_to64();
                if shift > 11 {
                    lemma_pow2_strictly_increases(11, shift as nat);
                }
                assert(s * pow2(shift as nat) > 0x8000_0000_0000_0000) by (nonlinear_arith)
                    requires
                        s >= 0x10_0000_0000_0000,
                        pow2(shift as nat) >= 0x800,
                        s > 0x10_0000_0000_0000 || pow2(shift as nat) > 0x800,
                ;
            }
            return None;
        }
        if shift == 11 {
            proof {
                lemma2_to64();
                assert(pow2(shift as nat) == 0x800);
                assert(s == 0x10_0000_0000_0000);
                assert(s * pow2(shift as nat) == 0x8000_0000_0000_0000) by (nonlinear_arith)
                    requires
                        s == 0x10_0000_0000_0000,
                        pow2(shift as nat) == 0x800,
                ;
            }
            return if negative {
                Some(i64::MIN)
            } else {
                Some(i64::MAX)
            };
        }
        proof {
            lemma2_to64();
            if shift < 10 {
                lemma_pow2_strictly_increases(shift as nat, 10);
            }
            lemma_u64_pow2_no_overflow(shift as nat);
            assert(s * pow2(shift as nat) < 0x8000_0000_0000_0000) by (nonlinear_arith)
                requires
                    s < 0x20_0000_0000_0000,
                    pow2(shift as nat) <= 0x400,
            ;
            lemma_u64_shl_is_mul(1, shift);
        }
        let p: u64 = 1u64 << shift;
        let v: u64 = s * p;
        return if negative {
            Some(-(v as i64))
        } else {
            Some(v as i64)
        };
    }
    let k: u64 = 1075 - e;
    if k > 52 {
        proof {
            lemma2_to64_rest();
            if k > 53 {
                lemma_pow2_strictly_increases(53, k as nat);
            }
            lemma_small_mod(s as nat, pow2(k as nat));
        }
        return None;
    }
    proof {
        lemma2_to64_rest();
        if k < 52 {
            lemma_pow2_strictly_increases(k as nat, 52);
        }
        lemma_pow2_pos(k as nat);
        lemma_u64_shl_is_mul(1, k);
    }
    let p: u64 = 1u64 << k;
    if s % p != 0 {
        return None;
    }
    let v: u64 = s / p;
    if negative {
        Some(-(v as i64))
    } else {
        Some(v as i64)
    }
}

/// The product of the integers from one to `n`.
pub open spec fn factorial_of(n: nat) -> nat
    decreases n,
{
    if n == 0 {
        1
    } else {
        n * factorial_of((n - 1) as nat)
    }
}

/// Factorials never shrink as their argument grows.
pub proof fn factorial_grows(i: nat, j: nat)
    requires
        i <= j,
    ensures
        1 <= factorial_of(i) <= factorial_of(j),
    decreases j,
{
    if j == 0 {
    } else if i == j {
        factorial_grows(0, (j - 1) as nat);
        assert(factorial_of(j) >= 1) by (nonlinear_arith)
            requires
                factorial_of(j) == j * factorial_of((j - 1) as nat),
                j >= 1,
                factorial_of((j - 1) as nat) >= 1,
        ;
    } else {
        factorial_grows(i, (j - 1) as nat);
        assert(factorial_of(j) >= factorial_of((j - 1) as nat)) by (nonlinear_arith)
            requires
                factorial_of(j) == j * factorial_of((j - 1) as nat),
                j >= 1,
                factorial_of((j - 1) as nat) >= 1,
        ;
    }
}

/// Twenty is the last argument whose factorial fits in an `i64`.
pub proof fn factorial_limit()
    ensures
        factorial_of(20) == 2432902008176640000,
        factorial_of(21) > i64::MAX,
{
    assert(factorial_of(0) == 1);
    assert(factorial_of(1) == 1);
    assert(factorial_of(2) == 2);
    assert(factorial_of(3) == 6);
    assert(factorial_of(4) == 24);
    assert(factorial_of(5) == 120);
    assert(factorial_of(6) == 720);
    assert(factorial_of(7) == 5040);
    assert(factorial_of(8) == 40320);
    assert(factorial_of(9) == 362880);
    assert(factorial_of(10) == 3628800);
    assert(factorial_of(11) == 39916800);
    assert(factorial_of(12) == 479001600);
    assert(factorial_of(13) == 6227020800);
    assert(factorial_of(14) == 87178291200);
    assert(factorial_of(15) == 1307674368000);
    assert(factorial_of(16) == 20922789888000);
    assert(factorial_of(17) == 355687428096000);
    assert(factorial_of(18) == 6402373705728000);
    assert(factorial_of(19) == 121645100408832000);
    assert(factorial_of(20) == 2432902008176640000);
    assert(factorial_of(21) == 51090942171709440000);
}

/// The factorial of `n`, or `None` where `n` is negative or the product does
/// not fit in an `i64`.
pub fn factorial(n: i64) -> (r: Option<i64>)
    ensures
        r == if 0 <= n && factorial_of(n as nat) <= i64::MAX {
            Some(factorial_of(n as nat) as i64)
        } else {
            None
        },
{
    if n < 0 {
        return None;
    }
    let mut f: i64 = 1;
    let mut i: i64 = 2;
    assert(factorial_of(1) == 1 && factorial_of(0) == 1) by {
        reveal_with_fuel(factorial_of, 2);
    }
    while i <= n
        invariant
            0 <= n,
            2 <= i <= 21,
            i <= n + 1 || n < 2,
            f == factorial_of((i - 1) as nat),
            n < 2 ==> f == factorial_of(n as nat),
        decreases n - i + 1,
    {
        proof {
            factorial_limit();
            factorial_grows(i as nat, n as nat);
            factorial_grows(i as nat, 21);
            assert(factorial_of(i as nat) == i * factorial_of((i - 1) as nat));
        }
        match f.checked_mul(i) {
            Some(p) => {
                f = p;
            },
            None => {
                return None;
            },
        }
        i = i + 1;
    }
    Some(f)
}

/// Whether the pattern `x` is integral and denotes the integer `i`.
pub open spec fn denotes(x: u64, i: int) -> bool {
    is_integral(x) && integer_value(x) == i
}

/// The absolute value of an integral pattern is not negative.
proof fn integer_magnitude_is_natural(x: u64)
    ensures
        0 <= significand(x) < 0x20_0000_0000_0000,
        0 <= integer_magnitude(x),
{
    let sg = significand(x);
    if scale(x) >= 1075 {
        let w = pow2((scale(x) - 1075) as nat);
        lemma_pow2_pos((scale(x) - 1075) as nat);
        assert(sg * w >= 0) by (nonlinear_arith)
            requires
                sg >= 0,
                w > 0,
        ;
    } else {
        lemma_pow2_pos((1075 - scale(x)) as nat);
    }
}

/// The absolute value of an integral pattern, scaled up by two to the 1075th,
/// is its significand scaled up by two to its scale.
proof fn integral_scaled(x: u64)
    requires
        is_integral(x),
    ensures
        integer_magnitude(x) * pow2(1075) == significand(x) * pow2(scale(x) as nat),
        1 <= scale(x) <= 2046,
{
    let sg = significand(x);
    let e = scale(x);
    let im = integer_magnitude(x);
    if e >= 1075 {
        let up = (e - 1075) as nat;
        lemma_pow2_adds(up, 1075);
        assert(im * pow2(1075) == sg * pow2(e as nat)) by (nonlinear_arith)
            requires
                im == sg * pow2(up),
                pow2(e as nat) == pow2(up) * pow2(1075),
        ;
    } else {
        let k = (1075 - e) as nat;
        lemma_pow2_pos(k);
        lemma_pow2_adds(k, e as nat);
        lemma_fundamental_div_mod(sg, pow2(k) as int);
        assert(im * pow2(1075) == sg * pow2(e as nat)) by (nonlinear_arith)
            requires
                sg == pow2(k) * im,
                pow2(1075) == pow2(k) * pow2(e as nat),
        ;
    }
}

/// An integer other than zero has at most one pattern.
pub proof fn pattern_is_unique(x: u64, y: u64, i: int)
    requires
        denotes(x, i),
        denotes(y, i),
        i != 0,
    ensures
        x == y,
{
    integer_magnitude_is_natural(x);
    integer_magnitude_is_natural(y);
    integral_scaled(x);
    integral_scaled(y);
    normal_significand(x);
    normal_significand(y);
    let sx = significand(x);
    let sy = significand(y);
    let ex = scale(x) as nat;
    let ey = scale(y) as nat;
    let m = integer_magnitude(x);
    assert(integer_magnitude(y) == m);
    lemma_pow2_pos(ex);
    lemma_pow2_pos(ey);
    if ex < ey {
        scaled_order(sx, sy, ex, ey);
    } else if ey < ex {
        scaled_order(sy, sx, ey, ex);
    }
    assert(sx == sy) by (nonlinear_arith)
        requires
            sx * pow2(ex) == sy * pow2(ex),
            pow2(ex) > 0,
    ;
    lemma_fundamental_div_mod(magnitude(x) as int, FRACTION_SPAN as int);
    lemma_fundamental_div_mod(magnitude(y) as int, FRACTION_SPAN as int);
}

/// An integral pattern that is not zero has a significand with its leading
/// bit set.
proof fn normal_significand(x: u64)
    requires
        is_integral(x),
        integer_magnitude(x) != 0,
    ensures
        exponent(x) >= 1,
        0x10_0000_0000_0000 <= significand(x) < 0x20_0000_0000_0000,
{
    if exponent(x) == 0 {
        let sg = significand(x);
        lemma2_to64_rest();
        lemma_pow2_strictly_increases(52, 1074);
        lemma_small_mod(sg as nat, pow2(1074));
        let d = pow2(1074) as int;
        assert(0int / d == 0) by (nonlinear_arith)
            requires
                d > 0,
        ;
    }
}

/// Significands with their leading bit set, scaled by different powers of
/// two, differ.
proof fn scaled_order(sx: int, sy: int, ex: nat, ey: nat)
    requires
        0x10_0000_0000_0000 <= sx < 0x20_0000_0000_0000,
        0x10_0000_0000_0000 <= sy < 0x20_0000_0000_0000,
        ex < ey,
    ensures
        sx * pow2(ex) < sy * pow2(ey),
{
    lemma_pow2_pos(ex);
    if ex + 1 < ey {
        lemma_pow2_strictly_increases(ex + 1, ey);
    }
    vstd::arithmetic::power2::lemma_pow2_unfold(ex + 1);
    assert(sx * pow2(ex) < sy * pow2(ey)) by (nonlinear_arith)
        requires
            sx < 0x20_0000_0000_0000,
            0x10_0000_0000_0000 <= sy,
            pow2(ey) >= 2 * pow2(ex),
            pow2(ex) > 0,
    ;
}

/// An integral pattern whose absolute value reaches two to the `h`, for `h`
/// above fifty-two, denotes a multiple of two to the `h - 52`: a significand
/// has fifty-three bits and no more.
proof fn large_integral_is_multiple(x: u64, h: nat)
    requires
        is_integral(x),
        h >= 53,
        integer_magnitude(x) >= pow2(h),
    ensures
        integer_magnitude(x) % (pow2((h - 52) as nat) as int) == 0,
{
    let sg = significand(x);
    let k = (h - 52) as nat;
    integer_magnitude_is_natural(x);
    lemma2_to64_rest();
    lemma_pow2_pos(k);
    if h > 53 {
        lemma_pow2_strictly_increases(53, h);
    }
    if scale(x) < 1075 {
        let d = pow2((1075 - scale(x)) as nat) as int;
        lemma_pow2_pos((1075 - scale(x)) as nat);
        assert(sg / d <= sg) by (nonlinear_arith)
            requires
                sg >= 0,
                d >= 1,
        ;
    } else {
        let j = (scale(x) - 1075) as nat;
        lemma_pow2_pos(j);
        if j < k {
            let low = (h - 53) as nat;
            if j < low {
                lemma_pow2_strictly_increases(j, low);
            }
            lemma_pow2_adds(53, low);
            assert(sg * pow2(j) < pow2(53) * pow2(low)) by (nonlinear_arith)
                requires
                    0 <= sg < pow2(53),
                    0 < pow2(j) <= pow2(low),
            ;
        } else {
            let rest = (j - k) as nat;
            lemma_pow2_adds(rest, k);
            lemma_pow2_pos(rest);
            assert(sg * pow2(j) == (sg * pow2(rest)) * pow2(k)) by (nonlinear_arith)
                requires
                    pow2(j) == pow2(rest) * pow2(k),
            ;
            lemma_mod_multiples_basic(sg * pow2(rest), pow2(k) as int);
        }
    }
}

/// What the strict conversion gives is the integer that the operand
/// denotes, but for the greatest `i64`, which stands for two to the
/// sixty-third: no double lies between that and the number next below it that
/// a double holds.
pub proof fn strict_integer_is_exact(x: u64)
    requires
        strict_integer(x).is_some(),
    ensures
        is_integral(x),
        strict_integer(x)->0 != i64::MAX ==> integer_value(x) == strict_integer(x)->0,
        strict_integer(x)->0 == i64::MAX ==> integer_value(x) == 0x8000_0000_0000_0000,
{
    if integer_value(x) == i64::MAX {
        integer_magnitude_is_natural(x);
        lemma2_to64();
        lemma2_to64_rest();
        assert(integer_magnitude(x) == 0x7FFF_FFFF_FFFF_FFFF);
        assert(pow2(62) == 0x4000_0000_0000_0000);
        large_integral_is_multiple(x, 62);
        assert(pow2(10) == 0x400);
        assert(0x7FFF_FFFF_FFFF_FFFFint % 0x400 == 0x3FF);
    }
}

/// The pattern of the double that equals the integer `i`, or `None` where no
/// double equals it. Zero is given without a sign.
pub fn exact_num(i: i64) -> (r: Option<Num>)
    ensures
        match r {
            Some(x) => denotes(x, i as int) && (i == 0 ==> x == ZERO),
            None => forall|x: u64| !denotes(x, i as int),
        },
{
    if i == 0 {
        proof {
            lemma_pow2_pos(1074);
            let d = pow2(1074) as int;
            assert(0int % d == 0 && 0int / d == 0) by (nonlinear_arith)
                requires
                    d > 0,
            ;
        }
        return Some(ZERO);
    }
    let negative = i < 0;
    let mag: u64 = if i == i64::MIN {
        SIGN_BIT
    } else if negative {
        (-i) as u64
    } else {
        i as u64
    };
    let mut h: u64 = 0;
    let mut p: u64 = 1;
    proof {
        lemma2_to64();
        lemma2_to64_rest();
    }
    while p <= mag / 2
        invariant
            1 <= mag <= 0x8000_0000_0000_0000,
            p == pow2(h as nat),
            1 <= p <= mag,
            h <= 63,
        decreases mag - p,
    {
        proof {
            vstd::arithmetic::power2::lemma_pow2_unfold((h + 1) as nat);
            if h >= 63 {
                lemma2_to64_rest();
                if h > 63 {
                    lemma_pow2_strictly_increases(63, h as nat);
                }
            }
        }
        p = p * 2;
        h = h + 1;
    }
    assert(mag < 2 * p);
    let e: u64 = 1023 + h;
    let s: u64;
    if h <= 52 {
        let up: u64 = 52 - h;
        proof {
            lemma2_to64_rest();
            lemma_pow2_adds(h as nat, up as nat);
            lemma_pow2_pos(up as nat);
            if up < 52 {
                lemma_pow2_strictly_increases(up as nat, 52);
            }
            lemma_u64_shl_is_mul(1, up);
            assert(pow2(52) <= mag * pow2(up as nat) < 2 * pow2(52)) by (nonlinear_arith)
                requires
                    pow2(h as nat) <= mag < 2 * pow2(h as nat),
                    pow2(h as nat) * pow2(up as nat) == pow2(52),
                    pow2(up as nat) > 0,
            ;
        }
        let q: u64 = 1u64 << up;
        s = mag * q;
        proof {
            lemma_mod_multiples_basic(mag as int, q as int);
            lemma_div_by_multiple(mag as int, q as int);
        }
    } else {
        let k: u64 = h - 52;
        proof {
            lemma2_to64_rest();
            lemma_pow2_adds(52, k as nat);
            lemma_pow2_pos(k as nat);
            lemma_pow2_strictly_increases(k as nat, 64);
            lemma_u64_shl_is_mul(1, k);
        }
        let q: u64 = 1u64 << k;
        if mag % q != 0 {
            proof {
                assert forall|x: u64| !denotes(x, i as int) by {
                    if denotes(x, i as int) {
                        integer_magnitude_is_natural(x);
                        assert(integer_magnitude(x) == mag);
                        large_integral_is_multiple(x, h as nat);
                    }
                }
            }
            return None;
        }
        s = mag / q;
        proof {
            lemma_fundamental_div_mod(mag as int, q as int);
            assert(pow2(52) <= s < 2 * pow2(52)) by (nonlinear_arith)
                requires
                    pow2(52) * q <= mag < 2 * (pow2(52) * q),
                    mag == q * s,
                    q > 0,
            ;
        }
    }
    let m: u64 = s - FRACTION_SPAN;
    let bits: u64 = e * FRACTION_SPAN + m;
    let x: u64 = if negative {
        bits + SIGN_BIT
    } else {
        bits
    };
    proof {
        assert(magnitude(x) == bits);
        lemma_fundamental_div_mod_converse(bits as int, FRACTION_SPAN as int, e as int, m as int);
        assert(exponent(x) == e);
        assert(fraction(x) == m);
        assert(significand(x) == s);
        assert(scale(x) == e);
        if h > 52 {
            assert(s * pow2((h - 52) as nat) == mag) by (nonlinear_arith)
                requires
                    mag == pow2((h - 52) as nat) * s,
            ;
            assert(scale(x) - 1075 == h - 52);
        } else {
            assert(1075 - scale(x) == 52 - h);
            assert(s == mag * pow2((52 - h) as nat));
            assert((s as int) % (pow2((52 - h) as nat) as int) == 0);
            assert((s as int) / (pow2((52 - h) as nat) as int) == mag);
            if h == 52 {
                lemma2_to64();
                assert(s * pow2(0) == mag) by (nonlinear_arith)
                    requires
                        s == mag * pow2(0),
                        pow2(0) == 1,
                ;
            }
            assert(integer_magnitude(x) == mag);
        }
        assert(integer_magnitude(x) == mag);
    }
    Some(x)
}

} // verus!
