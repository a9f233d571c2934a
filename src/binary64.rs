//! IEEE 754 binary64 numbers held as their bit patterns, and the two
//! conversions between them and `i64` that casts perform: truncation toward
//! zero with saturation, and rounding to the nearest value, ties to even.

use vstd::arithmetic::div_mod::{lemma_fundamental_div_mod, lemma_fundamental_div_mod_converse};
use vstd::arithmetic::power2::{
    lemma2_to64, lemma2_to64_rest, lemma_pow2_adds, lemma_pow2_pos,
    lemma_pow2_strictly_increases, pow2,
};
use vstd::prelude::*;

verus! {

/// 2^52: one unit of the exponent field.
pub const FRACTION_UNIT: u64 = 4503599627370496;

/// 2^53: the bound of a normalised significand.
pub const SIGNIFICAND_BOUND: u64 = 9007199254740992;

/// 2^63: the sign bit.
pub const SIGN_BIT: u64 = 9223372036854775808;

/// The exponent field value of infinities and NaNs.
pub const EXPONENT_SPECIAL: u64 = 2047;

/// The exponent bias.
pub const EXPONENT_BIAS: u64 = 1023;

pub open spec fn exponent_field(b: u64) -> nat {
    ((b / FRACTION_UNIT) % 2048) as nat
}

pub open spec fn fraction_field(b: u64) -> nat {
    (b % FRACTION_UNIT) as nat
}

pub open spec fn sign_negative(b: u64) -> bool {
    b >= SIGN_BIT
}

pub open spec fn is_nan(b: u64) -> bool {
    exponent_field(b) == 2047 && fraction_field(b) != 0
}

pub open spec fn is_infinite(b: u64) -> bool {
    exponent_field(b) == 2047 && fraction_field(b) == 0
}

/// Zero of either sign.
pub open spec fn is_zero(b: u64) -> bool {
    b == 0 || b == SIGN_BIT
}

/// The integer significand of a finite number.
pub open spec fn significand(b: u64) -> nat {
    if exponent_field(b) == 0 {
        fraction_field(b)
    } else {
        fraction_field(b) + FRACTION_UNIT as nat
    }
}

/// The power of two that scales the significand of a finite number.
pub open spec fn scale(b: u64) -> int {
    if exponent_field(b) == 0 {
        -1074
    } else {
        exponent_field(b) - 1075
    }
}

/// The magnitude of a finite number, rounded toward zero.
pub open spec fn truncated_magnitude(b: u64) -> nat {
    if scale(b) >= 0 {
        significand(b) * pow2(scale(b) as nat)
    } else {
        significand(b) / pow2((-scale(b)) as nat)
    }
}

pub open spec fn clamp_i64(v: int) -> i64 {
    if v > i64::MAX {
        i64::MAX
    } else if v < i64::MIN {
        i64::MIN
    } else {
        v as i64
    }
}

/// What the cast of a binary64 number to `i64` yields: the value rounded
/// toward zero and saturated to the range of `i64`; NaN gives zero.
pub open spec fn truncate_spec(b: u64) -> i64 {
    if is_nan(b) {
        0
    } else if is_infinite(b) {
        if sign_negative(b) {
            i64::MIN
        } else {
            i64::MAX
        }
    } else if sign_negative(b) {
        clamp_i64(-truncated_magnitude(b))
    } else {
        clamp_i64(truncated_magnitude(b) as int)
    }
}

pub fn pow2_u64(e: u64) -> (r: u64)
    requires
        e < 64,
    ensures
        r as nat == pow2(e as nat),
{
    let mut r: u64 = 1;
    let mut i: u64 = 0;
    proof {
        lemma2_to64();
    }
    while i < e
        invariant
            i <= e < 64,
            r as nat == pow2(i as nat),
        decreases e - i,
    {
        proof {
            lemma2_to64();
            lemma_pow2_adds(i as nat, 1);
            lemma_pow2_strictly_increases((i + 1) as nat, 64);
        }
        r = r * 2;
        i = i + 1;
    }
    r
}

proof fn lemma_fields(b: u64)
    ensures
        b as int == (if sign_negative(b) { SIGN_BIT as int } else { 0 }) + exponent_field(b) * FRACTION_UNIT
            + fraction_field(b),
        fraction_field(b) < FRACTION_UNIT,
        exponent_field(b) < 2048,
{
    lemma_fundamental_div_mod(b as int, FRACTION_UNIT as int);
    let hi = b / FRACTION_UNIT;
    lemma_fundamental_div_mod(hi as int, 2048);
    assert(hi < 4096) by (nonlinear_arith)
        requires hi == b / FRACTION_UNIT, FRACTION_UNIT == 4503599627370496;
    assert(sign_negative(b) <==> hi >= 2048) by (nonlinear_arith)
        requires hi == b / FRACTION_UNIT, FRACTION_UNIT == 4503599627370496, SIGN_BIT == 9223372036854775808;
}

/// Rounds toward zero and saturates, as `as i64` does on a binary64 number.
pub fn truncate_to_i64(b: u64) -> (r: i64)
    ensures
        r == truncate_spec(b),
{
    let e: u64 = (b / FRACTION_UNIT) % 2048;
    let f: u64 = b % FRACTION_UNIT;
    let negative = b >= SIGN_BIT;
    proof {
        lemma_fields(b);
        lemma2_to64();
        lemma2_to64_rest();
    }
    if e == EXPONENT_SPECIAL {
        if f != 0 {
            return 0;
        } else if negative {
            return i64::MIN;
        } else {
            return i64::MAX;
        }
    }
    let m: u64 = if e == 0 { f } else { f + FRACTION_UNIT };
    assert(m == significand(b));
    if e >= 1075 {
        let s: u64 = e - 1075;
        if s >= 11 {
            proof {
                if s > 11 {
                    lemma_pow2_strictly_increases(11, s as nat);
                }
                assert(m * pow2(s as nat) >= FRACTION_UNIT * 2048) by (nonlinear_arith)
                    requires m >= FRACTION_UNIT, pow2(s as nat) >= 2048;
            }
            return if negative { i64::MIN } else { i64::MAX };
        }
        let p = pow2_u64(s);
        proof {
            if s < 10 {
                lemma_pow2_strictly_increases(s as nat, 10);
            }
            assert(m * p < SIGN_BIT) by (nonlinear_arith)
                requires m < SIGNIFICAND_BOUND, p <= 1024, SIGNIFICAND_BOUND == 9007199254740992, SIGN_BIT == 9223372036854775808;
        }
        let mag: u64 = m * p;
        if negative {
            -(mag as i64)
        } else {
            mag as i64
        }
    } else {
        let s: u64 = if e == 0 { 1074 } else { 1075 - e };
        let mag: u64 = if s >= 54 {
            proof {
                lemma_pow2_strictly_increases(53, s as nat);
                vstd::arithmetic::div_mod::lemma_basic_div(m as int, pow2(s as nat) as int);
            }
            0
        } else {
            let p = pow2_u64(s);
            proof {
                lemma_pow2_pos(s as nat);
                vstd::arithmetic::div_mod::lemma_div_is_ordered_by_denominator(m as int, 1, p as int);
            }
            m / p
        };
        if negative {
            -(mag as i64)
        } else {
            mag as i64
        }
    }
}

/// The position of the highest set bit of a positive number.
pub open spec fn floor_log2(m: nat) -> nat
    decreases m,
{
    if m <= 1 {
        0
    } else {
        1 + floor_log2(m / 2)
    }
}

/// The significand of the binary64 number nearest to the positive integer
/// `m`, ties to even, scaled so that it is at least 2^52; it reaches 2^53
/// only where rounding carries into the next power of two.
pub open spec fn nearest_significand(m: nat) -> nat {
    let k = floor_log2(m);
    if k <= 52 {
        m * pow2((52 - k) as nat)
    } else {
        let d = pow2((k - 52) as nat);
        let q = m / d;
        let rem = m % d;
        if rem * 2 > d || (rem * 2 == d && q % 2 == 1) {
            q + 1
        } else {
            q
        }
    }
}

pub open spec fn abs(i: int) -> nat {
    if i < 0 {
        (-i) as nat
    } else {
        i as nat
    }
}

/// The bits of the binary64 number nearest to `i`, ties to even, as the
/// cast `i as f64` yields; zero gives positive zero.
pub open spec fn round_spec(i: int) -> u64 {
    if i == 0 {
        0
    } else {
        let m = abs(i);
        let k = floor_log2(m);
        let sig = nearest_significand(m);
        let sign: int = if i < 0 { SIGN_BIT as int } else { 0 };
        if sig == SIGNIFICAND_BOUND {
            (sign + (1024 + k) * FRACTION_UNIT) as u64
        } else {
            (sign + (1023 + k) * FRACTION_UNIT + (sig - FRACTION_UNIT)) as u64
        }
    }
}

proof fn lemma_floor_log2(m: nat, k: nat)
    requires
        pow2(k) <= m < pow2(k + 1),
    ensures
        floor_log2(m) == k,
    decreases k,
{
    lemma2_to64();
    if k == 0 {
    } else {
        lemma_pow2_adds((k - 1) as nat, 1);
        lemma_pow2_adds(k, 1);
        assert(pow2((k - 1) as nat) <= m / 2 < pow2(k));
        lemma_floor_log2(m / 2, (k - 1) as nat);
    }
}

/// Rounds to the nearest binary64 number, ties to even, as `as f64` does on
/// an `i64`.
pub fn round_from_i64(i: i64) -> (r: u64)
    ensures
        r == round_spec(i as int),
{
    if i == 0 {
        return 0;
    }
    proof {
        lemma2_to64();
        lemma2_to64_rest();
    }
    let negative = i < 0;
    let m: u64 = if i == i64::MIN {
        SIGN_BIT
    } else if negative {
        (-i) as u64
    } else {
        i as u64
    };
    assert(m as nat == abs(i as int));
    let mut k: u64 = 0;
    let mut p: u64 = 1;
    while p <= m / 2
        invariant
            p as nat == pow2(k as nat),
            1 <= p <= m,
            m <= SIGN_BIT,
            k <= 63,
        decreases m - p,
    {
        proof {
            lemma2_to64();
            lemma_pow2_adds(k as nat, 1);
            if k == 63 {
                assert(false);
            }
        }
        p = p * 2;
        k = k + 1;
    }
    proof {
        lemma_pow2_adds(k as nat, 1);
        lemma_floor_log2(m as nat, k as nat);
    }
    let sign: u64 = if negative { SIGN_BIT } else { 0 };
    let sig: u64 = if k <= 52 {
        let mult = FRACTION_UNIT / p;
        proof {
            vstd::arithmetic::power2::lemma_pow2_subtracts(k as nat, 52);
            lemma_pow2_adds((52 - k) as nat, k as nat);
            assert(FRACTION_UNIT <= m * mult < SIGNIFICAND_BOUND) by (nonlinear_arith)
                requires p <= m < 2 * p, mult * p == FRACTION_UNIT, SIGNIFICAND_BOUND == 2 * FRACTION_UNIT, mult > 0;
        }
        m * mult
    } else {
        let d = p / FRACTION_UNIT;
        proof {
            vstd::arithmetic::power2::lemma_pow2_subtracts(52, k as nat);
            lemma_pow2_adds((k - 52) as nat, 52);
        }
        let q = m / d;
        let rem = m % d;
        proof {
            lemma_fundamental_div_mod(m as int, d as int);
            assert(FRACTION_UNIT <= q < SIGNIFICAND_BOUND) by (nonlinear_arith)
                requires
                    m == d * q + rem, 0 <= rem < d, d * FRACTION_UNIT == p, p <= m, m < 2 * p,
                    SIGNIFICAND_BOUND == 2 * FRACTION_UNIT, d > 0;
        }
        if rem * 2 > d || (rem * 2 == d && q % 2 == 1) {
            q + 1
        } else {
            q
        }
    };
    assert(sig == nearest_significand(m as nat));
    if sig == SIGNIFICAND_BOUND {
        sign + (1024 + k) * FRACTION_UNIT
    } else {
        sign + (1023 + k) * FRACTION_UNIT + (sig - FRACTION_UNIT)
    }
}

/// Equality of two binary64 numbers: NaN equals nothing, and the two zeros
/// are equal.
pub open spec fn float_equal(a: u64, b: u64) -> bool {
    !is_nan(a) && !is_nan(b) && (a == b || (is_zero(a) && is_zero(b)))
}

pub fn float_is_nan(b: u64) -> (r: bool)
    ensures
        r == is_nan(b),
{
    (b / FRACTION_UNIT) % 2048 == EXPONENT_SPECIAL
        && b % FRACTION_UNIT != 0
}

pub fn float_is_zero(b: u64) -> (r: bool)
    ensures
        r == is_zero(b),
{
    b == 0 || b == SIGN_BIT
}

pub fn float_eq(a: u64, b: u64) -> (r: bool)
    ensures
        r == float_equal(a, b),
{
    !float_is_nan(a) && !float_is_nan(b) && (a == b || (float_is_zero(a) && float_is_zero(b)))
}

/// Whether the binary64 format holds `i` exactly.
pub open spec fn exactly_representable(i: int) -> bool {
    let m = abs(i);
    let k = floor_log2(m);
    k <= 52 || m % pow2((k - 52) as nat) == 0
}

proof fn lemma_floor_log2_bounds(m: nat)
    requires
        m >= 1,
    ensures
        pow2(floor_log2(m)) <= m < pow2(floor_log2(m) + 1),
    decreases m,
{
    lemma2_to64();
    if m > 1 {
        lemma_floor_log2_bounds(m / 2);
        lemma_pow2_adds(floor_log2(m / 2), 1);
        lemma_pow2_adds(floor_log2(m / 2) + 1, 1);
    }
}

proof fn lemma_encode(negative: bool, e: nat, f: nat)
    requires
        e < 2047,
        f < FRACTION_UNIT,
    ensures
        ({
            let b = ((if negative { SIGN_BIT as int } else { 0 }) + e * FRACTION_UNIT + f) as u64;
            &&& exponent_field(b) == e
            &&& fraction_field(b) == f
            &&& sign_negative(b) == negative
            &&& b as int == (if negative { SIGN_BIT as int } else { 0 }) + e * FRACTION_UNIT + f
        }),
{
    let hi: int = (if negative { 2048int } else { 0int }) + e;
    let x: int = (if negative { SIGN_BIT as int } else { 0 }) + e * FRACTION_UNIT + f;
    assert(x == hi * FRACTION_UNIT + f) by (nonlinear_arith)
        requires
            hi == (if negative { 2048int } else { 0int }) + e,
            x == (if negative { SIGN_BIT as int } else { 0 }) + e * FRACTION_UNIT + f,
            SIGN_BIT == 2048 * FRACTION_UNIT;
    assert(0 <= x < 0x1_0000_0000_0000_0000) by (nonlinear_arith)
        requires
            x == hi * FRACTION_UNIT + f, 0 <= hi < 4096, 0 <= f < FRACTION_UNIT,
            FRACTION_UNIT == 4503599627370496;
    lemma_fundamental_div_mod_converse(x, FRACTION_UNIT as int, hi, f as int);
    lemma_fundamental_div_mod_converse(hi, 2048, if negative { 1int } else { 0int }, e as int);
}

/// Converting an exactly representable integer to binary64 and truncating
/// the result gives the integer back; so does `i64::MAX`, whose nearest
/// binary64 number 2^63 saturates to it.
pub proof fn lemma_truncate_round(i: i64)
    requires
        exactly_representable(i as int) || i == i64::MAX,
    ensures
        truncate_spec(round_spec(i as int)) == i,
{
    lemma2_to64();
    lemma2_to64_rest();
    if i == 0 {
        lemma_pow2_pos(1074);
        assert(truncated_magnitude(0) == 0);
        return;
    }
    let m = abs(i as int);
    let k = floor_log2(m);
    lemma_floor_log2_bounds(m);
    assert(k <= 63) by {
        if k > 63 {
            lemma_pow2_strictly_increases(64, k);
        }
    }
    let negative = i < 0;
    let sig = nearest_significand(m);
    let b = round_spec(i as int);
    if k <= 52 {
        let mult = pow2((52 - k) as nat);
        lemma_pow2_adds((52 - k) as nat, k);
        lemma_pow2_adds(k, 1);
        assert(FRACTION_UNIT <= m * mult < SIGNIFICAND_BOUND) by (nonlinear_arith)
            requires
                pow2(k) <= m < pow2(k + 1), pow2(k + 1) == 2 * pow2(k), mult * pow2(k) == FRACTION_UNIT,
                SIGNIFICAND_BOUND == 2 * FRACTION_UNIT;
        lemma_encode(negative, 1023 + k, (sig - FRACTION_UNIT) as nat);
        assert(significand(b) == m * mult);
        assert(scale(b) == k - 52);
        if k < 52 {
            lemma_pow2_pos((52 - k) as nat);
            vstd::arithmetic::div_mod::lemma_div_by_multiple(m as int, mult as int);
            assert(truncated_magnitude(b) == (m * mult) / mult);
            assert((m * mult) / mult == m);
        } else {
            assert(mult == 1);
            assert(truncated_magnitude(b) == sig * pow2(0));
            assert(sig == m * mult);
            assert(m * mult == m) by (nonlinear_arith)
                requires mult == 1;
        }
        assert(truncated_magnitude(b) == m);
    } else {
        let d = pow2((k - 52) as nat);
        lemma_pow2_adds((k - 52) as nat, 52);
        lemma_pow2_adds(k, 1);
        lemma_pow2_pos((k - 52) as nat);
        let q = m / d;
        let rem = m % d;
        lemma_fundamental_div_mod(m as int, d as int);
        assert(FRACTION_UNIT <= q < SIGNIFICAND_BOUND) by (nonlinear_arith)
            requires
                m == d * q + rem, 0 <= rem < d, d * FRACTION_UNIT == pow2(k), pow2(k) <= m,
                m < 2 * pow2(k), SIGNIFICAND_BOUND == 2 * FRACTION_UNIT, d > 0;
        if i == i64::MAX {
            assert(k == 62) by {
                lemma_floor_log2(m, 62);
            }
            assert(d == 1024);
            assert(q == SIGNIFICAND_BOUND - 1 && rem == 1023) by {
                lemma_fundamental_div_mod_converse(m as int, 1024, SIGNIFICAND_BOUND - 1, 1023);
            }
            assert(sig == SIGNIFICAND_BOUND);
            lemma_encode(false, 1024 + k, 0);
            assert(exponent_field(b) == 1086);
            assert(truncated_magnitude(b) == FRACTION_UNIT * pow2(11));
        } else {
            assert(rem == 0);
            assert(sig == q);
            lemma_encode(negative, 1023 + k, (q - FRACTION_UNIT) as nat);
            assert(significand(b) == q);
            assert(scale(b) == k - 52);
            assert(truncated_magnitude(b) == q * d);
            assert(q * d == m) by (nonlinear_arith)
                requires m == d * q + rem, rem == 0;
        }
    }
}

proof fn lemma_round_max()
    ensures
        round_spec(i64::MAX as int) == (1086 * FRACTION_UNIT) as u64,
{
    lemma2_to64();
    lemma2_to64_rest();
    let m = abs(i64::MAX as int);
    lemma_floor_log2(m, 62);
    assert(pow2(10) == 1024);
    lemma_fundamental_div_mod_converse(m as int, 1024, SIGNIFICAND_BOUND - 1, 1023);
    assert(nearest_significand(m) == SIGNIFICAND_BOUND);
}

/// Rounding `±s * 2^(k - 52)`, for a normalised significand `s`, gives the
/// binary64 number with exponent `k` and significand `s`.
proof fn lemma_round_scaled(negative: bool, s: nat, k: nat)
    requires
        FRACTION_UNIT <= s < SIGNIFICAND_BOUND,
        53 <= k <= 63,
        s * pow2((k - 52) as nat) <= SIGN_BIT,
    ensures
        ({
            let v = s * pow2((k - 52) as nat);
            round_spec(if negative { -v } else { v as int }) == ((if negative {
                SIGN_BIT as int
            } else {
                0
            }) + (1023 + k) * FRACTION_UNIT + (s - FRACTION_UNIT)) as u64
        }),
{
    lemma2_to64();
    lemma2_to64_rest();
    let d = pow2((k - 52) as nat);
    let v = s * d;
    lemma_pow2_pos((k - 52) as nat);
    lemma_pow2_adds((k - 52) as nat, 52);
    assert(((k - 52) as nat + 52) as nat == k);
    assert(d * FRACTION_UNIT == pow2(k));
    lemma_pow2_adds(k, 1);
    assert(pow2(k) <= v < pow2(k + 1)) by (nonlinear_arith)
        requires
            v == s * d, FRACTION_UNIT <= s < SIGNIFICAND_BOUND, d * FRACTION_UNIT == pow2(k),
            pow2(k + 1) == 2 * pow2(k), SIGNIFICAND_BOUND == 2 * FRACTION_UNIT, d > 0;
    lemma_floor_log2(v, k);
    lemma_fundamental_div_mod_converse(v as int, d as int, s as int, 0);
    let i: int = if negative { -v } else { v as int };
    assert(abs(i) == v);
    assert(nearest_significand(v) == s);
}

/// Converting any integer to binary64 and truncating the result gives an
/// integer that converts back to the very same binary64 number.
pub proof fn lemma_round_truncate_round(i: i64)
    ensures
        round_spec(truncate_spec(round_spec(i as int)) as int) == round_spec(i as int),
{
    if exactly_representable(i as int) || i == i64::MAX {
        lemma_truncate_round(i);
        return;
    }
    lemma2_to64();
    lemma2_to64_rest();
    let m = abs(i as int);
    let k = floor_log2(m);
    lemma_floor_log2_bounds(m);
    assert(k <= 62) by {
        if k >= 63 {
            if k > 63 {
                lemma_pow2_strictly_increases(63, k);
            }
            assert(m == SIGN_BIT);
            lemma_floor_log2(m, 63);
            assert(m % pow2(11) == 0);
        }
    }
    let negative = i < 0;
    let sig = nearest_significand(m);
    let b = round_spec(i as int);
    let d = pow2((k - 52) as nat);
    lemma_pow2_adds((k - 52) as nat, 52);
    lemma_pow2_adds(k, 1);
    lemma_pow2_pos((k - 52) as nat);
    let q = m / d;
    let rem = m % d;
    lemma_fundamental_div_mod(m as int, d as int);
    assert(FRACTION_UNIT <= q < SIGNIFICAND_BOUND) by (nonlinear_arith)
        requires
            m == d * q + rem, 0 <= rem < d, d * FRACTION_UNIT == pow2(k), pow2(k) <= m,
            m < 2 * pow2(k), SIGNIFICAND_BOUND == 2 * FRACTION_UNIT, d > 0;
    if sig == SIGNIFICAND_BOUND {
        let d2 = pow2((k + 1 - 52) as nat);
        lemma_pow2_adds((k - 52) as nat, 1);
        assert(d2 == 2 * d);
        lemma_encode(negative, 1024 + k, 0);
        assert(significand(b) == FRACTION_UNIT);
        assert(scale(b) == k + 1 - 52);
        assert(truncated_magnitude(b) == FRACTION_UNIT * d2);
        assert(FRACTION_UNIT * d2 == pow2(k + 1));
        if k == 62 {
            if negative {
                assert(truncate_spec(b) == i64::MIN);
                lemma_round_scaled(true, FRACTION_UNIT as nat, 63);
            } else {
                assert(truncate_spec(b) == i64::MAX);
                lemma_round_max();
            }
        } else {
            lemma_pow2_strictly_increases(k + 1, 63);
            lemma_round_scaled(negative, FRACTION_UNIT as nat, k + 1);
            assert(truncate_spec(b) as int == (if negative { -(FRACTION_UNIT * d2) } else { (FRACTION_UNIT * d2) as int }));
        }
    } else {
        lemma_encode(negative, 1023 + k, (sig - FRACTION_UNIT) as nat);
        assert(significand(b) == sig);
        assert(scale(b) == k - 52);
        assert(truncated_magnitude(b) == sig * d);
        assert(sig * d < pow2(k + 1)) by (nonlinear_arith)
            requires sig < SIGNIFICAND_BOUND, d * FRACTION_UNIT == pow2(k), pow2(k + 1) == 2 * pow2(k),
                SIGNIFICAND_BOUND == 2 * FRACTION_UNIT, d > 0;
        lemma_pow2_strictly_increases(k + 1, 64);
        if k < 62 {
            lemma_pow2_strictly_increases(k + 1, 63);
        }
        lemma_round_scaled(negative, sig, k);
        assert(truncate_spec(b) as int == (if negative { -(sig * d) } else { (sig * d) as int }));
    }
}

} // verus!
