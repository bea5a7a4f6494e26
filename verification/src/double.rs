//! Double-precision numbers, held by their IEEE 754 bit patterns.
//!
//! The library stores, compares and widens measurements; it does no arithmetic on them. All of
//! that is a matter of the bits.

use vstd::arithmetic::power2::{
    lemma2_to64, lemma2_to64_rest, lemma_pow2_adds, lemma_pow2_pos, lemma_pow2_strictly_increases,
    lemma_pow2_subtracts, lemma_pow2_unfold, pow2,
};
use vstd::prelude::*;

verus! {

/// A binary64 number.
#[derive(Clone, Copy, Debug, PartialEq, Eq, Structural)]
pub struct Double {
    pub bits: u64,
}

/// Weight of the sign bit of a binary64 number.
pub const SIGN_UNIT: u64 = 0x8000_0000_0000_0000;

/// Weight of the lowest exponent bit of a binary64 number; the fraction lies below it.
pub const EXPONENT_UNIT: u64 = 0x10_0000_0000_0000;

/// The largest exponent field of a binary64 number, which marks infinities and NaNs.
pub const EXPONENT_TOP: u64 = 0x7ff;

/// The bit that tells a quiet NaN.
pub const QUIET_UNIT: u64 = 0x8_0000_0000_0000;

/// A binary64 bit pattern from its three fields.
pub open spec fn compose(sign: int, exponent: int, fraction: int) -> int {
    sign * SIGN_UNIT + exponent * EXPONENT_UNIT + fraction
}

impl Double {
    /// Whether the number is negative (or a negative zero, or a NaN with the sign bit set).
    pub open spec fn negative(self) -> bool {
        self.bits >= SIGN_UNIT
    }

    /// The bit pattern without the sign.
    pub open spec fn magnitude(self) -> int {
        self.bits as int % SIGN_UNIT as int
    }

    /// The exponent field.
    pub open spec fn exponent(self) -> int {
        self.magnitude() / EXPONENT_UNIT as int
    }

    /// The fraction field.
    pub open spec fn fraction(self) -> int {
        self.magnitude() % EXPONENT_UNIT as int
    }

    pub open spec fn nan(self) -> bool {
        self.exponent() == EXPONENT_TOP && self.fraction() != 0
    }

    /// Neither infinite nor a NaN.
    pub open spec fn finite(self) -> bool {
        self.exponent() != EXPONENT_TOP
    }

    /// An integer that orders the numbers that are no NaN; both zeros have the same.
    pub open spec fn order(self) -> int {
        if self.negative() {
            -self.magnitude()
        } else {
            self.magnitude()
        }
    }

    /// The number is strictly above `other`; a NaN is above nothing and nothing is above it.
    pub open spec fn above(self, other: Double) -> bool {
        !self.nan() && !other.nan() && self.order() > other.order()
    }

    /// The whole number that, times a power of two, is the number's magnitude.
    pub open spec fn significand(self) -> int {
        if self.exponent() == 0 {
            self.fraction()
        } else {
            self.fraction() + EXPONENT_UNIT
        }
    }

    /// The exponent of that power of two.
    pub open spec fn scale(self) -> int {
        if self.exponent() == 0 {
            -1074
        } else {
            self.exponent() - 1075
        }
    }

    /// The positive zero.
    pub fn zero() -> (r: Double)
        ensures
            r.bits == 0,
    {
        Double { bits: 0 }
    }

    /// Whether the number is neither infinite nor a NaN.
    pub fn is_finite(self) -> (r: bool)
        ensures
            r == self.finite(),
    {
        self.bits % SIGN_UNIT / EXPONENT_UNIT != EXPONENT_TOP
    }

    /// Whether the number is a NaN.
    pub fn is_nan(self) -> (r: bool)
        ensures
            r == self.nan(),
    {
        self.bits % SIGN_UNIT / EXPONENT_UNIT == EXPONENT_TOP && self.bits % SIGN_UNIT
            % EXPONENT_UNIT != 0
    }

    /// The comparison `self > other` of IEEE 754.
    pub fn greater_than(self, other: Double) -> (r: bool)
        ensures
            r == self.above(other),
    {
        if self.is_nan() || other.is_nan() {
            return false;
        }
        let a: u64 = self.bits % SIGN_UNIT;
        let b: u64 = other.bits % SIGN_UNIT;
        if self.bits >= SIGN_UNIT {
            other.bits >= SIGN_UNIT && a < b
        } else if other.bits >= SIGN_UNIT {
            a > 0 || b > 0
        } else {
            a > b
        }
    }
}

// ---------------------------------------------------------------------------------------------
// Widening
// ---------------------------------------------------------------------------------------------
/// A narrower IEEE 754 format.
#[derive(Clone, Copy, Debug, PartialEq, Eq, Structural)]
pub enum Narrow {
    /// binary16, with ten fraction bits.
    Half,
    /// binary32, with twenty-three fraction bits.
    Single,
}

impl Narrow {
    /// Weight of the lowest exponent bit.
    pub open spec fn unit(self) -> int {
        match self {
            Narrow::Half => 0x400,
            Narrow::Single => 0x80_0000,
        }
    }

    /// The exponent bias.
    pub open spec fn bias(self) -> int {
        match self {
            Narrow::Half => 15,
            Narrow::Single => 127,
        }
    }

    /// The largest exponent field.
    pub open spec fn top(self) -> int {
        match self {
            Narrow::Half => 31,
            Narrow::Single => 255,
        }
    }

    /// How many fraction bits the format lacks to the 52 of binary64.
    pub open spec fn lacking(self) -> nat {
        match self {
            Narrow::Half => 42,
            Narrow::Single => 29,
        }
    }
}

/// Doubles `m` until it reaches `unit`, taking one off `e` each time.
pub open spec fn normalized(m: int, e: int, unit: int) -> (int, int)
    decreases 2 * unit - m,
    when m > 0
{
    if m >= unit {
        (m, e)
    } else {
        normalized(2 * m, e - 1, unit)
    }
}

/// The binary64 pattern of the number with the given sign, exponent field and fraction field in the
/// format `f`. Zeros, infinities and NaN payloads are kept, a NaN becomes quiet, and a number below
/// the normal range of `f` becomes a normal number.
pub open spec fn widened(f: Narrow, sign: int, exponent: int, fraction: int) -> int {
    if exponent == f.top() {
        if fraction == 0 {
            compose(sign, EXPONENT_TOP as int, 0)
        } else if fraction >= f.unit() / 2 {
            compose(sign, EXPONENT_TOP as int, fraction * pow2(f.lacking()))
        } else {
            compose(sign, EXPONENT_TOP as int, QUIET_UNIT + fraction * pow2(f.lacking()))
        }
    } else if exponent == 0 && fraction == 0 {
        compose(sign, 0, 0)
    } else if exponent == 0 {
        let (m, e) = normalized(fraction, 1, f.unit());
        compose(sign, e - f.bias() + 1023, (m - f.unit()) * pow2(f.lacking()))
    } else {
        compose(sign, exponent - f.bias() + 1023, fraction * pow2(f.lacking()))
    }
}

/// The widening of a bit pattern of the format `f`.
pub open spec fn widened_bits(f: Narrow, bits: int) -> int {
    let half = (f.top() + 1) * f.unit();
    widened(f, bits / half, bits % half / f.unit(), bits % half % f.unit())
}

/// Normalizing multiplies by a power of two, which the exponent takes up.
proof fn normalized_shape(m: int, e: int, unit: int) -> (j: nat)
    requires
        0 < m,
        0 < unit,
        m < 2 * unit,
    ensures
        normalized(m, e, unit) == (m * pow2(j), e - j),
        unit <= m * pow2(j) < 2 * unit,
    decreases 2 * unit - m,
{
    if m >= unit {
        lemma2_to64();
        0
    } else {
        let i = normalized_shape(2 * m, e - 1, unit);
        lemma_pow2_unfold(i + 1);
        assert(2 * m * pow2(i) == m * pow2((i + 1) as nat)) by (nonlinear_arith)
            requires
                pow2((i + 1) as nat) == 2 * pow2(i),
        ;
        (i + 1) as nat
    }
}

fn normalize(fraction: u64, unit: u64) -> (r: (u64, i64))
    requires
        0 < fraction < unit <= 0x80_0000,
    ensures
        (r.0 as int, r.1 as int) == normalized(fraction as int, 1, unit as int),
        unit <= r.0 < 2 * unit,
        -23 <= r.1 <= 1,
{
    let mut m: u64 = fraction;
    let mut e: i64 = 1;
    proof {
        lemma2_to64();
    }
    while m < unit
        invariant
            0 < m < 2 * unit,
            unit <= 0x80_0000,
            -22 <= e <= 1,
            m >= pow2((1 - e) as nat),
            normalized(fraction as int, 1, unit as int) == normalized(m as int, e as int, unit as int),
        decreases 2 * unit - m,
    {
        proof {
            lemma2_to64();
            lemma_pow2_unfold((2 - e) as nat);
            if e == -22 {
                assert(pow2(23) == 0x80_0000);
            }
        }
        m = 2 * m;
        e = e - 1;
    }
    (m, e)
}

/// Widens a number given by its three fields; the last three arguments repeat what `f` says.
fn widen(f: Narrow, fields: (u64, u64, u64), unit: u64, bias: u64, top: u64, scale: u64) -> (r: Double)
    requires
        fields.0 <= 1,
        fields.1 <= top,
        fields.2 < unit,
        unit == f.unit(),
        bias == f.bias(),
        top == f.top(),
        scale == pow2(f.lacking()),
    ensures
        r.bits == widened(f, fields.0 as int, fields.1 as int, fields.2 as int),
{
    proof {
        lemma2_to64();
        lemma2_to64_rest();
        assert(scale == 0x400_0000_0000 || scale == 0x2000_0000);
    }
    let (sign, exponent, fraction) = fields;
    assert(unit * scale == EXPONENT_UNIT);
    let mut e: u64 = EXPONENT_TOP;
    let mut m: u64 = 0;
    if exponent == top {
        if fraction != 0 {
            m = fraction * scale;
            if fraction < unit / 2 {
                m = m + QUIET_UNIT;
            }
        }
    } else if exponent == 0 && fraction == 0 {
        e = 0;
    } else if exponent == 0 {
        let (n, k) = normalize(fraction, unit);
        e = (k + 1023 - bias as i64) as u64;
        m = (n - unit) * scale;
    } else {
        e = exponent + 1023 - bias;
        m = fraction * scale;
    }
    assert(m < EXPONENT_UNIT);
    assert(e <= EXPONENT_TOP);
    Double { bits: sign * SIGN_UNIT + e * EXPONENT_UNIT + m }
}

/// The number with the binary16 pattern `bits`.
pub fn widen_half(bits: u16) -> (r: Double)
    ensures
        r.bits == widened_bits(Narrow::Half, bits as int),
{
    proof {
        lemma2_to64_rest();
    }
    let wide: u64 = bits as u64;
    widen(
        Narrow::Half,
        (wide / 0x8000, wide % 0x8000 / 0x400, wide % 0x8000 % 0x400),
        0x400,
        15,
        31,
        0x400_0000_0000,
    )
}

/// The number with the binary32 pattern `bits`.
pub fn widen_single(bits: u32) -> (r: Double)
    ensures
        r.bits == widened_bits(Narrow::Single, bits as int),
{
    proof {
        lemma2_to64();
    }
    let wide: u64 = bits as u64;
    widen(
        Narrow::Single,
        (
            wide / 0x8000_0000,
            wide % 0x8000_0000 / 0x80_0000,
            wide % 0x8000_0000 % 0x80_0000,
        ),
        0x80_0000,
        127,
        255,
        0x2000_0000,
    )
}

/// Widening keeps the value: of a number that is neither infinite nor a NaN, the significand is
/// multiplied by a power of two that the scale takes up, and the sign stays.
pub proof fn widening_keeps_value(f: Narrow, bits: int, r: Double) -> (s: nat)
    requires
        0 <= bits < 2 * (f.top() + 1) * f.unit(),
        bits % ((f.top() + 1) * f.unit()) / f.unit() != f.top(),
        r.bits == widened_bits(f, bits),
    ensures
        ({
            let half = (f.top() + 1) * f.unit();
            let exponent = bits % half / f.unit();
            let fraction = bits % half % f.unit();
            let (significand, scale) = if exponent == 0 {
                (fraction, 1 - f.bias() - (52 - f.lacking()))
            } else {
                (fraction + f.unit(), exponent - f.bias() - (52 - f.lacking()))
            };
            &&& r.finite()
            &&& r.negative() == (bits >= half)
            &&& r.significand() == significand * pow2(s)
            &&& significand != 0 ==> r.scale() == scale - s
        }),
{
    lemma2_to64();
    lemma2_to64_rest();
    let half = (f.top() + 1) * f.unit();
    let exponent = bits % half / f.unit();
    let fraction = bits % half % f.unit();
    let factor = pow2(f.lacking()) as int;
    assert(half == 0x8000 || half == 0x8000_0000);
    assert(f.unit() * factor == EXPONENT_UNIT);
    if exponent == 0 && fraction == 0 {
        0
    } else if exponent == 0 {
        let j = normalized_shape(fraction, 1, f.unit());
        let m = fraction * pow2(j);
        lemma_pow2_adds(j, f.lacking());
        assert(m * factor == fraction * pow2(j + f.lacking())) by (nonlinear_arith)
            requires
                m == fraction * pow2(j),
                pow2(j + f.lacking()) == pow2(j) * factor,
        ;
        assert(j <= 23) by {
            if j > 23 {
                lemma_pow2_strictly_increases(23, j);
                assert(fraction * pow2(j) >= pow2(j)) by (nonlinear_arith)
                    requires
                        fraction >= 1,
                        pow2(j) > 0,
                ;
                assert(pow2(j) >= 2 * 0x80_0000) by {
                    if j > 24 {
                        lemma_pow2_strictly_increases(24, j);
                    }
                }
            }
        }
        assert((m - f.unit()) * factor == m * factor - EXPONENT_UNIT) by (nonlinear_arith)
            requires
                f.unit() * factor == EXPONENT_UNIT,
        ;
        j + f.lacking()
    } else {
        assert((fraction + f.unit()) * factor == fraction * factor + EXPONENT_UNIT)
            by (nonlinear_arith)
            requires
                f.unit() * factor == EXPONENT_UNIT,
        ;
        f.lacking()
    }
}

// ---------------------------------------------------------------------------------------------
// Whole numbers
// ---------------------------------------------------------------------------------------------
/// The exponent of the largest power of two that does not exceed `n`.
pub open spec fn log2_floor(n: int) -> nat
    decreases n,
{
    if n <= 1 {
        0
    } else {
        1 + log2_floor(n / 2)
    }
}

/// `n / unit`, rounded to the nearest whole number, and to the even one of two that are equally
/// near.
pub open spec fn rounded(n: int, unit: int) -> int {
    let q = n / unit;
    let r = n % unit;
    if 2 * r > unit || (2 * r == unit && q % 2 == 1) {
        q + 1
    } else {
        q
    }
}

/// The bit pattern of the binary64 number nearest to a positive `n` below 2^64: 53 significant bits,
/// the rest rounded away. A significand that is rounded up to 2^53 carries into the exponent.
pub open spec fn nearest_bits(n: int) -> int {
    let k = log2_floor(n);
    let significand = if k <= 52 {
        n * pow2((52 - k) as nat)
    } else {
        rounded(n, pow2((k - 52) as nat) as int)
    };
    (k + 1022) * EXPONENT_UNIT + significand
}

/// `n` as a double-precision number, rounded to nearest, ties to even.
pub fn from_u64(n: u64) -> (r: Double)
    ensures
        n == 0 ==> r.bits == 0,
        n > 0 ==> r.bits == nearest_bits(n as int),
        r.bits < SIGN_UNIT,
{
    if n == 0 {
        return Double { bits: 0 };
    }
    let mut t: u64 = n;
    let mut k: u64 = 0;
    let mut top: u64 = 1;
    proof {
        lemma2_to64();
    }
    while t > 1
        invariant
            1 <= t <= n,
            k <= 63,
            top == pow2(k as nat),
            t * top <= n < (t + 1) * top,
            log2_floor(n as int) == k + log2_floor(t as int),
        decreases t,
    {
        let half: u64 = t / 2;
        proof {
            lemma_pow2_pos(k as nat);
            lemma_pow2_unfold((k + 1) as nat);
            assert(half * (2 * top) <= n < (half + 1) * (2 * top)) by (nonlinear_arith)
                requires
                    t * top <= n < (t + 1) * top,
                    half == t / 2,
                    top > 0,
            ;
            assert(2 * top <= half * (2 * top)) by (nonlinear_arith)
                requires
                    half >= 1,
                    top > 0,
            ;
            lemma2_to64();
            lemma2_to64_rest();
            if k == 63 {
                assert(top == 0x8000_0000_0000_0000);
                assert(false);
            }
        }
        t = half;
        k = k + 1;
        top = 2 * top;
    }
    proof {
        lemma2_to64();
        lemma2_to64_rest();
    }
    if k <= 52 {
        let factor: u64 = EXPONENT_UNIT / top;
        proof {
            lemma_pow2_subtracts(k as nat, 52);
            lemma_pow2_adds(k as nat, (52 - k) as nat);
            assert(top * factor == EXPONENT_UNIT);
            assert(top * factor <= n * factor < 2 * (top * factor)) by (nonlinear_arith)
                requires
                    top <= n < 2 * top,
                    factor > 0,
            ;
        }
        Double { bits: (k + 1022) * EXPONENT_UNIT + n * factor }
    } else {
        let unit: u64 = top / EXPONENT_UNIT;
        proof {
            lemma_pow2_subtracts(52, k as nat);
            lemma_pow2_adds(52, (k - 52) as nat);
            lemma_pow2_strictly_increases((k - 52) as nat, 12);
            assert(EXPONENT_UNIT * unit == top);
            assert(EXPONENT_UNIT <= n / unit < 2 * EXPONENT_UNIT) by (nonlinear_arith)
                requires
                    EXPONENT_UNIT * unit <= n < 2 * (EXPONENT_UNIT * unit),
                    unit > 0,
            ;
        }
        let q: u64 = n / unit;
        let r: u64 = n % unit;
        let up: u64 = if 2 * r > unit || (2 * r == unit && q % 2 == 1) {
            1
        } else {
            0
        };
        Double { bits: (k + 1022) * EXPONENT_UNIT + q + up }
    }
}

/// `n` as a double-precision number, rounded to nearest, ties to even.
pub fn from_i64(n: i64) -> (r: Double)
    ensures
        n == 0 ==> r.bits == 0,
        n > 0 ==> r.bits == nearest_bits(n as int),
        n < 0 ==> r.bits == SIGN_UNIT + nearest_bits(-n),
{
    if n >= 0 {
        from_u64(n as u64)
    } else {
        let size: u64 = (-(n + 1)) as u64 + 1;
        Double { bits: SIGN_UNIT + from_u64(size).bits }
    }
}

// ---------------------------------------------------------------------------------------------
// Laws
// ---------------------------------------------------------------------------------------------
/// The number in units of the smallest positive one, which makes every finite number a whole number.
pub open spec fn in_smallest_units(x: Double) -> int {
    let size = x.significand() * pow2((x.scale() + 1074) as nat);
    if x.negative() {
        -size
    } else {
        size
    }
}

/// Which bit patterns are numbers: without the sign, all up to that of the infinity. Those below it are
/// the finite ones.
pub proof fn classes_by_bits(x: Double)
    ensures
        x.nan() <==> x.bits as int % 0x8000_0000_0000_0000 > 0x7ff0_0000_0000_0000,
        x.finite() <==> (x.bits as int % 0x8000_0000_0000_0000) < 0x7ff0_0000_0000_0000,
        x.negative() <==> x.bits >= 0x8000_0000_0000_0000,
{
}

/// A larger pattern without a sign is a larger number.
proof fn larger_pattern(a: Double, b: Double)
    requires
        a.finite(),
        b.finite(),
        a.magnitude() < b.magnitude(),
    ensures
        a.significand() * pow2((a.scale() + 1074) as nat) < b.significand() * pow2(
            (b.scale() + 1074) as nat,
        ),
{
    let (e, g) = (a.exponent(), b.exponent());
    let unit = EXPONENT_UNIT as int;
    let x = pow2((a.scale() + 1074) as nat) as int;
    let y = pow2((b.scale() + 1074) as nat) as int;
    lemma_pow2_pos((a.scale() + 1074) as nat);
    lemma_pow2_pos((b.scale() + 1074) as nat);
    lemma2_to64();
    assert(a.magnitude() == e * unit + a.fraction());
    assert(b.magnitude() == g * unit + b.fraction());
    assert(e <= g);
    let (u, v) = (a.significand(), b.significand());
    if a.scale() == b.scale() {
        assert(u < v);
        assert(u * x < v * x) by (nonlinear_arith)
            requires
                u < v,
                x > 0,
        ;
    } else {
        assert(g >= 1 && a.scale() < b.scale());
        lemma_pow2_unfold((a.scale() + 1075) as nat);
        if a.scale() + 1 < b.scale() {
            lemma_pow2_strictly_increases((a.scale() + 1075) as nat, (b.scale() + 1074) as nat);
        }
        assert(2 * x <= y);
        assert(u * x < v * y) by (nonlinear_arith)
            requires
                0 <= u < 2 * unit,
                v >= unit,
                2 * x <= y,
                x > 0,
                unit > 0,
        ;
    }
}

/// The comparison is that of the values: of two finite numbers the one is above the other exactly when
/// it is larger. An infinity is above all finite numbers or below them; a NaN is neither.
pub proof fn above_compares_values(a: Double, b: Double)
    ensures
        a.finite() && b.finite() ==> (a.above(b) <==> in_smallest_units(a) > in_smallest_units(b)),
        a.finite() ==> (Double { bits: 0x7ff0_0000_0000_0000 }).above(a) && a.above(
            Double { bits: 0xfff0_0000_0000_0000 },
        ),
        a.nan() || b.nan() ==> !a.above(b),
{
    lemma2_to64();
    if a.finite() && b.finite() {
        lemma_pow2_pos((a.scale() + 1074) as nat);
        lemma_pow2_pos((b.scale() + 1074) as nat);
        let x = pow2((a.scale() + 1074) as nat) as int;
        let y = pow2((b.scale() + 1074) as nat) as int;
        let (u, v) = (a.significand(), b.significand());
        assert(u * x >= 0 && (u > 0 ==> u * x > 0)) by (nonlinear_arith)
            requires
                u >= 0,
                x > 0,
        ;
        assert(v * y >= 0 && (v > 0 ==> v * y > 0)) by (nonlinear_arith)
            requires
                v >= 0,
                y > 0,
        ;
        assert(u == 0 ==> u * x == 0) by (nonlinear_arith);
        assert(v == 0 ==> v * y == 0) by (nonlinear_arith);
        assert(u == 0 <==> a.magnitude() == 0);
        assert(v == 0 <==> b.magnitude() == 0);
        if a.magnitude() < b.magnitude() {
            larger_pattern(a, b);
        } else if b.magnitude() < a.magnitude() {
            larger_pattern(b, a);
        } else {
            assert(u == v && x == y);
        }
    }
}

/// What a binary16 pattern below the infinities says: a sign, and a whole number of times a power of two.
/// The widened number says the same.
pub proof fn half_keeps_value(bits: u16, r: Double) -> (s: nat)
    requires
        bits % 0x8000 < 0x7c00,
        r.bits == widened_bits(Narrow::Half, bits as int),
    ensures
        ({
            let low = bits as int % 0x8000;
            let (whole, power) = if low < 0x400 {
                (low, -24int)
            } else {
                (low % 0x400 + 0x400, low / 0x400 - 25)
            };
            &&& r.finite()
            &&& r.negative() == (bits >= 0x8000)
            &&& r.significand() == whole * pow2(s)
            &&& whole != 0 ==> r.scale() == power - s
        }),
{
    widening_keeps_value(Narrow::Half, bits as int, r)
}

/// What a binary32 pattern below the infinities says: a sign, and a whole number of times a power of two.
/// The widened number says the same.
pub proof fn single_keeps_value(bits: u32, r: Double) -> (s: nat)
    requires
        bits % 0x8000_0000 < 0x7f80_0000,
        r.bits == widened_bits(Narrow::Single, bits as int),
    ensures
        ({
            let low = bits as int % 0x8000_0000;
            let (whole, power) = if low < 0x80_0000 {
                (low, -149int)
            } else {
                (low % 0x80_0000 + 0x80_0000, low / 0x80_0000 - 150)
            };
            &&& r.finite()
            &&& r.negative() == (bits >= 0x8000_0000)
            &&& r.significand() == whole * pow2(s)
            &&& whole != 0 ==> r.scale() == power - s
        }),
{
    widening_keeps_value(Narrow::Single, bits as int, r)
}

/// Widening a binary16 pattern keeps what is no finite number: an infinity stays one, a NaN stays one, and the
/// sign stays.
pub proof fn half_keeps_specials(bits: u16, r: Double)
    requires
        r.bits == widened_bits(Narrow::Half, bits as int),
    ensures
        bits % 0x8000 == 0x7c00 ==> r.magnitude() == 0x7ff0_0000_0000_0000 && r.negative() == (bits
            >= 0x8000),
        bits % 0x8000 > 0x7c00 ==> r.nan() && r.negative() == (bits >= 0x8000),
{
    lemma2_to64();
    lemma2_to64_rest();
    let h = bits as int;
    let fraction = h % 0x8000 % 0x400;
    assert(widened_bits(Narrow::Half, h) == widened(
        Narrow::Half,
        h / 0x8000,
        h % 0x8000 / 0x400,
        fraction,
    ));
    if bits % 0x8000 >= 0x7c00 {
        assert(h % 0x8000 / 0x400 == 31);
        assert(h / 0x8000 == 0 || h / 0x8000 == 1);
        assert(pow2(Narrow::Half.lacking()) == 0x400_0000_0000);
        assert(fraction == 0 <==> bits % 0x8000 == 0x7c00);
    }
}

/// Widening a binary32 pattern keeps what is no finite number: an infinity stays one, a NaN stays one, and the
/// sign stays.
pub proof fn single_keeps_specials(bits: u32, r: Double)
    requires
        r.bits == widened_bits(Narrow::Single, bits as int),
    ensures
        bits % 0x8000_0000 == 0x7f80_0000 ==> r.magnitude() == 0x7ff0_0000_0000_0000 && r.negative() == (bits
            >= 0x8000_0000),
        bits % 0x8000_0000 > 0x7f80_0000 ==> r.nan() && r.negative() == (bits >= 0x8000_0000),
{
    lemma2_to64();
    lemma2_to64_rest();
    let h = bits as int;
    let fraction = h % 0x8000_0000 % 0x80_0000;
    assert(widened_bits(Narrow::Single, h) == widened(
        Narrow::Single,
        h / 0x8000_0000,
        h % 0x8000_0000 / 0x80_0000,
        fraction,
    ));
    if bits % 0x8000_0000 >= 0x7f80_0000 {
        assert(h % 0x8000_0000 / 0x80_0000 == 255);
        assert(h / 0x8000_0000 == 0 || h / 0x8000_0000 == 1);
        assert(pow2(Narrow::Single.lacking()) == 0x2000_0000);
        assert(fraction == 0 <==> bits % 0x8000_0000 == 0x7f80_0000);
    }
}

/// A number lies between the power of two that it reaches and the next.
proof fn log2_floor_bounds(n: int)
    requires
        n >= 1,
    ensures
        pow2(log2_floor(n)) <= n < pow2(log2_floor(n) + 1),
    decreases n,
{
    lemma2_to64();
    if n > 1 {
        log2_floor_bounds(n / 2);
        lemma_pow2_unfold(log2_floor(n));
        lemma_pow2_unfold(log2_floor(n) + 1);
    }
}

/// The pattern of a whole number has no sign and fits.
pub proof fn nearest_fits(n: int)
    requires
        0 < n <= u64::MAX,
    ensures
        0 <= nearest_bits(n) < SIGN_UNIT,
{
    let k = log2_floor(n);
    log2_floor_bounds(n);
    lemma2_to64();
    lemma2_to64_rest();
    assert(k <= 63) by {
        if k > 64 {
            lemma_pow2_strictly_increases(64, k);
        }
    }
    let whole = EXPONENT_UNIT as int;
    if k <= 52 {
        let factor = pow2((52 - k) as nat) as int;
        lemma_pow2_pos((52 - k) as nat);
        lemma_pow2_adds(k, (52 - k) as nat);
        lemma_pow2_unfold(k + 1);
        let low = pow2(k) as int;
        assert(0 <= n * factor < 2 * whole) by (nonlinear_arith)
            requires
                low <= n < 2 * low,
                low * factor == whole,
                factor > 0,
        ;
    } else {
        let unit = pow2((k - 52) as nat) as int;
        lemma_pow2_pos((k - 52) as nat);
        lemma_pow2_adds(52, (k - 52) as nat);
        lemma_pow2_unfold(k + 1);
        let q = n / unit;
        let left = n % unit;
        vstd::arithmetic::div_mod::lemma_fundamental_div_mod(n, unit);
        assert(0 <= q < 2 * whole) by (nonlinear_arith)
            requires
                whole * unit <= n < 2 * (whole * unit),
                n == unit * q + left,
                0 <= left < unit,
                unit > 0,
        ;
    }
}

/// The pattern that a binary32 pattern is widened to fits.
pub proof fn single_fits(bits: u32)
    ensures
        0 <= widened_bits(Narrow::Single, bits as int) <= u64::MAX,
{
    lemma2_to64();
    lemma2_to64_rest();
    let h = bits as int;
    let (sign, exponent, fraction) = (
        h / 0x8000_0000,
        h % 0x8000_0000 / 0x80_0000,
        h % 0x8000_0000 % 0x80_0000,
    );
    assert(widened_bits(Narrow::Single, h) == widened(Narrow::Single, sign, exponent, fraction));
    assert(pow2(Narrow::Single.lacking()) == 0x2000_0000);
    assert(sign == 0 || sign == 1);
    if exponent == 0 && fraction != 0 {
        let j = normalized_shape(fraction, 1, 0x80_0000);
        assert(j <= 24) by {
            if j > 24 {
                lemma_pow2_strictly_increases(24, j);
                assert(fraction * pow2(j) >= pow2(j)) by (nonlinear_arith)
                    requires
                        fraction >= 1,
                        pow2(j) > 0,
                ;
            }
        }
    }
}

/// A whole number becomes the nearest number there is: exactly itself where its size allows, and
/// otherwise off by at most half a unit of the last place; halfway between two, the even one.
pub proof fn nearest_is_nearest(n: int, r: Double)
    requires
        0 < n <= u64::MAX,
        r.bits == nearest_bits(n),
    ensures
        r.finite(),
        !r.negative(),
        r.scale() <= 0 ==> r.significand() == n * pow2((-r.scale()) as nat),
        r.scale() > 0 ==> {
            let unit = pow2(r.scale() as nat);
            let off = r.significand() * unit - n;
            &&& -(unit as int) <= 2 * off <= unit
            &&& 2 * off == unit || 2 * off == -(unit as int) ==> r.significand() % 2 == 0
        },
        n <= 0x20_0000_0000_0000 ==> in_smallest_units(r) == n * pow2(1074),
{
    let k = log2_floor(n);
    log2_floor_bounds(n);
    lemma2_to64();
    lemma2_to64_rest();
    let whole = EXPONENT_UNIT as int;
    assert(whole == pow2(52));
    assert(k <= 63) by {
        if k > 63 {
            if k > 64 {
                lemma_pow2_strictly_increases(64, k);
            }
        }
    }
    if k <= 52 {
        let factor = pow2((52 - k) as nat) as int;
        lemma_pow2_pos((52 - k) as nat);
        lemma_pow2_adds(k, (52 - k) as nat);
        lemma_pow2_unfold(k + 1);
        let low = pow2(k) as int;
        assert(whole <= n * factor < 2 * whole) by (nonlinear_arith)
            requires
                low <= n < 2 * low,
                low * factor == whole,
                factor > 0,
        ;
        assert(r.magnitude() == (k + 1023) * whole + (n * factor - whole));
        assert(r.exponent() == k + 1023 && r.fraction() == n * factor - whole) by {
            vstd::arithmetic::div_mod::lemma_fundamental_div_mod_converse(
                r.magnitude(),
                whole,
                (k + 1023) as int,
                n * factor - whole,
            );
        }
        assert(r.scale() == k - 52);
        lemma_pow2_adds((52 - k) as nat, (k + 1022) as nat);
        assert(n * factor * pow2((k + 1022) as nat) == n * pow2(1074)) by (nonlinear_arith)
            requires
                factor * pow2((k + 1022) as nat) == pow2(1074),
        ;
    } else {
        let unit = pow2((k - 52) as nat) as int;
        lemma_pow2_pos((k - 52) as nat);
        lemma_pow2_adds(52, (k - 52) as nat);
        lemma_pow2_unfold(k + 1);
        lemma_pow2_unfold((k - 51) as nat);
        let q = n / unit;
        let left = n % unit;
        let m = rounded(n, unit);
        vstd::arithmetic::div_mod::lemma_fundamental_div_mod(n, unit);
        assert(unit * q == q * unit) by (nonlinear_arith);
        assert(whole <= q < 2 * whole) by (nonlinear_arith)
            requires
                whole * unit <= n < 2 * (whole * unit),
                n == unit * q + left,
                0 <= left < unit,
                unit > 0,
        ;
        assert((q + 1) * unit == q * unit + unit) by (nonlinear_arith);
        assert(m == q || m == q + 1);
        let off = m * unit - n;
        assert(-unit <= 2 * off <= unit);
        assert(2 * off == unit || 2 * off == -unit ==> m % 2 == 0);
        if m < 2 * whole {
            assert(r.magnitude() == (k + 1023) * whole + (m - whole));
            vstd::arithmetic::div_mod::lemma_fundamental_div_mod_converse(
                r.magnitude(),
                whole,
                (k + 1023) as int,
                m - whole,
            );
            assert(r.scale() == k - 52 && r.significand() == m);
        } else {
            assert(r.magnitude() == (k + 1024) * whole);
            vstd::arithmetic::div_mod::lemma_fundamental_div_mod_converse(
                r.magnitude(),
                whole,
                (k + 1024) as int,
                0,
            );
            assert(r.scale() == k - 51 && r.significand() == whole);
            assert(whole * (2 * unit) == m * unit) by (nonlinear_arith)
                requires
                    m == 2 * whole,
            ;
        }
        if n <= 0x20_0000_0000_0000 {
            assert(k == 53) by {
                if k > 53 {
                    lemma_pow2_strictly_increases(53, k);
                }
            }
            assert(n == 0x20_0000_0000_0000);
            lemma_pow2_adds(53, 1021);
            lemma_pow2_adds(1, (r.scale() + 1073) as nat);
            assert(q == whole && left == 0);
            lemma_pow2_adds(1, 1074);
            assert(r.significand() == whole && r.scale() == 1);
            assert(whole * pow2(1075) == n * pow2(1074)) by (nonlinear_arith)
                requires
                    pow2(1075) == 2 * pow2(1074),
                    n == 2 * whole,
            ;
        }
    }
}

} // verus!
