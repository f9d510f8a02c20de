//! Deterministic signed fixed-point arithmetic.
//!
//! All positions, velocities and sizes in the library are `PosNum` values:
//! signed fixed-point scalars with 8 fractional bits, so a raw value `r`
//! stands for the rational `r / 256`. Division and `floor` round toward
//! negative infinity, which keeps tile-index computation correct for
//! coordinates near negative or sub-tile boundaries.

use vstd::prelude::*;

verus! {

/// Signed fixed-point scalar with 8 fractional bits.
///
/// The represented value is `raw / 256`.
#[derive(Clone, Copy, PartialEq, Eq, Structural, Debug)]
pub struct PosNum {
    pub raw: i32,
}

/// Truncating (toward zero) division of `a` by a positive divisor `d`,
/// as a mathematical function on integers.
pub open spec fn trunc_div(a: int, d: int) -> int {
    if a >= 0 {
        a / d
    } else {
        -((-a) / d)
    }
}

impl PosNum {
    /// The fixed-point value of integer `i`.
    pub fn new(i: i32) -> (r: PosNum)
        requires
            -0x0040_0000 <= i <= 0x0040_0000,
        ensures
            r.raw == i * 256,
    {
        PosNum { raw: i * 256 }
    }

    /// The fixed-point value with raw representation `raw`.
    pub fn from_raw(raw: i32) -> (r: PosNum)
        ensures
            r.raw == raw,
    {
        PosNum { raw }
    }

    /// Zero.
    pub fn zero() -> (r: PosNum)
        ensures
            r.raw == 0,
    {
        PosNum { raw: 0 }
    }

    /// The smallest positive increment, one raw unit (`1/256`).
    pub fn min_inc() -> (r: PosNum)
        ensures
            r.raw == 1,
    {
        PosNum { raw: 1 }
    }

    /// Sum of two fixed-point values.
    pub fn add(self, other: PosNum) -> (r: PosNum)
        requires
            i32::MIN <= self.raw + other.raw <= i32::MAX,
        ensures
            r.raw == self.raw + other.raw,
    {
        PosNum { raw: self.raw + other.raw }
    }

    /// Difference of two fixed-point values.
    pub fn sub(self, other: PosNum) -> (r: PosNum)
        requires
            i32::MIN <= self.raw - other.raw <= i32::MAX,
        ensures
            r.raw == self.raw - other.raw,
    {
        PosNum { raw: self.raw - other.raw }
    }

    /// Negation.
    pub fn neg(self) -> (r: PosNum)
        requires
            self.raw != i32::MIN,
        ensures
            r.raw == -self.raw,
    {
        PosNum { raw: -self.raw }
    }

    /// Absolute value.
    pub fn abs(self) -> (r: PosNum)
        requires
            self.raw != i32::MIN,
        ensures
            r.raw == (if self.raw >= 0 { self.raw as int } else { -self.raw as int }),
    {
        if self.raw >= 0 {
            self
        } else {
            PosNum { raw: -self.raw }
        }
    }

    /// Whether `self` is strictly less than `other`.
    pub fn lt(self, other: PosNum) -> (r: bool)
        ensures
            r == (self.raw < other.raw),
    {
        self.raw < other.raw
    }

    /// Whether `self` is strictly greater than `other`.
    pub fn gt(self, other: PosNum) -> (r: bool)
        ensures
            r == (self.raw > other.raw),
    {
        self.raw > other.raw
    }

    /// The smaller of two values.
    pub fn min(self, other: PosNum) -> (r: PosNum)
        ensures
            r.raw == (if self.raw <= other.raw { self.raw } else { other.raw }),
    {
        if self.raw <= other.raw {
            self
        } else {
            other
        }
    }

    /// The larger of two values.
    pub fn max(self, other: PosNum) -> (r: PosNum)
        ensures
            r.raw == (if self.raw >= other.raw { self.raw } else { other.raw }),
    {
        if self.raw >= other.raw {
            self
        } else {
            other
        }
    }

    /// `self` clamped into the interval `[lo, hi]`.
    pub fn clamp(self, lo: PosNum, hi: PosNum) -> (r: PosNum)
        requires
            lo.raw <= hi.raw,
        ensures
            r.raw == (if self.raw < lo.raw {
                lo.raw
            } else if self.raw > hi.raw {
                hi.raw
            } else {
                self.raw
            }),
    {
        if self.raw < lo.raw {
            lo
        } else if self.raw > hi.raw {
            hi
        } else {
            self
        }
    }

    /// Fixed-point product, rounded toward negative infinity.
    pub fn mul(self, other: PosNum) -> (r: PosNum)
        requires
            i32::MIN <= (self.raw * other.raw) / 256 <= i32::MAX,
        ensures
            r.raw == (self.raw * other.raw) / 256,
    {
        let p: i64 = (self.raw as i64) * (other.raw as i64);
        let q: i64 = match p.checked_div_euclid(256) {
            Some(q) => q,
            None => 0,  // unreachable: the divisor is positive
        };
        PosNum { raw: q as i32 }
    }

    /// Fixed-point quotient by a positive divisor, rounded toward negative
    /// infinity.
    pub fn div(self, other: PosNum) -> (r: PosNum)
        requires
            other.raw > 0,
            i32::MIN <= (self.raw * 256) / (other.raw as int) <= i32::MAX,
        ensures
            r.raw == (self.raw * 256) / (other.raw as int),
    {
        let n: i64 = (self.raw as i64) * 256;
        let q: i64 = match n.checked_div_euclid(other.raw as i64) {
            Some(q) => q,
            None => 0,  // unreachable: the divisor is positive
        };
        PosNum { raw: q as i32 }
    }

    /// The integer floor of the value: the greatest integer at most `raw/256`.
    pub fn floor(self) -> (r: i32)
        ensures
            r == self.raw as int / 256,
    {
        match self.raw.checked_div_euclid(256) {
            Some(q) => q,
            None => 0,  // unreachable: the divisor is positive
        }
    }

    /// The value truncated toward zero to an integer.
    pub fn trunc(self) -> (r: i32)
        requires
            self.raw != i32::MIN,
        ensures
            r == trunc_div(self.raw as int, 256),
    {
        match self.raw.checked_div(256) {
            Some(q) => q,
            None => 0,  // unreachable: the divisor is positive
        }
    }

    /// The integer square root of a non-negative value: the greatest `s`
    /// with `s * s <= raw * 256`, returned as a raw fixed-point value.
    pub fn sqrt(self) -> (r: PosNum)
        requires
            self.raw >= 0,
        ensures
            r.raw >= 0,
            r.raw * r.raw <= self.raw * 256,
            (r.raw + 1) * (r.raw + 1) > self.raw * 256,
    {
        let n: u64 = (self.raw as u64) * 256;
        let mut s: u64 = 0;
        loop
            invariant_except_break
                n == self.raw * 256,
                n < 0x80_0000_0000u64,
                s * s <= n,
                s <= 0x10_0000,
            ensures
                s <= 0x10_0000,
                s * s <= n,
                (s + 1) * (s + 1) > n,
                n == self.raw * 256,
            decreases n - s * s,
        {
            let t: u64 = s + 1;
            proof {
                assert(t * t <= 0x200_0000_0000u64) by (nonlinear_arith)
                    requires
                        0 < t <= 0x10_0001u64,
                ;
            }
            if t * t > n {
                break;
            }
            proof {
                assert(s < 0x10_0000) by (nonlinear_arith)
                    requires
                        t == s + 1,
                        t * t <= n,
                        n < 0x80_0000_0000u64,
                        s >= 0,
                ;
                assert(t * t > s * s) by (nonlinear_arith)
                    requires
                        t == s + 1,
                        s >= 0,
                ;
            }
            s = t;
        }
        PosNum { raw: s as i32 }
    }
}

/// A two-dimensional vector of fixed-point scalars.
#[derive(Clone, Copy, PartialEq, Eq, Structural, Debug)]
pub struct Vec2 {
    pub x: PosNum,
    pub y: PosNum,
}

impl Vec2 {
    /// The vector with the given components.
    pub fn new(x: PosNum, y: PosNum) -> (r: Vec2)
        ensures
            r.x == x,
            r.y == y,
    {
        Vec2 { x, y }
    }

    /// The zero vector.
    pub fn zero() -> (r: Vec2)
        ensures
            r.x.raw == 0,
            r.y.raw == 0,
    {
        Vec2 { x: PosNum { raw: 0 }, y: PosNum { raw: 0 } }
    }

    /// Componentwise sum.
    pub fn add(self, other: Vec2) -> (r: Vec2)
        requires
            i32::MIN <= self.x.raw + other.x.raw <= i32::MAX,
            i32::MIN <= self.y.raw + other.y.raw <= i32::MAX,
        ensures
            r.x.raw == self.x.raw + other.x.raw,
            r.y.raw == self.y.raw + other.y.raw,
    {
        Vec2 { x: self.x.add(other.x), y: self.y.add(other.y) }
    }

    /// Componentwise difference.
    pub fn sub(self, other: Vec2) -> (r: Vec2)
        requires
            i32::MIN <= self.x.raw - other.x.raw <= i32::MAX,
            i32::MIN <= self.y.raw - other.y.raw <= i32::MAX,
        ensures
            r.x.raw == self.x.raw - other.x.raw,
            r.y.raw == self.y.raw - other.y.raw,
    {
        Vec2 { x: self.x.sub(other.x), y: self.y.sub(other.y) }
    }
}

/// An axis-aligned rectangle: the position of its upper-left corner, and its
/// size. The rectangle covers the half-open box
/// `[position, position + size)` on both axes.
#[derive(Clone, Copy, PartialEq, Eq, Structural, Debug)]
pub struct Rect {
    pub position: Vec2,
    pub size: Vec2,
}

/// Whether two rectangles overlap on a region of positive area.
///
/// The comparisons are strict, so rectangles that merely share an edge do
/// not touch.
pub open spec fn rects_touch(a: Rect, b: Rect) -> bool {
    &&& a.position.x.raw < b.position.x.raw + b.size.x.raw
    &&& b.position.x.raw < a.position.x.raw + a.size.x.raw
    &&& a.position.y.raw < b.position.y.raw + b.size.y.raw
    &&& b.position.y.raw < a.position.y.raw + a.size.y.raw
}

impl Rect {
    /// The rectangle with the given corner and size.
    pub fn new(position: Vec2, size: Vec2) -> (r: Rect)
        ensures
            r.position == position,
            r.size == size,
    {
        Rect { position, size }
    }

    /// Whether `self` and `other` overlap on a region of positive area.
    pub fn touches(self, other: Rect) -> (r: bool)
        requires
            i32::MIN <= self.position.x.raw + self.size.x.raw <= i32::MAX,
            i32::MIN <= self.position.y.raw + self.size.y.raw <= i32::MAX,
            i32::MIN <= other.position.x.raw + other.size.x.raw <= i32::MAX,
            i32::MIN <= other.position.y.raw + other.size.y.raw <= i32::MAX,
        ensures
            r == rects_touch(self, other),
    {
        self.position.x.raw < other.position.x.raw + other.size.x.raw
            && other.position.x.raw < self.position.x.raw + self.size.x.raw
            && self.position.y.raw < other.position.y.raw + other.size.y.raw
            && other.position.y.raw < self.position.y.raw + self.size.y.raw
    }
}
// ---------------------------------------------------------------------------
// Fixed-point values of decimal literals.
// ---------------------------------------------------------------------------

/// `2^n`.
pub open spec fn pow2(n: nat) -> int
    decreases n,
{
    if n == 0 {
        1
    } else {
        2 * pow2((n - 1) as nat)
    }
}

/// `10^n`.
pub open spec fn pow10(n: nat) -> int
    decreases n,
{
    if n == 0 {
        1
    } else {
        10 * pow10((n - 1) as nat)
    }
}

/// The number of decimal digits of a non-negative fraction part; zero has
/// none.
pub open spec fn dec_digits(f: int) -> nat
    decreases f,
{
    if f <= 0 {
        0
    } else {
        (1 + dec_digits(f / 10)) as nat
    }
}

/// The smallest shift up to 8 that makes `f * 2^k` a multiple of `m`, or
/// 8 when none is.
pub open spec fn frac_shift(f: int, m: int, k: nat) -> nat
    decreases 8 - k,
{
    if k >= 8 {
        8
    } else if (f * pow2(k)) % m == 0 {
        k
    } else {
        frac_shift(f, m, (k + 1) as nat)
    }
}

/// The raw fixed-point encoding of the decimal number `ipart.fpart`: the
/// fraction is scaled by the smallest power of two that makes it exact in
/// at most 8 fractional bits, divided out of its decimal denominator, and
/// the whole is shifted up to the full 8 fractional bits. Fractions that
/// cannot be represented exactly are truncated.
pub open spec fn fixed_of_decimal(ipart: int, fpart: int) -> int {
    let m = pow10(dec_digits(fpart));
    let f = frac_shift(fpart, m, 0);
    (ipart * pow2(f) + (fpart * pow2(f)) / m) * pow2((8 - f) as nat)
}

/// The small powers of two, by unfolding.
proof fn lemma_pow2_values()
    ensures
        pow2(0) == 1,
        pow2(1) == 2,
        pow2(2) == 4,
        pow2(3) == 8,
        pow2(4) == 16,
        pow2(5) == 32,
        pow2(6) == 64,
        pow2(7) == 128,
        pow2(8) == 256,
{
    assert(pow2(0) == 1);
    assert(pow2(1) == 2);
    assert(pow2(2) == 4);
    assert(pow2(3) == 8);
    assert(pow2(4) == 16);
    assert(pow2(5) == 32);
    assert(pow2(6) == 64);
    assert(pow2(7) == 128);
    assert(pow2(8) == 256);
}

/// The small powers of ten, by unfolding.
proof fn lemma_pow10_values()
    ensures
        pow10(0) == 1,
        pow10(1) == 10,
        pow10(2) == 100,
        pow10(3) == 1000,
        pow10(4) == 10000,
        pow10(5) == 100000,
        pow10(6) == 1000000,
        pow10(7) == 10000000,
{
    assert(pow10(0) == 1);
    assert(pow10(1) == 10);
    assert(pow10(2) == 100);
    assert(pow10(3) == 1000);
    assert(pow10(4) == 10000);
    assert(pow10(5) == 100000);
    assert(pow10(6) == 1000000);
    assert(pow10(7) == 10000000);
}

/// A number below `10^k` has at most `k` decimal digits.
proof fn lemma_dec_digits_bound(f: int, k: nat)
    requires
        0 <= f < pow10(k),
    ensures
        dec_digits(f) <= k,
    decreases k,
{
    if f > 0 {
        if k == 0 {
            assert(pow10(0) == 1);
        } else {
            vstd::arithmetic::div_mod::lemma_fundamental_div_mod(f, 10);
            vstd::arithmetic::div_mod::lemma_multiply_divide_lt(f, 10, pow10((k - 1) as nat));
            lemma_dec_digits_bound(f / 10, (k - 1) as nat);
        }
    }
}

/// A non-negative number is below `10^(its digit count)`.
proof fn lemma_dec_digits_lower(f: int)
    requires
        0 <= f,
    ensures
        f < pow10(dec_digits(f)),
    decreases f,
{
    if f == 0 {
        assert(pow10(0) == 1);
    } else {
        vstd::arithmetic::div_mod::lemma_fundamental_div_mod(f, 10);
        lemma_dec_digits_lower(f / 10);
    }
}

/// The raw value of the unsigned fixed-point number (8 fractional bits)
/// closest from below to the decimal `ipart.fpart`, where `fpart` is the
/// fraction written as a decimal integer: `const_num_u32(7, 125)` encodes
/// 7.125.
#[verifier::loop_isolation(false)]
pub fn const_num_u32(ipart: u32, fpart: u32) -> (raw: u32)
    requires
        ipart <= 0x0040_0000,
        fpart <= 1_000_000,
    ensures
        raw == fixed_of_decimal(ipart as int, fpart as int),
        raw <= 0x4000_0100,
{
    let ghost fpart0 = fpart as int;
    let mut places: u32 = 0;
    let mut fpart_c: u32 = fpart;
    while fpart_c != 0
        invariant
            fpart_c <= 1_000_000,
            places <= 7,
            dec_digits(fpart0) == places + dec_digits(fpart_c as int),
        decreases fpart_c,
    {
        proof {
            lemma_pow10_values();
            lemma_dec_digits_bound(fpart0, 7);
            assert(dec_digits(fpart_c as int) >= 1);
        }
        fpart_c = fpart_c / 10;
        places = places + 1;
    }
    proof {
        assert(dec_digits(fpart0) == places);
        lemma_pow10_values();
        lemma_dec_digits_bound(fpart0, 7);
        assert(places <= 7);
    }

    let mut dec_mod: u32 = 1;
    let mut i: u32 = 0;
    while i < places
        invariant
            i <= places <= 7,
            dec_mod == pow10(i as nat),
            dec_mod <= 10_000_000,
        decreases places - i,
    {
        proof {
            lemma_pow10_values();
            assert(pow10((i + 1) as nat) == 10 * pow10(i as nat));
            lemma_pow10_monotone(i as nat, 6);
        }
        dec_mod = dec_mod * 10;
        i = i + 1;
    }
    proof {
        assert(dec_mod == pow10(dec_digits(fpart0)));
        assert(dec_mod >= 1);
        lemma_dec_digits_lower(fpart0);
        assert(fpart0 < dec_mod);
    }

    let ghost m = dec_mod as int;
    let mut fshift: u32 = 0;
    let mut shifted_fpart: u32 = fpart;
    while shifted_fpart % dec_mod != 0 && fshift < 8
        invariant
            fshift <= 8,
            shifted_fpart == fpart0 * pow2(fshift as nat),
            shifted_fpart <= 256_000_000,
            frac_shift(fpart0, m, fshift as nat) == frac_shift(fpart0, m, 0),
        decreases 8 - fshift,
    {
        proof {
            assert((fpart0 * pow2(fshift as nat)) % m != 0);
            assert(frac_shift(fpart0, m, fshift as nat) == frac_shift(
                fpart0,
                m,
                (fshift + 1) as nat,
            ));
            assert(pow2((fshift + 1) as nat) == 2 * pow2(fshift as nat));
            lemma_pow2_monotone((fshift + 1) as nat, 8);
            lemma_pow2_values();
            assert(fpart0 * pow2(fshift as nat) * 2 == fpart0 * pow2((fshift + 1) as nat))
                by (nonlinear_arith)
                requires
                    pow2((fshift + 1) as nat) == 2 * pow2(fshift as nat),
            ;
            assert(fpart0 * pow2((fshift + 1) as nat) <= 256_000_000) by (nonlinear_arith)
                requires
                    0 <= fpart0 <= 1_000_000,
                    0 < pow2((fshift + 1) as nat) <= 256,
            ;
        }
        shifted_fpart = shifted_fpart * 2;
        fshift = fshift + 1;
    }
    proof {
        if fshift < 8 {
            assert((fpart0 * pow2(fshift as nat)) % m == 0);
            assert(frac_shift(fpart0, m, fshift as nat) == fshift as nat);
        } else {
            assert(frac_shift(fpart0, m, 8) == 8);
        }
        assert(fshift as nat == frac_shift(fpart0, m, 0));
    }

    let mut scale: u32 = 1;
    let mut final_scale: u32 = 256;
    proof {
        lemma_pow2_values();
    }
    let mut i: u32 = 0;
    while i < fshift
        invariant
            i <= fshift <= 8,
            scale == pow2(i as nat),
            final_scale == pow2((8 - i) as nat),
            scale * final_scale == 256,
        decreases fshift - i,
    {
        proof {
            lemma_pow2_values();
            lemma_pow2_monotone(i as nat, 8);
            assert(pow2((i + 1) as nat) == 2 * pow2(i as nat));
            assert(pow2((8 - i) as nat) == 2 * pow2((8 - i - 1) as nat));
            assert(final_scale == 2 * pow2((8 - i - 1) as nat));
            assert((scale * 2) * (final_scale / 2) == 256) by (nonlinear_arith)
                requires
                    final_scale == 2 * pow2((8 - i - 1) as nat),
                    scale * final_scale == 256,
                    pow2((8 - i - 1) as nat) >= 0,
                    final_scale / 2 == pow2((8 - i - 1) as nat),
            ;
        }
        scale = scale * 2;
        final_scale = final_scale / 2;
        i = i + 1;
    }

    let frac_bits: u32 = shifted_fpart / dec_mod;
    proof {
        lemma_pow2_values();
        lemma_pow2_monotone(fshift as nat, 8);
        assert(fpart0 * pow2(fshift as nat) < m * pow2(fshift as nat)) by (nonlinear_arith)
            requires
                fpart0 < m,
                pow2(fshift as nat) > 0,
                0 <= fpart0,
        ;
        vstd::arithmetic::div_mod::lemma_multiply_divide_lt(
            shifted_fpart as int,
            m,
            pow2(fshift as nat),
        );
        assert(frac_bits < scale);
        assert((ipart * scale + frac_bits) * final_scale == ipart * 256 + frac_bits
            * final_scale) by (nonlinear_arith)
            requires
                scale * final_scale == 256,
        ;
        assert(frac_bits * final_scale < 256) by (nonlinear_arith)
            requires
                frac_bits < scale,
                scale * final_scale == 256,
                final_scale >= 1,
                frac_bits >= 0,
        ;
        assert(ipart * scale <= 0x4000_0000) by (nonlinear_arith)
            requires
                0 <= ipart <= 0x0040_0000,
                0 < scale <= 256,
        ;
        assert(ipart * 256 <= 0x4000_0000) by (nonlinear_arith)
            requires
                0 <= ipart <= 0x0040_0000,
        ;
        lemma_pow2_monotone(fshift as nat, 8);
        assert(scale <= 256);
    }
    (ipart * scale + frac_bits) * final_scale
}

/// `2^a <= 2^b` for `a <= b`, and powers of two are positive.
proof fn lemma_pow2_monotone(a: nat, b: nat)
    requires
        a <= b,
    ensures
        pow2(a) <= pow2(b),
        pow2(a) >= 1,
    decreases b,
{
    if b > 0 {
        if a == b {
            lemma_pow2_monotone((a - 1) as nat, (b - 1) as nat);
        } else {
            lemma_pow2_monotone(a, (b - 1) as nat);
        }
    }
}

/// `10^a <= 10^b` for `a <= b`.
proof fn lemma_pow10_monotone(a: nat, b: nat)
    requires
        a <= b,
    ensures
        pow10(a) <= pow10(b),
        pow10(a) >= 1,
    decreases b,
{
    if b > 0 {
        if a == b {
            lemma_pow10_monotone((a - 1) as nat, (b - 1) as nat);
        } else {
            lemma_pow10_monotone(a, (b - 1) as nat);
        }
    }
}

/// The raw value of the signed fixed-point number closest from below to
/// the decimal `ipart.fpart`: `const_num_i32(2, 5)` encodes 2.5.
pub fn const_num_i32(ipart: i32, fpart: i32) -> (r: PosNum)
    requires
        0 <= ipart <= 0x0040_0000,
        0 <= fpart <= 1_000_000,
    ensures
        r.raw == fixed_of_decimal(ipart as int, fpart as int),
{
    let raw = const_num_u32(ipart as u32, fpart as u32);
    PosNum { raw: raw as i32 }
}

} // verus!
