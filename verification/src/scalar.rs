//! Real-valued parameters, held by their IEEE-754 binary64 bit pattern.
//!
//! The engine never does arithmetic on a parameter: it stores it, hands it on to
//! the renderer, and decides a few things about it (is it inside a range, is it
//! above zero, which whole number does it start with). Those decisions are made
//! here on the bit pattern, and are proved against the number that the pattern
//! denotes.
//!
//! A finite binary64 pattern denotes `sign * m * 2^(e - 1075)`, with `m` the
//! fraction plus the hidden bit and `e` the exponent field (subnormals:
//! `m` the fraction, `e` read as 1). All such numbers are whole multiples of
//! `2^-1074`, so the specifications count in that unit and stay in the integers.

use vstd::prelude::*;
use vstd::arithmetic::power2::*;

verus! {

/// Bit 63: the sign.
pub const SIGN_BIT: u64 = 0x8000_0000_0000_0000;

/// Bit 52: the lowest bit of the exponent field, and the hidden bit of a normal number.
pub const HIDDEN_BIT: u64 = 0x0010_0000_0000_0000;

/// The exponent field of infinities and NaNs.
pub const EXPONENT_SPECIAL: u64 = 2047;

/// The exponent field of the numbers in `[1, 2)`.
pub const EXPONENT_ONE: u64 = 1023;

/// The exponent field from which on a number is a whole multiple of one.
pub const EXPONENT_WHOLE: u64 = 1075;

/// A binary64 number, by its bits.
#[derive(Clone, Copy, Debug, PartialEq, Eq, Structural)]
pub struct Scalar {
    pub bits: u64,
}

/// How one number lies to another.
#[derive(Clone, Copy, Debug, PartialEq, Eq, Structural)]
pub enum Side {
    Below,
    Level,
    Above,
}

/// The number one, in units of `2^-1074`.
pub open spec fn unit() -> int {
    pow2(1074) as int
}

/// How `a` lies to `b`.
pub open spec fn side_of(a: int, b: int) -> Side {
    if a < b {
        Side::Below
    } else if a == b {
        Side::Level
    } else {
        Side::Above
    }
}

impl Scalar {
    /// The sign bit is set.
    pub open spec fn negative(self) -> bool {
        self.bits >= SIGN_BIT
    }

    /// The exponent field.
    pub open spec fn exponent(self) -> int {
        ((self.bits % SIGN_BIT) / HIDDEN_BIT) as int
    }

    /// The fraction field.
    pub open spec fn fraction(self) -> int {
        ((self.bits % SIGN_BIT) % HIDDEN_BIT) as int
    }

    /// The pattern is one of the NaNs.
    pub open spec fn nan(self) -> bool {
        self.exponent() == EXPONENT_SPECIAL && self.fraction() != 0
    }

    /// The absolute value, in units of `2^-1074`. An infinity counts as `2^1024`,
    /// which is above every finite number.
    pub open spec fn magnitude(self) -> int {
        if self.exponent() == 0 {
            self.fraction()
        } else {
            (HIDDEN_BIT + self.fraction()) * pow2((self.exponent() - 1) as nat)
        }
    }

    /// The number, in units of `2^-1074`.
    pub open spec fn value(self) -> int {
        if self.negative() {
            -self.magnitude()
        } else {
            self.magnitude()
        }
    }

    /// The number is not a NaN and lies in `[lo, hi]`.
    pub open spec fn within(self, lo: int, hi: int) -> bool {
        !self.nan() && lo * unit() <= self.value() <= hi * unit()
    }

    /// The number is not a NaN and is above zero.
    pub open spec fn positive(self) -> bool {
        !self.nan() && self.value() > 0
    }

    /// The whole number that the number starts with, where it is above minus one
    /// and below `2^64`: the number rounded towards zero.
    pub open spec fn whole_part(self) -> Option<u64> {
        if self.nan() || self.value() <= -unit() || self.value() >= 0x1_0000_0000_0000_0000 * unit() {
            None
        } else if self.value() < 0 {
            Some(0u64)
        } else {
            Some((self.value() / unit()) as u64)
        }
    }

    /// The scalar with the given bits.
    pub fn from_bits(bits: u64) -> (r: Scalar)
        ensures
            r.bits == bits,
    {
        Scalar { bits }
    }

    /// The bits of the scalar.
    pub fn to_bits(self) -> (r: u64)
        ensures
            r == self.bits,
    {
        self.bits
    }

    /// Positive zero.
    pub fn zero() -> (r: Scalar)
        ensures
            r.bits == 0,
            r.value() == 0,
            !r.nan(),
    {
        Scalar { bits: 0 }
    }

    /// The scalar that denotes the whole number `n`.
    pub fn from_int(n: i32) -> (r: Scalar)
        ensures
            !r.nan(),
            r.value() == n * unit(),
    {
        if n == 0 {
            return Scalar { bits: 0 };
        }
        let a: u64 = distance(n) as u64;
        let mut p: u32 = 0;
        let mut top: u64 = 1;
        proof {
            lemma_facts();
            lemma2_to64();
        }
        while top * 2 <= a
            invariant
                1 <= a <= 0x8000_0000,
                p <= 31,
                top == pow2(p as nat),
                1 <= top <= a,
            decreases a - top,
        {
            proof {
                lemma_pow2_unfold((p + 1) as nat);
                if p >= 31 {
                    lemma2_to64();
                }
            }
            top = top * 2;
            p = p + 1;
        }
        let scale = power_of_two(52 - p);
        proof {
            lemma_pow2_adds(p as nat, (52 - p) as nat);
            assert(0x10_0000_0000_0000 <= a * scale < 0x20_0000_0000_0000) by (nonlinear_arith)
                requires
                    top <= a < 2 * top,
                    top * scale == 0x10_0000_0000_0000,
                    scale > 0,
            ;
        }
        let m: u64 = a * scale;
        let e: u64 = EXPONENT_ONE + p as u64;
        let sign: u64 = if n < 0 {
            SIGN_BIT
        } else {
            0
        };
        let r = Scalar { bits: sign + e * HIDDEN_BIT + (m - HIDDEN_BIT) };
        proof {
            let low = e * HIDDEN_BIT + (m - HIDDEN_BIT);
            assert(r.bits % SIGN_BIT == low);
            assert(r.exponent() == e);
            assert(r.fraction() == m - HIDDEN_BIT);
            // m * 2^(e-1) = a * 2^(52-p) * 2^(1022+p) = a * 2^1074
            lemma_pow2_adds((52 - p) as nat, (1022 + p) as nat);
            let c = pow2((1022 + p) as nat) as int;
            assert(m * c == a * unit()) by (nonlinear_arith)
                requires
                    m == a * scale,
                    unit() == scale * c,
            ;
            assert(r.magnitude() == a * unit());
            if n < 0 {
                assert(a * unit() == -(n * unit())) by (nonlinear_arith)
                    requires
                        a == -n,
                ;
            }
        }
        r
    }

    /// The sign, the exponent field and the fraction field.
    fn fields(self) -> (r: (bool, u64, u64))
        ensures
            r.0 == self.negative(),
            r.1 == self.exponent(),
            r.2 == self.fraction(),
            r.1 <= EXPONENT_SPECIAL,
            r.2 < HIDDEN_BIT,
    {
        let low = self.bits % SIGN_BIT;
        (self.bits >= SIGN_BIT, low / HIDDEN_BIT, low % HIDDEN_BIT)
    }

    /// Whether the scalar is a NaN.
    pub fn is_nan(self) -> (r: bool)
        ensures
            r == self.nan(),
    {
        let (_, e, f) = self.fields();
        e == EXPONENT_SPECIAL && f != 0
    }

    /// How the absolute value lies to the whole number `n`.
    pub fn magnitude_side(self, n: u32) -> (r: Side)
        ensures
            r == side_of(self.magnitude(), n * unit()),
    {
        let (_, e, f) = self.fields();
        proof {
            lemma_facts();
        }
        if e == 0 {
            if n == 0 {
                if f == 0 {
                    Side::Level
                } else {
                    Side::Above
                }
            } else {
                assert(n * unit() >= unit()) by (nonlinear_arith)
                    requires
                        n >= 1,
                        unit() > 0,
                ;
                Side::Below
            }
        } else if n == 0 {
            proof {
                lemma_normal_magnitude(f as int, e as int);
            }
            Side::Above
        } else if e >= EXPONENT_WHOLE {
            proof {
                // m * 2^(e-1) >= 2^52 * 2^1074 > n * 2^1074
                lemma_pow2_adds(1074, (e - 1 - 1074) as nat);
                lemma_pow2_pos((e - 1 - 1074) as nat);
                let k = pow2((e - 1 - 1074) as nat) as int;
                let u = unit();
                let m = HIDDEN_BIT + f;
                assert(m * (u * k) >= 0x10_0000_0000_0000 * u) by (nonlinear_arith)
                    requires
                        m >= 0x10_0000_0000_0000,
                        k >= 1,
                        u > 0,
                ;
                assert(n * u < 0x10_0000_0000_0000 * u) by (nonlinear_arith)
                    requires
                        n < 0x10_0000_0000_0000,
                        u > 0,
                ;
            }
            Side::Above
        } else {
            let d: u64 = EXPONENT_WHOLE - e;
            let ghost c = pow2((1074 - d) as nat) as int;
            let ghost m = HIDDEN_BIT + f;
            proof {
                lemma_pow2_adds(d as nat, (1074 - d) as nat);
                lemma_pow2_pos((1074 - d) as nat);
                assert(self.magnitude() == m * c);
            }
            if d >= 53 {
                proof {
                    lemma_pow2_pos(d as nat);
                    if d > 53 {
                        lemma_pow2_strictly_increases(53, d as nat);
                    }
                    let p = pow2(d as nat) as int;
                    assert(m < p);
                    assert(n * p >= p) by (nonlinear_arith)
                        requires
                            n >= 1,
                            p > 0,
                    ;
                    assert(m * c < (n * p) * c) by (nonlinear_arith)
                        requires
                            m < n * p,
                            c > 0,
                    ;
                    assert(n * unit() == (n * p) * c) by (nonlinear_arith)
                        requires
                            unit() == p * c,
                    ;
                }
                Side::Below
            } else {
                let p = power_of_two(d as u32);
                let m: u64 = HIDDEN_BIT + f;
                proof {
                    if d < 52 {
                        lemma_pow2_strictly_increases(d as nat, 52);
                    }
                    assert(n * p < 0x1_0000_0000 * 0x10_0000_0000_0001) by (nonlinear_arith)
                        requires
                            n < 0x1_0000_0000,
                            0 < p <= 0x10_0000_0000_0000,
                    ;
                }
                let t: u128 = (n as u128) * (p as u128);
                proof {
                    assert(n * unit() == t * c) by (nonlinear_arith)
                        requires
                            unit() == p * c,
                            t == n * p,
                    ;
                    lemma_scaled_side(m as int, t as int, c);
                }
                if (m as u128) < t {
                    Side::Below
                } else if (m as u128) == t {
                    Side::Level
                } else {
                    Side::Above
                }
            }
        }
    }

    /// Whether the number is no NaN and lies in `[lo, hi]`.
    pub fn in_range(self, lo: i32, hi: i32) -> (r: bool)
        ensures
            r == self.within(lo as int, hi as int),
    {
        if self.is_nan() {
            return false;
        }
        let (negative, _, _) = self.fields();
        proof {
            lemma_facts();
            lemma_magnitude_bounds(self);
        }
        let ghost u = unit();
        let ghost mag = self.magnitude();
        let under_hi = if hi >= 0 {
            if negative {
                assert(hi * u >= 0) by (nonlinear_arith)
                    requires
                        hi >= 0,
                        u > 0,
                ;
                true
            } else {
                let s = self.magnitude_side(hi as u32);
                !matches!(s, Side::Above)
            }
        } else {
            assert(hi * u < 0) by (nonlinear_arith)
                requires
                    hi < 0,
                    u > 0,
            ;
            if negative {
                let a = distance(hi);
                let s = self.magnitude_side(a);
                assert(a * u == -(hi * u)) by (nonlinear_arith)
                    requires
                        a == -hi,
                ;
                !matches!(s, Side::Below)
            } else {
                false
            }
        };
        let over_lo = if lo <= 0 {
            assert(lo * u <= 0) by (nonlinear_arith)
                requires
                    lo <= 0,
                    u > 0,
            ;
            if negative {
                let a = distance(lo);
                let s = self.magnitude_side(a);
                assert(a * u == -(lo * u)) by (nonlinear_arith)
                    requires
                        a == -lo,
                ;
                !matches!(s, Side::Above)
            } else {
                true
            }
        } else {
            assert(lo * u > 0) by (nonlinear_arith)
                requires
                    lo > 0,
                    u > 0,
            ;
            if negative {
                false
            } else {
                let s = self.magnitude_side(lo as u32);
                !matches!(s, Side::Below)
            }
        };
        under_hi && over_lo
    }

    /// Whether the number is no NaN and is above zero.
    pub fn is_positive(self) -> (r: bool)
        ensures
            r == self.positive(),
    {
        if self.is_nan() {
            return false;
        }
        let (negative, e, f) = self.fields();
        proof {
            lemma_facts();
            lemma_magnitude_bounds(self);
            if e != 0 {
                lemma_normal_magnitude(f as int, e as int);
            }
        }
        !negative && (e != 0 || f != 0)
    }

    /// The number rounded towards zero, where that is a whole number from 0 to
    /// `2^64 - 1`; `None` for a NaN, for a number of minus one or below, and for
    /// one of `2^64` or above.
    pub fn truncate(self) -> (r: Option<u64>)
        ensures
            r == self.whole_part(),
    {
        if self.is_nan() {
            return None;
        }
        let (negative, e, f) = self.fields();
        let ghost u = unit();
        let ghost m = HIDDEN_BIT + f;
        proof {
            lemma_facts();
            lemma_magnitude_bounds(self);
        }
        if e < EXPONENT_ONE {
            proof {
                if e != 0 {
                    // m * 2^(e-1) < 2^53 * 2^(e-1) = 2^(e+52) <= 2^1074
                    lemma_pow2_adds(53, (e - 1) as nat);
                    lemma_pow2_pos((e - 1) as nat);
                    if e + 52 < 1074 {
                        lemma_pow2_strictly_increases((e + 52) as nat, 1074);
                    }
                    let c = pow2((e - 1) as nat) as int;
                    assert(m * c < 0x20_0000_0000_0000 * c) by (nonlinear_arith)
                        requires
                            m < 0x20_0000_0000_0000,
                            c > 0,
                    ;
                }
                assert(self.magnitude() < u);
                if !negative {
                    lemma_quotient(0, self.value(), u);
                }
            }
            return Some(0);
        }
        proof {
            // m * 2^(e-1) >= 2^52 * 2^1022 = 2^1074
            lemma_normal_magnitude(f as int, e as int);
            lemma_pow2_adds(52, 1022);
            lemma_pow2_adds(1022, (e - 1 - 1022) as nat);
            lemma_pow2_pos((e - 1 - 1022) as nat);
            let k = pow2((e - 1 - 1022) as nat) as int;
            let q = pow2(1022) as int;
            assert(0x10_0000_0000_0000 * (q * k) >= 0x10_0000_0000_0000 * q) by (nonlinear_arith)
                requires
                    k >= 1,
                    q >= 0,
            ;
            assert(self.magnitude() >= u);
        }
        if negative {
            return None;
        }
        if e >= EXPONENT_WHOLE + 12 {
            proof {
                // m * 2^(e-1) >= 2^52 * 2^1086 = 2^64 * 2^1074
                lemma_pow2_adds(52, 1086);
                lemma_pow2_adds(64, 1074);
                lemma_pow2_adds(1086, (e - 1 - 1086) as nat);
                lemma_pow2_pos((e - 1 - 1086) as nat);
                let k = pow2((e - 1 - 1086) as nat) as int;
                let q = pow2(1086) as int;
                assert(0x10_0000_0000_0000 * (q * k) >= 0x10_0000_0000_0000 * q) by (nonlinear_arith)
                    requires
                        k >= 1,
                        q >= 0,
                ;
            }
            return None;
        }
        let m: u64 = HIDDEN_BIT + f;
        if e >= EXPONENT_WHOLE {
            let s: u64 = e - EXPONENT_WHOLE;
            let p = power_of_two(s as u32);
            proof {
                // value = m * 2^s * 2^1074, and m * 2^s < 2^53 * 2^11
                lemma_pow2_adds(s as nat, 1074);
                if s < 11 {
                    lemma_pow2_strictly_increases(s as nat, 11);
                }
                assert(m * p < 0x1_0000_0000_0000_0000) by (nonlinear_arith)
                    requires
                        m < 0x20_0000_0000_0000,
                        0 < p <= 0x800,
                ;
                assert(self.value() == (m * p) * u) by (nonlinear_arith)
                    requires
                        self.value() == m * pow2((e - 1) as nat),
                        pow2((e - 1) as nat) == p * u,
                ;
                lemma_whole_multiple((m * p) as int, u);
                assert((m * p) * u < 0x1_0000_0000_0000_0000 * u) by (nonlinear_arith)
                    requires
                        m * p < 0x1_0000_0000_0000_0000,
                        u > 0,
                ;
            }
            Some(m * p)
        } else {
            let d: u64 = EXPONENT_WHOLE - e;
            let p = power_of_two(d as u32);
            let k: u64 = m / p;
            proof {
                // m = k * 2^d + r with r < 2^d, and 2^1074 = 2^d * c
                let c = pow2((1074 - d) as nat) as int;
                let r = (m % p) as int;
                lemma_pow2_adds(d as nat, (1074 - d) as nat);
                lemma_pow2_pos((1074 - d) as nat);
                assert(m == k * p + r) by (nonlinear_arith)
                    requires
                        k == m / p,
                        r == m % p,
                        p > 0,
                ;
                assert(self.value() == k * u + r * c) by (nonlinear_arith)
                    requires
                        self.value() == m * c,
                        m == k * p + r,
                        u == p * c,
                ;
                assert(0 <= r * c < u) by (nonlinear_arith)
                    requires
                        0 <= r < p,
                        c > 0,
                        u == p * c,
                ;
                lemma_quotient(k as int, r * c, u);
                assert(k * u + r * c < 0x1_0000_0000_0000_0000 * u) by (nonlinear_arith)
                    requires
                        k < 0xFFFF_FFFF_FFFF_FFFF,
                        r * c < u,
                        u > 0,
                ;
            }
            Some(k)
        }
    }
}

/// How far `n` is from zero.
fn distance(n: i32) -> (r: u32)
    ensures
        r == if n < 0 {
            -n
        } else {
            n as int
        },
{
    if n >= 0 {
        n as u32
    } else {
        let wide: i64 = n as i64;
        (-wide) as u32
    }
}

/// Two to the power `d`.
fn power_of_two(d: u32) -> (r: u64)
    requires
        d < 64,
    ensures
        r == pow2(d as nat),
        r > 0,
{
    let mut r: u64 = 1;
    let mut i: u32 = 0;
    proof {
        lemma2_to64();
    }
    while i < d
        invariant
            i <= d,
            d < 64,
            r == pow2(i as nat),
        decreases d - i,
    {
        proof {
            lemma_pow2_unfold((i + 1) as nat);
            lemma_pow2_strictly_increases((i + 1) as nat, 64);
            lemma2_to64();
        }
        r = r * 2;
        i = i + 1;
    }
    proof {
        lemma_pow2_pos(d as nat);
    }
    r
}

/// The powers of two that the bounds of this module are made of.
proof fn lemma_facts()
    ensures
        unit() > 0,
        pow2(52) == 0x10_0000_0000_0000,
        pow2(53) == 0x20_0000_0000_0000,
        pow2(11) == 0x800,
        pow2(64) == 0x1_0000_0000_0000_0000,
        unit() > 0x20_0000_0000_0000,
{
    lemma2_to64();
    lemma2_to64_rest();
    lemma_pow2_pos(1074);
    lemma_pow2_strictly_increases(53, 1074);
}

/// The absolute value of a normal number is at least its hidden bit's worth.
proof fn lemma_normal_magnitude(f: int, e: int)
    requires
        0 <= f,
        1 <= e,
    ensures
        (HIDDEN_BIT + f) * pow2((e - 1) as nat) >= HIDDEN_BIT * pow2((e - 1) as nat) > 0,
{
    lemma_pow2_pos((e - 1) as nat);
    let c = pow2((e - 1) as nat) as int;
    assert((HIDDEN_BIT + f) * c >= HIDDEN_BIT * c > 0) by (nonlinear_arith)
        requires
            f >= 0,
            c > 0,
            HIDDEN_BIT == 0x10_0000_0000_0000,
    ;
}

/// The absolute value is never negative.
proof fn lemma_magnitude_bounds(x: Scalar)
    ensures
        x.magnitude() >= 0,
{
    if x.exponent() != 0 {
        lemma_normal_magnitude(x.fraction(), x.exponent());
    }
}

/// To scale two numbers by the same positive factor leaves their order.
proof fn lemma_scaled_side(a: int, b: int, c: int)
    requires
        c > 0,
    ensures
        side_of(a * c, b * c) == side_of(a, b),
{
    assert(a < b ==> a * c < b * c) by (nonlinear_arith)
        requires
            c > 0,
    ;
    assert(a > b ==> a * c > b * c) by (nonlinear_arith)
        requires
            c > 0,
    ;
}

/// A whole multiple of `u`, divided by `u`.
proof fn lemma_whole_multiple(k: int, u: int)
    requires
        u > 0,
        k >= 0,
    ensures
        (k * u) / u == k,
{
    lemma_quotient(k, 0, u);
}

/// The quotient of `k * u + r` by `u`, for a remainder `r` below `u`.
proof fn lemma_quotient(k: int, r: int, u: int)
    requires
        u > 0,
        0 <= r < u,
    ensures
        (k * u + r) / u == k,
{
    vstd::arithmetic::div_mod::lemma_fundamental_div_mod_converse(k * u + r, u, k, r);
}

} // verus!
