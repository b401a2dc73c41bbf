//! Single-precision numbers, with every operation stated exactly.
//!
//! A [`Single`] is the 32-bit pattern of an IEEE 754 single-precision number.
//! The operations are those of the hardware, bit for bit: each result is the
//! exact one rounded to the nearest number, ties to even. Only the bit pattern
//! of a not-a-number is fixed here where the standard leaves it open.

use crate::rounding::{round_quotient, round_scaled, BINADE, INFINITE};
use vstd::arithmetic::power2::*;
use vstd::bits::*;
use vstd::prelude::*;

verus! {

/// The sign bit.
pub const SIGN: u32 = 0x8000_0000;

/// The quiet not-a-number every invalid operation returns.
pub const QUIET_NAN: u32 = 0x7FC0_0000;

/// A single-precision number, held as its bits.
#[derive(Clone, Copy, Debug)]
pub struct Single {
    pub bits: u32,
}

/// Equality of numbers: zeros of either sign are equal, and a not-a-number
/// equals nothing.
impl PartialEq for Single {
    fn eq(&self, other: &Single) -> (r: bool) {
        proof {
            reveal(Single::value);
            self.lemma_value_sign();
            other.lemma_value_sign();
            if self.magnitude() <= INFINITE && other.magnitude() <= INFINITE {
                if self.magnitude() < other.magnitude() {
                    crate::rounding::lemma_units_increasing(self.magnitude(), other.magnitude());
                }
                if other.magnitude() < self.magnitude() {
                    crate::rounding::lemma_units_increasing(other.magnitude(), self.magnitude());
                }
            }
        }
        !self.is_nan() && !other.is_nan() && (self.bits == other.bits || (self.mag() == 0
            && other.mag() == 0))
    }
}

impl vstd::std_specs::cmp::PartialEqSpecImpl for Single {
    open spec fn obeys_eq_spec() -> bool {
        true
    }

    open spec fn eq_spec(&self, other: &Single) -> bool {
        self.same(*other)
    }
}

/// What is more than 32 binades below a number is under a quarter of its gap.
proof fn lemma_far_apart(sig: int, high: int, low: int)
    requires
        0 <= sig < 2 * BINADE,
        0 <= low,
        low + 33 <= high,
    ensures
        4 * (sig * pow2(low as nat)) < pow2(high as nat),
{
    lemma2_to64();
    lemma_pow2_pos(low as nat);
    lemma_pow2_adds(33, low as nat);
    lemma_pow2_unfold(33);
    if low + 33 < high {
        lemma_pow2_strictly_increases((low + 33) as nat, high as nat);
    }
    assert(4 * (sig * pow2(low as nat)) < 0x2_0000_0000 * pow2(low as nat)) by (nonlinear_arith)
        requires
            sig < 0x100_0000,
            pow2(low as nat) > 0,
    ;
}

impl Single {
    pub open spec fn negative(self) -> bool {
        self.bits >= SIGN
    }

    /// The bits without the sign.
    pub open spec fn magnitude(self) -> int {
        if self.negative() {
            self.bits - SIGN
        } else {
            self.bits as int
        }
    }

    pub open spec fn nan(self) -> bool {
        self.magnitude() > INFINITE
    }

    pub open spec fn infinite(self) -> bool {
        self.magnitude() == INFINITE
    }

    pub open spec fn finite(self) -> bool {
        self.magnitude() < INFINITE
    }

    /// The number, in units of `2^-149`. An infinity counts as the number one
    /// step past the largest finite one.
    #[verifier::opaque]
    pub open spec fn value(self) -> int {
        if self.negative() {
            -crate::rounding::units(self.magnitude())
        } else {
            crate::rounding::units(self.magnitude())
        }
    }

    pub open spec fn signed(negative: bool, magnitude: int) -> Single {
        if negative {
            Single { bits: (magnitude + SIGN) as u32 }
        } else {
            Single { bits: magnitude as u32 }
        }
    }

    pub open spec fn invalid() -> Single {
        Single { bits: QUIET_NAN }
    }

    /// `n / d`, rounded.
    #[verifier::opaque]
    pub open spec fn fraction(n: int, d: int) -> Single {
        Single::signed(false, crate::rounding::nearest(n * pow2(149), d))
    }

    /// `n`, rounded.
    pub open spec fn whole(n: int) -> Single {
        Single::fraction(n, 1)
    }

    pub open spec fn less(self, other: Single) -> bool {
        !self.nan() && !other.nan() && self.value() < other.value()
    }

    pub open spec fn at_most(self, other: Single) -> bool {
        !self.nan() && !other.nan() && self.value() <= other.value()
    }

    pub open spec fn same(self, other: Single) -> bool {
        !self.nan() && !other.nan() && self.value() == other.value()
    }

    pub open spec fn positive(self) -> bool {
        !self.nan() && self.value() > 0
    }

    pub open spec fn negated(self) -> Single {
        if self.negative() {
            Single { bits: (self.bits - SIGN) as u32 }
        } else {
            Single { bits: (self.bits + SIGN) as u32 }
        }
    }

    #[verifier::opaque]
    pub open spec fn plus(self, other: Single) -> Single {
        if self.nan() || other.nan() {
            Single::invalid()
        } else if self.infinite() {
            if other.infinite() && self.negative() != other.negative() {
                Single::invalid()
            } else {
                self
            }
        } else if other.infinite() {
            other
        } else {
            let sum = self.value() + other.value();
            if sum == 0 {
                Single::signed(self.negative() && other.negative(), 0)
            } else {
                Single::signed(sum < 0, crate::rounding::nearest(vstd::math::abs(sum) as int, 1))
            }
        }
    }

    pub open spec fn minus(self, other: Single) -> Single {
        self.plus(other.negated())
    }

    #[verifier::opaque]
    pub open spec fn times(self, other: Single) -> Single {
        let sign = self.negative() != other.negative();
        if self.nan() || other.nan() {
            Single::invalid()
        } else if self.infinite() || other.infinite() {
            if self.magnitude() == 0 || other.magnitude() == 0 {
                Single::invalid()
            } else {
                Single::signed(sign, INFINITE as int)
            }
        } else {
            let product = crate::rounding::units(self.magnitude()) * crate::rounding::units(
                other.magnitude(),
            );
            Single::signed(sign, crate::rounding::nearest(product, pow2(149) as int))
        }
    }

    #[verifier::opaque]
    pub open spec fn over(self, other: Single) -> Single {
        let sign = self.negative() != other.negative();
        if self.nan() || other.nan() || (self.infinite() && other.infinite()) || (self.magnitude()
            == 0 && other.magnitude() == 0) {
            Single::invalid()
        } else if self.infinite() || other.magnitude() == 0 {
            Single::signed(sign, INFINITE as int)
        } else if other.infinite() {
            Single::signed(sign, 0)
        } else {
            Single::signed(
                sign,
                crate::rounding::nearest(
                    crate::rounding::units(self.magnitude()) * pow2(149),
                    crate::rounding::units(other.magnitude()),
                ),
            )
        }
    }

    /// `self` kept between `low` and `high`; a not-a-number stays one.
    pub open spec fn clamped(self, low: Single, high: Single) -> Single {
        if self.less(low) {
            low
        } else if high.less(self) {
            high
        } else {
            self
        }
    }

    /// The larger of two numbers, or the only one that is a number.
    pub open spec fn larger(self, other: Single) -> Single {
        if self.nan() || self.less(other) {
            other
        } else {
            self
        }
    }

    /// The whole part of a non-negative number, kept between 0 and `most`; 0
    /// for a negative number and for a not-a-number.
    #[verifier::opaque]
    pub open spec fn whole_part(self, most: int) -> int {
        if self.nan() || self.negative() {
            0
        } else {
            let w = self.value() / (pow2(149) as int);
            if w < most {
                w
            } else {
                most
            }
        }
    }

    /// The whole part of a number of either sign, as a 32-bit integer; 0 for a
    /// not-a-number.
    pub open spec fn integer_part(self) -> int {
        if self.negative() {
            -self.negated().whole_part(0x8000_0000)
        } else {
            self.whole_part(0x7FFF_FFFF)
        }
    }

    /// `n`, of either sign, rounded.
    pub open spec fn integer(n: int) -> Single {
        if n < 0 {
            Single::whole(-n).negated()
        } else {
            Single::whole(n)
        }
    }

    proof fn lemma_value_sign(self)
        ensures
            !self.nan() && self.magnitude() > 0 ==> (self.value() > 0 <==> !self.negative()),
            !self.nan() && self.magnitude() > 0 ==> (self.value() < 0 <==> self.negative()),
            self.magnitude() == 0 <==> self.value() == 0 && !self.nan(),
            self.magnitude() >= 0,
    {
        reveal(Single::value);
        if !self.nan() {
            crate::rounding::lemma_units_nonneg(self.magnitude());
        }
    }

    pub fn from_bits(bits: u32) -> (r: Single)
        ensures
            r.bits == bits,
    {
        Single { bits }
    }

    pub fn to_bits(self) -> (r: u32)
        ensures
            r == self.bits,
    {
        self.bits
    }

    fn mag(self) -> (r: u32)
        ensures
            r == self.magnitude(),
    {
        if self.bits >= SIGN {
            self.bits - SIGN
        } else {
            self.bits
        }
    }

    fn is_negative(self) -> (r: bool)
        ensures
            r == self.negative(),
    {
        self.bits >= SIGN
    }

    pub fn is_nan(self) -> (r: bool)
        ensures
            r == self.nan(),
    {
        self.mag() > INFINITE
    }

    fn assemble(negative: bool, magnitude: u32) -> (r: Single)
        requires
            magnitude <= INFINITE,
        ensures
            r == Single::signed(negative, magnitude as int),
    {
        if negative {
            Single { bits: magnitude + SIGN }
        } else {
            Single { bits: magnitude }
        }
    }

    /// Significand and exponent of a magnitude: it stands for `sig * 2^exp`
    /// units.
    fn split(magnitude: u32) -> (r: (u64, u32))
        requires
            magnitude <= INFINITE,
        ensures
            r.0 < 2 * BINADE,
            r.1 <= 254,
            r.1 > 0 ==> r.0 >= BINADE,
            crate::rounding::units(magnitude as int) == r.0 * pow2(r.1 as nat),
            magnitude == r.0 + r.1 * BINADE,
            magnitude > 0 ==> r.0 > 0,
    {
        if magnitude < 2 * BINADE {
            proof {
                lemma2_to64();
                assert(magnitude * pow2(0) == magnitude);
            }
            (magnitude as u64, 0)
        } else {
            ((magnitude % BINADE + BINADE) as u64, magnitude / BINADE - 1)
        }
    }

    /// The number `n / d`, rounded: how decimal constants are written.
    pub fn ratio(n: u32, d: u32) -> (r: Single)
        requires
            d > 0,
        ensures
            r == Single::fraction(n as int, d as int),
    {
        proof {
            reveal(Single::fraction);
        }
        if n == 0 {
            proof {
                crate::rounding::lemma_rounds_to_exact(0, d as int);
                crate::rounding::lemma_nearest(0, d as int, 0);
            }
            Single { bits: 0 }
        } else {
            let m: u32 = round_quotient(n as u64, d as u64, 149);
            proof {
                crate::rounding::lemma_nearest(n * pow2(149), d as int, m as int);
            }
            Single::assemble(false, m)
        }
    }

    pub fn from_u64(n: u64) -> (r: Single)
        ensures
            r == Single::whole(n as int),
    {
        proof {
            reveal(Single::fraction);
        }
        if n == 0 {
            proof {
                crate::rounding::lemma_rounds_to_exact(0, 1);
                crate::rounding::lemma_nearest(0, 1, 0);
            }
            Single { bits: 0 }
        } else {
            let m: u32 = round_scaled(n, 149);
            proof {
                crate::rounding::lemma_nearest(n * pow2(149), 1, m as int);
            }
            Single::assemble(false, m)
        }
    }

    pub fn from_u32(n: u32) -> (r: Single)
        ensures
            r == Single::whole(n as int),
    {
        Single::from_u64(n as u64)
    }

    pub fn negative_infinity() -> (r: Single)
        ensures
            r.infinite(),
            r.negative(),
    {
        Single { bits: INFINITE + SIGN }
    }

    pub fn lt(self, other: Single) -> (r: bool)
        ensures
            r == self.less(other),
    {
        proof {
            reveal(Single::value);
        }
        if self.is_nan() || other.is_nan() {
            return false;
        }
        let a: u32 = self.mag();
        let b: u32 = other.mag();
        proof {
            self.lemma_value_sign();
            other.lemma_value_sign();
            if a < b {
                crate::rounding::lemma_units_increasing(a as int, b as int);
            }
            if b < a {
                crate::rounding::lemma_units_increasing(b as int, a as int);
            }
        }
        if self.is_negative() {
            if other.is_negative() {
                b < a
            } else {
                a > 0 || b > 0
            }
        } else {
            !other.is_negative() && a < b
        }
    }

    pub fn le(self, other: Single) -> (r: bool)
        ensures
            r == self.at_most(other),
    {
        !self.is_nan() && !other.is_nan() && !other.lt(self)
    }

    pub fn gt(self, other: Single) -> (r: bool)
        ensures
            r == other.less(self),
    {
        other.lt(self)
    }

    pub fn ge(self, other: Single) -> (r: bool)
        ensures
            r == other.at_most(self),
    {
        other.le(self)
    }

    /// Whether `self > 0`.
    pub fn is_positive(self) -> (r: bool)
        ensures
            r == self.positive(),
    {
        proof {
            self.lemma_value_sign();
        }
        !self.is_nan() && !self.is_negative() && self.bits != 0
    }

    pub fn neg(self) -> (r: Single)
        ensures
            r == self.negated(),
    {
        if self.bits >= SIGN {
            Single { bits: self.bits - SIGN }
        } else {
            Single { bits: self.bits + SIGN }
        }
    }

    pub fn clamp(self, low: Single, high: Single) -> (r: Single)
        ensures
            r == self.clamped(low, high),
    {
        if self.lt(low) {
            low
        } else if self.gt(high) {
            high
        } else {
            self
        }
    }

    pub fn max(self, other: Single) -> (r: Single)
        ensures
            r == self.larger(other),
    {
        if self.is_nan() || self.lt(other) {
            other
        } else {
            self
        }
    }

    pub fn add(self, other: Single) -> (r: Single)
        ensures
            r == self.plus(other),
    {
        proof {
            reveal(Single::plus);
        }
        if self.is_nan() || other.is_nan() {
            return Single { bits: QUIET_NAN };
        }
        let a: u32 = self.mag();
        let b: u32 = other.mag();
        if a == INFINITE {
            if b == INFINITE && self.is_negative() != other.is_negative() {
                return Single { bits: QUIET_NAN };
            }
            return self;
        }
        if b == INFINITE {
            return other;
        }
        if a >= b {
            self.add_smaller(other)
        } else {
            proof {
                self.lemma_plus_commutes(other);
            }
            other.add_smaller(self)
        }
    }

    proof fn lemma_plus_commutes(self, other: Single)
        requires
            self.finite(),
            other.finite(),
        ensures
            self.plus(other) == other.plus(self),
    {
        reveal(Single::plus);
    }

    /// Adds a finite number that is no larger in magnitude.
    fn add_smaller(self, other: Single) -> (r: Single)
        requires
            self.finite(),
            other.magnitude() <= self.magnitude(),
        ensures
            r == self.plus(other),
    {
        proof {
            reveal(Single::plus);
            reveal(Single::value);
        }
        let sign: bool = self.is_negative();
        let (sa, ea) = Single::split(self.mag());
        let (sb, eb) = Single::split(other.mag());
        let ghost ua = crate::rounding::units(self.magnitude());
        let ghost ub = crate::rounding::units(other.magnitude());
        let ghost sum = self.value() + other.value();
        proof {
            self.lemma_value_sign();
            other.lemma_value_sign();
            crate::rounding::lemma_units_nonneg(self.magnitude());
            crate::rounding::lemma_units_nonneg(other.magnitude());
            if other.magnitude() < self.magnitude() {
                crate::rounding::lemma_units_increasing(other.magnitude(), self.magnitude());
            }
            if ea < eb {
                assert(self.magnitude() < other.magnitude()) by (nonlinear_arith)
                    requires
                        self.magnitude() == sa + ea * BINADE,
                        other.magnitude() == sb + eb * BINADE,
                        ea + 1 <= eb,
                        sa < 2 * BINADE,
                        ea > 0 || sa < 2 * BINADE,
                        sb >= BINADE,
                        ea + 1 == eb ==> sa - BINADE < sb,
                ;
            }
        }
        let d: u32 = ea - eb;
        if d > 32 {
            proof {
                let v = if sign == other.negative() {
                    ub
                } else {
                    -ub
                };
                lemma_far_apart(sb as int, ea as int, eb as int);
                crate::rounding::lemma_rounds_to_absorb(sa as int, ea as int, v);
                crate::rounding::lemma_nearest(ua + v, 1, self.magnitude());
                assert(vstd::math::abs(sum) == ua + v);
            }
            return self;
        }
        proof {
            lemma_pow2_adds(d as nat, eb as nat);
            lemma2_to64();
            lemma_pow2_pos(d as nat);
            lemma_pow2_pos(eb as nat);
            if d < 32 {
                lemma_pow2_strictly_increases(d as nat, 32);
            }
            assert(sa * pow2(d as nat) <= 0x100_0000 * 0x1_0000_0000) by (nonlinear_arith)
                requires
                    sa < 0x100_0000,
                    pow2(d as nat) <= 0x1_0000_0000,
            ;
            lemma_u64_shl_is_mul(sa, d as u64);
            assert(ua == (sa * pow2(d as nat)) * pow2(eb as nat)) by (nonlinear_arith)
                requires
                    ua == sa * pow2(ea as nat),
                    pow2(ea as nat) == pow2(d as nat) * pow2(eb as nat),
            ;
        }
        let wide: u64 = sa << (d as u64);
        let ghost p = pow2(eb as nat) as int;
        if sign == other.is_negative() {
            let m: u64 = wide + sb;
            assert(m * p == ua + ub) by (nonlinear_arith)
                requires
                    m == wide + sb,
                    ua == wide * p,
                    ub == sb * p,
            ;
            if m == 0 {
                assert(sum == 0);
                Single::assemble(sign, 0)
            } else {
                let r: u32 = round_scaled(m, eb as i32);
                proof {
                    assert(m * p > 0) by (nonlinear_arith)
                        requires
                            m > 0,
                            p > 0,
                    ;
                    crate::rounding::lemma_nearest(m * p, 1, r as int);
                    assert(vstd::math::abs(sum) == m * p);
                }
                Single::assemble(sign, r)
            }
        } else {
            assert(wide >= sb) by (nonlinear_arith)
                requires
                    ua == wide * p,
                    ub == sb * p,
                    ua >= ub,
                    p > 0,
            ;
            let m: u64 = wide - sb;
            assert(m * p == ua - ub) by (nonlinear_arith)
                requires
                    m == wide - sb,
                    ua == wide * p,
                    ub == sb * p,
            ;
            if m == 0 {
                assert(sum == 0);
                Single::assemble(false, 0)
            } else {
                let r: u32 = round_scaled(m, eb as i32);
                proof {
                    assert(m * p > 0) by (nonlinear_arith)
                        requires
                            m > 0,
                            p > 0,
                    ;
                    crate::rounding::lemma_nearest(m * p, 1, r as int);
                    assert(vstd::math::abs(sum) == m * p);
                }
                Single::assemble(sign, r)
            }
        }
    }

    pub fn sub(self, other: Single) -> (r: Single)
        ensures
            r == self.minus(other),
    {
        self.add(other.neg())
    }

    pub fn mul(self, other: Single) -> (r: Single)
        ensures
            r == self.times(other),
    {
        proof {
            reveal(Single::times);
        }
        if self.is_nan() || other.is_nan() {
            return Single { bits: QUIET_NAN };
        }
        let sign: bool = self.is_negative() != other.is_negative();
        let a: u32 = self.mag();
        let b: u32 = other.mag();
        if a == INFINITE || b == INFINITE {
            if a == 0 || b == 0 {
                return Single { bits: QUIET_NAN };
            }
            return Single::assemble(sign, INFINITE);
        }
        let (sa, ea) = Single::split(a);
        let (sb, eb) = Single::split(b);
        let ghost ua = crate::rounding::units(a as int);
        let ghost ub = crate::rounding::units(b as int);
        proof {
            lemma_pow2_pos(149);
        }
        if a == 0 || b == 0 {
            proof {
                assert(ua * ub == 0) by (nonlinear_arith)
                    requires
                        ua == 0 || ub == 0,
                ;
                crate::rounding::lemma_rounds_to_exact(0, pow2(149) as int);
                crate::rounding::lemma_nearest(0, pow2(149) as int, 0);
            }
            return Single::assemble(sign, 0);
        }
        assert(0 < sa * sb < 0x1_0000_0000_0000) by (nonlinear_arith)
            requires
                0 < sa < 0x100_0000,
                0 < sb < 0x100_0000,
        ;
        let m: u64 = sa * sb;
        let e: i32 = ea as i32 + eb as i32 - 149;
        let r: u32 = round_scaled(m, e);
        proof {
            let t = (ea + eb) as nat;
            lemma_pow2_adds(ea as nat, eb as nat);
            assert(ua * ub == m * pow2(t)) by (nonlinear_arith)
                requires
                    ua == sa * pow2(ea as nat),
                    ub == sb * pow2(eb as nat),
                    m == sa * sb,
                    pow2(t) == pow2(ea as nat) * pow2(eb as nat),
            ;
            if e >= 0 {
                lemma_pow2_adds(e as nat, 149);
                crate::rounding::lemma_rounds_to_scale(
                    m * pow2(e as nat),
                    1,
                    pow2(149) as int,
                    r as int,
                );
                assert((m * pow2(e as nat)) * pow2(149) == m * pow2(t)) by (nonlinear_arith)
                    requires
                        pow2(t) == pow2(e as nat) * pow2(149),
                ;
            } else {
                lemma_pow2_adds((-e) as nat, t);
                lemma_pow2_pos(t);
                crate::rounding::lemma_rounds_to_scale(
                    m as int,
                    pow2((-e) as nat) as int,
                    pow2(t) as int,
                    r as int,
                );
            }
            crate::rounding::lemma_nearest(ua * ub, pow2(149) as int, r as int);
        }
        Single::assemble(sign, r)
    }

    pub fn div(self, other: Single) -> (r: Single)
        ensures
            r == self.over(other),
    {
        proof {
            reveal(Single::over);
        }
        if self.is_nan() || other.is_nan() {
            return Single { bits: QUIET_NAN };
        }
        let sign: bool = self.is_negative() != other.is_negative();
        let a: u32 = self.mag();
        let b: u32 = other.mag();
        if (a == INFINITE && b == INFINITE) || (a == 0 && b == 0) {
            return Single { bits: QUIET_NAN };
        }
        if a == INFINITE || b == 0 {
            return Single::assemble(sign, INFINITE);
        }
        if b == INFINITE {
            return Single::assemble(sign, 0);
        }
        let (sa, ea) = Single::split(a);
        let (sb, eb) = Single::split(b);
        let ghost ua = crate::rounding::units(a as int);
        let ghost ub = crate::rounding::units(b as int);
        proof {
            crate::rounding::lemma_units_nonneg(b as int);
        }
        if a == 0 {
            proof {
                crate::rounding::lemma_rounds_to_exact(0, ub);
                crate::rounding::lemma_nearest(0, ub, 0);
            }
            return Single::assemble(sign, 0);
        }
        let k: i32 = ea as i32 - eb as i32 + 149;
        let r: u32 = round_quotient(sa, sb, k);
        proof {
            lemma_pow2_adds(ea as nat, 149);
            let t = (ea + 149) as nat;
            assert(ua * pow2(149) == sa * pow2(t)) by (nonlinear_arith)
                requires
                    ua == sa * pow2(ea as nat),
                    pow2(t) == pow2(ea as nat) * pow2(149),
            ;
            if k >= 0 {
                lemma_pow2_pos(eb as nat);
                lemma_pow2_adds(k as nat, eb as nat);
                crate::rounding::lemma_rounds_to_scale(
                    sa * pow2(k as nat),
                    sb as int,
                    pow2(eb as nat) as int,
                    r as int,
                );
                assert((sa * pow2(k as nat)) * pow2(eb as nat) == sa * pow2(t))
                    by (nonlinear_arith)
                    requires
                        pow2(t) == pow2(k as nat) * pow2(eb as nat),
                ;
                assert(sb * 1 == sb);
            } else {
                lemma_pow2_pos(t);
                lemma_pow2_adds((-k) as nat, t);
                let w = pow2((-k) as nat) as int;
                crate::rounding::lemma_rounds_to_scale(
                    sa as int,
                    sb * w,
                    pow2(t) as int,
                    r as int,
                );
                assert((sb * w) * pow2(t) == ub) by (nonlinear_arith)
                    requires
                        ub == sb * pow2(eb as nat),
                        pow2(eb as nat) == w * pow2(t),
                ;
            }
            crate::rounding::lemma_nearest(ua * pow2(149), ub, r as int);
        }
        Single::assemble(sign, r)
    }

    /// The whole part, saturating; 0 for a negative number or a not-a-number.
    pub fn to_u64(self) -> (r: u64)
        ensures
            r == self.whole_part(u64::MAX as int),
    {
        proof {
            reveal(Single::whole_part);
            reveal(Single::value);
        }
        if self.is_nan() || self.is_negative() {
            return 0;
        }
        let (sig, exp) = Single::split(self.mag());
        let ghost v = self.value();
        proof {
            lemma2_to64();
            lemma2_to64_rest();
            lemma_pow2_pos(149);
        }
        let ghost one = pow2(149) as int;
        if exp >= 149 {
            let up: u32 = exp - 149;
            proof {
                lemma_pow2_adds(up as nat, 149);
                let n = sig * pow2(up as nat);
                assert(v == n * one) by (nonlinear_arith)
                    requires
                        v == sig * pow2(exp as nat),
                        n == sig * pow2(up as nat),
                        pow2(exp as nat) == pow2(up as nat) * one,
                ;
                assert(v / one == n) by (nonlinear_arith)
                    requires
                        v == n * one,
                        one > 0,
                ;
            }
            if up > 40 {
                proof {
                    lemma_pow2_adds(23, 41);
                    if up > 41 {
                        lemma_pow2_strictly_increases(41, up as nat);
                    }
                    assert(sig * pow2(up as nat) >= 0x80_0000 * pow2(41)) by (nonlinear_arith)
                        requires
                            sig >= 0x80_0000,
                            pow2(up as nat) >= pow2(41),
                    ;
                }
                u64::MAX
            } else {
                proof {
                    lemma_pow2_adds(24, 40);
                    if up < 40 {
                        lemma_pow2_strictly_increases(up as nat, 40);
                    }
                    assert(sig * pow2(up as nat) <= 0xFF_FFFF * pow2(40)) by (nonlinear_arith)
                        requires
                            sig <= 0xFF_FFFF,
                            pow2(up as nat) <= pow2(40),
                    ;
                    lemma_u64_shl_is_mul(sig, up as u64);
                }
                sig << (up as u64)
            }
        } else {
            let down: u32 = 149 - exp;
            proof {
                lemma_pow2_adds(down as nat, exp as nat);
                lemma_pow2_pos(exp as nat);
                lemma_pow2_pos(down as nat);
                let d = pow2(down as nat) as int;
                let x = pow2(exp as nat) as int;
                vstd::arithmetic::div_mod::lemma_div_denominator(sig * x, x, d);
                vstd::arithmetic::div_mod::lemma_div_multiples_vanish(sig as int, x);
                assert(x * d == one) by (nonlinear_arith)
                    requires
                        one == d * x,
                ;
                assert(x * sig == sig * x) by (nonlinear_arith);
                assert(v / one == sig as int / d);
            }
            if down >= 24 {
                proof {
                    if down > 24 {
                        lemma_pow2_strictly_increases(24, down as nat);
                    }
                    vstd::arithmetic::div_mod::lemma_basic_div(
                        sig as int,
                        pow2(down as nat) as int,
                    );
                }
                0
            } else {
                proof {
                    lemma_u64_shr_is_div(sig, down as u64);
                    vstd::arithmetic::div_mod::lemma_div_is_ordered_by_denominator(
                        sig as int,
                        1,
                        pow2(down as nat) as int,
                    );
                }
                sig >> (down as u64)
            }
        }
    }

    /// The whole part, saturating; 0 for a negative number or a not-a-number.
    pub fn to_u32(self) -> (r: u32)
        ensures
            r == self.whole_part(u32::MAX as int),
    {
        proof {
            reveal(Single::whole_part);
        }
        let w: u64 = self.to_u64();
        if w > u32::MAX as u64 {
            u32::MAX
        } else {
            w as u32
        }
    }

    /// The whole part, saturating; 0 for a negative number or a not-a-number.
    pub fn to_u8(self) -> (r: u8)
        ensures
            r == self.whole_part(u8::MAX as int),
    {
        proof {
            reveal(Single::whole_part);
        }
        let w: u64 = self.to_u64();
        if w > u8::MAX as u64 {
            u8::MAX
        } else {
            w as u8
        }
    }

    /// The whole part, saturating; 0 for a not-a-number.
    pub fn to_i32(self) -> (r: i32)
        ensures
            r == self.integer_part(),
    {
        proof {
            reveal(Single::whole_part);
        }
        if self.is_negative() {
            let w: u64 = self.neg().to_u64();
            if w >= 0x8000_0000 {
                i32::MIN
            } else {
                -(w as i32)
            }
        } else {
            let w: u64 = self.to_u64();
            if w > 0x7FFF_FFFF {
                i32::MAX
            } else {
                w as i32
            }
        }
    }

    pub fn from_i32(n: i32) -> (r: Single)
        ensures
            r == Single::integer(n as int),
    {
        if n < 0 {
            Single::from_u64((-(n as i64)) as u64).neg()
        } else {
            Single::from_u64(n as u64)
        }
    }

    /// A whole number of at most 24 bits is represented exactly.
    pub proof fn lemma_whole_exact(n: int)
        requires
            0 <= n < 0x100_0000,
        ensures
            Single::whole(n).value() == n * pow2(149),
            Single::whole(n).finite(),
            !Single::whole(n).negative(),
    {
        reveal(Single::fraction);
        reveal(Single::value);
        if n == 0 {
            crate::rounding::lemma_rounds_to_exact(0, 1);
            crate::rounding::lemma_nearest(0, 1, 0);
        } else {
            lemma2_to64();
            let m = crate::rounding::lemma_exact_magnitude(n, 149, 23);
            crate::rounding::lemma_rounds_to_exact(m, 1);
            crate::rounding::lemma_nearest(n * pow2(149), 1, m);
        }
    }

    /// Sums, differences and products of whole numbers that stay within 24
    /// bits are exact.
    pub proof fn law_small_whole_arithmetic_is_exact(a: int, b: int)
        requires
            0 <= a < 0x100_0000,
            0 <= b < 0x100_0000,
        ensures
            a + b < 0x100_0000 ==> Single::whole(a).plus(Single::whole(b)) == Single::whole(a + b),
            b <= a ==> Single::whole(a).minus(Single::whole(b)) == Single::whole(a - b),
            a * b < 0x100_0000 ==> Single::whole(a).times(Single::whole(b)) == Single::whole(a * b),
    {
        let (x, y, p) = (Single::whole(a), Single::whole(b), pow2(149) as int);
        lemma_pow2_pos(149);
        Single::lemma_whole_exact(a);
        Single::lemma_whole_exact(b);
        Single::lemma_whole_exact(0);
        y.lemma_negated();
        reveal(Single::plus);
        reveal(Single::times);
        reveal(Single::value);
        assert((a + b) * p == a * p + b * p && (a - b) * p == a * p - b * p) by (nonlinear_arith);
        assert(a + b > 0 ==> (a + b) * p > 0) by (nonlinear_arith)
            requires
                p > 0,
        ;
        assert(a > b ==> (a - b) * p > 0) by (nonlinear_arith)
            requires
                p > 0,
        ;
        reveal(Single::fraction);
        assert(0 * p == 0);
        crate::rounding::lemma_rounds_to_exact(0, 1);
        crate::rounding::lemma_nearest(0, 1, 0);
        assert((a * p) * (b * p) == ((a * b) * p) * p && (a * b) * p >= 0) by (nonlinear_arith)
            requires
                a >= 0,
                b >= 0,
                p > 0,
        ;
        crate::rounding::lemma_nearest_exists((a * b) * p, 1);
        let r = crate::rounding::nearest((a * b) * p, 1);
        crate::rounding::lemma_rounds_to_scale((a * b) * p, 1, p, r);
        assert(1 * p == p);
        crate::rounding::lemma_nearest(((a * b) * p) * p, p, r);
    }

    /// Whole numbers of at most 24 bits keep their order.
    pub proof fn lemma_whole_ordered(a: int, b: int)
        requires
            0 <= a < b < 0x100_0000,
        ensures
            Single::whole(a).less(Single::whole(b)),
    {
        Single::lemma_whole_exact(a);
        Single::lemma_whole_exact(b);
        lemma_pow2_pos(149);
        assert(a * pow2(149) < b * pow2(149)) by (nonlinear_arith)
            requires
                a < b,
                pow2(149) > 0,
        ;
    }

    /// A clamped number lies between its bounds.
    pub proof fn lemma_clamped(self, low: Single, high: Single)
        requires
            !self.nan(),
            low.at_most(high),
        ensures
            low.at_most(self.clamped(low, high)),
            self.clamped(low, high).at_most(high),
            !self.clamped(low, high).nan(),
    {
    }

    /// Negation changes the sign of the number alone.
    pub proof fn lemma_negated(self)
        ensures
            self.negated().value() == -self.value(),
            self.negated().magnitude() == self.magnitude(),
    {
        reveal(Single::value);
    }

    /// A number between two finite ones is finite.
    pub proof fn lemma_finite_between(self, low: Single, high: Single)
        requires
            low.finite(),
            high.finite(),
            low.at_most(self),
            self.at_most(high),
        ensures
            self.finite(),
    {
        reveal(Single::value);
        low.lemma_value_sign();
        high.lemma_value_sign();
        if self.infinite() {
            crate::rounding::lemma_units_increasing(low.magnitude(), self.magnitude());
            crate::rounding::lemma_units_increasing(high.magnitude(), self.magnitude());
        }
    }

    /// The sum of two finite numbers is the exact one, rounded.
    pub proof fn lemma_plus_value(self, other: Single)
        requires
            self.finite(),
            other.finite(),
        ensures
            !self.plus(other).nan(),
            self.plus(other).value() == crate::rounding::rounded(self.value() + other.value(), 1),
    {
        reveal(Single::value);
        reveal(Single::plus);
        let sum = self.value() + other.value();
        crate::rounding::lemma_nearest_exists(vstd::math::abs(sum) as int, 1);
        if sum == 0 {
            crate::rounding::lemma_rounds_to_exact(0, 1);
            crate::rounding::lemma_nearest(0, 1, 0);
        }
    }

    /// The product of two finite numbers is the exact one, rounded.
    pub proof fn lemma_times_value(self, other: Single)
        requires
            self.finite(),
            other.finite(),
        ensures
            !self.times(other).nan(),
            self.times(other).value() == crate::rounding::rounded(
                self.value() * other.value(),
                pow2(149) as int,
            ),
    {
        reveal(Single::value);
        reveal(Single::times);
        lemma_pow2_pos(149);
        let (a, b) = (
            crate::rounding::units(self.magnitude()),
            crate::rounding::units(other.magnitude()),
        );
        crate::rounding::lemma_units_nonneg(self.magnitude());
        crate::rounding::lemma_units_nonneg(other.magnitude());
        assert(a * b >= 0 && (-a) * b == -(a * b) && a * (-b) == -(a * b) && (-a) * (-b) == a * b)
            by (nonlinear_arith)
            requires
                a >= 0,
                b >= 0,
        ;
        crate::rounding::lemma_nearest_exists(a * b, pow2(149) as int);
        if a * b == 0 {
            crate::rounding::lemma_rounds_to_exact(0, pow2(149) as int);
            crate::rounding::lemma_nearest(0, pow2(149) as int, 0);
        }
    }

    /// Rounding does not change what a finite number stands for.
    pub proof fn lemma_value_rounded(self, den: int)
        requires
            self.finite(),
            den > 0,
        ensures
            crate::rounding::rounded(self.value() * den, den) == self.value(),
    {
        reveal(Single::value);
        crate::rounding::lemma_rounded_exact(self.magnitude(), den);
        let a = crate::rounding::units(self.magnitude());
        assert((-a) * den == -(a * den)) by (nonlinear_arith);
    }

    /// A difference of few enough steps of `2^k`, between numbers that are
    /// whole multiples of it, is exact.
    pub proof fn lemma_minus_exact(self, other: Single, a: int, b: int, k: int)
        requires
            self.finite(),
            other.finite(),
            self.value() == a * pow2(k as nat),
            other.value() == b * pow2(k as nat),
            23 < k <= 149,
            -0x100_0000 < a - b < 0x100_0000,
        ensures
            self.minus(other).finite(),
            self.minus(other).value() == self.value() - other.value(),
    {
        reveal(Single::plus);
        reveal(Single::value);
        lemma2_to64();
        lemma_pow2_pos(k as nat);
        other.lemma_negated();
        let n = vstd::math::abs(a - b) as int;
        let p = pow2(k as nat) as int;
        let sum = self.value() + other.negated().value();
        assert(sum == (a - b) * p && (b - a) * p == -sum) by (nonlinear_arith)
            requires
                sum == a * p - b * p,
        ;
        if n > 0 {
            let m = crate::rounding::lemma_exact_magnitude(n, k, 23);
            assert(n * p > 0) by (nonlinear_arith)
                requires
                    n > 0,
                    p > 0,
            ;
            crate::rounding::lemma_rounds_to_exact(m, 1);
            crate::rounding::lemma_nearest(n * p, 1, m);
        } else {
            assert(sum == 0) by (nonlinear_arith)
                requires
                    sum == (a - b) * p,
                    a - b == 0,
            ;
        }
    }

    /// A number of at least `2^(k + 23)` units is a whole multiple of `2^k`.
    pub proof fn lemma_on_grid(self, k: nat) -> (c: int)
        requires
            !self.nan(),
            self.value() >= pow2(k + 23),
        ensures
            self.value() == c * pow2(k),
    {
        reveal(Single::value);
        self.lemma_value_sign();
        lemma_pow2_pos(k + 23);
        crate::rounding::lemma_units_on_grid(self.magnitude(), k)
    }

    /// A share of a number, taken by a factor between 0 and 1, lies between 0
    /// and the number.
    pub proof fn lemma_times_share(self, factor: Single)
        requires
            self.finite(),
            factor.finite(),
            0 <= factor.value() <= pow2(149),
        ensures
            factor.times(self).finite(),
            self.value() >= 0 ==> 0 <= factor.times(self).value() <= self.value(),
            self.value() <= 0 ==> self.value() <= factor.times(self).value() <= 0,
            self.times(factor).finite(),
            self.times(factor).value() == factor.times(self).value(),
    {
        let (v, f, p) = (self.value(), factor.value(), pow2(149) as int);
        lemma_pow2_pos(149);
        factor.lemma_times_value(self);
        self.lemma_times_value(factor);
        assert(f * v == v * f) by (nonlinear_arith);
        self.lemma_value_rounded(p);
        Single::lemma_zero_rounded(p);
        if v >= 0 {
            assert(0 <= f * v <= v * p) by (nonlinear_arith)
                requires
                    0 <= f <= p,
                    v >= 0,
            ;
            crate::rounding::lemma_rounded_monotone(0, f * v, p);
            crate::rounding::lemma_rounded_monotone(f * v, v * p, p);
        } else {
            assert(v * p <= f * v <= 0) by (nonlinear_arith)
                requires
                    0 <= f <= p,
                    v < 0,
            ;
            crate::rounding::lemma_rounded_monotone(v * p, f * v, p);
            crate::rounding::lemma_rounded_monotone(f * v, 0, p);
        }
        factor.times(self).lemma_finite_by_size(self);
        self.times(factor).lemma_finite_by_size(self);
    }

    /// A fraction between 0 and 1 is its exact value, rounded.
    pub proof fn lemma_fraction_value(n: int, d: int)
        requires
            0 <= n <= d,
            d > 0,
        ensures
            Single::fraction(n, d).finite(),
            !Single::fraction(n, d).negative(),
            0 <= Single::fraction(n, d).value() <= pow2(149),
            Single::fraction(n, d).value() == crate::rounding::rounded(n * pow2(149), d),
    {
        reveal(Single::fraction);
        reveal(Single::value);
        let p = pow2(149) as int;
        lemma_pow2_pos(149);
        assert(0 <= n * p <= d * p) by (nonlinear_arith)
            requires
                0 <= n <= d,
                p > 0,
        ;
        crate::rounding::lemma_rounding_error(n * p, d);
        crate::rounding::lemma_units_nonneg(crate::rounding::nearest(n * p, d));
        Single::lemma_whole_exact(1);
        Single::whole(1).lemma_value_rounded(d);
        assert(p * d == d * p) by (nonlinear_arith);
        crate::rounding::lemma_rounded_monotone(n * p, d * p, d);
    }

    /// A fraction between 0 and 1 is within half of `2^126` units of its exact
    /// value.
    pub proof fn lemma_fraction_error(n: int, d: int)
        requires
            0 <= n <= d,
            d > 0,
        ensures
            2 * (d * Single::fraction(n, d).value() - n * pow2(149)) <= d * pow2(126),
            2 * (n * pow2(149) - d * Single::fraction(n, d).value()) <= d * pow2(126),
    {
        reveal(Single::fraction);
        reveal(Single::value);
        Single::lemma_fraction_value(n, d);
        let p = pow2(149) as int;
        lemma_pow2_pos(149);
        assert(0 <= n * p <= d * p) by (nonlinear_arith)
            requires
                0 <= n <= d,
                p > 0,
        ;
        crate::rounding::lemma_rounding_error(n * p, d);
    }

    /// A fraction does not depend on how it is written.
    pub proof fn lemma_fraction_reduced(n: int, d: int, k: int)
        requires
            0 <= n,
            d > 0,
            k > 0,
        ensures
            Single::fraction(n, d) == Single::fraction(n * k, d * k),
    {
        reveal(Single::fraction);
        let p = pow2(149) as int;
        lemma_pow2_pos(149);
        assert((n * k) * p == (n * p) * k && n * p >= 0 && d * k > 0) by (nonlinear_arith)
            requires
                n >= 0,
                p > 0,
                d > 0,
                k > 0,
        ;
        crate::rounding::lemma_nearest_exists(n * p, d);
        crate::rounding::lemma_rounds_to_scale(n * p, d, k, crate::rounding::nearest(n * p, d));
        crate::rounding::lemma_nearest(
            (n * p) * k,
            d * k,
            crate::rounding::nearest(n * p, d),
        );
    }

    /// A whole part lies between 0 and its limit.
    pub proof fn lemma_whole_part_range(self, most: int)
        requires
            most >= 0,
        ensures
            0 <= self.whole_part(most) <= most,
    {
        reveal(Single::whole_part);
        lemma_pow2_pos(149);
        if !self.nan() && !self.negative() {
            self.lemma_value_sign();
            vstd::arithmetic::div_mod::lemma_div_pos_is_pos(self.value(), pow2(149) as int);
        }
    }

    /// Whole parts keep the order of numbers.
    pub proof fn lemma_whole_part_ordered(self, other: Single, most: int)
        requires
            self.at_most(other),
            most >= 0,
        ensures
            self.whole_part(most) <= other.whole_part(most),
    {
        self.lemma_whole_part_range(most);
        other.lemma_whole_part_range(most);
        reveal(Single::whole_part);
        lemma_pow2_pos(149);
        self.lemma_value_sign();
        other.lemma_value_sign();
        let p = pow2(149) as int;
        if !self.negative() && !other.negative() {
            vstd::arithmetic::div_mod::lemma_div_is_ordered(self.value(), other.value(), p);
        } else if !self.negative() {
            assert(self.value() == 0);
            assert(0int / p == 0) by {
                vstd::arithmetic::div_mod::lemma_div_of0(p);
            }
        }
    }

    /// What a number up to 24 bits exceeds its whole part by lies between 0
    /// and 1.
    pub proof fn lemma_remainder(self, index: int)
        requires
            self.finite(),
            0 <= self.value(),
            index == self.whole_part(0xFFFF_FFFF),
            0 <= index < 0x100_0000,
        ensures
            self.minus(Single::whole(index)).finite(),
            0 <= self.minus(Single::whole(index)).value() <= pow2(149),
    {
        reveal(Single::whole_part);
        lemma_pow2_pos(149);
        let (w, one) = (Single::whole(index), Single::whole(1));
        let p = pow2(149) as int;
        Single::lemma_whole_exact(index);
        Single::lemma_whole_exact(1);
        self.lemma_value_sign();
        let v = self.value();
        assert(0 <= v - index * p <= p) by {
            if self.negative() {
                assert(v == 0);
                assert(index * p == 0) by (nonlinear_arith)
                    requires
                        index == 0,
                ;
            } else {
                assert(index == v / p);
                vstd::arithmetic::div_mod::lemma_fundamental_div_mod(v, p);
                vstd::arithmetic::div_mod::lemma_mod_bound(v, p);
                assert(p * index == index * p) by (nonlinear_arith);
            }
        }
        w.lemma_negated();
        self.lemma_plus_value(w.negated());
        Single::lemma_zero_rounded(1);
        one.lemma_value_rounded(1);
        crate::rounding::lemma_rounded_monotone(0, v - index * p, 1);
        crate::rounding::lemma_rounded_monotone(v - index * p, p, 1);
        self.minus(w).lemma_finite_by_size(one);
    }

    /// A positive number has a magnitude and no sign.
    pub proof fn lemma_positive(self)
        requires
            self.positive(),
        ensures
            self.magnitude() > 0,
            !self.negative(),
    {
        self.lemma_value_sign();
    }

    /// A whole number of at most 32 bits, but for 0, is positive and finite.
    pub proof fn lemma_whole_positive(n: int)
        requires
            0 < n <= 0xFFFF_FFFF,
        ensures
            Single::whole(n).positive(),
            Single::whole(n).finite(),
    {
        reveal(Single::fraction);
        reveal(Single::value);
        lemma2_to64();
        lemma_pow2_pos(149);
        lemma_pow2_adds(32, 149);
        lemma_pow2_strictly_increases(181, 200);
        let p = pow2(149) as int;
        assert(p <= n * p <= 0x1_0000_0000 * p) by (nonlinear_arith)
            requires
                0 < n <= 0xFFFF_FFFF,
                p > 0,
        ;
        crate::rounding::lemma_nearest_finite(n * p);
        Single::lemma_whole_exact(1);
        Single::whole(1).lemma_value_rounded(1);
        crate::rounding::lemma_rounded_monotone(p, n * p, 1);
    }

    /// The whole part of a number of either sign, by its value.
    pub proof fn lemma_whole_part_by_value(self)
        requires
            !self.nan(),
        ensures
            0 < self.value() < 0x7FFF_FFFF * pow2(149) ==> self.integer_part() == self.value()
                / (pow2(149) as int),
            -(0x7FFF_FFFF * pow2(149)) < self.value() < 0 ==> self.integer_part() == -((
            -self.value()) / (pow2(149) as int)),
    {
        reveal(Single::whole_part);
        self.lemma_value_sign();
        self.negated().lemma_value_sign();
        self.lemma_negated();
        let (v, p) = (self.value(), pow2(149) as int);
        lemma_pow2_pos(149);
        if 0 < v < 0x7FFF_FFFF * p {
            assert(v / p < 0x7FFF_FFFF) by (nonlinear_arith)
                requires
                    v < 0x7FFF_FFFF * p,
                    p > 0,
            ;
        }
        if -(0x7FFF_FFFF * p) < v < 0 {
            assert((-v) / p < 0x7FFF_FFFF) by (nonlinear_arith)
                requires
                    -v < 0x7FFF_FFFF * p,
                    p > 0,
            ;
        }
    }

    /// The whole part of a number that is not negative, by its value.
    pub proof fn lemma_whole_part_value(self, most: int)
        requires
            !self.nan(),
            self.value() >= 0,
            most >= 0,
        ensures
            self.whole_part(most) == if self.value() / (pow2(149) as int) < most {
                self.value() / (pow2(149) as int)
            } else {
                most
            },
    {
        reveal(Single::whole_part);
        self.lemma_value_sign();
        lemma_pow2_pos(149);
        if self.value() == 0 {
            assert(0int / (pow2(149) as int) == 0) by (nonlinear_arith)
                requires
                    pow2(149) > 0,
            ;
        }
    }

    /// A fraction, however large, rounded.
    pub proof fn lemma_fraction_rounded(n: int, d: int)
        requires
            n >= 0,
            d > 0,
        ensures
            Single::fraction(n, d).value() == crate::rounding::rounded(n * pow2(149), d),
            !Single::fraction(n, d).nan(),
    {
        reveal(Single::fraction);
        reveal(Single::value);
        lemma_pow2_pos(149);
        assert(n * pow2(149) >= 0) by (nonlinear_arith)
            requires
                n >= 0,
                pow2(149) >= 0,
        ;
        crate::rounding::lemma_nearest_exists(n * pow2(149), d);
    }

    /// A result of either sign that was rounded to below `2^e` is finite, and
    /// off by at most `2^(e - 24)`.
    pub proof fn lemma_rounded_within(self, x: int, den: int, e: int)
        requires
            !self.nan(),
            den > 0,
            -100 <= e <= 100,
            self.value() == crate::rounding::rounded(x, den),
            -(den * pow2((149 + e) as nat)) <= x <= den * pow2((149 + e) as nat),
        ensures
            self.finite(),
            2 * (den * self.value() - x) <= den * pow2((126 + e) as nat),
            2 * (x - den * self.value()) <= den * pow2((126 + e) as nat),
            x >= 0 ==> self.value() >= 0,
    {
        let size = if x < 0 {
            -x
        } else {
            x
        };
        crate::rounding::lemma_rounding_error_below(size, den, e);
        let u = crate::rounding::units(crate::rounding::nearest(size, den));
        crate::rounding::lemma_units_nonneg(crate::rounding::nearest(size, den));
        assert(den * (-u) == -(den * u)) by (nonlinear_arith);
        if x < 0 {
            self.lemma_negated();
            self.negated().lemma_finite_below(size, den);
        } else {
            self.lemma_finite_below(size, den);
        }
    }

    /// A result that needs no rounding, being `n` times `2^k` units.
    pub proof fn lemma_rounded_exactly(self, n: int, k: int, den: int)
        requires
            !self.nan(),
            den > 0,
            0 <= n < 0x100_0000,
            23 < k <= 149,
            self.value() == crate::rounding::rounded((n * pow2(k as nat)) * den, den),
        ensures
            self.finite(),
            self.value() == n * pow2(k as nat),
    {
        let q = pow2(k as nat) as int;
        if n > 0 {
            lemma2_to64();
            let m = crate::rounding::lemma_exact_magnitude(n, k, 23);
            crate::rounding::lemma_rounded_exact(m, den);
            crate::rounding::lemma_rounds_to_exact(m, den);
            crate::rounding::lemma_nearest(crate::rounding::units(m) * den, den, m);
            assert((n * q) * den >= 0) by (nonlinear_arith)
                requires
                    n >= 0,
                    den > 0,
                    q >= 0,
            ;
            self.lemma_finite_below((n * q) * den, den);
        } else {
            assert((n * q) * den == 0) by (nonlinear_arith)
                requires
                    n == 0,
            ;
            Single::lemma_zero_rounded(den);
            assert(n * q == 0) by (nonlinear_arith)
                requires
                    n == 0,
            ;
            self.lemma_value_sign();
        }
    }

    /// The whole part of a whole number is that number.
    pub proof fn lemma_whole_part_of_whole(n: int, most: int)
        requires
            0 <= n < 0x100_0000,
            n <= most,
        ensures
            Single::whole(n).whole_part(most) == n,
    {
        Single::lemma_whole_exact(n);
        reveal(Single::whole_part);
        let p = pow2(149) as int;
        lemma_pow2_pos(149);
        assert((n * p) / p == n) by (nonlinear_arith)
            requires
                p > 0,
        ;
        assert(n * p >= 0) by (nonlinear_arith)
            requires
                p > 0,
                n >= 0,
        ;
    }

    /// A whole number, however large, rounded.
    pub proof fn lemma_whole_value(n: int)
        requires
            n >= 0,
        ensures
            Single::whole(n).value() == crate::rounding::rounded(n * pow2(149), 1),
    {
        reveal(Single::fraction);
        reveal(Single::value);
        lemma_pow2_pos(149);
        assert(n * pow2(149) >= 0) by (nonlinear_arith)
            requires
                n >= 0,
                pow2(149) >= 0,
        ;
        crate::rounding::lemma_nearest_exists(n * pow2(149), 1);
    }

    /// Whole numbers keep their order, however large.
    pub proof fn lemma_whole_monotone(a: int, b: int)
        requires
            0 <= a <= b,
        ensures
            Single::whole(a).at_most(Single::whole(b)),
    {
        reveal(Single::fraction);
        reveal(Single::value);
        let p = pow2(149) as int;
        lemma_pow2_pos(149);
        assert(0 <= a * p <= b * p) by (nonlinear_arith)
            requires
                0 <= a <= b,
                p > 0,
        ;
        crate::rounding::lemma_nearest_exists(a * p, 1);
        crate::rounding::lemma_nearest_exists(b * p, 1);
        crate::rounding::lemma_rounded_monotone(a * p, b * p, 1);
    }

    /// A finite positive number over a positive one is a number, and not
    /// negative.
    pub proof fn lemma_over_positive(self, other: Single)
        requires
            self.finite(),
            self.positive(),
            other.positive(),
        ensures
            !self.over(other).nan(),
            !self.over(other).negative(),
    {
        reveal(Single::over);
        self.lemma_positive();
        other.lemma_positive();
        let (a, b) = (
            crate::rounding::units(self.magnitude()),
            crate::rounding::units(other.magnitude()),
        );
        reveal(Single::value);
        lemma_pow2_pos(149);
        assert(a * pow2(149) >= 0) by (nonlinear_arith)
            requires
                a >= 0,
                pow2(149) > 0,
        ;
        crate::rounding::lemma_nearest_exists(a * pow2(149), b);
    }

    /// A number that is not negative, times a finite positive one, is a number
    /// of at least 0.
    pub proof fn lemma_times_positive(self, other: Single)
        requires
            !self.nan(),
            !self.negative(),
            other.finite(),
            other.positive(),
        ensures
            !self.times(other).nan(),
            self.times(other).value() >= 0,
    {
        reveal(Single::times);
        other.lemma_positive();
        lemma_pow2_pos(149);
        let (a, b) = (
            crate::rounding::units(self.magnitude()),
            crate::rounding::units(other.magnitude()),
        );
        crate::rounding::lemma_units_nonneg(self.magnitude());
        crate::rounding::lemma_units_nonneg(other.magnitude());
        assert(a * b >= 0) by (nonlinear_arith)
            requires
                a >= 0,
                b >= 0,
        ;
        crate::rounding::lemma_nearest_exists(a * b, pow2(149) as int);
        self.times(other).lemma_value_sign();
    }

    /// Nothing, times a finite number or over a positive one, is nothing.
    pub proof fn lemma_nothing(self, other: Single)
        requires
            self.magnitude() == 0,
            other.finite(),
        ensures
            self.times(other).magnitude() == 0,
            other.times(self).magnitude() == 0,
            other.magnitude() > 0 ==> self.over(other).magnitude() == 0,
    {
        reveal(Single::times);
        reveal(Single::over);
        lemma_pow2_pos(149);
        let (u, p) = (crate::rounding::units(other.magnitude()), pow2(149) as int);
        crate::rounding::lemma_rounds_to_exact(0, p);
        crate::rounding::lemma_nearest(0, p, 0);
        assert(0 * u == 0 && u * 0 == 0);
        if other.magnitude() > 0 {
            crate::rounding::lemma_units_increasing(0, other.magnitude());
            crate::rounding::lemma_rounds_to_exact(0, u);
            assert(0 * p == 0);
            crate::rounding::lemma_nearest(0, u, 0);
        }
    }

    /// What equals 0 has no magnitude, and the other way round.
    pub proof fn lemma_zero(self)
        ensures
            self.same(Single::whole(0)) <==> self.magnitude() == 0,
    {
        Single::lemma_whole_exact(0);
        assert(0 * pow2(149) == 0);
        self.lemma_value_sign();
    }

    /// A factor that is not negative keeps the order of finite numbers.
    pub proof fn lemma_times_monotone(self, low: Single, high: Single)
        requires
            self.finite(),
            self.value() >= 0,
            low.finite(),
            high.finite(),
            low.at_most(high),
        ensures
            self.times(low).at_most(self.times(high)),
            low.times(self).at_most(high.times(self)),
    {
        let (f, a, b, p) = (self.value(), low.value(), high.value(), pow2(149) as int);
        lemma_pow2_pos(149);
        self.lemma_times_value(low);
        self.lemma_times_value(high);
        low.lemma_times_value(self);
        high.lemma_times_value(self);
        assert(f * a <= f * b && a * f == f * a && b * f == f * b) by (nonlinear_arith)
            requires
                f >= 0,
                a <= b,
        ;
        crate::rounding::lemma_rounded_monotone(f * a, f * b, p);
    }

    /// A quotient of a finite number by a finite positive one is the exact one,
    /// rounded.
    pub proof fn lemma_over_value(self, other: Single)
        requires
            self.finite(),
            other.finite(),
            other.value() > 0,
        ensures
            !self.over(other).nan(),
            self.over(other).value() == crate::rounding::rounded(
                self.value() * pow2(149),
                other.value(),
            ),
    {
        reveal(Single::value);
        reveal(Single::over);
        lemma_pow2_pos(149);
        other.lemma_value_sign();
        self.lemma_value_sign();
        let (u, w, p) = (
            crate::rounding::units(self.magnitude()),
            crate::rounding::units(other.magnitude()),
            pow2(149) as int,
        );
        crate::rounding::lemma_units_nonneg(self.magnitude());
        assert(u * p >= 0 && (-u) * p == -(u * p)) by (nonlinear_arith)
            requires
                u >= 0,
                p > 0,
        ;
        assert(u > 0 ==> u * p > 0) by (nonlinear_arith)
            requires
                p > 0,
        ;
        crate::rounding::lemma_nearest_exists(u * p, w);
        if u == 0 {
            assert(0 * p == 0);
            crate::rounding::lemma_rounds_to_exact(0, w);
            crate::rounding::lemma_nearest(0, w, 0);
        }
    }

    /// A positive divisor keeps the order of finite numbers.
    pub proof fn lemma_over_monotone(self, other: Single, divisor: Single)
        requires
            self.finite(),
            other.finite(),
            divisor.finite(),
            divisor.value() > 0,
            self.at_most(other),
        ensures
            self.over(divisor).at_most(other.over(divisor)),
    {
        let (a, b, p) = (self.value(), other.value(), pow2(149) as int);
        lemma_pow2_pos(149);
        self.lemma_over_value(divisor);
        other.lemma_over_value(divisor);
        assert(a * p <= b * p) by (nonlinear_arith)
            requires
                a <= b,
                p > 0,
        ;
        crate::rounding::lemma_rounded_monotone(a * p, b * p, divisor.value());
    }

    /// A number whose value is what a fraction rounds to is finite where the
    /// fraction's nearest magnitude is.
    pub proof fn lemma_finite_below(self, num: int, den: int)
        requires
            !self.nan(),
            0 <= num,
            den > 0,
            self.value() == crate::rounding::rounded(num, den),
            0 <= crate::rounding::nearest(num, den) < INFINITE,
        ensures
            self.finite(),
    {
        reveal(Single::value);
        let m = crate::rounding::nearest(num, den);
        crate::rounding::lemma_units_nonneg(m);
        if self.infinite() {
            crate::rounding::lemma_units_increasing(m, INFINITE as int);
        }
    }

    /// A sum is finite only where both parts are.
    pub proof fn lemma_plus_finite(self, other: Single)
        requires
            self.finite(),
            self.plus(other).finite(),
        ensures
            other.finite(),
    {
        reveal(Single::plus);
    }

    /// A factor that is not positive reverses the order of finite numbers.
    pub proof fn lemma_times_reversed(self, low: Single, high: Single)
        requires
            self.finite(),
            self.value() <= 0,
            low.finite(),
            high.finite(),
            low.at_most(high),
        ensures
            self.times(high).at_most(self.times(low)),
    {
        let (f, a, b, p) = (self.value(), low.value(), high.value(), pow2(149) as int);
        lemma_pow2_pos(149);
        self.lemma_times_value(low);
        self.lemma_times_value(high);
        assert(f * b <= f * a) by (nonlinear_arith)
            requires
                f <= 0,
                a <= b,
        ;
        crate::rounding::lemma_rounded_monotone(f * b, f * a, p);
    }

    /// Adding numbers in order to numbers in order keeps the order.
    pub proof fn lemma_plus_ordered(self, other: Single, x: Single, y: Single)
        requires
            self.finite(),
            other.finite(),
            x.finite(),
            y.finite(),
            self.at_most(other),
            x.at_most(y),
        ensures
            self.plus(x).at_most(other.plus(y)),
    {
        self.lemma_plus_value(x);
        other.lemma_plus_value(y);
        crate::rounding::lemma_rounded_monotone(
            self.value() + x.value(),
            other.value() + y.value(),
            1,
        );
    }

    /// A number over a finite one other than 0 is a number.
    pub proof fn lemma_over_is_a_number(self, other: Single)
        requires
            !self.nan(),
            other.finite(),
            other.magnitude() > 0,
        ensures
            !self.over(other).nan(),
    {
        reveal(Single::over);
        lemma_pow2_pos(149);
        let (a, b) = (
            crate::rounding::units(self.magnitude()),
            crate::rounding::units(other.magnitude()),
        );
        crate::rounding::lemma_units_nonneg(self.magnitude());
        crate::rounding::lemma_units_increasing(0, other.magnitude());
        assert(a * pow2(149) >= 0) by (nonlinear_arith)
            requires
                a >= 0,
                pow2(149) > 0,
        ;
        crate::rounding::lemma_nearest_exists(a * pow2(149), b);
    }

    /// A whole number is a number, however large.
    pub proof fn lemma_whole_is_a_number(n: int)
        requires
            n >= 0,
        ensures
            !Single::whole(n).nan(),
    {
        reveal(Single::fraction);
        lemma_pow2_pos(149);
        assert(n * pow2(149) >= 0) by (nonlinear_arith)
            requires
                n >= 0,
                pow2(149) > 0,
        ;
        crate::rounding::lemma_nearest_exists(n * pow2(149), 1);
    }

    /// A finite number less itself is nothing.
    pub proof fn lemma_minus_itself(self)
        requires
            self.finite(),
        ensures
            self.minus(self).magnitude() == 0,
            self.minus(self).finite(),
    {
        reveal(Single::plus);
        self.lemma_negated();
    }

    /// Nothing and nothing is nothing.
    pub proof fn lemma_nothings_add(self, other: Single)
        requires
            self.magnitude() == 0,
            other.magnitude() == 0,
        ensures
            self.plus(other).magnitude() == 0,
    {
        reveal(Single::plus);
        self.lemma_value_sign();
        other.lemma_value_sign();
    }

    /// Adding nothing changes no bit of a finite number other than 0.
    pub proof fn lemma_plus_nothing_bits(self, nothing: Single)
        requires
            self.finite(),
            self.magnitude() > 0,
            nothing.magnitude() == 0,
        ensures
            self.plus(nothing) == self,
    {
        reveal(Single::plus);
        reveal(Single::value);
        self.lemma_value_sign();
        nothing.lemma_value_sign();
        let m = self.magnitude();
        crate::rounding::lemma_rounds_to_exact(m, 1);
        assert(crate::rounding::units(m) * 1 == crate::rounding::units(m));
        crate::rounding::lemma_nearest(crate::rounding::units(m), 1, m);
    }

    /// A fraction of at least a tenth and at most 1 is not 0.
    pub proof fn lemma_fraction_magnitude(self, n: int, d: int)
        requires
            self == Single::fraction(n, d),
            0 < n <= d <= 10 * n,
        ensures
            self.magnitude() > 0,
    {
        Single::lemma_fraction_value(n, d);
        Single::lemma_fraction_error(n, d);
        lemma_pow2_pos(126);
        lemma_pow2_adds(23, 126);
        lemma2_to64();
        let (v, p, q) = (self.value(), pow2(149) as int, pow2(126) as int);
        assert(v > 0) by (nonlinear_arith)
            requires
                2 * (n * p - d * v) <= d * q,
                p == 0x80_0000 * q,
                0 < n,
                d <= 10 * n,
                d > 0,
                q > 0,
        ;
        self.lemma_value_sign();
    }

    /// A fraction of at most 1000 is finite.
    pub proof fn lemma_fraction_finite(n: int, d: int)
        requires
            0 <= n <= 1000 * d,
            d > 0,
        ensures
            Single::fraction(n, d).finite(),
            !Single::fraction(n, d).negative(),
    {
        reveal(Single::fraction);
        lemma2_to64();
        lemma_pow2_pos(149);
        lemma_pow2_adds(10, 149);
        let p = pow2(149) as int;
        assert(0 <= n * p <= d * (1024 * p)) by (nonlinear_arith)
            requires
                0 <= n <= 1000 * d,
                d > 0,
                p > 0,
        ;
        crate::rounding::lemma_rounding_error_below(n * p, d, 10);
    }

    /// Negative infinity is below every finite number.
    pub proof fn lemma_finite_below_lowest(self, lowest: Single)
        requires
            self.finite(),
            lowest.infinite(),
            lowest.negative(),
        ensures
            lowest.less(self),
    {
        reveal(Single::value);
        crate::rounding::lemma_units_nonneg(self.magnitude());
        crate::rounding::lemma_units_increasing(self.magnitude(), INFINITE as int);
    }

    /// A fraction of at most a quarter stays one.
    pub proof fn lemma_fraction_at_most_quarter(n: int, d: int)
        requires
            0 <= n,
            4 * n <= d,
            d > 0,
        ensures
            Single::fraction(n, d).finite(),
            0 <= Single::fraction(n, d).value(),
            4 * Single::fraction(n, d).value() <= pow2(149),
    {
        let p = pow2(149) as int;
        lemma2_to64();
        lemma_pow2_pos(147);
        lemma_pow2_adds(2, 147);
        Single::lemma_fraction_value(n, d);
        let m = crate::rounding::lemma_exact_magnitude(1, 147, 23);
        let q = pow2(147) as int;
        crate::rounding::lemma_rounded_exact(m, d);
        assert(1 * q == q);
        assert(n * p <= q * d) by (nonlinear_arith)
            requires
                4 * n <= d,
                p == 4 * q,
                q > 0,
        ;
        crate::rounding::lemma_rounded_monotone(n * p, q * d, d);
    }

    /// Fractions between 0 and 1 keep their order.
    pub proof fn lemma_fraction_ordered(a: int, b: int, d: int)
        requires
            0 <= a <= b <= d,
            d > 0,
        ensures
            Single::fraction(a, d).at_most(Single::fraction(b, d)),
    {
        Single::lemma_fraction_value(a, d);
        Single::lemma_fraction_value(b, d);
        let p = pow2(149) as int;
        lemma_pow2_pos(149);
        assert(a * p <= b * p) by (nonlinear_arith)
            requires
                a <= b,
                p > 0,
        ;
        crate::rounding::lemma_rounded_monotone(a * p, b * p, d);
    }

    /// A finite number over itself is 1, less 1 nothing, whatever that is
    /// weighted by: 1 plus it is 1.
    pub proof fn lemma_weighted_excess_of_itself(self, weight: Single)
        requires
            self.finite(),
            self.magnitude() > 0,
            weight.finite(),
        ensures
            Single::whole(1).plus(
                weight.times(self.over(self).minus(Single::whole(1))),
            ) == Single::whole(1),
    {
        reveal(Single::over);
        reveal(Single::plus);
        reveal(Single::times);
        reveal(Single::value);
        reveal(Single::fraction);
        let one = Single::whole(1);
        Single::lemma_whole_exact(1);
        lemma_pow2_pos(149);
        let m = one.magnitude();
        let u = crate::rounding::units(self.magnitude());
        self.lemma_value_sign();
        crate::rounding::lemma_units_nonneg(self.magnitude());
        crate::rounding::lemma_rounds_to_exact(m, u);
        crate::rounding::lemma_nearest(crate::rounding::units(m) * u, u, m);
        assert(u * pow2(149) == crate::rounding::units(m) * u) by (nonlinear_arith)
            requires
                crate::rounding::units(m) == pow2(149),
        ;
        assert(self.over(self) == one);
        one.lemma_negated();
        let nothing = one.minus(one);
        assert(nothing == Single::signed(false, 0));
        let w = crate::rounding::units(weight.magnitude());
        assert(w * 0 == 0);
        crate::rounding::lemma_rounds_to_exact(0, pow2(149) as int);
        crate::rounding::lemma_nearest(0, pow2(149) as int, 0);
        assert(weight.times(nothing).magnitude() == 0);
        crate::rounding::lemma_rounds_to_exact(m, 1);
        assert(crate::rounding::units(m) * 1 == crate::rounding::units(m));
        crate::rounding::lemma_nearest(crate::rounding::units(m), 1, m);
    }

    /// Moving a number towards another by a share of at most a quarter leaves
    /// it between the two.
    pub proof fn lemma_smoothed(self, x: Single, share: Single)
        requires
            self.finite(),
            x.finite(),
            x.minus(self).finite(),
            share.finite(),
            0 <= share.value(),
            4 * share.value() <= pow2(149),
        ensures
            ({
                let r = self.plus(share.times(x.minus(self)));
                &&& r.finite()
                &&& self.at_most(x) ==> self.at_most(r) && r.at_most(x)
                &&& x.at_most(self) ==> x.at_most(r) && r.at_most(self)
            }),
    {
        let d = x.minus(self);
        let t = share.times(d);
        let (a, p) = (share.value(), pow2(149) as int);
        let gap = x.value() - self.value();
        lemma_pow2_pos(149);
        self.lemma_negated();
        x.lemma_plus_value(self.negated());
        assert(d.value() == crate::rounding::rounded(gap, 1));
        let size = vstd::math::abs(gap) as int;
        crate::rounding::lemma_rounded_at_most_double(size, 1);
        let far = crate::rounding::units(crate::rounding::nearest(size, 1));
        share.lemma_times_value(d);
        let product = a * d.value();
        assert(0 <= a * far && 4 * (a * far) <= p * far && a * (-far) == -(a * far))
            by (nonlinear_arith)
            requires
                0 <= a,
                4 * a <= p,
                far >= 0,
        ;
        crate::rounding::lemma_rounded_at_most_double(a * far, p);
        let near = crate::rounding::units(crate::rounding::nearest(a * far, p));
        assert(near <= size) by (nonlinear_arith)
            requires
                p * near <= 2 * (a * far),
                4 * (a * far) <= p * far,
                1 * far <= 2 * size,
                p > 0,
        ;
        Single::lemma_zero_rounded(p);
        assert(t.value() == near || t.value() == -near);
        assert(gap >= 0 ==> t.value() == near);
        assert(gap <= 0 ==> t.value() == -near);
        d.lemma_times_share(share);
        self.lemma_plus_value(t);
        self.lemma_value_rounded(1);
        x.lemma_value_rounded(1);
        let v = self.value() + t.value();
        if gap >= 0 {
            crate::rounding::lemma_rounded_monotone(self.value(), v, 1);
            crate::rounding::lemma_rounded_monotone(v, x.value(), 1);
            self.plus(t).lemma_finite_between(self, x);
        } else {
            crate::rounding::lemma_rounded_monotone(x.value(), v, 1);
            crate::rounding::lemma_rounded_monotone(v, self.value(), 1);
            self.plus(t).lemma_finite_between(x, self);
        }
    }

    /// A number no larger in size than a finite one is finite.
    pub proof fn lemma_finite_by_size(self, other: Single)
        requires
            !self.nan(),
            other.finite(),
            vstd::math::abs(self.value()) <= vstd::math::abs(other.value()),
        ensures
            self.finite(),
    {
        reveal(Single::value);
        crate::rounding::lemma_units_nonneg(other.magnitude());
        if self.infinite() {
            crate::rounding::lemma_units_increasing(other.magnitude(), self.magnitude());
        }
    }

    proof fn lemma_zero_rounded(den: int)
        requires
            den > 0,
        ensures
            crate::rounding::rounded(0, den) == 0,
    {
        crate::rounding::lemma_rounds_to_exact(0, den);
        crate::rounding::lemma_nearest(0, den, 0);
    }

    /// Adding what is not positive to a finite number gives nothing larger.
    pub proof fn lemma_plus_at_most(self, other: Single)
        requires
            self.finite(),
            !other.nan(),
            other.value() <= 0,
        ensures
            self.plus(other).at_most(self),
    {
        if other.infinite() {
            reveal(Single::value);
            reveal(Single::plus);
            other.lemma_value_sign();
            crate::rounding::lemma_units_increasing(self.magnitude(), INFINITE as int);
            crate::rounding::lemma_units_nonneg(self.magnitude());
        } else {
            self.lemma_plus_value(other);
            self.lemma_value_rounded(1);
            crate::rounding::lemma_rounded_monotone(
                self.value() + other.value(),
                self.value() * 1,
                1,
            );
        }
    }

    /// Adding what is not negative to a finite number gives nothing smaller.
    pub proof fn lemma_plus_at_least(self, other: Single)
        requires
            self.finite(),
            !other.nan(),
            other.value() >= 0,
        ensures
            self.at_most(self.plus(other)),
    {
        if other.infinite() {
            reveal(Single::value);
            reveal(Single::plus);
            other.lemma_value_sign();
            crate::rounding::lemma_units_increasing(self.magnitude(), INFINITE as int);
            crate::rounding::lemma_units_nonneg(self.magnitude());
        } else {
            self.lemma_plus_value(other);
            self.lemma_value_rounded(1);
            crate::rounding::lemma_rounded_monotone(
                self.value() * 1,
                self.value() + other.value(),
                1,
            );
        }
    }
}

} // verus!
