//! Saturating Q31.32 fixed-point scalars.
//!
//! Every quantity the solver works with (velocities, pressure,
//! divergence, coordinates, the timestep) is a [`Fixed`]: an `i64`
//! interpreted as a real number scaled by `2^32`.  Multiplication and
//! division truncate towards zero, exactly as the corresponding wide
//! integer operations do, and every operation saturates at the `i64`
//! range instead of overflowing, so all operations are total.

use vstd::prelude::*;
use vstd::arithmetic::div_mod::lemma_div_multiples_vanish;
use vstd::arithmetic::div_mod::lemma_div_of0;
use vstd::arithmetic::div_mod::lemma_fundamental_div_mod_converse;

verus! {

/// Scale factor of the representation: one whole unit is `2^32` bits.
pub const FX_SCALE: i64 = 4294967296;

/// Bit value of one half.
pub const FX_HALF: i64 = 2147483648;

/// Clamp a mathematical integer to the `i64` range.
pub open spec fn sat64(x: int) -> int {
    if x > i64::MAX {
        i64::MAX as int
    } else if x < i64::MIN {
        i64::MIN as int
    } else {
        x
    }
}

/// Magnitude of a mathematical integer.
pub open spec fn magn(x: int) -> int {
    if x < 0 {
        -x
    } else {
        x
    }
}

/// Division truncating towards zero, the rounding of the machine
/// operations the scalar type is built from.
pub open spec fn tdiv(a: int, b: int) -> int
    recommends
        b != 0,
{
    if (a < 0) == (b < 0) {
        magn(a) / magn(b)
    } else {
        -(magn(a) / magn(b))
    }
}

/// Bit value of the saturating sum of two scalars given by bit value.
pub open spec fn fadd(a: int, b: int) -> int {
    sat64(a + b)
}

/// Bit value of the saturating difference of two scalars.
pub open spec fn fsub(a: int, b: int) -> int {
    sat64(a - b)
}

/// Bit value of the saturating, truncating product of two scalars.
pub open spec fn fmul(a: int, b: int) -> int {
    sat64(tdiv(a * b, FX_SCALE as int))
}

/// Bit value of the saturating, truncating quotient of two scalars.
pub open spec fn fdiv(a: int, b: int) -> int
    recommends
        b != 0,
{
    sat64(tdiv(a * (FX_SCALE as int), b))
}

/// Bit value of a scalar divided by a small positive integer count.
pub open spec fn fdivn(a: int, n: int) -> int
    recommends
        n > 0,
{
    sat64(tdiv(a, n))
}

/// Bit value of the scalar representing the integer `i`.
pub open spec fn int_to_fx(i: int) -> int {
    sat64(i * (FX_SCALE as int))
}

/// Largest integer at or below the scalar with bit value `a`.
pub open spec fn fx_floor(a: int) -> int {
    a / (FX_SCALE as int)
}

/// A Q31.32 fixed-point number: the represented value is `bits / 2^32`.
#[derive(Clone, Copy, PartialEq, Eq, Structural, Debug)]
pub struct Fixed {
    pub bits: i64,
}

/// How the magnitude of a product splits over the factors, and how its
/// sign follows from theirs.
pub proof fn lemma_magn_mul(a: int, b: int)
    ensures
        magn(a * b) == magn(a) * magn(b),
        (a * b < 0) <==> (((a < 0) != (b < 0)) && a != 0 && b != 0),
        (a * b == 0) <==> (a == 0 || b == 0),
{
    if a == 0 || b == 0 {
        assert(a * b == 0) by (nonlinear_arith)
            requires
                a == 0 || b == 0,
        ;
        let x = magn(a);
        let y = magn(b);
        assert(x * y == 0) by (nonlinear_arith)
            requires
                x == 0 || y == 0,
        ;
    } else if a > 0 && b > 0 {
        assert(a * b > 0) by (nonlinear_arith)
            requires
                a > 0,
                b > 0,
        ;
    } else if a < 0 && b < 0 {
        assert(a * b > 0 && a * b == (-a) * (-b)) by (nonlinear_arith)
            requires
                a < 0,
                b < 0,
        ;
    } else if a < 0 {
        assert(a * b < 0 && -(a * b) == (-a) * b) by (nonlinear_arith)
            requires
                a < 0,
                b > 0,
        ;
    } else {
        assert(a * b < 0 && -(a * b) == a * (-b)) by (nonlinear_arith)
            requires
                a > 0,
                b < 0,
        ;
    }
}

/// Dividing a scaled integer back down by the scale is exact.
pub proof fn lemma_tdiv_scale_cancel(a: int)
    ensures
        tdiv(a * (FX_SCALE as int), FX_SCALE as int) == a,
{
    let s = FX_SCALE as int;
    lemma_magn_mul(a, s);
    lemma_div_multiples_vanish(magn(a), s);
    assert(s * magn(a) == magn(a) * s) by (nonlinear_arith);
}

/// Truncating division of zero is zero.
pub proof fn lemma_tdiv_of0(b: int)
    requires
        b != 0,
    ensures
        tdiv(0, b) == 0,
{
    lemma_div_of0(magn(b));
}

impl Fixed {
    /// The scalar zero.
    pub fn zero() -> (r: Fixed)
        ensures
            r.bits == 0,
    {
        Fixed { bits: 0 }
    }

    /// The scalar one.
    pub fn one() -> (r: Fixed)
        ensures
            r.bits == FX_SCALE,
    {
        Fixed { bits: FX_SCALE }
    }

    /// The scalar one half.
    pub fn half() -> (r: Fixed)
        ensures
            r.bits == FX_HALF,
    {
        Fixed { bits: FX_HALF }
    }

    /// The scalar representing the integer `i`, saturating at the
    /// representable range.
    pub fn from_int(i: i64) -> (r: Fixed)
        ensures
            r.bits as int == int_to_fx(i as int),
    {
        if i > 2147483647i64 {
            Fixed { bits: i64::MAX }
        } else if i < -2147483648i64 {
            Fixed { bits: i64::MIN }
        } else {
            Fixed { bits: i * FX_SCALE }
        }
    }

    /// The scalar closest to `num / den` from the direction of zero.
    pub fn from_ratio(num: i64, den: i64) -> (r: Fixed)
        requires
            den != 0,
        ensures
            r.bits as int == fdiv(num as int, den as int),
    {
        (Fixed { bits: num }).div(Fixed { bits: den })
    }

    /// Saturating addition.
    pub fn add(self, o: Fixed) -> (r: Fixed)
        ensures
            r.bits as int == fadd(self.bits as int, o.bits as int),
    {
        let a = self.bits;
        let b = o.bits;
        if b >= 0 {
            if a > i64::MAX - b {
                Fixed { bits: i64::MAX }
            } else {
                Fixed { bits: a + b }
            }
        } else {
            if a < i64::MIN - b {
                Fixed { bits: i64::MIN }
            } else {
                Fixed { bits: a + b }
            }
        }
    }

    /// Saturating subtraction.
    pub fn sub(self, o: Fixed) -> (r: Fixed)
        ensures
            r.bits as int == fsub(self.bits as int, o.bits as int),
    {
        let a = self.bits;
        let b = o.bits;
        if b >= 0 {
            if a < i64::MIN + b {
                Fixed { bits: i64::MIN }
            } else {
                Fixed { bits: a - b }
            }
        } else {
            if a > i64::MAX + b {
                Fixed { bits: i64::MAX }
            } else {
                Fixed { bits: a - b }
            }
        }
    }

    /// Saturating, truncating multiplication.
    pub fn mul(self, o: Fixed) -> (r: Fixed)
        ensures
            r.bits as int == fmul(self.bits as int, o.bits as int),
    {
        let a = self.bits;
        let b = o.bits;
        let ma = mag_u64(a);
        let mb = mag_u64(b);
        proof {
            lemma_magn_mul(a as int, b as int);
            assert((ma as int) * (mb as int) <= 0x40000000000000000000000000000000int)
                by (nonlinear_arith)
                requires
                    ma as int <= 0x8000000000000000int,
                    mb as int <= 0x8000000000000000int,
            ;
        }
        let p: u128 = (ma as u128) * (mb as u128);
        let q: u128 = p / 4294967296u128;
        let neg = (a < 0) != (b < 0);
        proof {
            let x = (a as int) * (b as int);
            let s = FX_SCALE as int;
            assert(magn(x) == p as int);
            assert(q as int == magn(x) / s);
            if x == 0 {
                lemma_div_of0(s);
            }
            assert(tdiv(x, s) == if neg && x != 0 {
                -(q as int)
            } else {
                q as int
            });
        }
        Fixed { bits: sat_from_mag(neg, q) }
    }

    /// Saturating, truncating division.
    pub fn div(self, o: Fixed) -> (r: Fixed)
        requires
            o.bits != 0,
        ensures
            r.bits as int == fdiv(self.bits as int, o.bits as int),
    {
        let a = self.bits;
        let b = o.bits;
        let ma = mag_u64(a);
        let mb = mag_u64(b);
        proof {
            lemma_magn_mul(a as int, FX_SCALE as int);
        }
        let p: u128 = (ma as u128) * 4294967296u128;
        let q: u128 = p / (mb as u128);
        let neg = (a < 0) != (b < 0);
        Fixed { bits: sat_from_mag(neg, q) }
    }

    /// Truncating division by a positive integer count.
    pub fn div_n(self, n: u64) -> (r: Fixed)
        requires
            n >= 1,
        ensures
            r.bits as int == fdivn(self.bits as int, n as int),
    {
        let a = self.bits;
        let ma = mag_u64(a);
        let q = ma / n;
        let neg = a < 0;
        Fixed { bits: sat_from_mag(neg, q as u128) }
    }

    /// Largest integer at or below this scalar.
    pub fn floor(self) -> (r: i64)
        ensures
            r as int == fx_floor(self.bits as int),
    {
        let a = self.bits;
        if a >= 0 {
            ((a as u64) / 4294967296u64) as i64
        } else {
            let m = mag_u64(a);
            let q = m / 4294967296u64;
            let rem = m % 4294967296u64;
            proof {
                let s = FX_SCALE as int;
                if rem == 0 {
                    assert(a as int == (-(q as int)) * s + 0) by (nonlinear_arith)
                        requires
                            m as int == q as int * s + 0,
                            a as int == -(m as int),
                            s == FX_SCALE as int,
                    ;
                    lemma_fundamental_div_mod_converse(a as int, s, -(q as int), 0);
                } else {
                    assert(a as int == (-(q as int) - 1) * s + (s - rem as int))
                        by (nonlinear_arith)
                        requires
                            m as int == q as int * s + rem as int,
                            a as int == -(m as int),
                            s == FX_SCALE as int,
                    ;
                    lemma_fundamental_div_mod_converse(
                        a as int,
                        s,
                        -(q as int) - 1,
                        s - rem as int,
                    );
                }
            }
            if rem == 0 {
                -(q as i64)
            } else {
                -(q as i64) - 1
            }
        }
    }
}

/// Magnitude of an `i64` as a `u64`.
fn mag_u64(a: i64) -> (m: u64)
    ensures
        m as int == magn(a as int),
{
    if a >= 0 {
        a as u64
    } else if a == i64::MIN {
        9223372036854775808u64
    } else {
        (-a) as u64
    }
}

/// Rebuild a saturated signed value from a sign and a wide magnitude.
fn sat_from_mag(neg: bool, m: u128) -> (r: i64)
    ensures
        r as int == sat64(
            if neg {
                -(m as int)
            } else {
                m as int
            },
        ),
{
    if neg {
        if m >= 9223372036854775808u128 {
            i64::MIN
        } else {
            -((m as u64) as i64)
        }
    } else {
        if m >= 9223372036854775808u128 {
            i64::MAX
        } else {
            (m as u64) as i64
        }
    }
}

} // verus!
