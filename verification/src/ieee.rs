//! Floating-point values, carried as IEEE 754 bit patterns.
//!
//! The order of two values can be read off their bit patterns.

use vstd::arithmetic::power2::*;
use vstd::prelude::*;

verus! {

/// A `binary32` value.
#[derive(Clone, Copy, Debug, PartialEq, Eq, Structural)]
pub struct Single {
    pub bits: u32,
}

/// A `binary64` value.
#[derive(Clone, Copy, Debug, PartialEq, Eq, Structural)]
pub struct Double {
    pub bits: u64,
}

/// The bit pattern of positive infinity in `binary32`.
pub const SINGLE_INFINITY: u32 = 0x7f80_0000;

/// The bit pattern of negative infinity in `binary32`.
pub const SINGLE_NEG_INFINITY: u32 = 0xff80_0000;

/// The magnitude of the value with exponent field `exp` and fraction field `man`
/// of `m` bits, in units of the least positive value of the format. An infinity, whose
/// exponent field is above that of every finite value, has a greater magnitude than
/// any of them.
pub open spec fn magnitude(exp: nat, man: nat, m: nat) -> nat {
    if exp == 0 {
        man
    } else {
        (pow2(m) + man) * pow2((exp - 1) as nat)
    }
}

impl Single {
    /// The exponent field.
    pub open spec fn exp(self) -> nat {
        (self.bits as nat / 0x80_0000) % 0x100
    }

    /// The fraction field.
    pub open spec fn man(self) -> nat {
        self.bits as nat % 0x80_0000
    }

    /// Whether this is not a number.
    pub open spec fn is_nan(self) -> bool {
        self.exp() == 0xff && self.man() != 0
    }

    /// Whether this is an infinity.
    pub open spec fn is_infinite(self) -> bool {
        self.exp() == 0xff && self.man() == 0
    }

    /// Whether this is a number, and not an infinity.
    pub open spec fn is_finite(self) -> bool {
        self.exp() < 0xff
    }

    /// Whether the sign bit is set.
    pub open spec fn negative(self) -> bool {
        self.bits >= 0x8000_0000
    }

    /// The magnitude, in units of the least positive value.
    pub open spec fn mag(self) -> nat {
        magnitude(self.exp(), self.man(), 23)
    }

    /// The value, in units of the least positive one.
    pub open spec fn value(self) -> int {
        if self.negative() {
            -(self.mag() as int)
        } else {
            self.mag() as int
        }
    }

    /// `self < other`, which is false where either is not a number.
    pub open spec fn lt(self, other: Single) -> bool {
        &&& !self.is_nan()
        &&& !other.is_nan()
        &&& self.value() < other.value()
    }

    /// Whether `self < other`.
    pub fn less(self, other: Single) -> (r: bool)
        ensures
            r == self.lt(other),
    {
        let a: u32 = self.bits % 0x8000_0000;
        let b: u32 = other.bits % 0x8000_0000;
        proof {
            lemma_fields(self.bits as nat, a as nat, 0x80_0000, 0x100);
            lemma_fields(other.bits as nat, b as nat, 0x80_0000, 0x100);
            lemma2_to64();
            lemma_magnitude_order(self.exp(), self.man(), other.exp(), other.man(), 23);
            lemma_magnitude_order(other.exp(), other.man(), self.exp(), self.man(), 23);
            lemma_magnitude_order(0, 0, self.exp(), self.man(), 23);
            lemma_magnitude_order(0, 0, other.exp(), other.man(), 23);
        }
        if a > 0x7f80_0000 || b > 0x7f80_0000 {
            return false;
        }
        if self.bits < 0x8000_0000 {
            other.bits < 0x8000_0000 && a < b
        } else if other.bits < 0x8000_0000 {
            a != 0 || b != 0
        } else {
            b < a
        }
    }
}

impl Double {
    /// The exponent field.
    pub open spec fn exp(self) -> nat {
        (self.bits as nat / 0x10_0000_0000_0000) % 0x800
    }

    /// The fraction field.
    pub open spec fn man(self) -> nat {
        self.bits as nat % 0x10_0000_0000_0000
    }

    /// Whether this is not a number.
    pub open spec fn is_nan(self) -> bool {
        self.exp() == 0x7ff && self.man() != 0
    }

    /// Whether this is an infinity.
    pub open spec fn is_infinite(self) -> bool {
        self.exp() == 0x7ff && self.man() == 0
    }

    /// Whether this is a number, and not an infinity.
    pub open spec fn is_finite(self) -> bool {
        self.exp() < 0x7ff
    }

    /// Whether the sign bit is set.
    pub open spec fn negative(self) -> bool {
        self.bits >= 0x8000_0000_0000_0000
    }

    /// The magnitude, in units of the least positive value.
    pub open spec fn mag(self) -> nat {
        magnitude(self.exp(), self.man(), 52)
    }

    /// The value, in units of the least positive one.
    pub open spec fn value(self) -> int {
        if self.negative() {
            -(self.mag() as int)
        } else {
            self.mag() as int
        }
    }

    /// `self < other`, which is false where either is not a number.
    pub open spec fn lt(self, other: Double) -> bool {
        &&& !self.is_nan()
        &&& !other.is_nan()
        &&& self.value() < other.value()
    }

    /// Whether `self < other`.
    pub fn less(self, other: Double) -> (r: bool)
        ensures
            r == self.lt(other),
    {
        let a: u64 = self.bits % 0x8000_0000_0000_0000;
        let b: u64 = other.bits % 0x8000_0000_0000_0000;
        proof {
            lemma_fields(self.bits as nat, a as nat, 0x10_0000_0000_0000, 0x800);
            lemma_fields(other.bits as nat, b as nat, 0x10_0000_0000_0000, 0x800);
            lemma2_to64_rest();
            lemma_magnitude_order(self.exp(), self.man(), other.exp(), other.man(), 52);
            lemma_magnitude_order(other.exp(), other.man(), self.exp(), self.man(), 52);
            lemma_magnitude_order(0, 0, self.exp(), self.man(), 52);
            lemma_magnitude_order(0, 0, other.exp(), other.man(), 52);
        }
        if a > 0x7ff0_0000_0000_0000 || b > 0x7ff0_0000_0000_0000 {
            return false;
        }
        if self.bits < 0x8000_0000_0000_0000 {
            other.bits < 0x8000_0000_0000_0000 && a < b
        } else if other.bits < 0x8000_0000_0000_0000 {
            a != 0 || b != 0
        } else {
            b < a
        }
    }
}

/// The exponent and fraction fields make up the bits below the sign.
proof fn lemma_fields(bits: nat, low: nat, p: nat, q: nat)
    requires
        p > 0,
        q > 0,
        bits < 2 * (p * q),
        low == bits % (p * q),
    ensures
        low == ((bits / p) % q) * p + bits % p,
        (bits / p) % q < q,
        bits % p < p,
{
    assert(p * q > 0) by (nonlinear_arith)
        requires
            p > 0,
            q > 0,
    ;
    vstd::arithmetic::div_mod::lemma_mod_breakdown(bits as int, p as int, q as int);
    assert(((bits / p) % q) * p == p * ((bits / p) % q)) by (nonlinear_arith);
}

/// A magnitude lies below where those of the next exponent field begin, and not below
/// where those of its own do.
proof fn lemma_magnitude_bounds(exp: nat, man: nat, m: nat)
    requires
        man < pow2(m),
    ensures
        magnitude(exp, man, m) < pow2(m) * pow2(exp),
        exp > 0 ==> pow2(m) * pow2((exp - 1) as nat) <= magnitude(exp, man, m),
{
    lemma_pow2_adds(0, 0);
    lemma2_to64();
    if exp > 0 {
        let e = (exp - 1) as nat;
        lemma_pow2_pos(e);
        lemma_pow2_adds(1, e);
        assert(pow2(exp) == 2 * pow2(e));
        assert((pow2(m) + man) * pow2(e) < pow2(m) * (2 * pow2(e))) by (nonlinear_arith)
            requires
                man < pow2(m),
                pow2(e) > 0,
        ;
        assert(pow2(m) * pow2(e) <= (pow2(m) + man) * pow2(e)) by (nonlinear_arith)
            requires
                man >= 0,
                pow2(e) > 0,
        ;
    } else {
        assert(pow2(m) * pow2(exp) == pow2(m)) by (nonlinear_arith)
            requires
                pow2(exp) == 1,
        ;
    }
}

/// Magnitudes are ordered as the fields read as one number are.
pub proof fn lemma_magnitude_order(e1: nat, m1: nat, e2: nat, m2: nat, m: nat)
    requires
        m1 < pow2(m),
        m2 < pow2(m),
    ensures
        e1 * pow2(m) + m1 < e2 * pow2(m) + m2 ==> magnitude(e1, m1, m) < magnitude(e2, m2, m),
        e1 * pow2(m) + m1 == e2 * pow2(m) + m2 ==> magnitude(e1, m1, m) == magnitude(e2, m2, m),
{
    let p = pow2(m);
    lemma_magnitude_bounds(e1, m1, m);
    lemma_magnitude_bounds(e2, m2, m);
    assert(e1 < e2 ==> e1 * p + p <= e2 * p) by (nonlinear_arith);
    assert(e2 < e1 ==> e2 * p + p <= e1 * p) by (nonlinear_arith);
    if e1 < e2 {
        let a = e1;
        let b = (e2 - 1) as nat;
        if a < b {
            lemma_pow2_strictly_increases(a, b);
        }
        assert(p * pow2(a) <= p * pow2(b)) by (nonlinear_arith)
            requires
                pow2(a) <= pow2(b),
        ;
    } else if e1 == e2 && e1 > 0 {
        let e = (e1 - 1) as nat;
        lemma_pow2_pos(e);
        assert(m1 < m2 ==> (p + m1) * pow2(e) < (p + m2) * pow2(e)) by (nonlinear_arith)
            requires
                pow2(e) > 0,
        ;
    }
}

/// The `binary64` value of a whole number, in units of the least positive one.
pub open spec fn double_of(n: nat) -> int {
    (n * pow2(1074)) as int
}

/// A bit pattern whose significand is `n`, shifted left by `shift`, stands for `n` where
/// its exponent makes up for the shift.
pub proof fn lemma_double_of(d: Double, n: nat, shift: nat)
    requires
        d.bits < 0x8000_0000_0000_0000,
        d.exp() > 0,
        d.exp() - 1 + shift == 1074,
        pow2(52) + d.man() == n * pow2(shift),
    ensures
        d.value() == double_of(n),
{
    let e = (d.exp() - 1) as nat;
    lemma_pow2_adds(shift, e);
    assert((n * pow2(shift)) * pow2(e) == n * (pow2(shift) * pow2(e))) by (nonlinear_arith);
}

} // verus!
