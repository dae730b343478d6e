//! Real numbers as they travel through the library: IEEE 754 binary64 bit
//! patterns.
//!
//! The library never rounds. It classifies a pattern, orders two patterns
//! and reads off the exact rational that a finite pattern stands for. All of
//! that is whole-number work on the 64 bits, and each operation is proved
//! against the number the pattern denotes.

use vstd::arithmetic::div_mod::*;
use vstd::arithmetic::mul::*;
use vstd::arithmetic::power2::*;
use vstd::prelude::*;

verus! {

/// The sign bit of a pattern.
pub const SIGN_BIT: u64 = 0x8000_0000_0000_0000;

/// Two to the 52nd: the weight of the implicit leading bit of a normal
/// number, and the number of patterns in one binade.
pub const HIDDEN_BIT: u64 = 0x0010_0000_0000_0000;

/// The pattern of positive infinity. Every larger magnitude is a NaN.
pub const INFINITY_BITS: u64 = 0x7FF0_0000_0000_0000;

/// The pattern of 1.
pub const ONE_BITS: u64 = 0x3FF0_0000_0000_0000;

/// The pattern of -1.
pub const MINUS_ONE_BITS: u64 = 0xBFF0_0000_0000_0000;

/// The number of units of 2^-1074 that a magnitude (a pattern without its
/// sign) stands for. Every finite binary64 number is a whole number of such
/// units. The magnitude of infinity gets the next power of two, so that it
/// sorts above every finite number.
pub open spec fn units_of(magnitude: nat) -> nat {
    let exponent = magnitude / (HIDDEN_BIT as nat);
    let fraction = magnitude % (HIDDEN_BIT as nat);
    if exponent == 0 {
        fraction
    } else {
        (HIDDEN_BIT as nat + fraction) * pow2((exponent - 1) as nat)
    }
}

/// A binary64 number, held as its bit pattern. `==` on two scalars compares
/// the patterns, so it tells 0 from -0 and finds a NaN equal to itself.
#[derive(Clone, Copy, Debug, PartialEq, Eq, Structural)]
pub struct Scalar {
    pub bits: u64,
}

impl Scalar {
    /// The sign bit is set.
    pub open spec fn is_negative(self) -> bool {
        self.bits >= SIGN_BIT
    }

    /// The pattern without its sign bit.
    pub open spec fn magnitude(self) -> nat {
        if self.bits >= SIGN_BIT {
            (self.bits - SIGN_BIT) as nat
        } else {
            self.bits as nat
        }
    }

    /// The pattern is not a number.
    pub open spec fn is_nan(self) -> bool {
        self.magnitude() > INFINITY_BITS
    }

    /// The pattern is a number other than an infinity.
    pub open spec fn is_finite(self) -> bool {
        self.magnitude() < INFINITY_BITS
    }

    /// The number in units of 2^-1074, with its sign.
    pub open spec fn signed_units(self) -> int {
        if self.is_negative() {
            -(units_of(self.magnitude()) as int)
        } else {
            units_of(self.magnitude()) as int
        }
    }

    /// The number that a finite pattern stands for.
    pub open spec fn value(self) -> real {
        self.signed_units() as real / pow2(1074) as real
    }

    /// IEEE `<`: false as soon as one side is a NaN, and 0 and -0 are equal.
    pub open spec fn less_than(self, other: Scalar) -> bool {
        &&& !self.is_nan()
        &&& !other.is_nan()
        &&& self.signed_units() < other.signed_units()
    }

    /// A number that is neither below `low` nor above `high`. A NaN is
    /// within no range.
    pub open spec fn within(self, low: Scalar, high: Scalar) -> bool {
        !self.is_nan() && !self.less_than(low) && !high.less_than(self)
    }

    /// The scalar with the given pattern.
    pub fn from_bits(bits: u64) -> (r: Scalar)
        ensures
            r.bits == bits,
    {
        Scalar { bits }
    }

    /// The pattern.
    pub fn to_bits(self) -> (r: u64)
        ensures
            r == self.bits,
    {
        self.bits
    }

    /// The scalar 0.
    pub fn zero() -> (r: Scalar)
        ensures
            r == zero(),
    {
        Scalar { bits: 0 }
    }

    /// The scalar 1.
    pub fn one() -> (r: Scalar)
        ensures
            r == one(),
    {
        Scalar { bits: ONE_BITS }
    }

    /// The scalar -1.
    pub fn minus_one() -> (r: Scalar)
        ensures
            r == minus_one(),
    {
        Scalar { bits: MINUS_ONE_BITS }
    }

    /// Whether the sign bit is set.
    pub fn sign(self) -> (r: bool)
        ensures
            r == self.is_negative(),
    {
        self.bits >= SIGN_BIT
    }

    /// The pattern without its sign bit.
    pub fn abs_bits(self) -> (r: u64)
        ensures
            r == self.magnitude(),
            r < SIGN_BIT,
    {
        if self.bits >= SIGN_BIT {
            self.bits - SIGN_BIT
        } else {
            self.bits
        }
    }

    /// Whether the pattern is a NaN.
    pub fn nan(self) -> (r: bool)
        ensures
            r == self.is_nan(),
    {
        self.abs_bits() > INFINITY_BITS
    }

    /// IEEE `<` on the two patterns.
    pub fn lt(self, other: Scalar) -> (r: bool)
        ensures
            r == self.less_than(other),
    {
        if self.nan() || other.nan() {
            return false;
        }
        let a: u64 = self.abs_bits();
        let b: u64 = other.abs_bits();
        proof {
            lemma_units_order(a as nat, b as nat);
            lemma_units_order(b as nat, a as nat);
        }
        if self.sign() {
            if other.sign() {
                b < a
            } else {
                a != 0 || b != 0
            }
        } else if other.sign() {
            false
        } else {
            a < b
        }
    }

    /// IEEE `>` on the two patterns.
    pub fn gt(self, other: Scalar) -> (r: bool)
        ensures
            r == other.less_than(self),
    {
        other.lt(self)
    }
}

/// The scalar 0.
pub open spec fn zero() -> Scalar {
    Scalar { bits: 0 }
}

/// The scalar 1.
pub open spec fn one() -> Scalar {
    Scalar { bits: ONE_BITS }
}

/// The scalar -1.
pub open spec fn minus_one() -> Scalar {
    Scalar { bits: MINUS_ONE_BITS }
}

/// Only the magnitude 0 stands for no units at all.
pub proof fn lemma_units_zero(magnitude: nat)
    ensures
        units_of(magnitude) == 0 <==> magnitude == 0,
{
    let h = HIDDEN_BIT as nat;
    let exponent = magnitude / h;
    let fraction = magnitude % h;
    lemma_fundamental_div_mod(magnitude as int, h as int);
    if exponent == 0 {
        assert(magnitude == fraction);
    } else {
        lemma_pow2_pos((exponent - 1) as nat);
        lemma_mul_strictly_positive((h + fraction) as int, pow2((exponent - 1) as nat) as int);
    }
}

/// A larger magnitude stands for more units: patterns of one sign sort as
/// the numbers they denote.
pub proof fn lemma_units_increase(a: nat, b: nat)
    requires
        a < b,
    ensures
        units_of(a) < units_of(b),
{
    let h = HIDDEN_BIT as nat;
    let ea = a / h;
    let fa = a % h;
    let eb = b / h;
    let fb = b % h;
    lemma_fundamental_div_mod(a as int, h as int);
    lemma_fundamental_div_mod(b as int, h as int);
    lemma_div_is_ordered(a as int, b as int, h as int);
    assert(ea <= eb);
    if ea == eb {
        assert(fa < fb);
        if ea > 0 {
            let p = pow2((ea - 1) as nat);
            lemma_pow2_pos((ea - 1) as nat);
            lemma_mul_strict_inequality((h + fa) as int, (h + fb) as int, p as int);
        }
    } else {
        let pb = pow2((eb - 1) as nat);
        lemma_pow2_pos((eb - 1) as nat);
        // the least a number of binade `eb` can be
        assert(h * pb <= (h + fb) * pb) by {
            lemma_mul_inequality(h as int, (h + fb) as int, pb as int);
        }
        if ea == 0 {
            assert(h * 1 <= h * pb) by {
                lemma_mul_left_inequality(h as int, 1, pb as int);
            }
        } else {
            let pa = pow2((ea - 1) as nat);
            lemma_pow2_pos((ea - 1) as nat);
            // everything of binade `ea` is below the start of the next one
            assert((h + fa) * pa < (2 * h) * pa) by {
                lemma_mul_strict_inequality((h + fa) as int, (2 * h) as int, pa as int);
            }
            assert((2 * h) * pa == h * (2 * pa)) by {
                lemma_mul_is_associative(h as int, 2, pa as int);
                lemma_mul_is_commutative(h as int, 2);
            }
            assert(2 * pa == pow2(ea)) by {
                lemma_pow2_unfold(ea);
            }
            assert(pow2(ea) <= pb) by {
                if ea < eb - 1 {
                    lemma_pow2_strictly_increases(ea, (eb - 1) as nat);
                }
            }
            assert(h * pow2(ea) <= h * pb) by {
                lemma_mul_left_inequality(h as int, pow2(ea) as int, pb as int);
            }
        }
    }
}

/// Magnitudes and the units they stand for are ordered alike.
pub proof fn lemma_units_order(a: nat, b: nat)
    ensures
        a < b <==> units_of(a) < units_of(b),
        a == 0 <==> units_of(a) == 0,
{
    lemma_units_zero(a);
    if a < b {
        lemma_units_increase(a, b);
    } else if b < a {
        lemma_units_increase(b, a);
    }
}

/// The three scalars that the library compares with denote 0, 1 and -1.
pub proof fn lemma_landmarks()
    ensures
        zero().signed_units() == 0,
        one().signed_units() == pow2(1074),
        minus_one().signed_units() == -(pow2(1074) as int),
        zero().value() == 0real,
        one().value() == 1real,
        minus_one().value() == -1real,
        !zero().is_nan() && !one().is_nan() && !minus_one().is_nan(),
{
    let h = HIDDEN_BIT as nat;
    lemma2_to64_rest();
    assert(h == pow2(52));
    assert(ONE_BITS as nat == 1023 * h);
    assert(ONE_BITS as nat / h == 1023 && ONE_BITS as nat % h == 0) by {
        lemma_fundamental_div_mod_converse(ONE_BITS as int, h as int, 1023, 0);
    }
    assert(units_of(ONE_BITS as nat) == pow2(1074)) by {
        lemma_pow2_adds(52, 1022);
    }
    assert(one().magnitude() == ONE_BITS as nat);
    assert(minus_one().magnitude() == ONE_BITS as nat);
    assert(units_of(0) == 0);
    lemma_pow2_pos(1074);
    let p = pow2(1074) as real;
    assert(p > 0real);
    assert(0real / p == 0real) by (nonlinear_arith)
        requires
            p > 0real,
    ;
    assert(p / p == 1real) by (nonlinear_arith)
        requires
            p > 0real,
    ;
    assert((-p) / p == -1real) by (nonlinear_arith)
        requires
            p > 0real,
    ;
    assert((-(pow2(1074) as int)) as real == -p);
}

/// A product of whole numbers is the same number whether it is formed
/// among the whole numbers or among the real ones.
pub proof fn lemma_product_as_real(a: int, b: int)
    ensures
        (a * b) as real == a as real * b as real,
{
    assert((a * b) as real == a as real * b as real) by (nonlinear_arith);
}

/// Among numbers, `less_than` is the order of the values.
pub proof fn lemma_less_than_orders_values(a: Scalar, b: Scalar)
    requires
        !a.is_nan(),
        !b.is_nan(),
    ensures
        a.less_than(b) <==> a.value() < b.value(),
{
    lemma_pow2_pos(1074);
    let p = pow2(1074) as real;
    let x = a.signed_units() as real;
    let y = b.signed_units() as real;
    assert(a.signed_units() < b.signed_units() <==> x < y);
    assert(x < y <==> x / p < y / p) by (nonlinear_arith)
        requires
            p > 0real,
    ;
}

} // verus!
