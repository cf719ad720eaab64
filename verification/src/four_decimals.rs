//! Non-negative amounts with exactly four decimal digits.

use vstd::arithmetic::div_mod::{
    lemma_fundamental_div_mod, lemma_fundamental_div_mod_converse, lemma_mod_multiples_vanish,
    lemma_small_mod,
};
use vstd::prelude::*;

verus! {

/// Number of ten-thousandths in one whole unit.
pub const UNITS_PER_INTEGER: u16 = 10000;

/// Number of distinct amounts: balances are residues modulo this many
/// ten-thousandths.
pub open spec fn modulus() -> nat {
    184467440737095516160000
}

/// Sum of two residues.
#[verifier::opaque]
pub open spec fn wrap_add(a: nat, b: nat) -> nat {
    (a + b) % modulus()
}

/// Difference of two residues.
#[verifier::opaque]
pub open spec fn wrap_sub(a: nat, b: nat) -> nat {
    ((a - b) % (modulus() as int)) as nat
}

/// Sums and differences of residues are residues, and are the plain sum
/// and difference where those are residues already.
pub proof fn lemma_wrap_bounds(a: nat, b: nat)
    ensures
        wrap_add(a, b) < modulus(),
        wrap_sub(a, b) < modulus(),
        a + b < modulus() ==> wrap_add(a, b) == a + b,
        b <= a < modulus() ==> wrap_sub(a, b) == a - b,
{
    reveal(wrap_add);
    reveal(wrap_sub);
}

/// Adding back what was subtracted, or subtracting what was added, gives the
/// residue that one started from.
pub proof fn lemma_wrap_cancel(a: nat, b: nat)
    ensures
        wrap_add(wrap_sub(a, b), b) == a % modulus(),
        wrap_sub(wrap_add(a, b), b) == a % modulus(),
        a < modulus() ==> wrap_add(wrap_sub(a, b), b) == a && wrap_sub(wrap_add(a, b), b) == a,
{
    reveal(wrap_add);
    reveal(wrap_sub);
    let m = modulus() as int;
    let (a, b) = (a as int, b as int);
    lemma_fundamental_div_mod(a - b, m);
    lemma_fundamental_div_mod(a + b, m);
    lemma_mod_multiples_vanish((a - b) / m, (a - b) % m + b, m);
    lemma_mod_multiples_vanish((a + b) / m, (a + b) % m - b, m);
    if a < m {
        lemma_small_mod(a as nat, m as nat);
    }
}

/// Moving `x` from one balance to the other keeps their sum, and taking
/// `x` out of one of them takes it out of the sum.
pub proof fn lemma_wrap_move(a: nat, h: nat, x: nat)
    ensures
        x <= a ==> wrap_add((a - x) as nat, wrap_add(h, x)) == wrap_add(a, h),
        x <= h ==> wrap_add(wrap_add(a, x), (h - x) as nat) == wrap_add(a, h),
        x <= h ==> wrap_add(a, (h - x) as nat) == wrap_sub(wrap_add(a, h), x),
{
    reveal(wrap_add);
    reveal(wrap_sub);
    let m = modulus() as int;
    let (a, h, x) = (a as int, h as int, x as int);
    lemma_fundamental_div_mod(h + x, m);
    lemma_fundamental_div_mod(a + x, m);
    lemma_fundamental_div_mod(a + h, m);
    if x <= a {
        lemma_mod_multiples_vanish((h + x) / m, (a - x) + (h + x) % m, m);
    }
    if x <= h {
        lemma_mod_multiples_vanish((a + x) / m, (a + x) % m + (h - x), m);
        lemma_mod_multiples_vanish((a + h) / m, (a + h) % m - x, m);
    }
}

/// An amount of `integer` whole units and `decimal` ten-thousandths.
#[derive(Debug, Clone, Copy, PartialEq, Eq, PartialOrd, Structural)]
pub struct FourDecimals {
    /// Integral part.
    pub integer: u64,
    /// Decimal part, in ten-thousandths; below 10000 in every valid amount.
    pub decimal: u16,
}

impl FourDecimals {
    /// The decimal part is normalized.
    pub open spec fn wf(self) -> bool {
        self.decimal < 10000
    }

    /// The amount in ten-thousandths.
    pub open spec fn value(self) -> nat {
        (self.integer * 10000 + self.decimal) as nat
    }

    /// The valid amount of `v` ten-thousandths.
    pub open spec fn from_value(v: nat) -> FourDecimals {
        FourDecimals { integer: (v / 10000) as u64, decimal: (v % 10000) as u16 }
    }

    /// Lexicographic order on the integer part, then the decimal part.
    pub open spec fn spec_exceeds(self, other: FourDecimals) -> bool {
        self.integer > other.integer || (self.integer == other.integer && self.decimal
            > other.decimal)
    }

    /// The sum, wrapping around at `modulus()`.
    pub open spec fn sum(self, other: FourDecimals) -> FourDecimals {
        FourDecimals::from_value(wrap_add(self.value(), other.value()))
    }

    /// The exact difference; meaningful where `self` is at least `other`.
    pub open spec fn difference(self, other: FourDecimals) -> FourDecimals {
        FourDecimals::from_value((self.value() - other.value()) as nat)
    }

    /// A valid amount is the amount of its own value, and that value is a
    /// residue.
    pub proof fn lemma_value_roundtrip(self)
        requires
            self.wf(),
        ensures
            FourDecimals::from_value(self.value()) == self,
            self.value() < modulus(),
    {
    }

    /// Every residue is the value of exactly one valid amount.
    pub proof fn lemma_from_value(v: nat)
        requires
            v < modulus(),
        ensures
            FourDecimals::from_value(v).wf(),
            FourDecimals::from_value(v).value() == v,
    {
    }

    /// The exact difference, or `None` where `other` is the greater.
    pub fn checked_sub(self, other: FourDecimals) -> (r: Option<FourDecimals>)
        requires
            self.wf(),
            other.wf(),
        ensures
            r == (if self.value() >= other.value() {
                Some(self.difference(other))
            } else {
                None
            }),
            r is Some ==> r->0.wf() && r->0.value() + other.value() == self.value(),
    {
        if other.exceeds(&self) {
            None
        } else {
            Some(self - other)
        }
    }

    /// Whether `self` is strictly greater than `other`.
    pub fn exceeds(&self, other: &FourDecimals) -> (r: bool)
        ensures
            r == self.spec_exceeds(*other),
            self.wf() && other.wf() ==> r == (self.value() > other.value()),
    {
        self.integer > other.integer || (self.integer == other.integer && self.decimal
            > other.decimal)
    }
}

impl Default for FourDecimals {
    /// The zero amount.
    fn default() -> (r: FourDecimals)
        ensures
            r == (FourDecimals { integer: 0, decimal: 0 }),
            r.wf(),
            r.value() == 0,
    {
        FourDecimals { integer: 0, decimal: 0 }
    }
}

impl vstd::std_specs::ops::AddSpecImpl for FourDecimals {
    open spec fn obeys_add_spec() -> bool {
        true
    }

    open spec fn add_req(self, rhs: FourDecimals) -> bool {
        self.wf() && rhs.wf()
    }

    open spec fn add_spec(self, rhs: FourDecimals) -> FourDecimals {
        self.sum(rhs)
    }
}

impl core::ops::Add for FourDecimals {
    type Output = FourDecimals;

    /// The sum: a carry out of the decimal part goes into the integer part,
    /// and a carry out of the integer part is dropped.
    fn add(self, rhs: FourDecimals) -> (r: FourDecimals)
        ensures
            r.wf(),
            r.value() == wrap_add(self.value(), rhs.value()),
    {
        let mut integer: u64 = self.integer.wrapping_add(rhs.integer);
        let mut decimal: u16 = self.decimal + rhs.decimal;
        if decimal >= UNITS_PER_INTEGER {
            integer = integer.wrapping_add(1);
            decimal -= UNITS_PER_INTEGER;
        }
        let r = FourDecimals { integer, decimal };
        proof {
            reveal(wrap_add);
            let k: int = if self.value() + rhs.value() >= modulus() {
                1
            } else {
                0
            };
            lemma_fundamental_div_mod_converse(
                (self.value() + rhs.value()) as int,
                modulus() as int,
                k,
                r.value() as int,
            );
        }
        r
    }
}

impl vstd::std_specs::ops::SubSpecImpl for FourDecimals {
    open spec fn obeys_sub_spec() -> bool {
        true
    }

    open spec fn sub_req(self, rhs: FourDecimals) -> bool {
        self.wf() && rhs.wf() && self.value() >= rhs.value()
    }

    open spec fn sub_spec(self, rhs: FourDecimals) -> FourDecimals {
        self.difference(rhs)
    }
}

impl core::ops::Sub for FourDecimals {
    type Output = FourDecimals;

    /// The exact difference: the decimal part borrows from the integer part
    /// where it has to.
    fn sub(self, rhs: FourDecimals) -> (r: FourDecimals)
        ensures
            r.wf(),
            r.value() + rhs.value() == self.value(),
    {
        let mut integer: u64 = self.integer - rhs.integer;
        let decimal: u16 = if rhs.decimal > self.decimal {
            integer -= 1;
            UNITS_PER_INTEGER - (rhs.decimal - self.decimal)
        } else {
            self.decimal - rhs.decimal
        };
        FourDecimals { integer, decimal }
    }
}

/// Addition does not depend on the order of its operands.
pub proof fn law_add_commutes(a: FourDecimals, b: FourDecimals)
    requires
        a.wf(),
        b.wf(),
    ensures
        a.sum(b) == b.sum(a),
{
    reveal(wrap_add);
}

/// Subtracting an addend from a sum gives the other addend back: always
/// as residues, and with the exact difference wherever the sum did not wrap
/// around.
pub proof fn law_sub_undoes_add(a: FourDecimals, b: FourDecimals)
    requires
        a.wf(),
        b.wf(),
    ensures
        a.sum(b).wf(),
        wrap_sub(a.sum(b).value(), b.value()) == a.value(),
        a.value() + b.value() < modulus() ==> a.sum(b).value() >= b.value() && a.sum(
            b,
        ).difference(b) == a,
{
    let s = wrap_add(a.value(), b.value());
    lemma_wrap_bounds(a.value(), b.value());
    lemma_wrap_cancel(a.value(), b.value());
    FourDecimals::lemma_from_value(s);
    a.lemma_value_roundtrip();
}

} // verus!
