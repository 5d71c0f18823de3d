//! The rate policy: how often a gate admits.

use std::cmp::Ordering;
use vstd::prelude::*;
use vstd::std_specs::cmp::PartialOrdSpecImpl;

verus! {

/// A policy was asked for whose parameter is zero.
#[derive(Clone, Copy, Debug, PartialEq, Eq, Structural)]
pub struct InvalidPolicy;

/// The admission cadence of a gate, in one of two modes.
///
/// `PerBlock(n)` admits at most `n` attempts within one tick.
/// `Blocks(b)` admits at most one attempt in any `b` consecutive ticks.
///
/// The variants are public so that a policy can be matched on; a policy that
/// an engine accepts has a parameter above zero, see [`Rate::valid`].
#[derive(Clone, Copy, Debug, PartialEq, Eq, Structural)]
pub enum Rate {
    PerBlock(u64),
    Blocks(u64),
}

impl Rate {
    /// The parameter is positive. Zero would admit without limit under
    /// `Blocks` and never under `PerBlock`.
    pub open spec fn valid(self) -> bool {
        self.value() > 0
    }

    /// The numeric parameter, whichever the mode.
    pub open spec fn value(self) -> u64 {
        match self {
            Rate::PerBlock(n) => n,
            Rate::Blocks(b) => b,
        }
    }

    /// Admissions that the cadence grants in every `window()` ticks.
    pub open spec fn burst(self) -> nat {
        match self {
            Rate::PerBlock(n) => n as nat,
            Rate::Blocks(_) => 1,
        }
    }

    /// Length in ticks of the span over which `burst()` admissions are granted.
    pub open spec fn window(self) -> nat {
        match self {
            Rate::PerBlock(_) => 1,
            Rate::Blocks(b) => b as nat,
        }
    }

    /// `self` asks for strictly more admissions per tick than `limit` grants:
    /// `burst / window` compared as fractions.
    pub open spec fn spec_exceeds(&self, limit: &Rate) -> bool {
        self.burst() * limit.window() > limit.burst() * self.window()
    }

    /// A policy of at most `n` admissions per tick.
    pub fn per_block(n: u64) -> (r: Result<Rate, InvalidPolicy>)
        ensures
            n > 0 ==> r == Ok::<Rate, InvalidPolicy>(Rate::PerBlock(n)),
            n == 0 ==> r == Err::<Rate, InvalidPolicy>(InvalidPolicy),
    {
        if n == 0 {
            Err(InvalidPolicy)
        } else {
            Ok(Rate::PerBlock(n))
        }
    }

    /// A policy of at most one admission every `b` ticks.
    pub fn blocks(b: u64) -> (r: Result<Rate, InvalidPolicy>)
        ensures
            b > 0 ==> r == Ok::<Rate, InvalidPolicy>(Rate::Blocks(b)),
            b == 0 ==> r == Err::<Rate, InvalidPolicy>(InvalidPolicy),
    {
        if b == 0 {
            Err(InvalidPolicy)
        } else {
            Ok(Rate::Blocks(b))
        }
    }

    /// Whether the parameter is positive.
    pub fn is_valid(&self) -> (r: bool)
        ensures
            r == self.valid(),
    {
        match *self {
            Rate::PerBlock(n) => n > 0,
            Rate::Blocks(b) => b > 0,
        }
    }

    /// Whether this cadence is strictly faster than `limit`.
    #[verifier::when_used_as_spec(spec_exceeds)]
    pub fn exceeds(&self, limit: &Rate) -> (r: bool)
        ensures
            r == self.spec_exceeds(limit),
    {
        proof {
            lemma_exceeds_by_mode(*self, *limit);
        }
        match (*self, *limit) {
            (Rate::PerBlock(a), Rate::PerBlock(l)) => a > l,
            (Rate::Blocks(a), Rate::Blocks(l)) => a < l,
            (Rate::PerBlock(a), Rate::Blocks(l)) => a >= 1 && l >= 1 && (a > 1 || l > 1),
            (Rate::Blocks(a), Rate::PerBlock(l)) => a == 0 || l == 0,
        }
    }
}

/// What it is to exceed, mode by mode: more per tick; a shorter spacing; more
/// than one per tick against a spacing, or one per tick against a spacing of
/// two ticks or more; and a spacing against a count only where one of the two
/// is zero.
pub proof fn lemma_exceeds_by_mode(actual: Rate, limit: Rate)
    ensures
        actual.exceeds(&limit) <==> match (actual, limit) {
            (Rate::PerBlock(a), Rate::PerBlock(l)) => a > l,
            (Rate::Blocks(a), Rate::Blocks(l)) => a < l,
            (Rate::PerBlock(a), Rate::Blocks(l)) => a >= 1 && l >= 1 && (a > 1 || l > 1),
            (Rate::Blocks(a), Rate::PerBlock(l)) => a == 0 || l == 0,
        },
{
    let a = actual.value() as nat;
    let l = limit.value() as nat;
    assert(a * 1 == a && l * 1 == l && 1 * a == a && 1 * l == l) by (nonlinear_arith);
    assert((a == 0 || l == 0) ==> a * l == 0 && l * a == 0) by (nonlinear_arith);
    assert((a >= 1 && l >= 1) ==> a * l >= 1 && l * a >= 1) by (nonlinear_arith);
    assert((a == 1 && l == 1) ==> a * l == 1) by (nonlinear_arith);
    assert((a >= 1 && l >= 1 && (a > 1 || l > 1)) ==> a * l > 1) by (nonlinear_arith);
}

/// Rates are ordered by admissions per tick. Two different policies of the
/// same speed, `PerBlock(1)` and `Blocks(1)`, are not ordered.
impl PartialOrd for Rate {
    fn partial_cmp(&self, other: &Rate) -> (r: Option<Ordering>) {
        if *self == *other {
            Some(Ordering::Equal)
        } else if self.exceeds(other) {
            Some(Ordering::Greater)
        } else if other.exceeds(self) {
            Some(Ordering::Less)
        } else {
            None
        }
    }
}

impl PartialOrdSpecImpl for Rate {
    open spec fn obeys_partial_cmp_spec() -> bool {
        true
    }

    open spec fn partial_cmp_spec(&self, other: &Rate) -> Option<Ordering> {
        if *self == *other {
            Some(Ordering::Equal)
        } else if self.spec_exceeds(other) {
            Some(Ordering::Greater)
        } else if other.spec_exceeds(self) {
            Some(Ordering::Less)
        } else {
            None
        }
    }
}

} // verus!
