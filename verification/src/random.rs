//! Random choices, drawn from `rand`'s thread-local generator.

use crate::rate::Rate;
use rand::rngs::ThreadRng;
use rand::seq::SliceRandom;
use rand::Rng;
use std::ops::Range;
use vstd::prelude::*;

verus! {

/// `rand::rngs::ThreadRng`, a handle to the generator of the current thread.
/// Nothing is known of what it holds.
#[verifier::external_type_specification]
#[verifier::external_body]
pub struct ExThreadRng(ThreadRng);

/// `rand::Rng::gen` for a `bool`. Either value may come back.
#[verifier::external_body]
fn flip(rng: &mut ThreadRng) -> bool {
    rng.gen()
}

/// `rand::Rng::gen_range` over the half-open range `low..high` of `u64`.
/// It panics on an empty range, which `requires` leaves out; the value drawn
/// lies in the range.
#[verifier::external_body]
fn draw(rng: &mut ThreadRng, low: u64, high: u64) -> (v: u64)
    requires
        low < high,
    ensures
        low <= v < high,
{
    rng.gen_range(low..high)
}

/// `rand::seq::SliceRandom::choose` on the names in `items`: `None` for an
/// empty slice, else a reference to one of its elements.
#[verifier::external_body]
pub(crate) fn pick<'a>(items: &'a Vec<String>, rng: &mut ThreadRng) -> (r: Option<&'a String>)
    ensures
        items@.len() == 0 ==> r is None,
        items@.len() > 0 ==> r is Some && items@.contains(*r->Some_0),
{
    items.choose(rng)
}

/// The rate that a draw stands for: the flag picks the mode, the number is
/// the parameter.
pub open spec fn rate_of_draw(spacing: bool, value: u64) -> Rate {
    if spacing {
        Rate::Blocks(value)
    } else {
        Rate::PerBlock(value)
    }
}

/// Turns a drawn flag and a drawn number into a rate.
pub fn rate_from_draw(spacing: bool, value: u64) -> (r: Rate)
    ensures
        r == rate_of_draw(spacing, value),
{
    if spacing {
        Rate::Blocks(value)
    } else {
        Rate::PerBlock(value)
    }
}

/// A rate of random mode whose parameter is drawn from `range`, which is not
/// empty.
pub fn random_rate(rng: &mut ThreadRng, range: Range<u64>) -> (r: Rate)
    requires
        range.start < range.end,
    ensures
        range.start <= r.value() < range.end,
        range.start > 0 ==> r.valid(),
{
    let spacing = flip(rng);
    let value = draw(rng, range.start, range.end);
    rate_from_draw(spacing, value)
}

} // verus!
