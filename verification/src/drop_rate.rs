//! The chance by which a drone loses fragments.

use crate::draw_log::DrawLog;
use rand::distributions::{Bernoulli, Distribution};
use vstd::prelude::*;

verus! {

/// `rand`'s distribution over `bool`. A value of it is made from a floating-point probability
/// before it gets here; it is only stored and sampled.
#[verifier::external_type_specification]
#[verifier::external_body]
pub struct ExBernoulli(rand::distributions::Bernoulli);

/// What `rand` reports of a probability outside of 0 to 1.
#[verifier::external_type_specification]
#[verifier::external_body]
pub struct ExBernoulliError(rand::distributions::BernoulliError);

/// Calls `Bernoulli::sample` with the random number generator of the thread. The outcome is a
/// matter of chance, so nothing is claimed of it but that the record grows by it. That the
/// probability 0 never yields `true` and the probability 1 always does is left unsaid: the
/// probability is a floating-point number.
#[verifier::external_body]
fn sample(rate: &Bernoulli, log: &mut DrawLog) -> (hit: bool)
    ensures
        final(log)@ == old(log)@.push((*rate, hit)),
{
    rate.sample(&mut rand::thread_rng())
}

/// Whether sampling `rate` can come out as `hit`. Nothing but a draw establishes this.
pub closed spec fn draw_yields(rate: Bernoulli, hit: bool) -> bool {
    exists|log: &mut DrawLog| #[trigger] call_ensures(sample, (&rate, log), hit)
}

/// What a rate can yield is what sampling it can come out as.
proof fn law_only_a_sample_yields(rate: Bernoulli, hit: bool)
    requires
        draw_yields(rate, hit),
    ensures
        exists|log: &mut DrawLog| #[trigger] call_ensures(sample, (&rate, log), hit),
{
}

/// Draws once.
pub(crate) fn draw(rate: &Bernoulli, log: &mut DrawLog) -> (hit: bool)
    ensures
        final(log)@ == old(log)@.push((*rate, hit)),
        draw_yields(*rate, hit),
{
    let hit: bool = sample(rate, log);
    assert(draw_yields(*rate, hit));
    hit
}

} // verus!
