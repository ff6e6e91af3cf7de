//! The replicator assay: how often a template genome turns a fresh random
//! victim into an exact copy of itself. A trial succeeds when either output
//! half of the interaction equals the template; each orientation (template
//! first, template second) is measured separately, and a rate is the success
//! count over the trial count, so it always lies in [0, 1].
use vstd::prelude::*;
use crate::census::genomes_equal;
use crate::population::{pviews, zero_genome};
use crate::rng::fill_random;
use crate::vm::{interact, lemma_interact_zero_steps, spec_interact};

verus! {

/// One trial's outcome: after the interaction, does either half of the tape
/// hold an exact copy of the template? With `as_a` the template is the first
/// operand, otherwise the second.
pub open spec fn spec_trial(t: Seq<u8>, v: Seq<u8>, as_a: bool, fuel: nat) -> bool {
    let r = if as_a {
        spec_interact(t, v, fuel)
    } else {
        spec_interact(v, t, fuel)
    };
    r.0 == t || r.1 == t
}

/// Runs one assay trial: exactly `spec_trial`.
pub fn assay_trial(template: &Vec<u8>, victim: &Vec<u8>, as_a: bool, step_limit: usize) -> (r:
    bool)
    requires
        template@.len() == victim@.len(),
    ensures
        r == spec_trial(template@, victim@, as_a, step_limit as nat),
{
    let out = if as_a {
        interact(template, victim, step_limit)
    } else {
        interact(victim, template, step_limit)
    };
    let m0 = genomes_equal(&out.0, template);
    let m1 = genomes_equal(&out.1, template);
    m0 || m1
}

/// Successful trials among a given sequence of victims.
pub open spec fn spec_success_count(t: Seq<u8>, victims: Seq<Seq<u8>>, as_a: bool, fuel: nat) -> nat
    decreases victims.len(),
{
    if victims.len() == 0 {
        0
    } else {
        spec_success_count(t, victims.drop_last(), as_a, fuel) + (if spec_trial(
            t,
            victims.last(),
            as_a,
            fuel,
        ) {
            1nat
        } else {
            0nat
        })
    }
}

/// A success count never exceeds the trial count, so each reported rate lies
/// in [0, 1].
pub proof fn lemma_success_count_bounded(t: Seq<u8>, victims: Seq<Seq<u8>>, as_a: bool, fuel: nat)
    ensures
        spec_success_count(t, victims, as_a, fuel) <= victims.len(),
    decreases victims.len(),
{
    if victims.len() > 0 {
        lemma_success_count_bounded(t, victims.drop_last(), as_a, fuel);
    }
}

/// Counts successful trials over the given victims: exactly
/// `spec_success_count`.
pub fn match_count_for_victims(
    template: &Vec<u8>,
    victims: &Vec<Vec<u8>>,
    as_a: bool,
    step_limit: usize,
) -> (successes: usize)
    requires
        forall|i: int| 0 <= i < victims@.len() ==> (#[trigger] victims@[i]@).len()
            == template@.len(),
    ensures
        successes == spec_success_count(template@, pviews(victims@), as_a, step_limit as nat),
        successes <= victims@.len(),
{
    let n = victims.len();
    let mut successes: usize = 0;
    let mut i: usize = 0;
    while i < n
        invariant
            i <= n,
            n == victims@.len(),
            successes <= i,
            forall|k: int| 0 <= k < n ==> (#[trigger] victims@[k]@).len() == template@.len(),
            successes == spec_success_count(
                template@,
                pviews(victims@).take(i as int),
                as_a,
                step_limit as nat,
            ),
        decreases n - i,
    {
        let hit = assay_trial(template, &victims[i], as_a, step_limit);
        proof {
            let pv = pviews(victims@);
            assert(pv.take(i + 1).drop_last() =~= pv.take(i as int));
            assert(pv.take(i + 1).last() == victims@[i as int]@);
        }
        if hit {
            successes = successes + 1;
        }
        i = i + 1;
    }
    proof {
        assert(pviews(victims@).take(n as int) =~= pviews(victims@));
    }
    successes
}

/// Runs `trials` assay trials, drawing a fresh uniformly random victim for
/// each, and returns the number of successes; the reported rate is this count
/// over `trials`. Whatever the draws, the count is exactly
/// `spec_success_count` of some sequence of victims of the template's length,
/// and never exceeds `trials`.
pub fn exact_match_rate(
    template: &Vec<u8>,
    rng: &mut rand::rngs::ThreadRng,
    trials: usize,
    as_a: bool,
    step_limit: usize,
) -> (successes: usize)
    ensures
        successes <= trials,
        exists|victims: Seq<Seq<u8>>|
            #![auto]
            victims.len() == trials && (forall|i: int|
                0 <= i < trials ==> victims[i].len() == template@.len()) && successes
                == spec_success_count(template@, victims, as_a, step_limit as nat),
{
    let glen = template.len();
    let mut victims: Vec<Vec<u8>> = Vec::new();
    let mut i: usize = 0;
    while i < trials
        invariant
            i <= trials,
            victims@.len() == i,
            forall|k: int| 0 <= k < i ==> (#[trigger] victims@[k]@).len() == glen,
            glen == template@.len(),
        decreases trials - i,
    {
        let mut v = zero_genome(glen);
        fill_random(rng, &mut v);
        victims.push(v);
        i = i + 1;
    }
    let successes = match_count_for_victims(template, &victims, as_a, step_limit);
    proof {
        let pv = pviews(victims@);
        assert(pv.len() == trials);
        assert(forall|k: int| 0 <= k < trials ==> (#[trigger] pv[k]).len() == template@.len());
    }
    successes
}

/// With a step bound of zero the engine performs no instruction and cannot
/// alter any byte, so both halves come back unchanged — and every trial
/// therefore counts as a success, because the template's own half is already
/// an exact copy of the template, whatever the victim holds.
pub proof fn lemma_zero_step_trial(t: Seq<u8>, v: Seq<u8>, as_a: bool)
    ensures
        spec_trial(t, v, as_a, 0),
{
    lemma_interact_zero_steps(t, v);
    lemma_interact_zero_steps(v, t);
}

} // verus!
