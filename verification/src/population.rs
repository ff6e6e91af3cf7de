//! The population and its epoch dynamics: random initialization, pairing the
//! whole population through the interaction engine, and per-byte mutation.
//! Every randomized operation is split into a draw (trusted, from `rand`) and
//! a verified application whose result is an exact function of the draw, so
//! one epoch is reproducible from the injected choices alone.
use vstd::prelude::*;
use crate::rng::{coin, fill_random, random_byte, shuffle_indices};
use crate::vm::{interact, lemma_interact_halts_with_lengths, spec_interact};

verus! {

/// The mathematical view of a population: the sequence of its genomes' byte
/// sequences.
pub open spec fn pviews(pop: Seq<Vec<u8>>) -> Seq<Seq<u8>> {
    pop.map_values(|g: Vec<u8>| g@)
}

/// The mathematical view of a table of mutation draws.
pub open spec fn dviews(d: Seq<Vec<Option<u8>>>) -> Seq<Seq<Option<u8>>> {
    d.map_values(|row: Vec<Option<u8>>| row@)
}

/// All genomes have the same length.
pub open spec fn uniform(pop: Seq<Seq<u8>>) -> bool {
    forall|i: int, j: int|
        #![trigger pop[i].len(), pop[j].len()]
        0 <= i < pop.len() && 0 <= j < pop.len() ==> pop[i].len() == pop[j].len()
}

/// `perm` lists each index below `n` exactly once.
pub open spec fn is_index_permutation(perm: Seq<usize>, n: nat) -> bool {
    &&& perm.len() == n
    &&& forall|k: int| 0 <= k < perm.len() ==> (#[trigger] perm[k]) < n
    &&& perm.no_duplicates()
}

/// A genome of `glen` zero bytes.
pub fn zero_genome(glen: usize) -> (g: Vec<u8>)
    ensures
        g@.len() == glen,
        forall|i: int| 0 <= i < glen ==> g@[i] == 0u8,
{
    let mut g: Vec<u8> = Vec::new();
    let mut i: usize = 0;
    while i < glen
        invariant
            i <= glen,
            g@.len() == i,
            forall|k: int| 0 <= k < i ==> g@[k] == 0u8,
        decreases glen - i,
    {
        g.push(0);
        i = i + 1;
    }
    g
}

/// Draws `n` genomes of `glen` uniformly random bytes each.
pub fn init_population(rng: &mut rand::rngs::ThreadRng, n: usize, glen: usize) -> (pop: Vec<
    Vec<u8>,
>)
    ensures
        pop@.len() == n,
        forall|i: int| 0 <= i < n ==> #[trigger] pop@[i]@.len() == glen,
{
    let mut pop: Vec<Vec<u8>> = Vec::new();
    let mut i: usize = 0;
    while i < n
        invariant
            i <= n,
            pop@.len() == i,
            forall|k: int| 0 <= k < i ==> #[trigger] pop@[k]@.len() == glen,
        decreases n - i,
    {
        let mut g = zero_genome(glen);
        fill_random(rng, &mut g);
        pop.push(g);
        i = i + 1;
    }
    pop
}

/// The population after the first `k` pairs of the permutation have
/// interacted, in permutation order: pair `l` reads the genomes at indices
/// `perm[2l]` and `perm[2l + 1]` and overwrites both slots with the engine's
/// two outputs.
pub open spec fn spec_apply_pairs(
    pop: Seq<Seq<u8>>,
    perm: Seq<usize>,
    k: nat,
    fuel: nat,
) -> Seq<Seq<u8>>
    decreases k,
{
    if k == 0 {
        pop
    } else {
        let prev = spec_apply_pairs(pop, perm, (k - 1) as nat, fuel);
        let i = perm[2 * (k - 1)] as int;
        let j = perm[2 * (k - 1) + 1] as int;
        let r = spec_interact(prev[i], prev[j], fuel);
        prev.update(i, r.0).update(j, r.1)
    }
}

/// One epoch's pairing pass: the permutation is split into consecutive
/// disjoint pairs (an odd final index sits out) and each pair interacts.
pub open spec fn spec_pairing(pop: Seq<Seq<u8>>, perm: Seq<usize>, fuel: nat) -> Seq<Seq<u8>> {
    spec_apply_pairs(pop, perm, (perm.len() / 2) as nat, fuel)
}

/// The pairing pass keeps the population's size and every genome's length.
pub proof fn lemma_apply_pairs_shape(
    pop: Seq<Seq<u8>>,
    perm: Seq<usize>,
    k: nat,
    fuel: nat,
    glen: nat,
)
    requires
        2 * k <= perm.len(),
        perm.len() == pop.len(),
        forall|l: int| 0 <= l < perm.len() ==> (#[trigger] perm[l]) < pop.len(),
        forall|i: int| 0 <= i < pop.len() ==> #[trigger] pop[i].len() == glen,
    ensures
        spec_apply_pairs(pop, perm, k, fuel).len() == pop.len(),
        forall|i: int|
            0 <= i < pop.len() ==> #[trigger] spec_apply_pairs(pop, perm, k, fuel)[i].len() == glen,
    decreases k,
{
    if k > 0 {
        lemma_apply_pairs_shape(pop, perm, (k - 1) as nat, fuel, glen);
        let prev = spec_apply_pairs(pop, perm, (k - 1) as nat, fuel);
        let i = perm[2 * (k - 1)] as int;
        let j = perm[2 * (k - 1) + 1] as int;
        lemma_interact_halts_with_lengths(prev[i], prev[j], fuel);
    }
}

/// Runs the pairing pass in place: each consecutive pair of the permutation
/// interacts, in order, and both slots are overwritten with the results. The
/// result is exactly `spec_pairing`.
pub fn apply_pairs(pop: &mut Vec<Vec<u8>>, perm: &Vec<usize>, step_limit: usize)
    requires
        is_index_permutation(perm@, old(pop)@.len() as nat),
        uniform(pviews(old(pop)@)),
    ensures
        pviews(final(pop)@) == spec_pairing(pviews(old(pop)@), perm@, step_limit as nat),
        final(pop)@.len() == old(pop)@.len(),
        uniform(pviews(final(pop)@)),
{
    let ghost init = pviews(old(pop)@);
    let n = pop.len();
    let npairs = n / 2;
    if n < 2 {
        return ;
    }
    proof {
        assert forall|i: int| 0 <= i < n implies #[trigger] pop@[i]@.len() == init[0].len() by {
            assert(init[i] == pop@[i]@);
            assert(init[i].len() == init[0].len());
        }
    }
    let mut k: usize = 0;
    while k < npairs
        invariant
            k <= npairs,
            npairs == n / 2,
            n == pop@.len(),
            perm@.len() == n,
            init.len() == n,
            is_index_permutation(perm@, n as nat),
            pviews(pop@) == spec_apply_pairs(init, perm@, k as nat, step_limit as nat),
            forall|i: int| 0 <= i < n ==> #[trigger] pop@[i]@.len() == init[0].len(),
            forall|i: int| 0 <= i < n ==> #[trigger] init[i].len() == init[0].len(),
            n > 0,
        decreases npairs - k,
    {
        let i = perm[2 * k];
        let j = perm[2 * k + 1];
        let r = interact(&pop[i], &pop[j], step_limit);
        let ghost mid = pviews(pop@);
        pop[i] = r.0;
        pop[j] = r.1;
        proof {
            assert(pviews(pop@) =~= mid.update(i as int, r.0@).update(j as int, r.1@));
            assert(spec_apply_pairs(init, perm@, (k + 1) as nat, step_limit as nat) == mid.update(
                i as int,
                spec_interact(mid[i as int], mid[j as int], step_limit as nat).0,
            ).update(j as int, spec_interact(mid[i as int], mid[j as int], step_limit as nat).1));
        }
        k = k + 1;
    }
    proof {
        assert(uniform(pviews(pop@)));
    }
}

/// A sequence whose multiset of elements is that of the identity listing of
/// `0 .. n` is a permutation of those indices.
proof fn lemma_multiset_index_permutation(ident: Seq<usize>, s: Seq<usize>, n: nat)
    requires
        n <= usize::MAX,
        ident.len() == n,
        forall|k: int| 0 <= k < n ==> #[trigger] ident[k] == k as usize,
        s.to_multiset() == ident.to_multiset(),
    ensures
        is_index_permutation(s, n),
{
    broadcast use vstd::seq_lib::group_to_multiset_ensures;

    s.to_multiset_ensures();
    ident.to_multiset_ensures();
    assert(s.to_multiset().len() == ident.to_multiset().len());
    assert(s.len() == n);
    assert forall|k: int| 0 <= k < s.len() implies (#[trigger] s[k]) < n by {
        assert(s.contains(s[k]));
        assert(ident.to_multiset().count(s[k]) > 0);
        assert(ident.contains(s[k]));
        let l = choose|l: int| 0 <= l < ident.len() && ident[l] == s[k];
        assert(s[k] == l as usize);
    }
    assert(ident.no_duplicates());
    ident.lemma_multiset_has_no_duplicates();
    assert forall|x: usize| s.to_multiset().contains(x) implies s.to_multiset().count(x) == 1 by {
        assert(ident.to_multiset().contains(x));
    }
    s.lemma_multiset_has_no_duplicates_conv();
}

/// One epoch's pairing step with the permutation drawn from the random
/// source: some uniformly drawn index permutation is applied through
/// `spec_pairing`; everything past the draw is exact.
pub fn run_epoch(pop: &mut Vec<Vec<u8>>, rng: &mut rand::rngs::ThreadRng, step_limit: usize)
    requires
        uniform(pviews(old(pop)@)),
    ensures
        exists|perm: Seq<usize>|
            #![auto]
            is_index_permutation(perm, old(pop)@.len() as nat) && pviews(final(pop)@)
                == spec_pairing(pviews(old(pop)@), perm, step_limit as nat),
        final(pop)@.len() == old(pop)@.len(),
        uniform(pviews(final(pop)@)),
{
    let n = pop.len();
    let mut idxs: Vec<usize> = Vec::new();
    let mut i: usize = 0;
    while i < n
        invariant
            i <= n,
            idxs@.len() == i,
            forall|k: int| 0 <= k < i ==> #[trigger] idxs@[k] == k as usize,
        decreases n - i,
    {
        idxs.push(i);
        i = i + 1;
    }
    let ghost ident = idxs@;
    shuffle_indices(rng, &mut idxs);
    proof {
        lemma_multiset_index_permutation(ident, idxs@, n as nat);
    }
    apply_pairs(pop, &idxs, step_limit);
}

/// One genome after a table of per-byte draws: a drawn byte replaces the old
/// one, an empty draw leaves it.
pub open spec fn spec_mutate_genome(g: Seq<u8>, d: Seq<Option<u8>>) -> Seq<u8> {
    Seq::new(
        g.len(),
        |i: int|
            match d[i] {
                Some(b) => b,
                None => g[i],
            },
    )
}

/// The population after a table of per-byte draws.
pub open spec fn spec_mutate(pop: Seq<Seq<u8>>, d: Seq<Seq<Option<u8>>>) -> Seq<Seq<u8>> {
    Seq::new(pop.len(), |i: int| spec_mutate_genome(pop[i], d[i]))
}

/// The draw table has one row per genome and one entry per byte.
pub open spec fn draws_match(pop: Seq<Seq<u8>>, d: Seq<Seq<Option<u8>>>) -> bool {
    &&& d.len() == pop.len()
    &&& forall|i: int| 0 <= i < pop.len() ==> #[trigger] d[i].len() == pop[i].len()
}

/// Every entry of the draw table holds a replacement byte: under such a table
/// no old byte survives `spec_mutate`.
pub open spec fn all_replaced(d: Seq<Seq<Option<u8>>>) -> bool {
    forall|i: int, b: int| 0 <= i < d.len() && 0 <= b < d[i].len() ==> (#[trigger] d[i][b]) is Some
}

/// A table of empty draws changes nothing.
pub proof fn lemma_mutate_none(pop: Seq<Seq<u8>>, d: Seq<Seq<Option<u8>>>)
    requires
        draws_match(pop, d),
        forall|i: int, b: int| 0 <= i < d.len() && 0 <= b < d[i].len() ==> d[i][b] is None,
    ensures
        spec_mutate(pop, d) == pop,
{
    assert forall|i: int| 0 <= i < pop.len() implies #[trigger] spec_mutate(pop, d)[i] == pop[i] by {
        assert(spec_mutate_genome(pop[i], d[i]) =~= pop[i]);
    }
    assert(spec_mutate(pop, d) =~= pop);
}

/// Applies a table of per-byte draws in place. The result is exactly
/// `spec_mutate`: byte `b` of genome `i` becomes `draws[i][b]` where that
/// entry holds a byte and stays unchanged where it is empty.
pub fn apply_mutation(pop: &mut Vec<Vec<u8>>, draws: &Vec<Vec<Option<u8>>>)
    requires
        draws_match(pviews(old(pop)@), dviews(draws@)),
    ensures
        pviews(final(pop)@) == spec_mutate(pviews(old(pop)@), dviews(draws@)),
        final(pop)@.len() == old(pop)@.len(),
{
    let ghost init = pviews(old(pop)@);
    let ghost dv = dviews(draws@);
    let n = pop.len();
    let mut i: usize = 0;
    while i < n
        invariant
            i <= n,
            n == pop@.len(),
            init.len() == n,
            draws@.len() == n,
            draws_match(init, dv),
            dv == dviews(draws@),
            forall|l: int| 0 <= l < i ==> #[trigger] pop@[l]@ == spec_mutate_genome(init[l], dv[l]),
            forall|l: int| i <= l < n ==> #[trigger] pop@[l]@ == init[l],
        decreases n - i,
    {
        let glen = pop[i].len();
        let mut ng: Vec<u8> = Vec::new();
        let mut b: usize = 0;
        while b < glen
            invariant
                b <= glen,
                i < n,
                n == pop@.len(),
                draws@.len() == n,
                dv == dviews(draws@),
                pop@[i as int]@.len() == glen,
                dv[i as int].len() == glen,
                ng@.len() == b,
                forall|l: int|
                    0 <= l < b ==> #[trigger] ng@[l] == spec_mutate_genome(
                        pop@[i as int]@,
                        dv[i as int],
                    )[l],
            decreases glen - b,
        {
            match draws[i][b] {
                Some(v) => {
                    ng.push(v);
                },
                None => {
                    let v = pop[i][b];
                    ng.push(v);
                },
            }
            b = b + 1;
        }
        proof {
            assert(ng@ =~= spec_mutate_genome(pop@[i as int]@, dv[i as int]));
        }
        pop[i] = ng;
        i = i + 1;
    }
    proof {
        assert(pviews(pop@) =~= spec_mutate(init, dv));
    }
}

/// Draws one mutation table for the population: each byte is marked for
/// replacement with probability `num / den` and, if marked, paired with a
/// fresh uniformly random byte.
fn draw_mutations(
    rng: &mut rand::rngs::ThreadRng,
    pop: &Vec<Vec<u8>>,
    num: u32,
    den: u32,
) -> (draws: Vec<Vec<Option<u8>>>)
    requires
        0 < den,
        num <= den,
    ensures
        draws_match(pviews(pop@), dviews(draws@)),
        num == 0 ==> forall|i: int, b: int|
            0 <= i < draws@.len() && 0 <= b < draws@[i]@.len() ==> draws@[i]@[b] is None,
        num == den ==> all_replaced(dviews(draws@)),
{
    let n = pop.len();
    let mut draws: Vec<Vec<Option<u8>>> = Vec::new();
    let mut i: usize = 0;
    while i < n
        invariant
            i <= n,
            n == pop@.len(),
            0 < den,
            num <= den,
            draws@.len() == i,
            forall|l: int| 0 <= l < i ==> #[trigger] draws@[l]@.len() == pop@[l]@.len(),
            num == 0 ==> forall|l: int, b: int|
                0 <= l < i && 0 <= b < draws@[l]@.len() ==> draws@[l]@[b] is None,
            num == den ==> forall|l: int, b: int|
                0 <= l < i && 0 <= b < draws@[l]@.len() ==> (#[trigger] draws@[l]@[b]) is Some,
        decreases n - i,
    {
        let glen = pop[i].len();
        let mut row: Vec<Option<u8>> = Vec::new();
        let mut b: usize = 0;
        while b < glen
            invariant
                b <= glen,
                0 < den,
                num <= den,
                row@.len() == b,
                num == 0 ==> forall|l: int| 0 <= l < b ==> row@[l] is None,
                num == den ==> forall|l: int| 0 <= l < b ==> (#[trigger] row@[l]) is Some,
            decreases glen - b,
        {
            if coin(rng, num, den) {
                let v = random_byte(rng);
                row.push(Some(v));
            } else {
                row.push(None);
            }
            b = b + 1;
        }
        draws.push(row);
        i = i + 1;
    }
    draws
}

/// Background mutation: independently for every byte of every genome, with
/// probability `num / den`, the byte is replaced by a fresh uniformly random
/// byte. The result is `spec_mutate` under some drawn table of the right
/// shape; with probability zero nothing changes, and with probability one
/// every table entry holds a replacement, so every byte comes from the table.
pub fn mutate(pop: &mut Vec<Vec<u8>>, rng: &mut rand::rngs::ThreadRng, num: u32, den: u32)
    requires
        0 < den,
        num <= den,
    ensures
        exists|d: Seq<Seq<Option<u8>>>|
            #![trigger spec_mutate(pviews(old(pop)@), d)]
            draws_match(pviews(old(pop)@), d) && (num == den ==> all_replaced(d)) && pviews(
                final(pop)@,
            ) == spec_mutate(pviews(old(pop)@), d),
        final(pop)@.len() == old(pop)@.len(),
        num == 0 ==> pviews(final(pop)@) == pviews(old(pop)@),
{
    let draws = draw_mutations(rng, pop, num, den);
    apply_mutation(pop, &draws);
    proof {
        if num == 0 {
            lemma_mutate_none(pviews(old(pop)@), dviews(draws@));
        }
        let d = dviews(draws@);
        assert(draws_match(pviews(old(pop)@), d) && (num == den ==> all_replaced(d)) && pviews(
            pop@,
        ) == spec_mutate(pviews(old(pop)@), d));
    }
}

/// One full epoch as an exact function of the injected random choices: the
/// pairing pass under `perm`, then mutation under `draws`.
pub open spec fn spec_epoch(
    pop: Seq<Seq<u8>>,
    perm: Seq<usize>,
    d: Seq<Seq<Option<u8>>>,
    fuel: nat,
) -> Seq<Seq<u8>> {
    spec_mutate(spec_pairing(pop, perm, fuel), d)
}

/// One full epoch (pairing, interaction, mutation) with the random choices
/// injected explicitly. The result is pinned: exactly `spec_epoch` of the
/// starting population and the choices.
pub fn run_epoch_with_choices(
    pop: &mut Vec<Vec<u8>>,
    perm: &Vec<usize>,
    draws: &Vec<Vec<Option<u8>>>,
    step_limit: usize,
)
    requires
        is_index_permutation(perm@, old(pop)@.len() as nat),
        uniform(pviews(old(pop)@)),
        draws_match(pviews(old(pop)@), dviews(draws@)),
    ensures
        pviews(final(pop)@) == spec_epoch(
            pviews(old(pop)@),
            perm@,
            dviews(draws@),
            step_limit as nat,
        ),
{
    let ghost init = pviews(old(pop)@);
    apply_pairs(pop, perm, step_limit);
    proof {
        if init.len() > 0 {
            lemma_apply_pairs_shape(
                init,
                perm@,
                (perm@.len() / 2) as nat,
                step_limit as nat,
                init[0].len(),
            );
        }
        assert(draws_match(pviews(pop@), dviews(draws@)));
    }
    apply_mutation(pop, draws);
}

/// Determinism: one full epoch is a function of the starting population and
/// the injected random choices alone, so two runs from an equal population
/// with equal choices produce bit-for-bit equal populations.
pub proof fn lemma_epoch_deterministic(
    pop1: Seq<Seq<u8>>,
    pop2: Seq<Seq<u8>>,
    perm1: Seq<usize>,
    perm2: Seq<usize>,
    d1: Seq<Seq<Option<u8>>>,
    d2: Seq<Seq<Option<u8>>>,
    fuel: nat,
)
    requires
        pop1 == pop2,
        perm1 == perm2,
        d1 == d2,
    ensures
        spec_epoch(pop1, perm1, d1, fuel) == spec_epoch(pop2, perm2, d2, fuel),
{
}

} // verus!
