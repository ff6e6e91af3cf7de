//! The census: how many distinct genome values a population holds, and which
//! value occurs most often (the dominant genome), with its count. A pure,
//! repeatable scan of the population; ties on the maximum count go to the
//! genome whose slot comes first.
use vstd::prelude::*;
use crate::population::{pviews, zero_genome};
use crate::ORG_SIZE;

verus! {

/// Occurrences of `g` among the first `k` genomes.
pub open spec fn occ_upto(pop: Seq<Seq<u8>>, g: Seq<u8>, k: int) -> nat
    decreases k,
{
    if k <= 0 {
        0
    } else {
        occ_upto(pop, g, k - 1) + (if pop[k - 1] == g {
            1nat
        } else {
            0nat
        })
    }
}

/// Occurrences of `g` in the whole population: its multiplicity.
pub open spec fn occ(pop: Seq<Seq<u8>>, g: Seq<u8>) -> nat {
    occ_upto(pop, g, pop.len() as int)
}

/// A positive count names a slot that holds the value.
proof fn lemma_occ_pos_exists(pop: Seq<Seq<u8>>, g: Seq<u8>, k: int)
    requires
        occ_upto(pop, g, k) > 0,
    ensures
        exists|j: int| 0 <= j < k && pop[j] == g,
    decreases k,
{
    if k > 0 && pop[k - 1] != g {
        lemma_occ_pos_exists(pop, g, k - 1);
    }
}

/// Every slot's value occurs at least once.
proof fn lemma_occ_self(pop: Seq<Seq<u8>>, i: int, k: int)
    requires
        0 <= i < k <= pop.len(),
    ensures
        occ_upto(pop, pop[i], k) >= 1,
    decreases k,
{
    if i < k - 1 {
        lemma_occ_self(pop, i, k - 1);
    }
}

/// The census snapshot: distinct-value count, the dominant genome's
/// occurrence count, and the dominant genome itself.
pub struct PopStats {
    pub unique_cnt: usize,
    pub max_count: usize,
    pub dominant: Vec<u8>,
}

/// Byte-for-byte genome equality.
pub fn genomes_equal(a: &Vec<u8>, b: &Vec<u8>) -> (r: bool)
    ensures
        r == (a@ == b@),
{
    if a.len() != b.len() {
        return false;
    }
    let n = a.len();
    let mut i: usize = 0;
    while i < n
        invariant
            i <= n,
            n == a@.len() == b@.len(),
            forall|k: int| 0 <= k < i ==> a@[k] == b@[k],
        decreases n - i,
    {
        if a[i] != b[i] {
            return false;
        }
        i = i + 1;
    }
    proof {
        assert(a@ =~= b@);
    }
    true
}

/// A copy of a genome.
pub fn clone_genome(g: &Vec<u8>) -> (r: Vec<u8>)
    ensures
        r@ == g@,
{
    let n = g.len();
    let mut r: Vec<u8> = Vec::new();
    let mut i: usize = 0;
    while i < n
        invariant
            i <= n,
            n == g@.len(),
            r@ == g@.take(i as int),
        decreases n - i,
    {
        r.push(g[i]);
        proof {
            assert(g@.take(i as int).push(g@[i as int]) =~= g@.take(i + 1));
        }
        i = i + 1;
    }
    proof {
        assert(g@.take(n as int) =~= g@);
    }
    r
}

/// How many genomes equal `g`.
fn count_occurrences(pop: &Vec<Vec<u8>>, g: &Vec<u8>) -> (c: usize)
    ensures
        c == occ(pviews(pop@), g@),
{
    let n = pop.len();
    let mut c: usize = 0;
    let mut j: usize = 0;
    while j < n
        invariant
            j <= n,
            n == pop@.len(),
            c <= j,
            c == occ_upto(pviews(pop@), g@, j as int),
        decreases n - j,
    {
        if genomes_equal(&pop[j], g) {
            c = c + 1;
        }
        proof {
            assert(pviews(pop@)[j as int] == pop@[j as int]@);
        }
        j = j + 1;
    }
    c
}

/// Does the value in slot `i` already occur in an earlier slot?
fn found_before(pop: &Vec<Vec<u8>>, i: usize) -> (r: bool)
    requires
        i < pop@.len(),
    ensures
        r == pviews(pop@).take(i as int).contains(pviews(pop@)[i as int]),
{
    let mut j: usize = 0;
    while j < i
        invariant
            j <= i < pop@.len(),
            forall|k: int| 0 <= k < j ==> pviews(pop@)[k] != pviews(pop@)[i as int],
        decreases i - j,
    {
        if genomes_equal(&pop[j], &pop[i]) {
            proof {
                assert(pviews(pop@).take(i as int)[j as int] == pviews(pop@)[i as int]);
            }
            return true;
        }
        j = j + 1;
    }
    proof {
        assert forall|k: int| 0 <= k < i implies pviews(pop@).take(i as int)[k] != pviews(
            pop@,
        )[i as int] by {
            assert(pviews(pop@).take(i as int)[k] == pviews(pop@)[k]);
        }
    }
    false
}

/// Scans the population and reports: the number of distinct genome values,
/// the highest multiplicity any value reaches, and the dominant genome —
/// the value in the earliest slot that reaches that multiplicity. An empty
/// population reports zero counts and falls back to the all-zero genome of
/// the configured length.
pub fn diversity_stats(pop: &Vec<Vec<u8>>) -> (stats: PopStats)
    ensures
        stats.unique_cnt == pviews(pop@).to_set().len(),
        forall|g: Seq<u8>| #[trigger] occ(pviews(pop@), g) <= stats.max_count,
        pop@.len() == 0 ==> stats.max_count == 0 && stats.dominant@ == Seq::new(
            ORG_SIZE as nat,
            |i: int| 0u8,
        ),
        pop@.len() > 0 ==> occ(pviews(pop@), stats.dominant@) == stats.max_count,
        pop@.len() > 0 ==> exists|i: int|
            #![auto]
            0 <= i < pop@.len() && pviews(pop@)[i] == stats.dominant@ && (forall|j: int|
                0 <= j < i ==> occ(pviews(pop@), pviews(pop@)[j]) < stats.max_count),
{
    broadcast use vstd::set::group_set_axioms;
    broadcast use vstd::seq_lib::seq_to_set_is_finite;

    let ghost pv = pviews(pop@);
    let n = pop.len();
    proof {
        assert(pv.take(0).to_set() =~= Set::<Seq<u8>>::empty());
    }
    let mut unique: usize = 0;
    let mut max_count: usize = 0;
    let mut dom_idx: usize = 0;
    let mut i: usize = 0;
    while i < n
        invariant
            i <= n,
            n == pop@.len(),
            pv == pviews(pop@),
            unique <= i,
            unique == pv.take(i as int).to_set().len(),
            forall|j: int| 0 <= j < i ==> occ(pv, pv[j]) <= max_count,
            i == 0 ==> max_count == 0,
            i > 0 ==> dom_idx < i && occ(pv, pv[dom_idx as int]) == max_count && (forall|j: int|
                0 <= j < dom_idx ==> occ(pv, pv[j]) < max_count),
        decreases n - i,
    {
        let c = count_occurrences(pop, &pop[i]);
        proof {
            assert(pv[i as int] == pop@[i as int]@);
            lemma_occ_self(pv, i as int, n as int);
        }
        if c > max_count {
            max_count = c;
            dom_idx = i;
        }
        let seen = found_before(pop, i);
        proof {
            broadcast use vstd::set::group_set_axioms;
            broadcast use vstd::seq_lib::seq_to_set_is_finite;

            assert(pv.take(i + 1) =~= pv.take(i as int).push(pv[i as int]));
            assert forall|x: Seq<u8>| pv.take(i + 1).contains(x) <==> (pv.take(i as int).contains(x)
                || x == pv[i as int]) by {
                if pv.take(i + 1).contains(x) {
                    let l = choose|l: int| 0 <= l < i + 1 && #[trigger] pv.take(i + 1)[l] == x;
                    if l < i {
                        assert(pv.take(i as int)[l] == x);
                    }
                } else {
                    if pv.take(i as int).contains(x) {
                        let l = choose|l: int| 0 <= l < i && #[trigger] pv.take(i as int)[l] == x;
                        assert(pv.take(i + 1)[l] == x);
                    }
                    if x == pv[i as int] {
                        assert(pv.take(i + 1)[i as int] == x);
                    }
                }
            }
            assert(pv.take(i + 1).to_set() =~= pv.take(i as int).to_set().insert(pv[i as int]));
        }
        if !seen {
            unique = unique + 1;
        }
        i = i + 1;
    }
    proof {
        assert(pv.take(n as int) =~= pv);
        assert forall|g: Seq<u8>| #[trigger] occ(pv, g) <= max_count by {
            if occ(pv, g) > 0 {
                lemma_occ_pos_exists(pv, g, n as int);
                let j = choose|j: int| 0 <= j < n && pv[j] == g;
                assert(occ(pv, pv[j]) <= max_count);
            }
        }
    }
    if n == 0 {
        let dominant = zero_genome(ORG_SIZE);
        proof {
            assert(dominant@ =~= Seq::new(ORG_SIZE as nat, |i: int| 0u8));
        }
        PopStats { unique_cnt: unique, max_count, dominant }
    } else {
        let dominant = clone_genome(&pop[dom_idx]);
        proof {
            assert(pv[dom_idx as int] == pop@[dom_idx as int]@);
        }
        PopStats { unique_cnt: unique, max_count, dominant }
    }
}

} // verus!
