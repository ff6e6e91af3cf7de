// Epoch dynamics: the injected-choice epoch (reproducibility and the
// all-zero end-to-end example), mutation probabilities at the edges, the
// mutation rate statistically, and population initialization.
use bff_sim::population::{init_population, mutate, run_epoch, run_epoch_with_choices};

#[test]
fn zero_population_epoch_applies_only_mutation() {
    // four all-zero genomes of length two: every interaction is a no-op, so
    // one epoch changes exactly the bytes the injected draws name
    let mut pop = vec![vec![0u8, 0]; 4];
    let perm: Vec<usize> = vec![0, 1, 2, 3];
    let draws: Vec<Vec<Option<u8>>> = vec![
        vec![None, Some(7)],
        vec![None, None],
        vec![Some(3), None],
        vec![None, None],
    ];
    run_epoch_with_choices(&mut pop, &perm, &draws, 2048);
    assert_eq!(pop, vec![vec![0u8, 7], vec![0, 0], vec![3, 0], vec![0, 0]]);
}

#[test]
fn epoch_with_equal_choices_is_reproducible() {
    let start = vec![vec![62u8, 43], vec![1, 2], vec![93, 91], vec![44, 46]];
    let perm: Vec<usize> = vec![2, 0, 3, 1];
    let draws: Vec<Vec<Option<u8>>> = vec![
        vec![Some(9), None],
        vec![None, None],
        vec![None, Some(200)],
        vec![None, None],
    ];
    let mut run1 = start.clone();
    run_epoch_with_choices(&mut run1, &perm, &draws, 2048);
    let mut run2 = start.clone();
    run_epoch_with_choices(&mut run2, &perm, &draws, 2048);
    assert_eq!(run1, run2);
}

#[test]
fn epoch_with_step_limit_zero_keeps_every_slot() {
    // with no steps each pair writes its own genomes back unchanged,
    // whatever permutation was drawn
    let mut rng = rand::thread_rng();
    let mut pop = vec![vec![1u8, 2], vec![3, 4], vec![5, 6], vec![7, 8], vec![9, 10]];
    let before = pop.clone();
    run_epoch(&mut pop, &mut rng, 0);
    assert_eq!(pop, before);
}

#[test]
fn mutation_with_probability_zero_changes_nothing() {
    let mut rng = rand::thread_rng();
    let mut pop = vec![vec![1u8, 2, 3], vec![4, 5, 6]];
    let before = pop.clone();
    mutate(&mut pop, &mut rng, 0, 5000);
    assert_eq!(pop, before);
}

#[test]
fn mutation_keeps_the_population_shape() {
    let mut rng = rand::thread_rng();
    let mut pop = vec![vec![0u8; 16]; 8];
    mutate(&mut pop, &mut rng, 1, 1);
    assert_eq!(pop.len(), 8);
    for g in &pop {
        assert_eq!(g.len(), 16);
    }
}

#[test]
fn mutation_with_probability_one_redraws_every_byte() {
    // every byte comes from a fresh draw, which equals the old byte only with
    // probability 1/256, so nearly the whole population changes
    let mut rng = rand::thread_rng();
    let mut pop = vec![vec![0u8; 64]; 16];
    let before = pop.clone();
    mutate(&mut pop, &mut rng, 7, 7);
    let mut changed = 0usize;
    let mut total = 0usize;
    for (g, old) in pop.iter().zip(before.iter()) {
        for (b, ob) in g.iter().zip(old.iter()) {
            if b != ob {
                changed += 1;
            }
            total += 1;
        }
    }
    let fraction = changed as f64 / total as f64;
    assert!(fraction > 0.9, "changed fraction {fraction} is far from 255/256");
}

#[test]
fn mutation_rate_matches_the_probability() {
    // per-byte probability 1/4 over 100 genomes of 64 bytes; a replacement
    // byte equals the old one with probability 1/256, so the expected changed
    // fraction is 0.25 * 255/256, about 0.2490; the tolerance is over five
    // standard errors wide
    let mut rng = rand::thread_rng();
    let mut pop = init_population(&mut rng, 100, 64);
    let before = pop.clone();
    mutate(&mut pop, &mut rng, 1, 4);
    let mut changed = 0usize;
    let mut total = 0usize;
    for (g, old) in pop.iter().zip(before.iter()) {
        for (b, ob) in g.iter().zip(old.iter()) {
            if b != ob {
                changed += 1;
            }
            total += 1;
        }
    }
    let fraction = changed as f64 / total as f64;
    assert!(
        (0.19..=0.31).contains(&fraction),
        "changed fraction {fraction} is far from 0.249"
    );
}

#[test]
fn standard_config_matches_the_constants() {
    let cfg = bff_sim::SimConfig::standard();
    assert_eq!(cfg.genome_len, bff_sim::ORG_SIZE);
    assert_eq!(cfg.pop_size, bff_sim::POP_SIZE);
    assert_eq!(cfg.step_limit, 2048);
    assert_eq!(cfg.mutation_num, 1);
    assert_eq!(cfg.mutation_den, 5000);
    assert_eq!(cfg.replicator_threshold, 100);
    assert_eq!(cfg.assay_trials, 1000);
    assert_eq!(cfg.report_interval, 1000);
}

#[test]
fn init_population_has_the_requested_shape() {
    let mut rng = rand::thread_rng();
    let pop = init_population(&mut rng, 4, 64);
    assert_eq!(pop.len(), 4);
    for g in &pop {
        assert_eq!(g.len(), 64);
    }
    // 256 uniformly random bytes are not all zero (the draw fills the buffer)
    assert!(pop.iter().any(|g| g.iter().any(|&b| b != 0)));
}
