// The replicator assay: trial outcomes on concrete genomes, the zero-step
// edge, and the success count's bound.
use bff_sim::assay::{assay_trial, exact_match_rate, match_count_for_victims};

#[test]
fn zero_step_trial_succeeds_through_the_template_half() {
    // with a step bound of zero nothing on the tape changes, so the
    // template's own half already equals the template in both orientations
    let template = vec![1u8, 2];
    let victim = vec![0u8, 0];
    assert!(assay_trial(&template, &victim, true, 0));
    assert!(assay_trial(&template, &victim, false, 0));
}

#[test]
fn all_zero_template_copies_itself_trivially() {
    let template = vec![0u8; 4];
    let victim = vec![0u8; 4];
    assert!(assay_trial(&template, &victim, true, 2048));
}

#[test]
fn match_count_counts_each_victim_once() {
    let template = vec![9u8, 9];
    let victims = vec![vec![0u8, 0], vec![9u8, 9], vec![1u8, 1]];
    // zero steps: every trial succeeds through the template half
    let c = match_count_for_victims(&template, &victims, true, 0);
    assert_eq!(c, 3);
}

#[test]
fn success_count_never_exceeds_the_trials() {
    let mut rng = rand::thread_rng();
    let template = vec![0u8; 64];
    let ab = exact_match_rate(&template, &mut rng, 50, true, 2048);
    let ba = exact_match_rate(&template, &mut rng, 50, false, 2048);
    assert!(ab <= 50);
    assert!(ba <= 50);
}
