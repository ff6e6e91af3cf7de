// The census on populations built from known multisets of genome values, and
// the hexadecimal rendering on known bytes.
use bff_sim::census::diversity_stats;
use bff_sim::hex::{hex_full, hex_prefix};

#[test]
fn census_counts_a_known_multiset() {
    let g1 = vec![1u8, 1];
    let g2 = vec![2u8, 2];
    let g3 = vec![3u8, 3];
    let pop = vec![g1.clone(), g2.clone(), g1.clone(), g3, g1.clone(), g2];
    let stats = diversity_stats(&pop);
    assert_eq!(stats.unique_cnt, 3);
    assert_eq!(stats.max_count, 3);
    assert_eq!(stats.dominant, g1);
}

#[test]
fn census_tie_goes_to_the_earliest_slot() {
    let g1 = vec![1u8];
    let g2 = vec![2u8];
    let pop = vec![g2.clone(), g1.clone(), g1, g2.clone()];
    let stats = diversity_stats(&pop);
    assert_eq!(stats.unique_cnt, 2);
    assert_eq!(stats.max_count, 2);
    assert_eq!(stats.dominant, g2);
}

#[test]
fn census_of_a_single_genome() {
    let pop = vec![vec![7u8, 8, 9]];
    let stats = diversity_stats(&pop);
    assert_eq!(stats.unique_cnt, 1);
    assert_eq!(stats.max_count, 1);
    assert_eq!(stats.dominant, vec![7u8, 8, 9]);
}

#[test]
fn census_of_identical_genomes() {
    let pop = vec![vec![5u8; 4]; 6];
    let stats = diversity_stats(&pop);
    assert_eq!(stats.unique_cnt, 1);
    assert_eq!(stats.max_count, 6);
    assert_eq!(stats.dominant, vec![5u8; 4]);
}

#[test]
fn census_of_an_empty_population_falls_back_to_the_zero_genome() {
    let pop: Vec<Vec<u8>> = Vec::new();
    let stats = diversity_stats(&pop);
    assert_eq!(stats.unique_cnt, 0);
    assert_eq!(stats.max_count, 0);
    assert_eq!(stats.dominant, vec![0u8; bff_sim::ORG_SIZE]);
}

#[test]
fn hex_renders_known_bytes() {
    let g = vec![0x00u8, 0xff, 0x1a];
    assert_eq!(hex_full(&g), b"00ff1a".to_vec());
}

#[test]
fn hex_prefix_takes_the_first_bytes() {
    let g = vec![0xdeu8, 0xad, 0xbe];
    assert_eq!(hex_prefix(&g, 2), b"dead".to_vec());
}

#[test]
fn hex_prefix_beyond_the_length_renders_all() {
    let g = vec![0x0au8, 0xb1];
    assert_eq!(hex_prefix(&g, 32), b"0ab1".to_vec());
    assert_eq!(hex_prefix(&g, 32), hex_full(&g));
}
