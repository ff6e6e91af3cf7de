//! An artificial-life simulator: a fixed-size population of fixed-length byte
//! genomes is repeatedly paired at random and made to interact through a tiny
//! two-cursor tape interpreter, with mutation, a census of diversity, and a
//! fidelity assay that measures how reliably a dominant genome copies itself.
use vstd::prelude::*;

pub mod vm;
pub mod rng;
pub mod census;
pub mod hex;
pub mod population;
pub mod assay;

verus! {

/// Bytes per genome.
pub const ORG_SIZE: usize = 64;

/// Genomes in the population.
pub const POP_SIZE: usize = 1024;

/// Hard bound on interpreter steps per interaction.
pub const STEP_LIMIT: usize = 2048;

/// Epochs a full run performs.
pub const EPOCHS: usize = 2000000;

/// Per-byte mutation probability, as the ratio MUTATION_NUM / MUTATION_DEN.
pub const MUTATION_NUM: u32 = 1;

/// Denominator of the per-byte mutation probability.
pub const MUTATION_DEN: u32 = 5000;

/// Dominant-genome count at which the replicator assay runs.
pub const REPLICATOR_THRESHOLD: usize = 100;

/// Trials per assay orientation.
pub const ASSAY_TRIALS: usize = 1000;

/// Epochs between census reports.
pub const REPORT_INTERVAL: usize = 1000;

/// The simulation's configuration, fixed at startup and never mutated: genome
/// length, population size, epoch count, per-byte mutation probability (as a
/// ratio), the engine's step bound, the replicator-detection threshold, the
/// assay's trial count, and the census report interval.
pub struct SimConfig {
    pub genome_len: usize,
    pub pop_size: usize,
    pub epochs: usize,
    pub mutation_num: u32,
    pub mutation_den: u32,
    pub step_limit: usize,
    pub replicator_threshold: usize,
    pub assay_trials: usize,
    pub report_interval: usize,
}

impl SimConfig {
    /// A usable configuration: the mutation ratio is a probability.
    pub open spec fn wf(self) -> bool {
        &&& 0 < self.mutation_den
        &&& self.mutation_num <= self.mutation_den
    }

    /// The configuration the experiment runs with.
    pub fn standard() -> (cfg: SimConfig)
        ensures
            cfg.wf(),
            cfg.genome_len == ORG_SIZE,
            cfg.pop_size == POP_SIZE,
            cfg.epochs == EPOCHS,
            cfg.mutation_num == MUTATION_NUM,
            cfg.mutation_den == MUTATION_DEN,
            cfg.step_limit == STEP_LIMIT,
            cfg.replicator_threshold == REPLICATOR_THRESHOLD,
            cfg.assay_trials == ASSAY_TRIALS,
            cfg.report_interval == REPORT_INTERVAL,
    {
        SimConfig {
            genome_len: ORG_SIZE,
            pop_size: POP_SIZE,
            epochs: EPOCHS,
            mutation_num: MUTATION_NUM,
            mutation_den: MUTATION_DEN,
            step_limit: STEP_LIMIT,
            replicator_threshold: REPLICATOR_THRESHOLD,
            assay_trials: ASSAY_TRIALS,
            report_interval: REPORT_INTERVAL,
        }
    }
}

} // verus!
