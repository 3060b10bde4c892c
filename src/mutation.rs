//! Mutation strategies: in-place perturbation of a genome.
use rand::rngs::StdRng;
use vstd::prelude::*;

use crate::genome::{Dna, GENE_ONE, genes_in_range};
use crate::random::draw_below;

verus! {

/// The fixed-point value that stands for a probability of 1.0.
pub const RATE_ONE: u32 = 1_000_000;

/// Spread used in place of a non-positive `sigma` (0.05 in gene units).
pub const DEFAULT_SIGMA: u32 = 50_000;

/// Default probability of mutating a gene (0.08).
pub const DEFAULT_MUTATION_RATE: u32 = 80_000;

/// Default spread of a perturbation (0.12 in gene units).
pub const DEFAULT_SPREAD: u32 = 120_000;

/// `x` brought into `[0, GENE_ONE]`.
pub open spec fn clamp_gene(x: int) -> int {
    if x < 0 {
        0
    } else if x > GENE_ONE {
        GENE_ONE as int
    } else {
        x
    }
}

/// One gene after the default policy: with a trigger draw below `rate` the
/// gene gets `delta` added and is clamped; otherwise it stays as it was.
pub open spec fn mutated_gene(rate: u32, g: u32, trigger: u64, delta: i64) -> u32 {
    if trigger < rate as u64 {
        clamp_gene(g as int + delta as int) as u32
    } else {
        g
    }
}

/// Source of zero-mean perturbations, in gene units.
pub trait NoiseSource {
    /// Whether the source may give `delta` for spread `sigma`; a source that
    /// states nothing may give any value.
    open spec fn yields(&self, sigma: u32, delta: i64) -> bool {
        true
    }

    /// One perturbation with spread `sigma`.
    fn perturbation(&self, rng: &mut StdRng, sigma: u32) -> (r: i64)
        ensures
            self.yields(sigma, r),
    ;
}

/// `d - sigma`: a draw from `[0, 2 * sigma]` moved to `[-sigma, sigma]`.
pub fn centered(d: u64, sigma: u32) -> (r: i64)
    requires
        d <= 2 * sigma as u64,
    ensures
        r == d - sigma,
{
    d as i64 - sigma as i64
}

/// Perturbations drawn uniformly from `[-sigma, sigma]`.
#[derive(Clone, Copy, Debug, Default)]
pub struct UniformNoise;

impl NoiseSource for UniformNoise {
    open spec fn yields(&self, sigma: u32, delta: i64) -> bool {
        -sigma <= delta <= sigma
    }

    fn perturbation(&self, rng: &mut StdRng, sigma: u32) -> (r: i64) {
        let d = draw_below(rng, 2 * (sigma as u64) + 1);
        centered(d, sigma)
    }
}

/// A policy that perturbs a genome in place.
pub trait QuantumMutator {
    /// Whether `after` is an outcome of one mutation of `before`.
    spec fn permits(&self, before: Seq<u32>, after: Seq<u32>) -> bool;

    /// Perturbs `dna` in place.
    fn quantum_mutate(&self, dna: &mut Dna, rng: &mut StdRng)
        ensures
            self.permits(old(dna).genes@, final(dna).genes@),
    ;
}

/// Default mutation policy: each gene independently mutates with probability
/// `mutation_rate / RATE_ONE`; a mutated gene gets a perturbation of spread
/// `sigma` from `noise` and is clamped into `[0, GENE_ONE]`.
#[derive(Clone, Debug)]
pub struct L0QuantumMutator<N> {
    /// Probability of mutating each gene, in millionths.
    pub mutation_rate: u32,
    /// Spread of a perturbation, in gene units.
    pub sigma: u32,
    pub noise: N,
}

/// `x` brought into `[0, GENE_ONE]`.
pub fn clamp01(x: i128) -> (r: u32)
    ensures
        r == clamp_gene(x as int),
{
    if x < 0 {
        0
    } else if x > GENE_ONE as i128 {
        GENE_ONE
    } else {
        x as u32
    }
}

impl<N: NoiseSource> L0QuantumMutator<N> {
    /// The default policy over `noise`.
    pub fn new(noise: N) -> (r: Self)
        ensures
            r.mutation_rate == DEFAULT_MUTATION_RATE,
            r.sigma == DEFAULT_SPREAD,
    {
        L0QuantumMutator { mutation_rate: DEFAULT_MUTATION_RATE, sigma: DEFAULT_SPREAD, noise }
    }

    /// The spread handed to the noise source: `sigma`, or `DEFAULT_SIGMA`
    /// when `sigma` is 0.
    pub open spec fn spread(&self) -> u32 {
        if self.sigma > 0 {
            self.sigma
        } else {
            DEFAULT_SIGMA
        }
    }

    /// `after` is `before` plus a perturbation that the noise source may give
    /// for the spread in use, clamped into `[0, GENE_ONE]`.
    pub open spec fn perturbed(&self, before: u32, after: u32) -> bool {
        exists|d: i64|
            #[trigger] self.noise.yields(self.spread(), d) && after as int == clamp_gene(
                before as int + d as int,
            )
    }

    /// What one gene may become in a pass: it stays as it was unless every
    /// trigger draw fires, or it is perturbed when a trigger draw can fire.
    pub open spec fn gene_outcome(&self, before: u32, after: u32) -> bool {
        ||| (self.mutation_rate < RATE_ONE && after == before)
        ||| (self.mutation_rate > 0 && self.perturbed(before, after))
    }

    /// What a pass may do: the length is kept, and each gene has a
    /// `gene_outcome` of its old value.
    pub open spec fn pass_outcome(&self, before: Seq<u32>, after: Seq<u32>) -> bool {
        &&& after.len() == before.len()
        &&& forall|i: int| 0 <= i < before.len() ==> #[trigger] self.gene_outcome(before[i], after[i])
    }

    /// The spread actually used.
    pub fn effective_sigma(&self) -> (r: u32)
        ensures
            r == self.spread(),
            r > 0,
    {
        if self.sigma > 0 {
            self.sigma
        } else {
            DEFAULT_SIGMA
        }
    }

    /// One gene given its trigger draw and perturbation.
    pub fn mutate_gene(&self, g: u32, trigger: u64, delta: i64) -> (r: u32)
        ensures
            r == mutated_gene(self.mutation_rate, g, trigger, delta),
    {
        if trigger < self.mutation_rate as u64 {
            clamp01(g as i128 + delta as i128)
        } else {
            g
        }
    }

    /// One pass of the policy over `genes`: for each gene a trigger draw
    /// below `RATE_ONE`, and, when it is below `mutation_rate`, a
    /// perturbation asked of the noise source with `effective_sigma()`.
    pub fn mutate_genes(&self, genes: &mut Vec<u32>, rng: &mut StdRng)
        ensures
            self.pass_outcome(old(genes)@, final(genes)@),
    {
        let sigma = self.effective_sigma();
        let n = genes.len();
        let mut i: usize = 0;
        while i < n
            invariant
                n == old(genes)@.len(),
                genes@.len() == n,
                i <= n,
                sigma == self.spread(),
                forall|j: int| i <= j < n ==> #[trigger] genes@[j] == old(genes)@[j],
                forall|j: int| 0 <= j < i ==> #[trigger] self.gene_outcome(old(genes)@[j], genes@[j]),
            decreases n - i,
        {
            let trigger = draw_below(rng, RATE_ONE as u64);
            let delta = if trigger < self.mutation_rate as u64 {
                self.noise.perturbation(rng, sigma)
            } else {
                0
            };
            let g = self.mutate_gene(genes[i], trigger, delta);
            proof {
                if trigger < self.mutation_rate as u64 {
                    assert(self.noise.yields(self.spread(), delta));
                    assert(self.perturbed(genes@[i as int], g));
                }
            }
            genes.set(i, g);
            assert(self.gene_outcome(old(genes)@[i as int], genes@[i as int]));
            i += 1;
        }
    }
}

impl Default for L0QuantumMutator<UniformNoise> {
    /// The default policy over uniform perturbations; a Gaussian source
    /// works on floating point and is supplied by the caller.
    fn default() -> (r: Self)
        ensures
            r.mutation_rate == DEFAULT_MUTATION_RATE,
            r.sigma == DEFAULT_SPREAD,
    {
        L0QuantumMutator::new(UniformNoise)
    }
}

impl<N: NoiseSource> QuantumMutator for L0QuantumMutator<N> {
    open spec fn permits(&self, before: Seq<u32>, after: Seq<u32>) -> bool {
        self.pass_outcome(before, after)
    }

    fn quantum_mutate(&self, dna: &mut Dna, rng: &mut StdRng) {
        if dna.genes.len() == 0 {
            return;
        }
        self.mutate_genes(&mut dna.genes, rng);
    }
}

/// Whatever the spread, a pass of the default policy leaves every gene that it
/// changed in `[0, GENE_ONE]`, and so keeps a genome within range.
pub proof fn lemma_mutation_stays_in_range<N: NoiseSource>(
    mutator: L0QuantumMutator<N>,
    before: Seq<u32>,
    after: Seq<u32>,
)
    requires
        mutator.pass_outcome(before, after),
    ensures
        forall|i: int| 0 <= i < after.len() && after[i] != before[i] ==> after[i] <= GENE_ONE,
        genes_in_range(before) ==> genes_in_range(after),
{
    assert forall|i: int| 0 <= i < after.len() && after[i] != before[i] implies after[i]
        <= GENE_ONE by {
        assert(mutator.gene_outcome(before[i], after[i]));
    }
}

/// With a mutation rate of zero a pass leaves the genome exactly as it was.
pub proof fn lemma_zero_rate_keeps_genes<N: NoiseSource>(
    mutator: L0QuantumMutator<N>,
    before: Seq<u32>,
    after: Seq<u32>,
)
    requires
        mutator.mutation_rate == 0,
        mutator.pass_outcome(before, after),
    ensures
        after == before,
{
    assert forall|i: int| 0 <= i < after.len() implies after[i] == before[i] by {
        assert(mutator.gene_outcome(before[i], after[i]));
    }
    assert(after =~= before);
}

} // verus!
