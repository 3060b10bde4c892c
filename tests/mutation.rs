use phoenix_engine::genome::{crossover_at, Dna, GENE_ONE};
use phoenix_engine::mutation::{
    centered, clamp01, L0QuantumMutator, NoiseSource, QuantumMutator, UniformNoise, DEFAULT_MUTATION_RATE,
    DEFAULT_SIGMA, DEFAULT_SPREAD, RATE_ONE,
};
use rand::rngs::StdRng;
use rand::SeedableRng;
use rand_distr::{Distribution, Normal};

struct Gaussian;

impl NoiseSource for Gaussian {
    fn perturbation(&self, rng: &mut StdRng, sigma: u32) -> i64 {
        let normal = Normal::new(0.0, sigma as f64).unwrap();
        normal.sample(rng).round() as i64
    }
}

struct Huge;

impl NoiseSource for Huge {
    fn perturbation(&self, _rng: &mut StdRng, _sigma: u32) -> i64 {
        i64::MAX
    }
}

#[test]
fn clamp_values() {
    assert_eq!(clamp01(-5), 0);
    assert_eq!(clamp01(0), 0);
    assert_eq!(clamp01(123_456), 123_456);
    assert_eq!(clamp01(GENE_ONE as i128), GENE_ONE);
    assert_eq!(clamp01(GENE_ONE as i128 + 1), GENE_ONE);
}

#[test]
fn defaults_and_sigma_fallback() {
    let mut m = L0QuantumMutator::new(UniformNoise);
    assert_eq!(m.mutation_rate, DEFAULT_MUTATION_RATE);
    assert_eq!(m.sigma, DEFAULT_SPREAD);
    assert_eq!(m.effective_sigma(), 120_000);
    m.sigma = 0;
    assert_eq!(m.effective_sigma(), DEFAULT_SIGMA);
    assert_eq!(DEFAULT_SIGMA, 50_000);
    let d: L0QuantumMutator<UniformNoise> = L0QuantumMutator::default();
    assert_eq!(d.mutation_rate, 80_000);
    assert_eq!(d.sigma, 120_000);
}

#[test]
fn mutated_genes_stay_in_range() {
    let mut rng = StdRng::seed_from_u64(11);
    for sigma in [1u32, 50_000, 900_000, 5_000_000] {
        let mut m = L0QuantumMutator::new(Gaussian);
        m.mutation_rate = RATE_ONE;
        m.sigma = sigma;
        let mut dna = Dna { genes: vec![0, 1, GENE_ONE, GENE_ONE - 1, 500_000, 3, 999_000] };
        for _ in 0..50 {
            m.quantum_mutate(&mut dna, &mut rng);
            assert_eq!(dna.genes.len(), 7);
            assert!(dna.genes.iter().all(|g| *g <= GENE_ONE));
        }
    }
}

#[test]
fn mutation_clamps_extreme_perturbation() {
    let mut rng = StdRng::seed_from_u64(12);
    let mut m = L0QuantumMutator::new(Huge);
    m.mutation_rate = RATE_ONE;
    let mut dna = Dna { genes: vec![0, 400_000, GENE_ONE] };
    m.quantum_mutate(&mut dna, &mut rng);
    assert_eq!(dna.genes, vec![GENE_ONE, GENE_ONE, GENE_ONE]);
}

#[test]
fn zero_rate_leaves_genome_unchanged() {
    let mut rng = StdRng::seed_from_u64(13);
    let mut m = L0QuantumMutator::new(Huge);
    m.mutation_rate = 0;
    let mut dna = Dna { genes: vec![1, 2, 3, 4] };
    m.quantum_mutate(&mut dna, &mut rng);
    assert_eq!(dna.genes, vec![1, 2, 3, 4]);
}

#[test]
fn mutation_of_empty_genome_is_a_no_op() {
    let mut rng = StdRng::seed_from_u64(14);
    let mut m = L0QuantumMutator::new(Huge);
    m.mutation_rate = RATE_ONE;
    let mut dna = Dna { genes: vec![] };
    m.quantum_mutate(&mut dna, &mut rng);
    assert!(dna.genes.is_empty());
}

#[test]
fn uniform_noise_stays_within_spread() {
    let mut rng = StdRng::seed_from_u64(15);
    let mut seen_nonzero = false;
    for _ in 0..200 {
        let d = UniformNoise.perturbation(&mut rng, 10);
        assert!((-10..=10).contains(&d));
        seen_nonzero |= d != 0;
    }
    assert!(seen_nonzero);
}

#[test]
fn crossover_at_split_point() {
    let a = Dna { genes: vec![1, 2, 3, 4] };
    let b = Dna { genes: vec![5, 6, 7, 8, 9] };
    assert_eq!(crossover_at(&a, &b, 1).genes, vec![1, 6, 7, 8]);
    assert_eq!(crossover_at(&a, &b, 3).genes, vec![1, 2, 3, 8]);
    assert_eq!(crossover_at(&b, &a, 2).genes, vec![5, 6, 3, 4]);
    let empty = Dna { genes: vec![] };
    assert!(crossover_at(&a, &empty, 0).genes.is_empty());
}

#[test]
fn crossover_is_deterministic() {
    let a = Dna { genes: vec![10, 20, 30] };
    let b = Dna { genes: vec![40, 50, 60] };
    assert_eq!(crossover_at(&a, &b, 2).genes, crossover_at(&a, &b, 2).genes);
}

#[test]
fn random_genome_has_length_and_range() {
    let mut rng = StdRng::seed_from_u64(16);
    let dna = Dna::new_random(64, &mut rng);
    assert_eq!(dna.genes.len(), 64);
    assert!(dna.genes.iter().all(|g| *g < GENE_ONE));
    assert!(dna.genes.iter().any(|g| *g != dna.genes[0]));
    let copy = dna.duplicate();
    assert_eq!(copy.genes, dna.genes);
}

#[test]
fn centered_moves_draw_around_zero() {
    assert_eq!(centered(0, 10), -10);
    assert_eq!(centered(10, 10), 0);
    assert_eq!(centered(20, 10), 10);
    assert_eq!(centered(0, 0), 0);
}

#[test]
fn mutate_gene_follows_trigger() {
    let mut m = L0QuantumMutator::new(UniformNoise);
    m.mutation_rate = 300_000;
    assert_eq!(m.mutate_gene(500_000, 299_999, 100_000), 600_000);
    assert_eq!(m.mutate_gene(500_000, 300_000, 100_000), 500_000);
    assert_eq!(m.mutate_gene(500_000, 0, 700_000), GENE_ONE);
    assert_eq!(m.mutate_gene(500_000, 0, -700_000), 0);
    m.mutation_rate = 0;
    assert_eq!(m.mutate_gene(42, 0, 5), 42);
}
