use phoenix_engine::engine::{PhoenixEngine, PhoenixError};
use phoenix_engine::genome::{crossover_at, Dna, Organism, OrganismId, GENE_ONE};
use phoenix_engine::mutation::{L0QuantumMutator, UniformNoise};
use phoenix_engine::storage::{BlockchainStorage, InMemoryChronos, L1ChronosError};
use rand::rngs::StdRng;
use rand::SeedableRng;

fn organism(id: u64, genes: Vec<u32>, fitness: i64) -> Organism {
    Organism { id: OrganismId(id), dna: Dna { genes }, fitness }
}

fn still_mutator(rate: u32) -> L0QuantumMutator<UniformNoise> {
    let mut m = L0QuantumMutator::new(UniformNoise);
    m.mutation_rate = rate;
    m
}

fn genomes(population: &[Organism]) -> Vec<Vec<u32>> {
    population.iter().map(|o| o.dna.genes.clone()).collect()
}

#[test]
fn evolution_and_recovery_pipeline_works() {
    let mut rng = StdRng::seed_from_u64(2024);
    let quantum = L0QuantumMutator::new(UniformNoise);
    let blockchain = InMemoryChronos::new();

    let population: Vec<Organism> = (0..8)
        .map(|i| Organism {
            id: OrganismId(i),
            dna: Dna::new_random(4, &mut rng),
            fitness: i as i64,
        })
        .collect();
    let original = genomes(&population);

    let mut engine = PhoenixEngine::new("L3_organisms::O4_day_mohk", quantum, blockchain, population);

    engine
        .checkpoint_to_blockchain("gen0")
        .expect("checkpoint gen0 must succeed");

    engine.evolve(&mut rng, 8);
    assert_eq!(engine.population_size(), 8);
    assert_eq!(engine.generation, 1);

    engine
        .recover_from_blockchain("gen0")
        .expect("recovery from gen0 must succeed");
    assert_eq!(engine.generation, 1, "generation counter is not rewound automatically");
    assert_eq!(engine.population_size(), 8);
    assert_eq!(genomes(&engine.population), original);
}

#[test]
fn evolve_yields_requested_offspring_with_zero_fitness() {
    let mut rng = StdRng::seed_from_u64(1);
    let population = vec![
        organism(1, vec![100, 200, 300], 5),
        organism(2, vec![400, 500, 600], 9),
    ];
    let mut engine = PhoenixEngine::new("test", still_mutator(300_000), InMemoryChronos::new(), population);
    engine.evolve(&mut rng, 5);
    assert_eq!(engine.population_size(), 5);
    assert_eq!(engine.generation, 1);
    assert!(engine.population.iter().all(|o| o.fitness == 0));
    assert!(engine.population.iter().all(|o| o.dna.genes.len() == 3));
    assert!(engine.population.iter().all(|o| o.dna.genes.iter().all(|g| *g <= GENE_ONE)));
    engine.evolve(&mut rng, 2);
    assert_eq!(engine.population_size(), 2);
    assert_eq!(engine.generation, 2);
}

#[test]
fn evolve_with_zero_offspring_empties_population() {
    let mut rng = StdRng::seed_from_u64(3);
    let population = vec![organism(1, vec![1, 2], 0)];
    let mut engine = PhoenixEngine::new("test", still_mutator(0), InMemoryChronos::new(), population);
    engine.evolve(&mut rng, 0);
    assert_eq!(engine.population_size(), 0);
    assert_eq!(engine.generation, 1);
}

#[test]
fn evolve_on_empty_population_is_a_no_op() {
    let mut rng = StdRng::seed_from_u64(4);
    let mut engine = PhoenixEngine::new("test", still_mutator(500_000), InMemoryChronos::new(), Vec::new());
    engine.evolve(&mut rng, 10);
    assert_eq!(engine.population_size(), 0);
    assert_eq!(engine.generation, 0);
}

#[test]
fn zero_rate_child_is_exact_crossover() {
    let mut rng = StdRng::seed_from_u64(5);
    let a = vec![10, 11, 12, 13, 14];
    let b = vec![20, 21, 22, 23, 24];
    let population = vec![organism(1, a.clone(), 1), organism(2, b.clone(), 2)];
    let mut engine = PhoenixEngine::new("test", still_mutator(0), InMemoryChronos::new(), population);
    engine.evolve(&mut rng, 20);
    let da = Dna { genes: a.clone() };
    let db = Dna { genes: b.clone() };
    for child in &engine.population {
        let found = [(&da, &db), (&db, &da), (&da, &da), (&db, &db)].iter().any(|(x, y)| {
            (1..5).any(|split| crossover_at(x, y, split).genes == child.dna.genes)
        });
        assert!(found, "child {:?} is no crossover of the parents", child.dna.genes);
    }
}

#[test]
fn single_parent_zero_rate_children_copy_parent() {
    let mut rng = StdRng::seed_from_u64(6);
    let population = vec![organism(9, vec![5, 6, 7, 8], 3)];
    let mut engine = PhoenixEngine::new("test", still_mutator(0), InMemoryChronos::new(), population);
    engine.evolve(&mut rng, 4);
    assert_eq!(engine.population_size(), 4);
    for child in &engine.population {
        assert_eq!(child.dna.genes, vec![5, 6, 7, 8]);
        assert_eq!(child.fitness, 0);
    }
}

#[test]
fn crossover_keeps_shorter_length() {
    let mut rng = StdRng::seed_from_u64(7);
    let population = vec![
        organism(1, vec![1, 2, 3, 4, 5, 6], 0),
        organism(2, vec![7, 8, 9], 0),
    ];
    let mut engine = PhoenixEngine::new("test", still_mutator(0), InMemoryChronos::new(), population);
    engine.evolve(&mut rng, 30);
    for child in &engine.population {
        let len = child.dna.genes.len();
        assert!(len == 3 || len == 6);
    }
    assert!(engine.population.iter().all(|c| c.dna.genes.len() <= 6));
}

#[test]
fn evolve_is_deterministic_for_a_fixed_seed() {
    let population = || {
        vec![
            organism(1, vec![100, 200, 300, 400], 3),
            organism(2, vec![500, 600, 700, 800], 1),
            organism(3, vec![900, 1000, 1100, 1200], 2),
        ]
    };
    let mut first = PhoenixEngine::new("a", still_mutator(250_000), InMemoryChronos::new(), population());
    let mut second = PhoenixEngine::new("b", still_mutator(250_000), InMemoryChronos::new(), population());
    let mut rng1 = StdRng::seed_from_u64(99);
    let mut rng2 = StdRng::seed_from_u64(99);
    first.evolve(&mut rng1, 6);
    second.evolve(&mut rng2, 6);
    assert_eq!(genomes(&first.population), genomes(&second.population));
    let ids1: Vec<u64> = first.population.iter().map(|o| o.id.0).collect();
    let ids2: Vec<u64> = second.population.iter().map(|o| o.id.0).collect();
    assert_eq!(ids1, ids2);
}

#[test]
fn checkpoint_round_trip_restores_genomes_and_fitness() {
    let mut rng = StdRng::seed_from_u64(8);
    let population = vec![
        organism(11, vec![0, GENE_ONE, 250_000], 7),
        organism(12, vec![1, 2, 3], -4),
    ];
    let mut engine = PhoenixEngine::new("test", still_mutator(900_000), InMemoryChronos::new(), population);
    engine.checkpoint_to_blockchain("x").unwrap();
    engine.evolve(&mut rng, 3);
    engine.population[0].fitness = 42;
    engine.recover_from_blockchain("x").unwrap();
    assert_eq!(engine.population_size(), 2);
    assert_eq!(genomes(&engine.population), vec![vec![0, GENE_ONE, 250_000], vec![1, 2, 3]]);
    let fitness: Vec<i64> = engine.population.iter().map(|o| o.fitness).collect();
    assert_eq!(fitness, vec![7, -4]);
    assert_eq!(engine.population[0].id, OrganismId(11));
    assert_eq!(engine.generation, 1);
}

#[test]
fn recover_unknown_id_reports_not_found() {
    let population = vec![organism(1, vec![3, 4], 1)];
    let mut engine = PhoenixEngine::new("test", still_mutator(0), InMemoryChronos::new(), population);
    let r = engine.recover_from_blockchain("missing");
    match r {
        Err(PhoenixError::Blockchain(L1ChronosError::NotFound(id))) => assert_eq!(id, "missing"),
        other => panic!("unexpected result {:?}", other),
    }
    assert_eq!(genomes(&engine.population), vec![vec![3, 4]]);
}

#[test]
fn recover_empty_snapshot_reports_empty() {
    let mut store = InMemoryChronos::new();
    store.store_population("void", &[]).unwrap();
    let population = vec![organism(1, vec![3, 4], 1)];
    let mut engine = PhoenixEngine::new("test", still_mutator(0), store, population);
    let r = engine.recover_from_blockchain("void");
    assert!(matches!(r, Err(PhoenixError::EmptySnapshot(_))));
    assert_eq!(genomes(&engine.population), vec![vec![3, 4]]);
    assert_eq!(engine.population[0].fitness, 1);
}

#[test]
fn checkpoint_of_empty_population_then_recover_is_empty_error() {
    let mut engine = PhoenixEngine::new("test", still_mutator(0), InMemoryChronos::new(), Vec::new());
    engine.checkpoint_to_blockchain("e").unwrap();
    assert!(matches!(engine.recover_from_blockchain("e"), Err(PhoenixError::EmptySnapshot(_))));
}

#[test]
fn fittest_of_prefers_first_of_the_best() {
    let population = vec![
        organism(1, vec![1], 4),
        organism(2, vec![2], 9),
        organism(3, vec![3], 9),
        organism(4, vec![4], -1),
    ];
    let engine = PhoenixEngine::new("test", still_mutator(0), InMemoryChronos::new(), population);
    assert_eq!(engine.fittest_of(&vec![0, 3, 2, 1]), 2);
    assert_eq!(engine.fittest_of(&vec![3, 0]), 0);
    assert_eq!(engine.fittest_of(&vec![3]), 3);
    assert_eq!(engine.fittest_of(&vec![1, 2, 2]), 1);
}

#[test]
fn apply_snapshot_handles_each_load_result() {
    let population = vec![organism(1, vec![3, 4], 1)];
    let mut engine = PhoenixEngine::new("test", still_mutator(0), InMemoryChronos::new(), population);
    let r = engine.apply_snapshot(Err(L1ChronosError::Io("disk".to_string())), "x");
    match r {
        Err(PhoenixError::Blockchain(L1ChronosError::Io(m))) => assert_eq!(m, "disk"),
        other => panic!("unexpected {:?}", other),
    }
    assert_eq!(genomes(&engine.population), vec![vec![3, 4]]);
    let r = engine.apply_snapshot(Ok(Vec::new()), "x");
    match r {
        Err(PhoenixError::EmptySnapshot(id)) => assert_eq!(id, "x"),
        other => panic!("unexpected {:?}", other),
    }
    assert_eq!(genomes(&engine.population), vec![vec![3, 4]]);
    engine.apply_snapshot(Ok(vec![organism(5, vec![7], 2), organism(6, vec![8], 3)]), "x").unwrap();
    assert_eq!(genomes(&engine.population), vec![vec![7], vec![8]]);
    assert_eq!(engine.generation, 0);
}
