//! The evolutionary engine: selection, crossover, mutation and generation
//! bookkeeping, with checkpoint and recovery of the population.
use rand::rngs::StdRng;
use vstd::prelude::*;

use crate::genome::{
    Dna, Organism, OrganismId, OrganismModel, crossover_at, crossover_genes, population_model,
    shorter,
};
use crate::mutation::{L0QuantumMutator, NoiseSource, QuantumMutator, lemma_zero_rate_keeps_genes};
use crate::random::{draw_below, draw_u64};
use crate::storage::{BlockchainStorage, L1ChronosError, storage_key};

verus! {

/// Errors of the engine.
#[derive(Debug)]
pub enum PhoenixError<E> {
    /// An error of the checkpoint storage, passed on unchanged.
    Blockchain(E),
    /// The snapshot under the given checkpoint id holds no organism.
    EmptySnapshot(String),
}

/// The split points that crossover may pick for parents `a` and `b`: strictly
/// inside both when the shorter has two genes or more; otherwise the shorter
/// length itself, so that the child copies what there is of `a`.
pub open spec fn split_allowed(a: Seq<u32>, b: Seq<u32>, split: int) -> bool {
    if shorter(a.len(), b.len()) >= 2 {
        0 < split < shorter(a.len(), b.len())
    } else {
        split == shorter(a.len(), b.len())
    }
}

/// `genes` is what crossover of `a` and `b` can give.
pub open spec fn crossover_outcome(a: Seq<u32>, b: Seq<u32>, genes: Seq<u32>) -> bool {
    exists|split: int| split_allowed(a, b, split) && genes == crossover_genes(a, b, split)
}

/// `child` is an offspring of `parents` under `mutator`: two parents (possibly
/// the same one) crossed at an allowed split point, then mutated.
pub open spec fn offspring_of<Q: QuantumMutator>(
    mutator: Q,
    parents: Seq<Organism>,
    child: OrganismModel,
) -> bool {
    &&& child.fitness == 0
    &&& exists|a: int, b: int, split: int|
        0 <= a < parents.len() && 0 <= b < parents.len() && split_allowed(
            parents[a].dna.genes@,
            parents[b].dna.genes@,
            split,
        ) && #[trigger] mutator.permits(
            crossover_genes(parents[a].dna.genes@, parents[b].dna.genes@, split),
            child.genes,
        )
}

/// Fitness of the organism at `i`.
pub open spec fn fitness_at(population: Seq<Organism>, i: usize) -> i64 {
    population[i as int].fitness
}

/// How many candidates a tournament of size `k` samples from `n` organisms:
/// `min(k, n)`, and at least one.
pub open spec fn tournament_rounds(k: int, n: int) -> int {
    let m = if k < n { k } else { n };
    if m == 0 { 1 } else { m }
}

/// `r` is the winner of a tournament among `candidates`: the first of them
/// whose fitness no other candidate exceeds.
pub open spec fn tournament_winner(population: Seq<Organism>, candidates: Seq<usize>, r: usize) -> bool {
    &&& exists|j: int|
        0 <= j < candidates.len() && #[trigger] candidates[j] == r && (forall|i: int|
            0 <= i < j ==> #[trigger] fitness_at(population, candidates[i]) < fitness_at(population, r))
    &&& forall|j: int|
        0 <= j < candidates.len() ==> #[trigger] fitness_at(population, candidates[j]) <= fitness_at(
            population,
            r,
        )
}

/// `r` reports that no snapshot was found.
pub open spec fn reports_not_found(r: Result<(), PhoenixError<L1ChronosError>>) -> bool {
    r matches Err(PhoenixError::Blockchain(L1ChronosError::NotFound(_)))
}

/// `r` reports an empty snapshot.
pub open spec fn reports_empty_snapshot(r: Result<(), PhoenixError<L1ChronosError>>) -> bool {
    r matches Err(PhoenixError::EmptySnapshot(_))
}

/// The evolutionary engine over a mutation policy `Q` and a storage `B`.
pub struct PhoenixEngine<Q, B> {
    /// Opaque label of the layer that runs the engine.
    pub layer_id: &'static str,
    /// Number of generations produced so far.
    pub generation: u64,
    /// The current population.
    pub population: Vec<Organism>,
    /// The injected mutation policy.
    pub quantum: Q,
    /// The injected checkpoint storage.
    pub blockchain: B,
}

impl<Q: QuantumMutator, B: BlockchainStorage> PhoenixEngine<Q, B> {
    /// The engine's storage is consistent.
    pub open spec fn wf(&self) -> bool {
        self.blockchain.inv()
    }

    /// Constructs an engine at generation 0 over an initial population.
    pub fn new(layer_id: &'static str, quantum: Q, blockchain: B, population: Vec<Organism>) -> (r:
        Self)
        requires
            blockchain.inv(),
        ensures
            r.wf(),
            r.layer_id == layer_id,
            r.generation == 0,
            r.population@ == population@,
            r.quantum == quantum,
            r.blockchain == blockchain,
    {
        PhoenixEngine { layer_id, generation: 0, population, quantum, blockchain }
    }

    /// The current population size.
    pub fn population_size(&self) -> (r: usize)
        ensures
            r == self.population@.len(),
    {
        self.population.len()
    }

    /// The first of `candidates` whose fitness no other candidate exceeds.
    pub fn fittest_of(&self, candidates: &Vec<usize>) -> (r: usize)
        requires
            candidates@.len() > 0,
            forall|j: int| 0 <= j < candidates@.len() ==> #[trigger] candidates@[j] < self.population@.len(),
        ensures
            tournament_winner(self.population@, candidates@, r),
    {
        let mut best = candidates[0];
        let ghost mut at: int = 0;
        let mut i: usize = 1;
        while i < candidates.len()
            invariant
                1 <= i <= candidates@.len(),
                forall|j: int| 0 <= j < candidates@.len() ==> #[trigger] candidates@[j] < self.population@.len(),
                0 <= at < i,
                candidates@[at] == best,
                forall|j: int| 0 <= j < at ==> #[trigger] fitness_at(self.population@, candidates@[j])
                    < fitness_at(self.population@, best),
                forall|j: int| 0 <= j < i ==> #[trigger] fitness_at(self.population@, candidates@[j])
                    <= fitness_at(self.population@, best),
            decreases candidates@.len() - i,
        {
            let c = candidates[i];
            if self.population[c].fitness > self.population[best].fitness {
                best = c;
                proof {
                    at = i as int;
                }
            }
            i += 1;
        }
        best
    }

    /// Tournament selection: `min(k, size)` indices (at least one) drawn
    /// uniformly with replacement, and the fittest of them.
    fn tournament_select(&self, rng: &mut StdRng, k: usize) -> (r: usize)
        requires
            self.population@.len() > 0,
        ensures
            r < self.population@.len(),
            exists|candidates: Seq<usize>|
                candidates.len() == tournament_rounds(k as int, self.population@.len() as int)
                    && (forall|j: int| 0 <= j < candidates.len() ==> #[trigger] candidates[j]
                    < self.population@.len()) && #[trigger] tournament_winner(
                    self.population@,
                    candidates,
                    r,
                ),
    {
        let n = self.population.len();
        let rounds = if k < n { k } else { n };
        let rounds = if rounds == 0 { 1 } else { rounds };
        let mut candidates: Vec<usize> = Vec::with_capacity(rounds);
        while candidates.len() < rounds
            invariant
                n == self.population@.len(),
                n > 0,
                candidates@.len() <= rounds,
                forall|j: int| 0 <= j < candidates@.len() ==> #[trigger] candidates@[j] < n,
            decreases rounds - candidates@.len(),
        {
            candidates.push(draw_below(rng, n as u64) as usize);
        }
        self.fittest_of(&candidates)
    }

    /// One-point crossover at a split point drawn uniformly from the allowed
    /// ones.
    fn crossover(&self, a: &Dna, b: &Dna, rng: &mut StdRng) -> (r: Dna)
        ensures
            crossover_outcome(a.genes@, b.genes@, r.genes@),
            shorter(a.genes@.len(), b.genes@.len()) < 2 ==> *final(rng) == *old(rng),
    {
        let len = if a.genes.len() < b.genes.len() { a.genes.len() } else { b.genes.len() };
        let split = if len >= 2 {
            1 + draw_below(rng, (len - 1) as u64) as usize
        } else {
            len
        };
        let r = crossover_at(a, b, split);
        assert(split_allowed(a.genes@, b.genes@, split as int));
        r
    }

    /// One evolutionary step: replaces a non-empty population by
    /// `offspring_count` offspring and advances the generation by one. An
    /// empty population is left as it is.
    pub fn evolve(&mut self, rng: &mut StdRng, offspring_count: usize)
        requires
            old(self).wf(),
            old(self).population@.len() > 0 ==> old(self).generation < u64::MAX,
        ensures
            final(self).wf(),
            final(self).layer_id == old(self).layer_id,
            final(self).quantum == old(self).quantum,
            final(self).blockchain == old(self).blockchain,
            old(self).population@.len() == 0 ==> final(self).generation == old(self).generation
                && final(self).population@ == old(self).population@ && *final(rng) == *old(rng),
            old(self).population@.len() > 0 ==> {
                &&& final(self).generation == old(self).generation + 1
                &&& final(self).population@.len() == offspring_count
                &&& forall|i: int|
                    0 <= i < offspring_count ==> offspring_of(
                        old(self).quantum,
                        old(self).population@,
                        #[trigger] final(self).population@[i]@,
                    )
            },
    {
        if self.population.len() == 0 {
            return;
        }
        let mut offspring: Vec<Organism> = Vec::with_capacity(offspring_count);
        let mut made: usize = 0;
        while made < offspring_count
            invariant
                self.population@.len() > 0,
                made <= offspring_count,
                offspring@.len() == made,
                forall|i: int|
                    0 <= i < made ==> offspring_of(
                        self.quantum,
                        self.population@,
                        #[trigger] offspring@[i]@,
                    ),
            decreases offspring_count - made,
        {
            let a = self.tournament_select(rng, 3);
            let b = self.tournament_select(rng, 3);
            let mut child = self.crossover(&self.population[a].dna, &self.population[b].dna, rng);
            let ghost crossed = child.genes@;
            self.quantum.quantum_mutate(&mut child, rng);
            let id = OrganismId(draw_u64(rng));
            let organism = Organism { id, dna: child, fitness: 0 };
            proof {
                let pa = self.population@[a as int].dna.genes@;
                let pb = self.population@[b as int].dna.genes@;
                let split = choose|split: int|
                    split_allowed(pa, pb, split) && crossed == crossover_genes(pa, pb, split);
                assert(self.quantum.permits(crossover_genes(pa, pb, split), organism@.genes));
            }
            offspring.push(organism);
            made += 1;
        }
        self.population = offspring;
        self.generation = self.generation + 1;
    }

    /// What a checkpoint under `id` does: on success the storage holds the
    /// population under the id's storage key; the population, the generation
    /// and the mutation policy are unchanged either way. A storage that
    /// cannot fail always succeeds.
    pub open spec fn checkpoint_post(
        pre: Self,
        post: Self,
        id: Seq<char>,
        r: Result<(), PhoenixError<L1ChronosError>>,
    ) -> bool {
        &&& post.wf()
        &&& post.layer_id == pre.layer_id
        &&& post.generation == pre.generation
        &&& post.population@ == pre.population@
        &&& post.quantum == pre.quantum
        &&& post.blockchain.infallible() == pre.blockchain.infallible()
        &&& pre.blockchain.infallible() ==> r is Ok
        &&& r is Ok ==> post.blockchain.snapshots() == pre.blockchain.snapshots().insert(
            storage_key(id),
            population_model(pre.population@),
        )
        &&& r is Err ==> post.blockchain.snapshots() == pre.blockchain.snapshots()
        &&& r is Err ==> r->Err_0 is Blockchain
    }

    /// Persists the current population under `checkpoint_id`.
    pub fn checkpoint_to_blockchain(&mut self, checkpoint_id: &str) -> (r: Result<
        (),
        PhoenixError<L1ChronosError>,
    >)
        requires
            old(self).wf(),
        ensures
            Self::checkpoint_post(*old(self), *final(self), checkpoint_id@, r),
    {
        match self.blockchain.store_population(checkpoint_id, self.population.as_slice()) {
            Ok(()) => Ok(()),
            Err(e) => Err(PhoenixError::Blockchain(e)),
        }
    }

    /// What a recovery from `id` does. The storage, the generation and the
    /// mutation policy are unchanged. A failure leaves the population as it
    /// was; it is `NotFound` exactly when nothing is stored under the id, and
    /// `EmptySnapshot` when the stored population is empty. On success the
    /// population is the non-empty stored one. A storage that cannot fail
    /// gives `EmptySnapshot` exactly on an empty stored population and
    /// success on any other stored one.
    pub open spec fn recover_post(
        pre: Self,
        post: Self,
        id: Seq<char>,
        r: Result<(), PhoenixError<L1ChronosError>>,
    ) -> bool {
        let stored = pre.blockchain.snapshots();
        let key = storage_key(id);
        &&& post.wf()
        &&& post.layer_id == pre.layer_id
        &&& post.generation == pre.generation
        &&& post.quantum == pre.quantum
        &&& post.blockchain == pre.blockchain
        &&& r is Ok ==> stored.contains_key(key) && stored[key].len() > 0 && population_model(
            post.population@,
        ) == stored[key]
        &&& r is Err ==> post.population@ == pre.population@
        &&& !stored.contains_key(key) <==> reports_not_found(r)
        &&& reports_empty_snapshot(r) ==> stored.contains_key(key) && stored[key].len() == 0
        &&& stored.contains_key(key) && stored[key].len() == 0 ==> r is Err
        &&& pre.blockchain.infallible() && stored.contains_key(key) ==> if stored[key].len() == 0 {
            reports_empty_snapshot(r)
        } else {
            r is Ok
        }
    }

    /// Replaces the population by the snapshot stored under `checkpoint_id`.
    /// The generation counter is deliberately left as it is.
    pub fn recover_from_blockchain(&mut self, checkpoint_id: &str) -> (r: Result<
        (),
        PhoenixError<L1ChronosError>,
    >)
        requires
            old(self).wf(),
        ensures
            Self::recover_post(*old(self), *final(self), checkpoint_id@, r),
    {
        let loaded = self.blockchain.load_population(checkpoint_id);
        self.apply_snapshot(loaded, checkpoint_id)
    }

    /// What recovery does with the result of loading `checkpoint_id`: a load
    /// error is passed on unchanged, an empty snapshot is refused, and any
    /// other snapshot replaces the population. Only the population changes.
    pub fn apply_snapshot(
        &mut self,
        loaded: Result<Vec<Organism>, L1ChronosError>,
        checkpoint_id: &str,
    ) -> (r: Result<(), PhoenixError<L1ChronosError>>)
        requires
            old(self).wf(),
        ensures
            final(self).wf(),
            final(self).layer_id == old(self).layer_id,
            final(self).generation == old(self).generation,
            final(self).quantum == old(self).quantum,
            final(self).blockchain == old(self).blockchain,
            match loaded {
                Err(e) => r == Err::<(), PhoenixError<L1ChronosError>>(PhoenixError::Blockchain(e))
                    && final(self).population@ == old(self).population@,
                Ok(v) => if v@.len() == 0 {
                    (r matches Err(PhoenixError::EmptySnapshot(id)) && id@ == checkpoint_id@)
                        && final(self).population@ == old(self).population@
                } else {
                    r is Ok && final(self).population@ == v@
                },
            },
    {
        let snapshot = match loaded {
            Ok(p) => p,
            Err(e) => {
                return Err(PhoenixError::Blockchain(e));
            },
        };
        if snapshot.len() == 0 {
            return Err(PhoenixError::EmptySnapshot(checkpoint_id.to_owned()));
        }
        self.population = snapshot;
        Ok(())
    }
}

/// Round trip: a successful checkpoint under `id`, then any steps that leave
/// the storage alone (such as `evolve`), then a recovery from `id`: the
/// recovery never reports a missing snapshot, reports an empty one only when
/// the checkpointed population was empty, and when it succeeds the population
/// has exactly the identifiers, genes and fitness values of checkpoint time.
/// Over a storage that cannot fail, it succeeds whenever that population was
/// not empty.
pub proof fn lemma_checkpoint_then_recover<Q: QuantumMutator, B: BlockchainStorage>(
    at_checkpoint: PhoenixEngine<Q, B>,
    after_checkpoint: PhoenixEngine<Q, B>,
    before_recover: PhoenixEngine<Q, B>,
    after_recover: PhoenixEngine<Q, B>,
    id: Seq<char>,
    stored: Result<(), PhoenixError<L1ChronosError>>,
    recovered: Result<(), PhoenixError<L1ChronosError>>,
)
    requires
        PhoenixEngine::checkpoint_post(at_checkpoint, after_checkpoint, id, stored),
        stored is Ok,
        before_recover.blockchain == after_checkpoint.blockchain,
        PhoenixEngine::recover_post(before_recover, after_recover, id, recovered),
    ensures
        !reports_not_found(recovered),
        reports_empty_snapshot(recovered) ==> at_checkpoint.population@.len() == 0,
        at_checkpoint.population@.len() == 0 ==> recovered is Err,
        recovered is Ok ==> population_model(after_recover.population@) == population_model(
            at_checkpoint.population@,
        ),
        at_checkpoint.blockchain.infallible() && at_checkpoint.population@.len() > 0
            ==> recovered is Ok,
{
    let key = storage_key(id);
    let snaps = before_recover.blockchain.snapshots();
    assert(snaps.contains_key(key));
    assert(snaps[key] == population_model(at_checkpoint.population@));
}

/// With a mutation rate of zero, every offspring's genome is exactly the
/// crossover of two members of the parent population, with no perturbation.
pub proof fn lemma_zero_rate_offspring_is_crossover<N: NoiseSource>(
    mutator: L0QuantumMutator<N>,
    parents: Seq<Organism>,
    child: OrganismModel,
)
    requires
        mutator.mutation_rate == 0,
        offspring_of(mutator, parents, child),
    ensures
        exists|a: int, b: int|
            0 <= a < parents.len() && 0 <= b < parents.len() && crossover_outcome(
                #[trigger] parents[a].dna.genes@,
                #[trigger] parents[b].dna.genes@,
                child.genes,
            ),
{
    let (a, b, split) = choose|a: int, b: int, split: int|
        0 <= a < parents.len() && 0 <= b < parents.len() && split_allowed(
            parents[a].dna.genes@,
            parents[b].dna.genes@,
            split,
        ) && #[trigger] mutator.permits(
            crossover_genes(parents[a].dna.genes@, parents[b].dna.genes@, split),
            child.genes,
        );
    let crossed = crossover_genes(parents[a].dna.genes@, parents[b].dna.genes@, split);
    lemma_zero_rate_keeps_genes(mutator, crossed, child.genes);
    assert(crossover_outcome(parents[a].dna.genes@, parents[b].dna.genes@, child.genes));
}

/// A crossover of parents whose shorter genome has two genes or more splits
/// strictly inside both: `0 < split < shorter length`.
pub proof fn lemma_crossover_split_inside(a: Seq<u32>, b: Seq<u32>, genes: Seq<u32>)
    requires
        crossover_outcome(a, b, genes),
        shorter(a.len(), b.len()) >= 2,
    ensures
        exists|split: int|
            0 < split < shorter(a.len(), b.len()) && genes == #[trigger] crossover_genes(
                a,
                b,
                split,
            ),
{
    let split = choose|split: int| split_allowed(a, b, split) && genes == crossover_genes(a, b, split);
    assert(0 < split < shorter(a.len(), b.len()) && genes == crossover_genes(a, b, split));
}

} // verus!
