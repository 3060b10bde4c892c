//! Genomes and organisms.
//!
//! A gene is a fixed-point value in micro-units: `0` stands for 0.0 and
//! `GENE_ONE` for 1.0, so every gene lies in `[0, GENE_ONE]`.
use rand::rngs::StdRng;
use vstd::prelude::*;

use crate::random::draw_below;

verus! {

/// The fixed-point value that stands for a gene of 1.0.
pub const GENE_ONE: u32 = 1_000_000;

/// Every gene of `genes` lies in `[0, GENE_ONE]`.
pub open spec fn genes_in_range(genes: Seq<u32>) -> bool {
    forall|i: int| 0 <= i < genes.len() ==> #[trigger] genes[i] <= GENE_ONE
}

/// The smaller of two lengths.
pub open spec fn shorter(a: nat, b: nat) -> nat {
    if a < b { a } else { b }
}

/// One-point crossover at `split`: the first `split` genes of `a`, then the
/// genes of `b` from `split` up to the shorter parent's length.
pub open spec fn crossover_genes(a: Seq<u32>, b: Seq<u32>, split: int) -> Seq<u32> {
    a.subrange(0, split) + b.subrange(split, shorter(a.len(), b.len()) as int)
}

/// Identifier of an organism; not required to be unique.
#[derive(Clone, Copy, Debug, PartialEq, Eq, Hash, Structural)]
pub struct OrganismId(pub u64);

/// Heritable state: an ordered sequence of genes.
#[derive(Clone, Debug)]
pub struct Dna {
    pub genes: Vec<u32>,
}

impl Dna {
    /// All genes lie in `[0, GENE_ONE]`.
    pub open spec fn wf(&self) -> bool {
        genes_in_range(self.genes@)
    }

    /// A genome of `len` genes, each drawn uniformly from `[0, GENE_ONE)`.
    pub fn new_random(len: usize, rng: &mut StdRng) -> (r: Dna)
        ensures
            r.genes@.len() == len,
            r.wf(),
            forall|i: int| 0 <= i < len ==> #[trigger] r.genes@[i] < GENE_ONE,
    {
        let mut genes: Vec<u32> = Vec::with_capacity(len);
        let mut i: usize = 0;
        while i < len
            invariant
                i <= len,
                genes@.len() == i,
                genes_in_range(genes@),
                forall|j: int| 0 <= j < i ==> #[trigger] genes@[j] < GENE_ONE,
            decreases len - i,
        {
            let g = draw_below(rng, GENE_ONE as u64);
            genes.push(g as u32);
            i += 1;
        }
        Dna { genes }
    }

    /// A copy with the same genes.
    pub fn duplicate(&self) -> (r: Dna)
        ensures
            r.genes@ == self.genes@,
    {
        let mut genes: Vec<u32> = Vec::with_capacity(self.genes.len());
        let mut i: usize = 0;
        while i < self.genes.len()
            invariant
                i <= self.genes@.len(),
                genes@ == self.genes@.subrange(0, i as int),
            decreases self.genes@.len() - i,
        {
            genes.push(self.genes[i]);
            i += 1;
        }
        assert(genes@ =~= self.genes@);
        Dna { genes }
    }
}

/// One-point crossover of `a` and `b` at a given split point.
pub fn crossover_at(a: &Dna, b: &Dna, split: usize) -> (r: Dna)
    requires
        split <= shorter(a.genes@.len(), b.genes@.len()),
    ensures
        r.genes@ == crossover_genes(a.genes@, b.genes@, split as int),
        r.genes@.len() == shorter(a.genes@.len(), b.genes@.len()),
{
    let len = if a.genes.len() < b.genes.len() { a.genes.len() } else { b.genes.len() };
    let mut genes: Vec<u32> = Vec::with_capacity(len);
    let mut i: usize = 0;
    while i < len
        invariant
            split <= len,
            len == shorter(a.genes@.len(), b.genes@.len()),
            i <= len,
            genes@ == crossover_genes(a.genes@, b.genes@, split as int).subrange(0, i as int),
        decreases len - i,
    {
        if i < split {
            genes.push(a.genes[i]);
        } else {
            genes.push(b.genes[i]);
        }
        i += 1;
    }
    assert(genes@ =~= crossover_genes(a.genes@, b.genes@, split as int));
    Dna { genes }
}

/// What an organism is, as a mathematical value.
pub struct OrganismModel {
    pub id: u64,
    pub genes: Seq<u32>,
    pub fitness: i64,
}

/// An identified individual with a genome and a caller-assigned fitness.
#[derive(Clone, Debug)]
pub struct Organism {
    pub id: OrganismId,
    pub dna: Dna,
    /// Fitness of the last evaluation; offspring start at 0.
    pub fitness: i64,
}

impl View for Organism {
    type V = OrganismModel;

    open spec fn view(&self) -> OrganismModel {
        OrganismModel { id: self.id.0, genes: self.dna.genes@, fitness: self.fitness }
    }
}

impl Organism {
    /// A copy with the same identifier, genes and fitness.
    pub fn duplicate(&self) -> (r: Organism)
        ensures
            r@ == self@,
    {
        Organism { id: OrganismId(self.id.0), dna: self.dna.duplicate(), fitness: self.fitness }
    }
}

/// A population as a sequence of models.
pub open spec fn population_model(p: Seq<Organism>) -> Seq<OrganismModel> {
    p.map_values(|o: Organism| o@)
}

/// A copy of a whole population, organism by organism.
pub fn copy_population(p: &[Organism]) -> (r: Vec<Organism>)
    ensures
        population_model(r@) == population_model(p@),
{
    let mut out: Vec<Organism> = Vec::with_capacity(p.len());
    let mut i: usize = 0;
    while i < p.len()
        invariant
            i <= p@.len(),
            out@.len() == i,
            forall|j: int| 0 <= j < i ==> #[trigger] out@[j]@ == p@[j]@,
        decreases p@.len() - i,
    {
        out.push(p[i].duplicate());
        i += 1;
    }
    assert(population_model(out@) =~= population_model(p@));
    out
}

} // verus!
