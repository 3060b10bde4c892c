//! Checkpoint storage: durable save and load of population snapshots.
use vstd::prelude::*;
use vstd::string::*;

use crate::genome::{Organism, OrganismModel, copy_population, population_model};

verus! {

/// Errors of a checkpoint storage.
#[derive(Debug)]
pub enum L1ChronosError {
    /// Reading or writing the storage medium failed.
    Io(String),
    /// A snapshot could not be encoded or decoded.
    Json(String),
    /// No snapshot is stored under the given checkpoint id.
    NotFound(String),
}

/// Characters that a storage key keeps as they are.
pub open spec fn is_key_char(c: char) -> bool {
    ('a' <= c && c <= 'z') || ('A' <= c && c <= 'Z') || ('0' <= c && c <= '9') || c == '-' || c
        == '_'
}

/// The storage key of a checkpoint id: every character other than an ASCII
/// letter, digit, `-` or `_` becomes `_`.
pub open spec fn storage_key(id: Seq<char>) -> Seq<char> {
    id.map_values(|c: char| if is_key_char(c) { c } else { '_' })
}

/// Whether `c` is kept in a storage key.
pub fn keeps_char(c: char) -> (r: bool)
    ensures
        r == is_key_char(c),
{
    ('a' <= c && c <= 'z') || ('A' <= c && c <= 'Z') || ('0' <= c && c <= '9') || c == '-' || c
        == '_'
}

/// Relies on `String::push`: appends one character.
#[verifier::external_body]
pub(crate) fn push_char(s: &mut String, c: char)
    ensures
        final(s)@ == old(s)@.push(c),
{
    s.push(c);
}

/// The storage key of `checkpoint_id`: as long as the id, and made of ASCII
/// letters, digits, `-` and `_` only, so it never names another directory.
pub fn sanitize_id(checkpoint_id: &str) -> (r: String)
    ensures
        r@ == storage_key(checkpoint_id@),
        r@.len() == checkpoint_id@.len(),
        forall|i: int| 0 <= i < r@.len() ==> is_key_char(#[trigger] r@[i]),
{
    let n = checkpoint_id.unicode_len();
    let mut out = String::new();
    let mut i: usize = 0;
    while i < n
        invariant
            n == checkpoint_id@.len(),
            i <= n,
            out@ == storage_key(checkpoint_id@).subrange(0, i as int),
        decreases n - i,
    {
        let c = checkpoint_id.get_char(i);
        if keeps_char(c) {
            push_char(&mut out, c);
        } else {
            push_char(&mut out, '_');
        }
        i += 1;
        assert(out@ =~= storage_key(checkpoint_id@).subrange(0, i as int));
    }
    assert(out@ =~= storage_key(checkpoint_id@));
    out
}

/// Durable save and load of population snapshots, keyed by the storage key of
/// a checkpoint id.
pub trait BlockchainStorage {
    /// The snapshots held, by storage key.
    spec fn snapshots(&self) -> Map<Seq<char>, Seq<OrganismModel>>;

    /// The storage's internal consistency, kept by every operation.
    spec fn inv(&self) -> bool;

    /// The storage's operations cannot fail (no medium that can break).
    spec fn infallible(&self) -> bool;

    /// The population stored under `checkpoint_id`; `NotFound` exactly when
    /// nothing is stored there.
    fn load_population(&self, checkpoint_id: &str) -> (r: Result<Vec<Organism>, L1ChronosError>)
        requires
            self.inv(),
        ensures
            r is Ok ==> self.snapshots().contains_key(storage_key(checkpoint_id@))
                && population_model(r->Ok_0@) == self.snapshots()[storage_key(checkpoint_id@)],
            !self.snapshots().contains_key(storage_key(checkpoint_id@)) <==> r matches Err(
                L1ChronosError::NotFound(_),
            ),
            self.infallible() && self.snapshots().contains_key(storage_key(checkpoint_id@))
                ==> r is Ok,
    ;

    /// Stores a copy of `population` under `checkpoint_id`, replacing any
    /// earlier snapshot there; on failure the stored snapshots are unchanged.
    fn store_population(&mut self, checkpoint_id: &str, population: &[Organism]) -> (r: Result<
        (),
        L1ChronosError,
    >)
        requires
            old(self).inv(),
        ensures
            final(self).inv(),
            final(self).infallible() == old(self).infallible(),
            old(self).infallible() ==> r is Ok,
            r is Ok ==> final(self).snapshots() == old(self).snapshots().insert(
                storage_key(checkpoint_id@),
                population_model(population@),
            ),
            r is Err ==> final(self).snapshots() == old(self).snapshots(),
    ;
}

/// Snapshots held in memory.
pub struct InMemoryChronos {
    keys: Vec<String>,
    populations: Vec<Vec<Organism>>,
    model: Ghost<Map<Seq<char>, Seq<OrganismModel>>>,
}

impl InMemoryChronos {
    spec fn consistent(&self) -> bool {
        &&& self.keys@.len() == self.populations@.len()
        &&& forall|i: int|
            0 <= i < self.keys@.len() ==> self.model@.contains_key(#[trigger] self.keys@[i]@)
                && self.model@[self.keys@[i]@] == population_model(self.populations@[i]@)
        &&& forall|k: Seq<char>|
            #[trigger] self.model@.contains_key(k) ==> exists|i: int|
                0 <= i < self.keys@.len() && self.keys@[i]@ == k
        &&& forall|i: int, j: int|
            0 <= i < j < self.keys@.len() ==> #[trigger] self.keys@[i]@ != #[trigger] self.keys@[j]@
    }

    /// An empty storage.
    pub fn new() -> (r: Self)
        ensures
            r.inv(),
            r.snapshots() == Map::<Seq<char>, Seq<OrganismModel>>::empty(),
    {
        InMemoryChronos { keys: Vec::new(), populations: Vec::new(), model: Ghost(Map::empty()) }
    }

    /// Where `key` stands among the keys, if it does.
    fn position(&self, key: &String) -> (r: Option<usize>)
        ensures
            match r {
                Some(i) => i < self.keys@.len() && self.keys@[i as int]@ == key@,
                None => forall|i: int| 0 <= i < self.keys@.len() ==> self.keys@[i]@ != key@,
            },
    {
        let mut i: usize = 0;
        while i < self.keys.len()
            invariant
                i <= self.keys@.len(),
                forall|j: int| 0 <= j < i ==> self.keys@[j]@ != key@,
            decreases self.keys@.len() - i,
        {
            if self.keys[i] == *key {
                return Some(i);
            }
            i += 1;
        }
        None
    }
}

impl BlockchainStorage for InMemoryChronos {
    closed spec fn snapshots(&self) -> Map<Seq<char>, Seq<OrganismModel>> {
        self.model@
    }

    closed spec fn inv(&self) -> bool {
        self.consistent()
    }

    open spec fn infallible(&self) -> bool {
        true
    }

    fn load_population(&self, checkpoint_id: &str) -> (r: Result<Vec<Organism>, L1ChronosError>) {
        let key = sanitize_id(checkpoint_id);
        match self.position(&key) {
            Some(i) => Ok(copy_population(self.populations[i].as_slice())),
            None => Err(L1ChronosError::NotFound(checkpoint_id.to_owned())),
        }
    }

    fn store_population(&mut self, checkpoint_id: &str, population: &[Organism]) -> (r: Result<
        (),
        L1ChronosError,
    >) {
        let key = sanitize_id(checkpoint_id);
        let copy = copy_population(population);
        let ghost new_model = self.model@.insert(key@, population_model(population@));
        match self.position(&key) {
            Some(i) => {
                self.populations.set(i, copy);
                self.model = Ghost(new_model);
                assert forall|j: int| 0 <= j < self.keys@.len() implies self.model@.contains_key(
                    #[trigger] self.keys@[j]@,
                ) && self.model@[self.keys@[j]@] == population_model(self.populations@[j]@) by {
                    if j != i {
                        assert(self.keys@[j]@ != self.keys@[i as int]@);
                    }
                }
                assert forall|k: Seq<char>| #[trigger] self.model@.contains_key(k) implies exists|
                    j: int,
                | 0 <= j < self.keys@.len() && self.keys@[j]@ == k by {
                    if k == key@ {
                        assert(self.keys@[i as int]@ == k);
                    }
                }
            },
            None => {
                let ghost n = self.keys@.len() as int;
                let ghost old_keys = self.keys@;
                let ghost old_model = self.model@;
                self.keys.push(key);
                self.populations.push(copy);
                self.model = Ghost(new_model);
                assert forall|j: int| 0 <= j < self.keys@.len() implies self.model@.contains_key(
                    #[trigger] self.keys@[j]@,
                ) && self.model@[self.keys@[j]@] == population_model(self.populations@[j]@) by {
                    if j < n {
                        assert(self.keys@[j]@ != self.keys@[n]@);
                    }
                }
                assert forall|k: Seq<char>| #[trigger] self.model@.contains_key(k) implies exists|
                    j: int,
                | 0 <= j < self.keys@.len() && self.keys@[j]@ == k by {
                    if k == key@ {
                        assert(self.keys@[n]@ == k);
                    } else {
                        assert(old_model.contains_key(k));
                        let j = choose|j: int| 0 <= j < n && old_keys[j]@ == k;
                        assert(self.keys@[j]@ == k);
                    }
                }
            },
        }
        Ok(())
    }
}

} // verus!
