use phoenix_engine::genome::{Dna, Organism, OrganismId};
use phoenix_engine::storage::{keeps_char, sanitize_id, BlockchainStorage, InMemoryChronos, L1ChronosError};

fn organism(id: u64, genes: Vec<u32>, fitness: i64) -> Organism {
    Organism { id: OrganismId(id), dna: Dna { genes }, fitness }
}

#[test]
fn sanitize_keeps_safe_characters_only() {
    assert_eq!(sanitize_id("gen-0_A9"), "gen-0_A9");
    assert_eq!(sanitize_id("../etc/passwd"), "___etc_passwd");
    assert_eq!(sanitize_id("a b\u{e9}"), "a_b_");
    assert_eq!(sanitize_id(""), "");
}

#[test]
fn key_characters() {
    assert!(keeps_char('z') && keeps_char('Q') && keeps_char('5') && keeps_char('-') && keeps_char('_'));
    assert!(!keeps_char('/') && !keeps_char('.') && !keeps_char(' ') && !keeps_char('\u{e9}'));
}

#[test]
fn memory_store_overwrites_and_loads() {
    let mut store = InMemoryChronos::new();
    store.store_population("a", &[organism(1, vec![1], 1)]).unwrap();
    store.store_population("a", &[organism(2, vec![2, 3], 5)]).unwrap();
    let loaded = store.load_population("a").unwrap();
    assert_eq!(loaded.len(), 1);
    assert_eq!(loaded[0].id, OrganismId(2));
    assert_eq!(loaded[0].dna.genes, vec![2, 3]);
    assert_eq!(loaded[0].fitness, 5);
}

#[test]
fn memory_store_keys_by_sanitized_id() {
    let mut store = InMemoryChronos::new();
    store.store_population("a/b", &[organism(4, vec![9], 0)]).unwrap();
    let loaded = store.load_population("a_b").unwrap();
    assert_eq!(loaded[0].id, OrganismId(4));
}

#[test]
fn memory_store_missing_id_is_not_found() {
    let store = InMemoryChronos::new();
    match store.load_population("nothing") {
        Err(L1ChronosError::NotFound(id)) => assert_eq!(id, "nothing"),
        other => panic!("unexpected {:?}", other),
    }
}
