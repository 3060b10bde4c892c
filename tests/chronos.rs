use phoenix_engine::chronos::{decode_snapshot, encode_snapshot, L1ChronosFileStorage};
use phoenix_engine::genome::{Dna, Organism, OrganismId, GENE_ONE};
use phoenix_engine::storage::L1ChronosError;

fn organism(id: u64, genes: Vec<u32>, fitness: i64) -> Organism {
    Organism { id: OrganismId(id), dna: Dna { genes }, fitness }
}

#[test]
fn checkpoint_path_under_root() {
    let s = L1ChronosFileStorage::new("data/checkpoints".to_string());
    assert_eq!(s.checkpoint_path("gen0"), "data/checkpoints/gen0.population.json");
    assert_eq!(s.checkpoint_path("../../x y"), "data/checkpoints/______x_y.population.json");
    let slash = L1ChronosFileStorage::new("/tmp/".to_string());
    assert_eq!(slash.checkpoint_path("a"), "/tmp/a.population.json");
    let bare = L1ChronosFileStorage::new(String::new());
    assert_eq!(bare.checkpoint_path("a/b"), "a_b.population.json");
}

#[test]
fn snapshot_text_is_versioned_json() {
    let text = encode_snapshot(&[organism(7, vec![250_000, GENE_ONE, 5], -3)]);
    assert_eq!(
        text,
        "{\"version\":1,\"population\":[{\"id\":7,\"genome\":[0.250000,1.000000,0.000005],\"fitness\":-3}]}"
    );
    assert_eq!(encode_snapshot(&[]), "{\"version\":1,\"population\":[]}");
}

#[test]
fn snapshot_round_trip() {
    let population = vec![
        organism(0, vec![], 0),
        organism(u64::MAX, vec![0, 1, 999_999, GENE_ONE], i64::MIN),
        organism(42, vec![123_456], i64::MAX),
    ];
    let text = encode_snapshot(&population);
    let back = decode_snapshot(&text).expect("a written snapshot decodes");
    assert_eq!(back.len(), 3);
    for (a, b) in population.iter().zip(back.iter()) {
        assert_eq!(a.id, b.id);
        assert_eq!(a.dna.genes, b.dna.genes);
        assert_eq!(a.fitness, b.fitness);
    }
    assert!(decode_snapshot(&encode_snapshot(&[])).unwrap().is_empty());
}

#[test]
fn snapshot_of_other_version_is_rejected() {
    let text = "{\"version\":2,\"population\":[]}";
    assert!(matches!(decode_snapshot(text), Err(L1ChronosError::Json(_))));
}

#[test]
fn corrupted_snapshot_is_rejected() {
    for text in [
        "",
        "{}",
        "{\"version\":1,\"population\":[",
        "{\"version\":1,\"population\":[]} ",
        "{\"version\":1,\"population\":[{\"id\":01,\"genome\":[],\"fitness\":0}]}",
        "{\"version\":1,\"population\":[{\"id\":1,\"genome\":[0.5],\"fitness\":0}]}",
        "{\"version\":1,\"population\":[{\"id\":1,\"genome\":[],\"fitness\":-0}]}",
    ] {
        assert!(matches!(decode_snapshot(text), Err(L1ChronosError::Json(_))), "{text}");
    }
}
