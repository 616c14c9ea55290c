use ndarray::Array1;
use rag_engine::storage_engine::in_memory::InMemStore;

fn to_bits(values: &[f64]) -> Vec<u64> {
    values.iter().map(|x| x.to_bits()).collect()
}

fn from_bits(bits: &[u64]) -> Vec<f64> {
    bits.iter().map(|b| f64::from_bits(*b)).collect()
}

#[test]
fn test_insertion() {
    let mut mem_store = InMemStore::new();

    let input_text = String::from("abc");
    let input_embedding = vec![0.1, 0.2, 0.3];

    assert_eq!(mem_store.insert(&input_text, &to_bits(&input_embedding)), true);
    assert_eq!(mem_store.insert(&input_text, &to_bits(&input_embedding)), false);
}

#[test]
fn test_get_all_vectors() {
    let mut mem_store = InMemStore::new();

    let input_text = String::from("abc");
    let input_text2 = String::from("xyz");
    let input_embedding = vec![0.1, 0.2, 0.3];

    let _insert1 = mem_store.insert(&input_text, &to_bits(&input_embedding));
    let _insert2 = mem_store.insert(&input_text2, &to_bits(&input_embedding));

    let store = mem_store.get_store();

    assert_eq!(store.1.len(), 2);
}

#[test]
fn test_get_vector() {
    let mut mem_store = InMemStore::new();

    let input_text = String::from("abc");
    let input_text2 = String::from("xyz");
    let input_embedding = vec![0.1, 0.2, 0.3];

    let _insert1 = mem_store.insert(&input_text, &to_bits(&input_embedding));
    let _insert2 = mem_store.insert(&input_text2, &to_bits(&input_embedding));

    let vector = mem_store.get_vector_if_it_exists(&input_text).expect("Should be found");

    assert_eq!(Array1::from(from_bits(&vector)), Array1::from(vec![0.1, 0.2, 0.3]));
}

#[test]
fn read_after_insert_gives_the_stored_embedding() {
    let mut store = InMemStore::new();
    let first = String::from("first");
    let second = String::from("second");
    assert!(store.insert(&first, &to_bits(&[1.5, -2.0])));
    assert!(store.insert(&second, &to_bits(&[0.25])));
    assert_eq!(from_bits(&store.get_vector_if_it_exists(&first).unwrap()), vec![1.5, -2.0]);
    assert_eq!(from_bits(&store.get_vector_if_it_exists(&second).unwrap()), vec![0.25]);
}

#[test]
fn missing_text_reads_nothing() {
    let mut store = InMemStore::new();
    assert_eq!(store.get_vector_if_it_exists(&String::from("abc")), None);
    store.insert(&String::from("abc"), &to_bits(&[1.0]));
    assert_eq!(store.get_vector_if_it_exists(&String::from("abd")), None);
}

#[test]
fn refused_insert_keeps_the_first_embedding() {
    let mut store = InMemStore::new();
    let text = String::from("same");
    assert!(store.insert(&text, &to_bits(&[1.0])));
    assert!(!store.insert(&text, &to_bits(&[9.0])));
    assert_eq!(from_bits(&store.get_vector_if_it_exists(&text).unwrap()), vec![1.0]);
    assert_eq!(store.get_index(&text), 1);
}

#[test]
fn index_counts_stored_texts() {
    let mut store = InMemStore::new();
    let probe = String::from("anything");
    assert_eq!(store.get_index(&probe), 0);
    store.insert(&String::from("a"), &to_bits(&[0.0]));
    assert_eq!(store.get_index(&probe), 1);
    store.insert(&String::from("b"), &to_bits(&[0.0]));
    store.insert(&String::from("a"), &to_bits(&[0.0]));
    assert_eq!(store.get_index(&probe), 2);
}

#[test]
fn store_maps_are_keyed_by_insertion_index() {
    let mut store = InMemStore::new();
    store.insert(&String::from("zero"), &to_bits(&[0.5]));
    store.insert(&String::from("one"), &to_bits(&[1.5, 2.5]));
    let (vectors, strings) = store.get_store();
    assert_eq!(vectors.len(), 2);
    assert_eq!(strings[&0], "zero");
    assert_eq!(strings[&1], "one");
    assert_eq!(from_bits(&vectors[&1]), vec![1.5, 2.5]);
    assert!(!vectors.contains_key(&2));
}

#[test]
fn empty_embedding_is_stored() {
    let mut store = InMemStore::new();
    let text = String::from("");
    assert!(store.insert(&text, &Vec::new()));
    assert_eq!(store.get_vector_if_it_exists(&text), Some(Vec::new()));
}

#[test]
fn stored_embedding_survives_further_inserts() {
    let mut store = InMemStore::new();
    let text = String::from("kept");
    assert!(store.insert(&text, &to_bits(&[0.1, 0.2])));
    for n in 0..20 {
        store.insert(&format!("other {}", n), &to_bits(&[n as f64]));
        store.insert(&text, &to_bits(&[9.9]));
    }
    assert_eq!(store.get_index(&text), 21);
    assert_eq!(from_bits(&store.get_vector_if_it_exists(&text).unwrap()), vec![0.1, 0.2]);
}
