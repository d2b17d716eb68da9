use rust_markov_lib::utils::{array_to_hashmap, vector_to_hashmap};

#[test]
fn vector_to_hashmap_indexes_by_position() {
    let v = vec![10, 20, 30];
    let m = vector_to_hashmap(&v, |x| x * 2);
    assert_eq!(m.len(), 3);
    assert_eq!(m[&0], 20);
    assert_eq!(m[&1], 40);
    assert_eq!(m[&2], 60);
    assert!(!m.contains_key(&3));
}

#[test]
fn array_to_hashmap_indexes_by_position() {
    let a = ["x", "yy"];
    let m = array_to_hashmap(&a, |s| s.len());
    assert_eq!(m.len(), 2);
    assert_eq!(m[&0], 1);
    assert_eq!(m[&1], 2);
}

#[test]
fn empty_inputs_give_empty_maps() {
    let v: Vec<u8> = Vec::new();
    assert!(vector_to_hashmap(&v, |x| *x).is_empty());
}

#[test]
fn nested_vectors_become_nested_maps() {
    let v = vec![vec![1, 2], vec![3]];
    let m = vector_to_hashmap(&v, |row| vector_to_hashmap(row, |z| *z));
    assert_eq!(m[&0][&1], 2);
    assert_eq!(m[&1][&0], 3);
}
