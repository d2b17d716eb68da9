use std::collections::HashMap;
use vstd::prelude::*;

verus! {

broadcast use vstd::std_specs::hash::group_hash_axioms;

/// Indexes the elements of `array` by position, applying `f` to each of them.
pub fn array_to_hashmap<T, R, F>(array: &[T], f: F) -> (r: HashMap<usize, R>) where
    F: Fn(&T) -> R,
    requires
        forall|i: int| 0 <= i < array@.len() ==> f.requires((&array@[i],)),
    ensures
        forall|i: usize| r@.contains_key(i) <==> (i as int) < array@.len(),
        forall|i: usize| #![trigger r@[i]]
            (i as int) < array@.len() ==> f.ensures((&array@[i as int],), r@[i]),
{
    let mut m: HashMap<usize, R> = HashMap::new();
    let mut i: usize = 0;
    while i < array.len()
        invariant
            i <= array@.len(),
            forall|j: int| 0 <= j < array@.len() ==> f.requires((&array@[j],)),
            forall|j: usize| m@.contains_key(j) <==> j < i,
            forall|j: usize| #![trigger m@[j]] j < i ==> f.ensures((&array@[j as int],), m@[j]),
        decreases array@.len() - i,
    {
        let x = f(&array[i]);
        m.insert(i, x);
        i = i + 1;
    }
    m
}

/// Indexes the elements of `vector` by position, applying `f` to each of them.
pub fn vector_to_hashmap<T, R, F>(vector: &Vec<T>, f: F) -> (r: HashMap<usize, R>) where
    F: Fn(&T) -> R,
    requires
        forall|i: int| 0 <= i < vector@.len() ==> f.requires((&vector@[i],)),
    ensures
        forall|i: usize| r@.contains_key(i) <==> (i as int) < vector@.len(),
        forall|i: usize| #![trigger r@[i]]
            (i as int) < vector@.len() ==> f.ensures((&vector@[i as int],), r@[i]),
{
    array_to_hashmap(vector.as_slice(), f)
}

} // verus!
