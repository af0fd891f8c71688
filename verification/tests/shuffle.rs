use mlp::shuffle::{shuffle, shuffle_indices, shuffle_with_seed};

fn sorted(v: &[usize]) -> Vec<usize> {
    let mut s = v.to_vec();
    s.sort();
    s
}

#[test]
fn seeded_shuffle_is_the_lcg_fisher_yates_order() {
    let mut v: Vec<usize> = (0..5).collect();
    shuffle_with_seed(&mut v, 42);
    assert_eq!(v, vec![0, 3, 1, 2, 4]);

    let mut w: Vec<usize> = (0..10).collect();
    shuffle_with_seed(&mut w, 0);
    assert_eq!(w, vec![4, 8, 6, 0, 9, 5, 2, 1, 3, 7]);

    let mut p = vec![0usize, 1];
    shuffle_with_seed(&mut p, 7);
    assert_eq!(p, vec![1, 0]);
}

#[test]
fn seeded_shuffle_is_repeatable_and_a_permutation() {
    let base: Vec<usize> = (0..100).map(|i| i * 3 % 17).collect();
    let mut a = base.clone();
    let mut b = base.clone();
    shuffle_with_seed(&mut a, 123456789);
    shuffle_with_seed(&mut b, 123456789);
    assert_eq!(a, b);
    assert_eq!(sorted(&a), sorted(&base));
}

#[test]
fn seeded_shuffle_of_short_lists() {
    let mut e: Vec<usize> = vec![];
    shuffle_with_seed(&mut e, 1);
    assert!(e.is_empty());
    let mut one = vec![9usize];
    shuffle_with_seed(&mut one, 1);
    assert_eq!(one, vec![9]);
}

#[test]
fn random_shuffle_permutes() {
    let base: Vec<usize> = (0..1000).collect();
    let mut v = base.clone();
    shuffle(&mut v);
    assert_eq!(sorted(&v), base);
    assert_ne!(v, base);
}

#[test]
fn fisher_yates_shuffle_permutes() {
    let base: Vec<usize> = (0..1000).collect();
    let mut v = base.clone();
    shuffle_indices(&mut v);
    assert_eq!(sorted(&v), base);
    assert_ne!(v, base);
    let mut e: Vec<usize> = vec![];
    shuffle_indices(&mut e);
    assert!(e.is_empty());
}
