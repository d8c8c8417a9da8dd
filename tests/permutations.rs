use ascn_rs::permutations::Permutation;

#[test]
fn permutations_test() {
    let mut permutation = Permutation::new(&[1, 2], &[3, 4]);
    let mut pairs = Vec::new();
    while let Some(pair) = permutation.next() {
        pairs.push(pair);
    }

    assert_eq!(pairs, vec![(&1, &3), (&1, &4), (&2, &3), (&2, &4)])
}

#[test]
fn permutations_with_empty_side() {
    let mut permutation = Permutation::<u8>::new(&[1, 2, 3], &[]);
    assert_eq!(permutation.next(), None);
    let mut permutation = Permutation::<u8>::new(&[], &[1]);
    assert_eq!(permutation.next(), None);
}
