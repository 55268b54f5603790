use roulette::Roulette;
use roulette::RouletteError;

/// Mass the table assigns to item `i`: its own threshold plus whatever every
/// slot aliased to it passes on. A table built from weights `w` must give
/// item `i` exactly `n * w[i]` of the `n * total` units.
fn mass_of<T>(t: &Roulette<T>, i: usize) -> u128 {
    let mut m: u128 = t.threshold[i] as u128;
    for j in 0..t.items.len() {
        if t.alias[j] == i {
            m += (t.total - t.threshold[j]) as u128;
        }
    }
    m
}

#[test]
fn most_entries_zero() {
    let roulette = Roulette::new(vec![('a', 0), ('b', 1), ('c', 0), ('d', 0)]).unwrap();
    for _ in 0..10 {
        assert_eq!(&'b', roulette.sample(&mut rand::thread_rng()));
    }
}

#[test]
fn single_nonzero_weight_always_wins() {
    let roulette = Roulette::new(vec![('a', 0), ('b', 1), ('c', 0), ('d', 0)]).unwrap();
    let mut rng = rand::thread_rng();
    for _ in 0..1000 {
        assert_eq!(&'b', roulette.sample(&mut rng));
    }
}

#[test]
fn all_entries_zero() {
    let r = Roulette::new(vec![('a', 0), ('b', 0), ('c', 0), ('d', 0)]);
    assert!(matches!(r, Err(RouletteError::AllWeightsZero)));
}

#[test]
fn negative_entry() {
    let r = Roulette::new(vec![('a', 0), ('b', 1), ('c', 0), ('d', -1)]);
    assert!(matches!(r, Err(RouletteError::NegativeWeight)));
}

#[test]
fn negative_reported_before_zero_sum() {
    let r = Roulette::new(vec![('a', -2), ('b', 0)]);
    assert!(matches!(r, Err(RouletteError::NegativeWeight)));
}

#[test]
fn empty_input_is_all_zero() {
    let r = Roulette::new(Vec::<(char, i64)>::new());
    assert!(matches!(r, Err(RouletteError::AllWeightsZero)));
}

#[test]
fn single_item_table_always_returns_it() {
    let roulette = Roulette::new(vec![('x', 5)]).unwrap();
    let mut rng = rand::thread_rng();
    for _ in 0..100 {
        assert_eq!(&'x', roulette.sample(&mut rng));
    }
    for v in 0..5 {
        assert_eq!(0, roulette.select(0, v));
    }
}

#[test]
fn known_table_two_items() {
    // Weights 3 and 1: total 4, scaled masses 6 and 2 against an average
    // of 4. The one pairing finishes slot 1 with threshold 2 aliased to
    // slot 0, and the drain finishes slot 0 at full acceptance.
    let t = Roulette::new(vec![('a', 3), ('b', 1)]).unwrap();
    assert_eq!(t.total, 4);
    assert_eq!(t.threshold, vec![4, 2]);
    assert_eq!(t.alias, vec![0, 0]);
    // Every draw resolves as the arrays say.
    for v in 0..4 {
        assert_eq!(0, t.select(0, v));
    }
    assert_eq!(1, t.select(1, 0));
    assert_eq!(1, t.select(1, 1));
    assert_eq!(0, t.select(1, 2));
    assert_eq!(0, t.select(1, 3));
    // Item 'a' gets 6 of the 8 units, item 'b' the other 2.
    assert_eq!(mass_of(&t, 0), 6);
    assert_eq!(mass_of(&t, 1), 2);
}

#[test]
fn mass_is_weight_times_len() {
    let weights: Vec<i64> = vec![5, 1, 1, 1, 0, 8];
    let entries: Vec<(usize, i64)> = weights.iter().cloned().enumerate().collect();
    let t = Roulette::new(entries).unwrap();
    let n = weights.len() as u128;
    for i in 0..weights.len() {
        assert_eq!(mass_of(&t, i), n * weights[i] as u128);
    }
}

#[test]
fn invariants_of_constructed_table() {
    let t = Roulette::new(vec![('a', 1), ('b', 2), ('c', 3), ('d', 4)]).unwrap();
    let n = t.items.len();
    assert_eq!(n, 4);
    assert_eq!(t.alias.len(), n);
    assert_eq!(t.threshold.len(), n);
    assert_eq!(t.total, 10);
    for i in 0..n {
        assert!(t.alias[i] < n);
        assert!(t.threshold[i] <= t.total);
    }
}

#[test]
fn normalization_invariance() {
    let t1 = Roulette::new(vec![('a', 1), ('b', 2), ('c', 3)]).unwrap();
    let t2 = Roulette::new(vec![('a', 2), ('b', 4), ('c', 6)]).unwrap();
    assert_eq!(t2.total, 2 * t1.total);
    assert_eq!(t1.alias, t2.alias);
    for i in 0..3 {
        assert_eq!(t2.threshold[i], 2 * t1.threshold[i]);
        // Equal shares of the mass: cross-multiplied frequencies agree.
        assert_eq!(
            mass_of(&t2, i) * t1.total as u128,
            mass_of(&t1, i) * t2.total as u128
        );
    }
}

#[test]
fn sampling_never_mutates_the_table() {
    let t = Roulette::new(vec![('a', 1), ('b', 2), ('c', 3), ('d', 0)]).unwrap();
    let items_before = t.items.clone();
    let alias_before = t.alias.clone();
    let threshold_before = t.threshold.clone();
    let total_before = t.total;
    let mut rng = rand::thread_rng();
    for _ in 0..200 {
        t.sample(&mut rng);
    }
    assert_eq!(items_before, t.items);
    assert_eq!(alias_before, t.alias);
    assert_eq!(threshold_before, t.threshold);
    assert_eq!(total_before, t.total);
}

#[test]
fn equal_weights_accept_directly() {
    // Equal weights leave every slot at full acceptance, aliased to itself.
    let t = Roulette::new(vec![('a', 1), ('b', 1)]).unwrap();
    assert_eq!(t.total, 2);
    assert_eq!(t.threshold, vec![2, 2]);
    assert_eq!(t.alias, vec![0, 1]);
    assert_eq!(0, t.select(0, 1));
    assert_eq!(1, t.select(1, 0));
}

#[test]
fn every_outcome_counted() {
    // Enumerate all n * total equally likely draw outcomes: item i must be
    // selected by exactly n * w[i] of them.
    let weights: Vec<i64> = vec![3, 1, 0, 4];
    let entries: Vec<(usize, i64)> = weights.iter().cloned().enumerate().collect();
    let t = Roulette::new(entries).unwrap();
    let n = weights.len();
    let mut counts: Vec<u64> = vec![0; n];
    for column in 0..n {
        for v in 0..t.total {
            counts[t.select(column, v)] += 1;
        }
    }
    for i in 0..n {
        assert_eq!(counts[i], n as u64 * weights[i] as u64);
    }
}

#[test]
fn largest_admissible_weight() {
    // Two slots with the largest single weight: slot count times total
    // still fits in a u64, so construction is owed and exact.
    let t = Roulette::new(vec![('a', i64::MAX), ('b', 0)]).unwrap();
    assert_eq!(t.total, i64::MAX as u64);
    let mut rng = rand::thread_rng();
    for _ in 0..50 {
        assert_eq!(&'a', t.sample(&mut rng));
    }
}

#[test]
fn sample_returns_stored_items() {
    let t = Roulette::new(vec![("left", 2), ("right", 5)]).unwrap();
    let mut rng = rand::thread_rng();
    for _ in 0..100 {
        let r = *t.sample(&mut rng);
        assert!(r == "left" || r == "right");
    }
}
