use timely_worker::Activations;

#[test]
fn unpark_records_addresses() {
    let mut acts = Activations::new();
    assert_eq!(acts.len(), 0);
    acts.unpark(&[1, 2]);
    acts.unpark(&[0]);
    assert_eq!(acts.len(), 2);
    assert_eq!(acts.addr_at(0), &vec![1, 2]);
    assert_eq!(acts.addr_at(1), &vec![0]);
}

#[test]
fn tidy_collapses_repeated_unparks() {
    let mut acts = Activations::new();
    for _ in 0..5 {
        acts.unpark(&[3, 1]);
    }
    acts.tidy();
    assert_eq!(acts.len(), 1);
    assert_eq!(acts.addr_at(0), &vec![3, 1]);
}

#[test]
fn tidy_sorts_lexicographically() {
    let mut acts = Activations::new();
    acts.unpark(&[2]);
    acts.unpark(&[1, 3]);
    acts.unpark(&[1]);
    acts.unpark(&[2]);
    acts.unpark(&[1]);
    acts.tidy();
    assert_eq!(acts.len(), 3);
    assert_eq!(acts.addr_at(0), &vec![1]);
    assert_eq!(acts.addr_at(1), &vec![1, 3]);
    assert_eq!(acts.addr_at(2), &vec![2]);
}

#[test]
fn tidy_keeps_ancestor_and_descendant() {
    let mut acts = Activations::new();
    acts.unpark(&[1, 2]);
    acts.unpark(&[1]);
    acts.tidy();
    assert_eq!(acts.len(), 2);
    assert_eq!(acts.addr_at(0), &vec![1]);
    assert_eq!(acts.addr_at(1), &vec![1, 2]);
}

#[test]
fn tidy_of_empty_set_is_empty() {
    let mut acts = Activations::new();
    acts.tidy();
    assert_eq!(acts.len(), 0);
}

#[test]
fn take_extensions_drains_exactly_the_subtree() {
    let mut acts = Activations::new();
    acts.unpark(&[0, 1]);
    acts.unpark(&[0, 2]);
    acts.unpark(&[1, 1]);
    acts.unpark(&[0]);
    let taken = acts.take_extensions(&[0]);
    assert_eq!(taken, vec![vec![0, 1], vec![0, 2], vec![0]]);
    assert_eq!(acts.len(), 1);
    assert_eq!(acts.addr_at(0), &vec![1, 1]);
}

#[test]
fn take_extensions_of_empty_prefix_takes_all() {
    let mut acts = Activations::new();
    acts.unpark(&[5]);
    acts.unpark(&[7, 0]);
    let taken = acts.take_extensions(&[]);
    assert_eq!(taken, vec![vec![5], vec![7, 0]]);
    assert_eq!(acts.len(), 0);
}
