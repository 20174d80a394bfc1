use comic_core::thumbnail::{sort_by_index, ThumbnailSpec};

#[test]
fn thumbnail_spec_default() {
    let spec = ThumbnailSpec::default();
    assert_eq!(spec.width, 128);
    assert_eq!(spec.height, 128);
}

#[test]
fn sort_by_index_orders_pairs() {
    let items = vec![(4usize, "e"), (0, "a"), (3, "d"), (1, "b"), (2, "c")];
    let sorted = sort_by_index(items);
    let keys: Vec<usize> = sorted.iter().map(|p| p.0).collect();
    let values: Vec<&str> = sorted.iter().map(|p| p.1).collect();
    assert_eq!(keys, vec![0, 1, 2, 3, 4]);
    assert_eq!(values, vec!["a", "b", "c", "d", "e"]);
}

#[test]
fn sort_by_index_is_stable() {
    let items = vec![(2usize, 'x'), (1, 'p'), (2, 'y'), (1, 'q'), (0, 'z'), (2, 'w')];
    let sorted = sort_by_index(items);
    assert_eq!(
        sorted,
        vec![(0, 'z'), (1, 'p'), (1, 'q'), (2, 'x'), (2, 'y'), (2, 'w')]
    );
}

#[test]
fn sort_by_index_of_nothing_is_nothing() {
    let items: Vec<(usize, u8)> = Vec::new();
    assert!(sort_by_index(items).is_empty());
}

#[test]
fn sort_by_index_keeps_sorted_input() {
    let items = vec![(0usize, 10u8), (1, 11), (5, 15)];
    assert_eq!(sort_by_index(items.clone()), items);
}
