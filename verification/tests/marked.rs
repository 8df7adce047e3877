use sweep::marked::{MarkedItems, SweepItemId};

fn id(index: usize) -> SweepItemId {
    SweepItemId { haystack_gen: 0, haystack_index: index, rank_gen: 0, rank_index: 0 }
}

#[test]
fn marked_toggle_take() {
    let mut marked = MarkedItems::new();
    assert!(marked.is_empty());
    marked.toggle(id(5), "five");
    marked.toggle(id(2), "two");
    marked.toggle(id(9), "nine");
    assert_eq!(marked.len(), 3);
    assert!(marked.contains_id(id(2)));
    marked.toggle(id(2), "ignored");
    assert!(!marked.contains_id(id(2)));
    assert_eq!(marked.len(), 2);
    marked.toggle(id(2), "two again");
    assert_eq!(marked.take(), vec!["five", "nine", "two again"]);
    assert!(marked.is_empty());
    assert!(marked.take().is_empty());
}
