use ordered_tree::grid::Grid;
use ordered_tree::grid::SliceIterator;

#[test]
fn slice_iterator_walks_the_slice() {
    let slice: &[i32] = &[2, 4, 6, 8];
    let mut iter = SliceIterator { slice, i: 0 };
    assert_eq!(iter.next(), Some(&2));
    assert_eq!(iter.next(), Some(&4));
    assert_eq!(iter.next(), Some(&6));
    assert_eq!(iter.next(), Some(&8));
    assert_eq!(iter.next(), None);
    assert_eq!(iter.next(), None);
}

#[test]
fn slice_iterator_on_empty_slice() {
    let slice: &[i32] = &[];
    let mut iter = SliceIterator { slice, i: 0 };
    assert_eq!(iter.next(), None);
}

#[test]
fn grid_iterates_row_by_row() {
    let grid = Grid { x_records: vec![3, 5, 7, 9], y_records: vec![10, 20, 30, 40] };
    let mut iter = grid.into_iter();
    let mut seen = Vec::new();
    loop {
        match iter.next() {
            Some(pair) => seen.push(pair),
            None => break,
        }
    }
    let expected = vec![
        (3, 10),
        (5, 10),
        (7, 10),
        (9, 10),
        (3, 20),
        (5, 20),
        (7, 20),
        (9, 20),
        (3, 30),
        (5, 30),
        (7, 30),
        (9, 30),
        (3, 40),
        (5, 40),
        (7, 40),
        (9, 40),
    ];
    assert_eq!(seen, expected);
}

#[test]
fn grid_with_no_columns_yields_nothing() {
    let grid = Grid { x_records: vec![], y_records: vec![10] };
    let mut iter = grid.into_iter();
    assert_eq!(iter.next(), None);
}
