use minesweeper::cells::CellSet;

#[test]
fn a_new_set_is_empty() {
    let set = CellSet::new();
    assert!(!set.contains((0, 0)));
    assert!(!set.contains((3, 4)));
}

#[test]
fn a_set_holds_what_was_put_in() {
    let mut set = CellSet::new();
    set.insert((1, 0));
    assert!(set.contains((1, 0)));
    assert!(!set.contains((0, 1)));
    assert!(!set.contains((0, 0)));
    set.insert((0, 1));
    set.insert((1, 0));
    assert!(set.contains((1, 0)));
    assert!(set.contains((0, 1)));
    set.remove((1, 0));
    assert!(!set.contains((1, 0)));
    assert!(set.contains((0, 1)));
    set.remove((1, 0));
    assert!(!set.contains((1, 0)));
}

#[test]
fn a_set_tells_far_cells_apart() {
    let mut set = CellSet::new();
    set.insert((usize::MAX, 0));
    set.insert((0, usize::MAX));
    assert!(set.contains((usize::MAX, 0)));
    assert!(set.contains((0, usize::MAX)));
    assert!(!set.contains((usize::MAX, usize::MAX)));
    assert!(!set.contains((usize::MAX - 1, 1)));
    assert!(!set.contains((1, usize::MAX - 1)));
    set.insert((usize::MAX, usize::MAX));
    set.remove((usize::MAX, 0));
    assert!(set.contains((usize::MAX, usize::MAX)));
    assert!(!set.contains((usize::MAX, 0)));
}
