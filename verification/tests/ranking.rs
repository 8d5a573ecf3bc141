use clipster::ranking::rank;

#[test]
fn the_best_match_comes_first() {
    let scores = vec![Some(3), None, Some(9), Some(-4), Some(9), None, Some(3)];
    assert_eq!(rank(&scores), vec![2, 4, 0, 6, 3]);
}

#[test]
fn equal_matches_keep_their_order() {
    assert_eq!(rank(&vec![Some(0), Some(0), Some(0)]), vec![0, 1, 2]);
}

#[test]
fn nothing_matches_nothing() {
    assert_eq!(rank(&vec![None, None]), Vec::<usize>::new());
    assert_eq!(rank(&vec![]), Vec::<usize>::new());
}
