use lib::indexing::check_index;

#[test]
fn index_from_the_front() {
    assert_eq!(check_index(0, 3), Some(0));
    assert_eq!(check_index(2, 3), Some(2));
    assert_eq!(check_index(3, 3), None);
    assert_eq!(check_index(0, 0), None);
}

#[test]
fn index_from_the_back() {
    assert_eq!(check_index(-1, 3), Some(2));
    assert_eq!(check_index(-3, 3), Some(0));
    assert_eq!(check_index(-4, 3), None);
    assert_eq!(check_index(i32::MIN, 5), None);
    assert_eq!(check_index(-1, 0), None);
}

#[test]
fn index_examples_of_a_five_item_list() {
    assert_eq!(check_index(0, 5), Some(0));
    assert_eq!(check_index(5, 5), None);
    assert_eq!(check_index(-5, 5), Some(0));
    assert_eq!(check_index(-1, 5), Some(4));
    assert_eq!(check_index(1, 5), Some(1));
}
