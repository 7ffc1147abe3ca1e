use sway_utils::prefixes::iter_prefixes;

#[test]
fn prefixes_of_three_elements_smallest_first() {
    let val = [1, 2, 3];
    let mut it = iter_prefixes(&val);
    assert_eq!(it.next(&val), Some([1].as_slice()));
    assert_eq!(it.next(&val), Some([1, 2].as_slice()));
    assert_eq!(it.next(&val), Some([1, 2, 3].as_slice()));
    assert_eq!(it.next(&val), None);
}

#[test]
fn prefixes_count_matches_length_and_kth_has_length_k() {
    let val = [10, 20, 30, 40, 50];
    let mut it = iter_prefixes(&val);
    let mut k = 0;
    while let Some(prefix) = it.next(&val) {
        k += 1;
        assert_eq!(prefix.len(), k);
        assert_eq!(prefix, &val[..k]);
    }
    assert_eq!(k, val.len());
}

#[test]
fn last_prefix_equals_whole_input() {
    let val = ["a", "b", "c", "d"];
    let mut it = iter_prefixes(&val);
    let mut last = None;
    while let Some(prefix) = it.next(&val) {
        last = Some(prefix);
    }
    assert_eq!(last, Some(val.as_slice()));
}

#[test]
fn empty_input_yields_no_prefixes() {
    let val: [u8; 0] = [];
    let mut it = iter_prefixes(&val);
    assert_eq!(it.next(&val), None);
    let mut back = iter_prefixes(&val);
    assert_eq!(back.next_back(&val), None);
}

#[test]
fn prefixes_from_the_back_largest_first() {
    let val = [1, 2, 3];
    let mut it = iter_prefixes(&val);
    assert_eq!(it.next_back(&val), Some([1, 2, 3].as_slice()));
    assert_eq!(it.next_back(&val), Some([1, 2].as_slice()));
    assert_eq!(it.next_back(&val), Some([1].as_slice()));
    assert_eq!(it.next_back(&val), None);
}

#[test]
fn prefixes_consumed_from_both_ends() {
    let val = [1, 2, 3, 4];
    let mut it = iter_prefixes(&val);
    assert_eq!(it.next(&val), Some([1].as_slice()));
    assert_eq!(it.next_back(&val), Some([1, 2, 3, 4].as_slice()));
    assert_eq!(it.next(&val), Some([1, 2].as_slice()));
    assert_eq!(it.next_back(&val), Some([1, 2, 3].as_slice()));
    assert_eq!(it.next(&val), None);
    assert_eq!(it.next_back(&val), None);
}

#[test]
fn prefix_cursor_is_restartable() {
    let val = [7, 8];
    let mut first = iter_prefixes(&val);
    assert_eq!(first.next(&val), Some([7].as_slice()));
    assert_eq!(first.next(&val), Some([7, 8].as_slice()));
    let mut again = iter_prefixes(&val);
    assert_eq!(again.next(&val), Some([7].as_slice()));
    assert_eq!(again.next(&val), Some([7, 8].as_slice()));
}
