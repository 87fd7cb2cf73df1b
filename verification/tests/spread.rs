use text_align::get_index_spread;
use text_align::spread::get_index_spread as spread_in_module;

#[test]
fn test_get_index_spread_special_cases() {
    let output = get_index_spread(0, 1);
    assert_eq!(output, None);

    let output = get_index_spread(1, 0);
    assert_eq!(output, None);

    let output = get_index_spread(100, 8);
    assert_eq!(output.unwrap(), [0, 1, 2, 3, 4, 5, 6, 7]);
}

#[test]
fn test_get_index_spread_even_size() {
    // 0 -> [o, o, o, o, o, o, o, o]
    // 1 -> [o, o, o, o, |, o, o, o]
    // 2 -> [o, o, |, o, o, o, |, o]
    // 3 -> [o, |, o, |, o, o, |, o]
    // 4 -> [o, |, o, |, o, |, o, |]
    // 5 -> [|, |, o, |, |, o, |, o]
    // 6 -> [|, |, |, o, |, |, |, o]
    // 7 -> [|, |, |, |, |, |, |, o]
    // 8 -> [|, |, |, |, |, |, |, |]

    let output = get_index_spread(1, 8);
    assert_eq!(output.unwrap(), [4]);

    let output = get_index_spread(2, 8);
    assert_eq!(output.unwrap(), [2, 6]);

    let output = get_index_spread(3, 8);
    assert_eq!(output.unwrap(), [1, 3, 6]);

    let output = get_index_spread(4, 8);
    assert_eq!(output.unwrap(), [1, 3, 5, 7]);

    let output = get_index_spread(5, 8);
    assert_eq!(output.unwrap(), [0, 1, 3, 4, 6]);

    let output = get_index_spread(6, 8);
    assert_eq!(output.unwrap(), [0, 1, 2, 4, 5, 6]);

    let output = get_index_spread(7, 8);
    assert_eq!(output.unwrap(), [0, 1, 2, 3, 4, 5, 6]);

    let output = get_index_spread(8, 8);
    assert_eq!(output.unwrap(), [0, 1, 2, 3, 4, 5, 6, 7]);
}

#[test]
fn test_get_index_spread_odd_size() {
    // 0 -> [o, o, o, o, o]
    // 1 -> [o, o, |, o, o]
    // 2 -> [o, |, o, |, o]
    // 3 -> [|, |, o, |, o]
    // 4 -> [|, |, |, |, o]
    // 5 -> [|, |, |, |, |]

    let output = get_index_spread(1, 5);
    assert_eq!(output.unwrap(), [2]);

    let output = get_index_spread(2, 5);
    assert_eq!(output.unwrap(), [1, 3]);

    let output = get_index_spread(3, 5);
    assert_eq!(output.unwrap(), [0, 1, 3]);

    let output = get_index_spread(4, 5);
    assert_eq!(output.unwrap(), [0, 1, 2, 3]);

    let output = get_index_spread(5, 5);
    assert_eq!(output.unwrap(), [0, 1, 2, 3, 4]);
}

#[test]
fn spread_of_nothing_is_none() {
    assert_eq!(get_index_spread(0, 0), None);
    assert_eq!(get_index_spread(0, usize::MAX), None);
    assert_eq!(get_index_spread(usize::MAX, 0), None);
}

#[test]
fn spread_is_the_same_under_both_paths() {
    assert_eq!(get_index_spread(3, 10), spread_in_module(3, 10));
}

#[test]
fn spread_follows_the_bucket_formula() {
    // floor(i * 10 / 3) + floor(10 / 6): 0 + 1, 3 + 1, 6 + 1
    assert_eq!(get_index_spread(3, 10).unwrap(), [1, 4, 7]);
    // floor(i * 7 / 2) + floor(7 / 4): 0 + 1, 3 + 1
    assert_eq!(get_index_spread(2, 7).unwrap(), [1, 4]);
}

#[test]
fn spread_is_rising_in_range_and_even() {
    for size in 1..40usize {
        for n in 1..60usize {
            let indices = get_index_spread(n, size).unwrap();
            assert_eq!(indices.len(), n.min(size));
            for index in &indices {
                assert!(*index < size);
            }
            for pair in indices.windows(2) {
                assert!(pair[0] < pair[1]);
                if n < size {
                    let step = pair[1] - pair[0];
                    assert!(step == size / n || step == size / n + 1);
                }
            }
        }
    }
}

#[test]
fn spread_does_not_overflow_on_large_rows() {
    let size = usize::MAX;
    let indices = get_index_spread(3, size).unwrap();
    let third = size / 3;
    let sixth = size / 6;
    assert_eq!(indices[0], sixth);
    assert_eq!(indices[1], third + sixth);
    assert_eq!(indices.len(), 3);
    assert!(indices[2] < size);
    assert!(indices[1] < indices[2]);
}
