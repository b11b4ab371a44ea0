use slideshow::naming::{frame_file_name, FRAME_PATTERN, INDEX_DIGITS};

#[test]
fn frame_names_are_padded_to_six_digits() {
    assert_eq!(frame_file_name(0), "frame_000000.png");
    assert_eq!(frame_file_name(7), "frame_000007.png");
    assert_eq!(frame_file_name(10), "frame_000010.png");
    assert_eq!(frame_file_name(123), "frame_000123.png");
    assert_eq!(frame_file_name(99_999), "frame_099999.png");
    assert_eq!(frame_file_name(100_000), "frame_100000.png");
    assert_eq!(frame_file_name(999_999), "frame_999999.png");
}

#[test]
fn frame_names_grow_beyond_a_million() {
    assert_eq!(frame_file_name(1_000_000), "frame_1000000.png");
    assert_eq!(frame_file_name(12_345_678), "frame_12345678.png");
    assert_eq!(frame_file_name(usize::MAX), format!("frame_{:06}.png", usize::MAX));
}

#[test]
fn frame_names_agree_with_the_pattern() {
    assert_eq!(FRAME_PATTERN, "frame_%06d.png");
    assert_eq!(INDEX_DIGITS, 6);
    for index in [0usize, 1, 9, 10, 99, 100, 4_321, 65_535, 999_999, 1_000_000] {
        assert_eq!(frame_file_name(index), format!("frame_{:06}.png", index));
    }
}

#[test]
fn frame_names_list_in_frame_order() {
    let indices = [0usize, 1, 2, 9, 10, 11, 99, 100, 101, 999, 1_000, 99_999, 100_000, 999_999];
    let names: Vec<String> = indices.iter().map(|&index| frame_file_name(index)).collect();
    for pair in names.windows(2) {
        assert_eq!(pair[0].len(), 16);
        assert!(pair[0] < pair[1]);
    }
}
