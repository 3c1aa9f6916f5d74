use edge_shortcut_tool::layout::{centered_origin, centering_fits};
use edge_shortcut_tool::text::{byte_offset_of_char, find_all};

#[test]
fn centers_a_window_in_the_work_area() {
    assert_eq!(centered_origin(0, 0, 1920, 1040, 800, 600), (560, 220));
    assert_eq!(centered_origin(1920, -200, 3840, 880, 801, 601), (2479, 39));
}

#[test]
fn a_window_larger_than_the_work_area_rounds_toward_zero() {
    assert_eq!(centered_origin(0, 0, 100, 100, 301, 100), (-100, 0));
    assert_eq!(centered_origin(10, 10, 20, 20, 13, 12), (9, 9));
}

#[test]
fn centering_fits_only_within_i32() {
    assert!(centering_fits(0, 1920, 800));
    assert!(!centering_fits(i32::MIN, i32::MAX, 0));
    assert!(!centering_fits(i32::MAX, i32::MAX, 4_000_000_000));
    assert!(centering_fits(-100, 100, 3_000_000_000));
}

#[test]
fn finds_every_occurrence_from_left_to_right() {
    let text: Vec<char> = "Info é Info\r\nInfoInfo aaa".chars().collect();
    let needle: Vec<char> = "Info".chars().collect();
    assert_eq!(find_all(&text, &needle), vec![(0, 4), (7, 11), (13, 17), (17, 21)]);
    let aa: Vec<char> = "aa".chars().collect();
    assert_eq!(find_all(&text, &aa), vec![(22, 24)]);
    assert!(find_all(&needle, &text).is_empty());
    assert_eq!(byte_offset_of_char(&text, 7), 8);
    assert_eq!(byte_offset_of_char(&text, 0), 0);
}
