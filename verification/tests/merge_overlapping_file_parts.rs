use deadcode::actions::merge_overlapping_file_parts::{
    does_include, does_overlap, merge_overlapping_file_parts, merge_parts, sort_parts,
};
use deadcode::data_types::Part;

fn p(a: u32, b: u32, c: u32, d: u32) -> Part {
    Part::new(a, b, c, d)
}

#[test]
fn no_overlapping_parts() {
    let input = vec![p(1, 0, 2, 6), p(3, 0, 5, 6)];
    assert_eq!(merge_overlapping_file_parts(&input), input);
}

#[test]
fn overlapping_lines_merge() {
    let input = vec![p(1, 2, 0, 6), p(2, 5, 0, 6)];
    assert_eq!(merge_overlapping_file_parts(&input), vec![p(1, 5, 0, 6)]);
}

#[test]
fn does_overlap_truth_table() {
    assert!(does_overlap(p(3, 5, 0, 6), p(1, 7, 0, 6)));
    assert!(does_overlap(p(1, 7, 0, 6), p(3, 5, 0, 6)));
    assert!(does_overlap(p(1, 5, 0, 6), p(2, 7, 0, 6)));
    assert!(does_overlap(p(2, 7, 0, 6), p(1, 5, 0, 6)));
    assert!(does_overlap(p(2, 7, 0, 6), p(2, 7, 0, 6)));
    assert!(!does_overlap(p(4, 7, 0, 6), p(1, 3, 0, 6)));
    assert!(!does_overlap(p(1, 3, 0, 6), p(4, 7, 0, 6)));
}

#[test]
fn merge_parts_cases() {
    assert_eq!(merge_parts(p(3, 5, 0, 6), p(1, 7, 0, 6)), Some(p(1, 7, 0, 6)));
    assert_eq!(merge_parts(p(1, 5, 0, 6), p(2, 7, 0, 6)), Some(p(1, 7, 0, 6)));
    assert_eq!(merge_parts(p(2, 7, 0, 6), p(2, 7, 0, 6)), Some(p(2, 7, 0, 6)));
    assert_eq!(merge_parts(p(4, 7, 0, 6), p(1, 3, 0, 6)), None);
    assert_eq!(merge_parts(p(1, 3, 0, 6), p(4, 7, 0, 6)), None);
}

#[test]
fn contained_part_is_dropped() {
    // (1..=10) contains (3..=4): only the outer part remains.
    let input = vec![p(3, 4, 0, 2), p(1, 10, 0, 5)];
    assert_eq!(merge_overlapping_file_parts(&input), vec![p(1, 10, 0, 5)]);
}

#[test]
fn does_include_holds_when_the_first_part_encloses_the_second() {
    assert!(does_include(p(1, 5, 0, 8), p(2, 3, 0, 4)));
    assert!(does_include(p(2, 3, 0, 4), p(2, 3, 0, 4)));
    assert!(does_include(p(2, 3, 1, 4), p(2, 3, 1, 2)));
    assert!(!does_include(p(2, 3, 0, 4), p(1, 5, 0, 8)));
    assert!(!does_include(p(2, 9, 0, 5), p(2, 10, 0, 4)));
    assert!(!does_include(p(2, 3, 2, 4), p(2, 3, 1, 4)));
}

#[test]
fn does_include_needs_the_second_part_to_be_a_region() {
    // A part that ends before it starts covers nothing of the file.
    assert!(!does_include(p(1, 0, 2, 6), p(3, 0, 5, 6)));
}

#[test]
fn larger_part_with_the_same_start_is_kept() {
    let input = vec![p(1, 3, 0, 2), p(1, 1, 0, 5)];
    assert_eq!(merge_overlapping_file_parts(&input), vec![p(1, 3, 0, 2)]);
}

#[test]
fn sort_parts_puts_the_earlier_start_first() {
    assert_eq!(sort_parts(p(3, 4, 0, 0), p(1, 2, 0, 0)), (p(1, 2, 0, 0), p(3, 4, 0, 0)));
    assert_eq!(sort_parts(p(1, 2, 0, 0), p(3, 4, 0, 0)), (p(1, 2, 0, 0), p(3, 4, 0, 0)));
    // A tie keeps the argument order.
    assert_eq!(sort_parts(p(1, 2, 0, 0), p(1, 9, 0, 0)), (p(1, 2, 0, 0), p(1, 9, 0, 0)));
}

#[test]
fn overlap_is_not_symmetric_for_equal_starts() {
    // Same start: the first argument is treated as the earlier part.
    assert!(!does_overlap(p(1, 1, 0, 0), p(1, 5, 0, 6)));
    assert!(does_overlap(p(1, 5, 0, 6), p(1, 1, 0, 0)));
}

#[test]
fn merge_result_does_not_depend_on_input_order() {
    let forward = vec![p(1, 2, 0, 6), p(2, 5, 0, 6), p(8, 8, 0, 3), p(7, 9, 0, 4)];
    let backward: Vec<Part> = forward.iter().rev().copied().collect();
    assert_eq!(merge_overlapping_file_parts(&forward), merge_overlapping_file_parts(&backward));
    assert_eq!(merge_overlapping_file_parts(&forward), vec![p(1, 5, 0, 6), p(7, 9, 0, 4)]);
}
