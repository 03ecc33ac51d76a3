use line_highlight::ext::text_from_str;
use line_highlight::ranges::{lines_for_selection, merge_line_ranges, LineRange};
use xi_core_lib::selection::{SelRegion, Selection};

fn lr(start: usize, end: usize) -> LineRange {
    LineRange { start, end }
}

/// Ten lines of three bytes each: line `n` starts at offset `3 * n`.
fn ten_line_text() -> line_highlight::ext::Text {
    text_from_str("l0\nl1\nl2\nl3\nl4\nl5\nl6\nl7\nl8\nl9\n")
}

#[test]
fn merge_keeps_disjoint_ranges_apart() {
    let merged = merge_line_ranges(&vec![lr(2, 3), lr(5, 8)]);
    assert_eq!(merged, vec![lr(2, 3), lr(5, 8)]);
}

#[test]
fn merge_combines_touching_ranges() {
    let merged = merge_line_ranges(&vec![lr(1, 3), lr(3, 5)]);
    assert_eq!(merged, vec![lr(1, 5)]);
}

#[test]
fn merge_combines_overlapping_and_contained_ranges() {
    let merged = merge_line_ranges(&vec![lr(0, 4), lr(1, 2), lr(3, 6), lr(8, 9)]);
    assert_eq!(merged, vec![lr(0, 6), lr(8, 9)]);
}

#[test]
fn merge_of_nothing_is_nothing() {
    let merged = merge_line_ranges(&Vec::new());
    assert_eq!(merged, Vec::new());
}

#[test]
fn merged_ranges_cover_the_union_of_inputs() {
    let input = vec![lr(0, 2), lr(1, 4), lr(6, 7), lr(7, 9)];
    let merged = merge_line_ranges(&input);
    for line in 0..12usize {
        let in_input = input.iter().any(|r| r.start <= line && line < r.end);
        let in_merged = merged.iter().any(|r| r.start <= line && line < r.end);
        assert_eq!(in_input, in_merged);
    }
    for pair in merged.windows(2) {
        assert!(pair[0].end < pair[1].start);
    }
}

#[test]
fn selection_on_line_two_and_lines_five_to_seven() {
    let text = ten_line_text();
    let mut sel = Selection::new();
    sel.add_region(SelRegion::new(6, 7));
    sel.add_region(SelRegion::new(15, 22));
    let merged = lines_for_selection(&text, &sel);
    assert_eq!(merged, vec![lr(2, 3), lr(5, 8)]);
}

#[test]
fn overlapping_selections_merge_into_one_range() {
    let text = ten_line_text();
    let mut sel = Selection::new();
    // Lines 1 and 2, then lines 3 and 4: the derived ranges (1, 3) and
    // (3, 5) touch, so one range comes out.
    sel.add_region(SelRegion::new(3, 7));
    sel.add_region(SelRegion::new(9, 13));
    let merged = lines_for_selection(&text, &sel);
    assert_eq!(merged, vec![lr(1, 5)]);
}

#[test]
fn selection_over_multibyte_lines_maps_to_line_ranges() {
    // "é\n" is three bytes; line 1 starts at offset 3.
    let text = text_from_str("\u{e9}\nb\n");
    let mut sel = Selection::new();
    sel.add_region(SelRegion::new(0, 4));
    let merged = lines_for_selection(&text, &sel);
    assert_eq!(merged, vec![lr(0, 2)]);
}

#[test]
fn empty_selection_yields_no_ranges() {
    let text = ten_line_text();
    let sel = Selection::new();
    let merged = lines_for_selection(&text, &sel);
    assert_eq!(merged, Vec::new());
}
