use table_core::virtual_scroll::{compute_row_window, RowScroll};

fn scroll(total: usize, first: usize, in_view: usize, overscan: usize) -> RowScroll {
    RowScroll {
        total_rows: total,
        first_visible_row: first,
        rows_in_viewport: in_view,
        overscan,
        pinned_top: None,
        pinned_bottom: None,
    }
}

#[test]
fn window_at_top() {
    // scroll_top 0, viewport 400, row height 40: first row 0, 10 rows in view
    let w = compute_row_window(&scroll(1000, 0, 10, 5));
    assert_eq!(w.start_index, 0);
    assert_eq!(w.end_index, 15);
    assert_eq!(w.visible_count, 10);
    assert_eq!(w.scrollable_count, 1000);
}

#[test]
fn window_scrolled() {
    let w = compute_row_window(&scroll(1000, 50, 10, 5));
    assert_eq!(w.start_index, 45);
    assert_eq!(w.end_index, 65);
}

#[test]
fn window_near_end() {
    let w = compute_row_window(&scroll(1000, 990, 10, 5));
    assert_eq!(w.start_index, 985);
    assert_eq!(w.end_index, 1000);
}

#[test]
fn window_empty_table() {
    let w = compute_row_window(&scroll(0, 0, 10, 5));
    assert_eq!(w.start_index, 0);
    assert_eq!(w.end_index, 0);
    assert_eq!(w.visible_count, 0);
    assert_eq!(w.scrollable_count, 0);
}

#[test]
fn window_few_rows() {
    let w = compute_row_window(&scroll(3, 0, 10, 5));
    assert_eq!(w.start_index, 0);
    assert_eq!(w.end_index, 3);
}

#[test]
fn window_pinned_middle() {
    // viewport 200, row height 40: 5 rows in view
    let mut s = scroll(100, 0, 5, 2);
    s.pinned_top = Some(2);
    s.pinned_bottom = Some(3);
    let w = compute_row_window(&s);
    assert_eq!(w.scrollable_count, 95);
    assert_eq!(w.start_index, 2);
    assert_eq!(w.end_index, 9);
}

#[test]
fn window_pinned_cover_table() {
    let mut s = scroll(5, 0, 5, 2);
    s.pinned_top = Some(3);
    s.pinned_bottom = Some(2);
    let w = compute_row_window(&s);
    assert_eq!(w.scrollable_count, 0);
    assert_eq!(w.start_index, 3);
    assert_eq!(w.end_index, 3);
    assert_eq!(w.visible_count, 0);
}

#[test]
fn window_scrolled_past_end_clamps_start() {
    let w = compute_row_window(&scroll(20, 500, 4, 1));
    assert_eq!(w.start_index, 19);
    assert_eq!(w.end_index, 20);
}

#[test]
fn window_bounds_hold_on_samples() {
    for total in [1usize, 7, 100] {
        for first in [0usize, 3, 50, 200] {
            for ov in [0usize, 2] {
                let w = compute_row_window(&scroll(total, first, 4, ov));
                assert!(w.start_index <= w.end_index);
                assert!(w.end_index <= total);
                assert!(w.end_index - w.start_index <= w.visible_count + 2 * ov);
            }
        }
    }
}

#[test]
fn window_huge_inputs_do_not_overflow() {
    let w = compute_row_window(&scroll(10, usize::MAX, usize::MAX, usize::MAX));
    assert_eq!(w.start_index, 0);
    assert_eq!(w.end_index, 10);
}
