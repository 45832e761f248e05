//! The virtual window: which rows to render for a scroll position.
use vstd::prelude::*;

verus! {

/// Scroll state in whole rows: `first_visible_row` is the scroll offset
/// divided by the row height, rounded down, and `rows_in_viewport` the
/// viewport height divided by the row height, rounded up. Pinned rows are
/// always rendered and take no part in scrolling.
#[derive(Debug, Clone, Copy)]
pub struct RowScroll {
    pub total_rows: usize,
    pub first_visible_row: usize,
    pub rows_in_viewport: usize,
    pub overscan: usize,
    pub pinned_top: Option<usize>,
    pub pinned_bottom: Option<usize>,
}

/// The scrollable rows to render, `[start_index, end_index)`.
#[derive(Debug, Clone, Copy)]
pub struct RowWindow {
    pub start_index: usize,
    pub end_index: usize,
    pub visible_count: usize,
    pub scrollable_count: usize,
}

pub open spec fn opt_or_zero(o: Option<usize>) -> int {
    match o {
        Some(v) => v as int,
        None => 0,
    }
}

pub open spec fn min_int(a: int, b: int) -> int {
    if a < b {
        a
    } else {
        b
    }
}

pub open spec fn max_int(a: int, b: int) -> int {
    if a > b {
        a
    } else {
        b
    }
}

/// Rows between the pinned top and bottom rows, never below zero.
pub open spec fn scrollable_of(s: RowScroll) -> int {
    max_int(0, s.total_rows - opt_or_zero(s.pinned_top) - opt_or_zero(s.pinned_bottom))
}

/// The window that `s` calls for.
pub open spec fn window_of(s: RowScroll) -> RowWindow {
    let top = opt_or_zero(s.pinned_top);
    let bottom = opt_or_zero(s.pinned_bottom);
    let sc = scrollable_of(s);
    if s.total_rows == 0 {
        RowWindow { start_index: 0, end_index: 0, visible_count: 0, scrollable_count: 0 }
    } else if sc == 0 || top + bottom >= s.total_rows {
        RowWindow {
            start_index: top as usize,
            end_index: top as usize,
            visible_count: 0,
            scrollable_count: sc as usize,
        }
    } else {
        RowWindow {
            start_index: (top + min_int(
                max_int(0, s.first_visible_row - s.overscan),
                sc - 1,
            )) as usize,
            end_index: min_int(
                top + s.first_visible_row + s.rows_in_viewport + s.overscan,
                s.total_rows - bottom,
            ) as usize,
            visible_count: s.rows_in_viewport,
            scrollable_count: sc as usize,
        }
    }
}

/// Computes the scrollable window to render. With no rows, the window is
/// empty. When the pinned rows cover the table, it is the empty range at
/// the end of the top pinned rows. Otherwise it starts `overscan` rows
/// above the first visible row (clamped to the scrollable rows) and ends
/// `overscan` rows below the last visible one (clamped to the rows above
/// the bottom pinned ones).
pub fn compute_row_window(s: &RowScroll) -> (r: RowWindow)
    ensures
        r == window_of(*s),
{
    if s.total_rows == 0 {
        return RowWindow { start_index: 0, end_index: 0, visible_count: 0, scrollable_count: 0 };
    }
    let top: usize = match s.pinned_top {
        Some(v) => v,
        None => 0,
    };
    let bottom: usize = match s.pinned_bottom {
        Some(v) => v,
        None => 0,
    };
    let pinned: u128 = top as u128 + bottom as u128;
    if pinned >= s.total_rows as u128 {
        let sc: usize = 0;
        return RowWindow { start_index: top, end_index: top, visible_count: 0, scrollable_count: sc };
    }
    let sc: usize = s.total_rows - top - bottom;
    let lead: usize = if s.first_visible_row > s.overscan {
        s.first_visible_row - s.overscan
    } else {
        0
    };
    let offset: usize = if lead < sc - 1 {
        lead
    } else {
        sc - 1
    };
    let start = top + offset;
    let reach: u128 = top as u128 + s.first_visible_row as u128 + s.rows_in_viewport as u128
        + s.overscan as u128;
    let limit: usize = s.total_rows - bottom;
    let end: usize = if reach < limit as u128 {
        reach as usize
    } else {
        limit
    };
    RowWindow { start_index: start, end_index: end, visible_count: s.rows_in_viewport, scrollable_count: sc }
}

/// The window lies within the table and spans at most the visible rows
/// plus the overscan on each side, provided the top pinned rows fit in the
/// table and the viewport shows some row or the overscan is not zero (or
/// the first visible row lies within the scrollable rows).
pub proof fn lemma_window_bounds(s: RowScroll)
    requires
        opt_or_zero(s.pinned_top) <= s.total_rows,
        s.rows_in_viewport + s.overscan > 0 || s.first_visible_row < scrollable_of(s),
    ensures
        window_of(s).start_index <= window_of(s).end_index,
        window_of(s).end_index <= s.total_rows,
        window_of(s).end_index - window_of(s).start_index <= window_of(s).visible_count + 2
            * s.overscan,
{
}

} // verus!
