//! Pagination of the data table: page counts, navigation targets, the summary
//! line and the page-size choices.

use vstd::prelude::*;
use crate::table_state::{
    DataTablePageInfo, DataTablePaginationState, DataTableState, DataTableTotalCount, StateView,
};
use crate::text::{decimal, push_decimal, push_str};

verus! {

/// Number of pages needed for `total_count` rows of `page_size` rows each (a page
/// size of zero counts as one); one page when there are no rows; at most `u32::MAX`.
pub open spec fn total_pages_spec(total_count: u64, page_size: u64) -> u32 {
    if total_count == 0 {
        1
    } else {
        let size: int = if page_size >= 1 { page_size as int } else { 1 };
        let pages: int = (total_count as int + size - 1) / size;
        if pages > u32::MAX as int { u32::MAX } else { pages as u32 }
    }
}

/// Computes the number of pages for a row count.
pub fn total_pages(total_count: u64, page_size: u64) -> (r: u32)
    ensures
        r == total_pages_spec(total_count, page_size),
{
    if total_count == 0 {
        return 1;
    }
    let page_size = if page_size >= 1 { page_size } else { 1 };
    let q = total_count / page_size;
    let rem = total_count % page_size;
    assert(rem != 0 ==> q < u64::MAX) by (nonlinear_arith)
        requires
            q == total_count / page_size,
            rem == total_count % page_size,
            page_size >= 1,
    {
        if rem != 0 {
            assert(page_size >= 2);
            assert(q * page_size <= total_count);
            assert(q * 2 <= q * page_size);
        }
    }
    let pages = if rem == 0 { q } else { q + 1 };
    proof {
        let t = total_count as int;
        let s = page_size as int;
        assert((t + s - 1) / s == t / s + if t % s == 0 { 0int } else { 1int }) by (nonlinear_arith)
            requires
                s >= 1,
                t >= 1,
        {
            let q = t / s;
            let r = t % s;
            assert(t == q * s + r);
            if r == 0 {
                assert(t + s - 1 == q * s + (s - 1));
            } else {
                assert(t + s - 1 == (q + 1) * s + (r - 1));
            }
        }
    }
    if pages > u32::MAX as u64 {
        u32::MAX
    } else {
        pages as u32
    }
}

/// Navigation targets of the table's pager.
#[derive(Clone, Copy, Debug, PartialEq, Eq)]
pub struct PageTargets {
    /// Whether the pager is shown at all.
    pub show: bool,
    /// Target of the first-page control.
    pub first: Option<u32>,
    /// Target of the previous-page control.
    pub previous: Option<u32>,
    /// Target of the next-page control.
    pub next: Option<u32>,
    /// Target of the last-page control.
    pub last: Option<u32>,
}

pub open spec fn page_or_one(page: u32) -> u32 {
    if page >= 1 { page } else { 1 }
}

/// The navigation targets for a page (page 0 counts as 1): with a known total,
/// the first and previous controls past page 1 and the next and last controls
/// before the last page; with an unknown total, the
/// first and previous controls when a previous page exists (as reported, or when
/// past the first page) and the next control when a next page is reported.
pub open spec fn page_targets_spec(pagination: DataTablePaginationState, info: DataTablePageInfo) -> PageTargets {
    let page = page_or_one(pagination.page);
    match info.total_count {
        DataTableTotalCount::Known(total_count) => {
            let tp = total_pages_spec(total_count, pagination.page_size);
            PageTargets {
                show: tp > 1,
                first: if page > 1 { Some(1) } else { None },
                previous: if page > 1 { Some((page - 1) as u32) } else { None },
                next: if page < tp { Some((page + 1) as u32) } else { None },
                last: if page < tp { Some(tp) } else { None },
            }
        },
        DataTableTotalCount::Unknown => {
            let previous_known = match info.has_previous_page {
                Some(b) => b,
                None => page > 1,
            };
            let next_known = match info.has_next_page {
                Some(b) => b,
                None => false,
            };
            PageTargets {
                show: previous_known || next_known,
                first: if previous_known { Some(1) } else { None },
                previous: if previous_known && page > 1 { Some((page - 1) as u32) } else { None },
                next: if next_known { Some((page + 1) as u32) } else { None },
                last: None,
            }
        },
    }
}

/// The inputs on which the next page number fits in `u32`.
pub open spec fn page_targets_fit(pagination: DataTablePaginationState, info: DataTablePageInfo) -> bool {
    info.total_count is Unknown && info.has_next_page == Some(true) ==> pagination.page < u32::MAX
}

/// Computes the pager's navigation targets.
pub fn page_targets(pagination: &DataTablePaginationState, page_info: DataTablePageInfo) -> (r:
    PageTargets)
    requires
        page_targets_fit(*pagination, page_info),
    ensures
        r == page_targets_spec(*pagination, page_info),
{
    let page = if pagination.page >= 1 { pagination.page } else { 1 };
    match page_info.total_count {
        DataTableTotalCount::Known(total_count) => {
            let tp = total_pages(total_count, pagination.page_size);
            PageTargets {
                show: tp > 1,
                first: if page > 1 { Some(1) } else { None },
                previous: if page > 1 { Some(page - 1) } else { None },
                next: if page < tp { Some(page + 1) } else { None },
                last: if page < tp { Some(tp) } else { None },
            }
        },
        DataTableTotalCount::Unknown => {
            let previous_known = match page_info.has_previous_page {
                Some(b) => b,
                None => page > 1,
            };
            let next_known = match page_info.has_next_page {
                Some(b) => b,
                None => false,
            };
            PageTargets {
                show: previous_known || next_known,
                first: if previous_known { Some(1) } else { None },
                previous: if previous_known && page > 1 { Some(page - 1) } else { None },
                next: if next_known { Some(page + 1) } else { None },
                last: None,
            }
        },
    }
}

/// The pager's summary line: `Page {page} of {pages} - {count} total` with the page
/// clamped into `1..=pages`, or `Page {page} - total unknown`.
pub open spec fn pagination_summary_spec(pagination: DataTablePaginationState, info: DataTablePageInfo) -> Seq<char> {
    let page = page_or_one(pagination.page);
    match info.total_count {
        DataTableTotalCount::Known(total_count) => {
            let tp = total_pages_spec(total_count, pagination.page_size);
            let shown = if page <= tp { page } else { tp };
            "Page "@ + decimal(shown as nat) + " of "@ + decimal(tp as nat) + " - "@ + decimal(
                total_count as nat,
            ) + " total"@
        },
        DataTableTotalCount::Unknown => "Page "@ + decimal(page as nat) + " - total unknown"@,
    }
}

/// Renders the pager's summary line.
pub fn pagination_summary(pagination: &DataTablePaginationState, page_info: DataTablePageInfo) -> (r:
    String)
    ensures
        r@ == pagination_summary_spec(*pagination, page_info),
{
    let page = if pagination.page >= 1 { pagination.page } else { 1 };
    let mut out = String::new();
    match page_info.total_count {
        DataTableTotalCount::Known(total_count) => {
            let tp = total_pages(total_count, pagination.page_size);
            let shown = if page <= tp { page } else { tp };
            push_str(&mut out, "Page ");
            push_decimal(&mut out, shown as u64);
            push_str(&mut out, " of ");
            push_decimal(&mut out, tp as u64);
            push_str(&mut out, " - ");
            push_decimal(&mut out, total_count);
            push_str(&mut out, " total");
        },
        DataTableTotalCount::Unknown => {
            push_str(&mut out, "Page ");
            push_decimal(&mut out, page as u64);
            push_str(&mut out, " - total unknown");
        },
    }
    assert(out@ =~= pagination_summary_spec(*pagination, page_info));
    out
}

/// The page sizes offered by the pager: 10, 25, 50 and 1000, plus the active
/// size (at least one) in sorted position when it is not one of them.
pub open spec fn page_size_options_spec(active: u64) -> Seq<u64> {
    let a = if active >= 1 { active } else { 1 };
    let base = seq![10u64, 25u64, 50u64, 1000u64];
    if base.contains(a) {
        base
    } else if a < 10 {
        seq![a, 10u64, 25u64, 50u64, 1000u64]
    } else if a < 25 {
        seq![10u64, a, 25u64, 50u64, 1000u64]
    } else if a < 50 {
        seq![10u64, 25u64, a, 50u64, 1000u64]
    } else if a < 1000 {
        seq![10u64, 25u64, 50u64, a, 1000u64]
    } else {
        seq![10u64, 25u64, 50u64, 1000u64, a]
    }
}

/// Lists the page sizes offered by the pager, in increasing order.
pub fn page_size_options(active_page_size: u64) -> (r: Vec<u64>)
    ensures
        r@ == page_size_options_spec(active_page_size),
{
    let a = if active_page_size >= 1 { active_page_size } else { 1 };
    let mut options: Vec<u64> = vec![10, 25, 50, 1000];
    let ghost base = seq![10u64, 25u64, 50u64, 1000u64];
    assert(options@ =~= base);
    if a == 10 || a == 25 || a == 50 || a == 1000 {
        proof {
            if a == 10 { assert(base[0] == a); }
            if a == 25 { assert(base[1] == a); }
            if a == 50 { assert(base[2] == a); }
            if a == 1000 { assert(base[3] == a); }
        }
        return options;
    }
    assert(!base.contains(a));
    let mut pos: usize = 0;
    while pos < options.len() && options[pos] < a
        invariant
            pos <= options.len(),
            options@ == base,
            forall|j: int| 0 <= j < pos ==> base[j] < a,
        decreases options.len() - pos,
    {
        pos = pos + 1;
    }
    proof {
        if pos < 4 {
            assert(base[pos as int] != a);
        }
        if a < 10 {
            assert(pos == 0);
        } else if a < 25 {
            assert(base[0] < a);
            assert(pos == 1);
        } else if a < 50 {
            assert(base[1] < a);
            assert(pos == 2);
        } else if a < 1000 {
            assert(base[2] < a);
            assert(pos == 3);
        } else {
            assert(base[3] < a);
            assert(pos == 4);
        }
    }
    options.insert(pos, a);
    assert(options@ =~= page_size_options_spec(active_page_size));
    options
}

/// The state with the pagination given by a host's page-size and current-page
/// properties, when set (each at least one).
pub open spec fn merged_pagination(s: StateView, page_size: Option<u64>, current_page: Option<u32>) -> StateView {
    let size = match page_size {
        Some(n) => if n >= 1 { n } else { 1 },
        None => s.pagination.page_size,
    };
    let page = match current_page {
        Some(p) => if p >= 1 { p } else { 1 },
        None => s.pagination.page,
    };
    StateView { pagination: DataTablePaginationState { page, page_size: size }, ..s }
}

/// Merges the host's page-size and current-page properties into a state.
pub fn merge_transitional_pagination_state(
    state: DataTableState,
    page_size: Option<u64>,
    current_page: Option<u32>,
) -> (r: DataTableState)
    ensures
        r.deep_view() == merged_pagination(state.deep_view(), page_size, current_page),
{
    let mut state = state;
    if let Some(page_size) = page_size {
        state.pagination.page_size = if page_size >= 1 { page_size } else { 1 };
    }
    if let Some(current_page) = current_page {
        state.pagination.page = if current_page >= 1 { current_page } else { 1 };
    }
    state
}

/// Law: with a known total and a page within the pages, every navigation
/// target is a page within `1..=total_pages` other than the current one, and the
/// pager shows exactly when there is more than one page.
pub proof fn law_known_targets_in_range(pagination: DataTablePaginationState, total_count: u64)
    requires
        1 <= pagination.page <= total_pages_spec(total_count, pagination.page_size),
    ensures
        ({
            let tp = total_pages_spec(total_count, pagination.page_size);
            let t = page_targets_spec(pagination, DataTablePageInfo {
                total_count: DataTableTotalCount::Known(total_count),
                has_next_page: None,
                has_previous_page: None,
            });
            &&& t.show == (tp > 1)
            &&& (t.first matches Some(p) ==> 1 <= p <= tp && p != pagination.page)
            &&& (t.previous matches Some(p) ==> 1 <= p <= tp && p != pagination.page)
            &&& (t.next matches Some(p) ==> 1 <= p <= tp && p != pagination.page)
            &&& (t.last matches Some(p) ==> 1 <= p <= tp && p != pagination.page)
        }),
{
}

} // verus!
