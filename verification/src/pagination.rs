//! Page-slot computation and control state of the data-backed paginator.

use vstd::prelude::*;

verus! {

/// Size variant of a pagination link.
#[derive(Copy, Clone, PartialEq, Eq, Debug)]
pub enum PaginationLinkSize {
    Icon,
    Default,
}

impl PaginationLinkSize {
    /// The value written to the link's `data-size` attribute.
    pub fn class(&self) -> (r: &'static str)
        ensures
            *self == PaginationLinkSize::Icon ==> r@ == "icon"@,
            *self == PaginationLinkSize::Default ==> r@ == "default"@,
    {
        match self {
            PaginationLinkSize::Icon => "icon",
            PaginationLinkSize::Default => "default",
        }
    }
}

/// The edge and step controls of a paginator.
#[derive(Copy, Clone, PartialEq, Eq, Debug)]
pub enum PaginationLinkKind {
    First,
    Previous,
    Next,
    Last,
}

impl PaginationLinkKind {
    /// The value written to the control's `data-kind` attribute.
    pub fn attr(&self) -> (r: &'static str)
        ensures
            *self == PaginationLinkKind::First ==> r@ == "first"@,
            *self == PaginationLinkKind::Previous ==> r@ == "previous"@,
            *self == PaginationLinkKind::Next ==> r@ == "next"@,
            *self == PaginationLinkKind::Last ==> r@ == "last"@,
    {
        match self {
            PaginationLinkKind::First => "first",
            PaginationLinkKind::Previous => "previous",
            PaginationLinkKind::Next => "next",
            PaginationLinkKind::Last => "last",
        }
    }
}

/// A single slot in a computed pagination range.
#[derive(Clone, Copy, PartialEq, Eq, Debug)]
pub enum PaginationRangeItem {
    /// A one-based page number rendered as a link.
    Page(usize),
    /// A truncation gap rendered as an ellipsis.
    Dots,
}

pub open spec fn max_int(a: int, b: int) -> int {
    if a >= b { a } else { b }
}

pub open spec fn min_int(a: int, b: int) -> int {
    if a <= b { a } else { b }
}

/// `a - b`, or zero when `b > a`.
pub open spec fn sat_sub(a: int, b: int) -> int {
    if a >= b { a - b } else { 0 }
}

/// `active` clamped into `1..=total`.
pub open spec fn clamp_page(active: int, total: int) -> int {
    if active < 1 { 1 } else if active > total { total } else { active }
}

/// The page links `max(start, 1)..=end`, in order.
pub open spec fn page_run(start: int, end: int) -> Seq<PaginationRangeItem> {
    let lo = max_int(start, 1);
    Seq::new(
        if end >= lo { (end - lo + 1) as nat } else { 0 },
        |k: int| PaginationRangeItem::Page((lo + k) as usize),
    )
}

/// Number of slots that fit without truncation.
pub open spec fn untruncated_capacity(siblings: int, boundaries: int) -> int {
    siblings * 2 + 3 + boundaries * 2
}

/// The inputs on which the computation stays within `usize`.
pub open spec fn pagination_range_fits(total: int, active: int, siblings: int, boundaries: int) -> bool {
    &&& total > 0 ==> untruncated_capacity(siblings, boundaries) <= usize::MAX
    &&& untruncated_capacity(siblings, boundaries) < total ==> {
        &&& total < usize::MAX
        &&& clamp_page(active, total) + siblings <= usize::MAX
    }
}

/// The page slots of a paginator with `total` pages around the page `active`
/// (clamped into `1..=total`), showing `siblings` links on each side of it and
/// `boundaries` links pinned at each end, with gaps where pages are left out.
pub open spec fn pagination_range_spec(total: int, active: int, siblings: int, boundaries: int) -> Seq<
    PaginationRangeItem,
> {
    if total == 0 {
        Seq::empty()
    } else {
        let a = clamp_page(active, total);
        if untruncated_capacity(siblings, boundaries) >= total {
            page_run(1, total)
        } else {
            let left_sibling = max_int(sat_sub(a, siblings), boundaries);
            let right_bound = sat_sub(total, boundaries);
            let right_sibling = min_int(a + siblings, right_bound);
            let left_dots = left_sibling > boundaries + 2;
            let right_dots = right_sibling < right_bound;
            let tail_start = sat_sub(total + 1, boundaries);
            if !left_dots && right_dots {
                page_run(1, siblings * 2 + boundaries + 2) + seq![PaginationRangeItem::Dots]
                    + page_run(tail_start, total)
            } else if left_dots && !right_dots {
                page_run(1, boundaries) + seq![PaginationRangeItem::Dots] + page_run(
                    sat_sub(total, boundaries + 1 + 2 * siblings),
                    total,
                )
            } else {
                page_run(1, boundaries) + seq![PaginationRangeItem::Dots] + page_run(
                    left_sibling,
                    right_sibling,
                ) + seq![PaginationRangeItem::Dots] + page_run(tail_start, total)
            }
        }
    }
}

/// Appends the page links `max(start, 1)..=end` to `range`.
fn push_pages(range: &mut Vec<PaginationRangeItem>, start: usize, end: usize)
    ensures
        final(range)@ == old(range)@ + page_run(start as int, end as int),
{
    let lo = if start < 1 { 1 } else { start };
    let ghost base = range@;
    if end < lo {
        assert(page_run(start as int, end as int) =~= Seq::<PaginationRangeItem>::empty());
        assert(range@ =~= base + page_run(start as int, end as int));
        return;
    }
    let mut p = lo;
    while p < end
        invariant
            lo <= p <= end,
            1 <= lo,
            lo == max_int(start as int, 1),
            range@ == base + page_run(start as int, end as int).take(p - lo),
        decreases end - p,
    {
        range.push(PaginationRangeItem::Page(p));
        assert(page_run(start as int, end as int).take(p + 1 - lo) =~= page_run(
            start as int,
            end as int,
        ).take(p - lo).push(PaginationRangeItem::Page(p)));
        p = p + 1;
    }
    range.push(PaginationRangeItem::Page(end));
    assert(page_run(start as int, end as int) =~= page_run(start as int, end as int).take(
        end - lo,
    ).push(PaginationRangeItem::Page(end)));
}

/// Computes the page slots to display for a paginator, using one-based page
/// numbers and inserting truncation gaps once the range exceeds what fits.
///
/// Returns an empty vector when `total` is zero; `active` is clamped into
/// `1..=total`.
#[verifier::rlimit(40)]
pub fn pagination_range(total: usize, active: usize, siblings: usize, boundaries: usize) -> (range:
    Vec<PaginationRangeItem>)
    requires
        pagination_range_fits(total as int, active as int, siblings as int, boundaries as int),
    ensures
        range@ == pagination_range_spec(total as int, active as int, siblings as int, boundaries as int),
{
    let mut range: Vec<PaginationRangeItem> = Vec::new();
    if total == 0 {
        return range;
    }
    let old_active = active;
    let active = if active < 1 {
        1
    } else if active > total {
        total
    } else {
        active
    };
    let total_page_numbers = siblings * 2 + 3 + boundaries * 2;
    if total_page_numbers >= total {
        push_pages(&mut range, 1, total);
        assert(range@ =~= page_run(1, total as int));
        return range;
    }
    let left_sibling = {
        let l = active.saturating_sub(siblings);
        if l >= boundaries { l } else { boundaries }
    };
    let right_bound = total.saturating_sub(boundaries);
    let right_sibling = if active + siblings <= right_bound {
        active + siblings
    } else {
        right_bound
    };
    let should_show_left_dots = left_sibling > boundaries + 2;
    let should_show_right_dots = right_sibling < right_bound;
    let tail_start = (total + 1).saturating_sub(boundaries);
    assert(left_sibling == max_int(sat_sub(active as int, siblings as int), boundaries as int));
    assert(right_bound == sat_sub(total as int, boundaries as int));
    assert(right_sibling == min_int(active + siblings, right_bound as int));
    assert(tail_start == sat_sub(total + 1, boundaries as int));
    assert(active == clamp_page(old_active as int, total as int));
    assert(range@ =~= Seq::<PaginationRangeItem>::empty());
    if !should_show_left_dots && should_show_right_dots {
        let left_item_count = siblings * 2 + boundaries + 2;
        push_pages(&mut range, 1, left_item_count);
        range.push(PaginationRangeItem::Dots);
        push_pages(&mut range, tail_start, total);
    } else if should_show_left_dots && !should_show_right_dots {
        let right_item_count = boundaries + 1 + 2 * siblings;
        push_pages(&mut range, 1, boundaries);
        range.push(PaginationRangeItem::Dots);
        push_pages(&mut range, total.saturating_sub(right_item_count), total);
    } else {
        push_pages(&mut range, 1, boundaries);
        range.push(PaginationRangeItem::Dots);
        push_pages(&mut range, left_sibling, right_sibling);
        range.push(PaginationRangeItem::Dots);
        push_pages(&mut range, tail_start, total);
    }
    range
}


/// Whether the page numbers of `r` strictly increase from left to right.
pub open spec fn pages_increasing(r: Seq<PaginationRangeItem>) -> bool {
    forall|i: int, j: int|
        0 <= i < j < r.len() && r[i] is Page && r[j] is Page ==> (#[trigger] r[i])->Page_0 < (
        #[trigger] r[j])->Page_0
}

/// Whether every page number of `r` lies in `lo..=hi`.
pub open spec fn pages_within(r: Seq<PaginationRangeItem>, lo: int, hi: int) -> bool {
    forall|i: int| 0 <= i < r.len() && r[i] is Page ==> lo <= (#[trigger] r[i])->Page_0 <= hi
}

proof fn lemma_page_run(start: int, end: int)
    requires
        end <= usize::MAX,
    ensures
        pages_increasing(page_run(start, end)),
        pages_within(page_run(start, end), max_int(start, 1), end),
        forall|k: int|
            0 <= k < page_run(start, end).len() ==> #[trigger] page_run(start, end)[k]
                == PaginationRangeItem::Page((max_int(start, 1) + k) as usize),
        end >= max_int(start, 1) ==> page_run(start, end).len() == end - max_int(start, 1) + 1,
{
}

proof fn lemma_concat(x: Seq<PaginationRangeItem>, y: Seq<PaginationRangeItem>, xlo: int, xhi: int, ylo: int, yhi: int)
    requires
        pages_increasing(x),
        pages_increasing(y),
        pages_within(x, xlo, xhi),
        pages_within(y, ylo, yhi),
        xhi < ylo,
    ensures
        pages_increasing(x + y),
        pages_within(x + y, min_int(xlo, ylo), max_int(xhi, yhi)),
{
    let z = x + y;
    assert forall|i: int, j: int|
        0 <= i < j < z.len() && z[i] is Page && z[j] is Page implies (#[trigger] z[i])->Page_0 < (
        #[trigger] z[j])->Page_0 by {
        if j < x.len() {
            assert(z[i] == x[i] && z[j] == x[j]);
        } else if i >= x.len() {
            assert(z[i] == y[i - x.len()] && z[j] == y[j - x.len()]);
        } else {
            assert(z[i] == x[i] && z[j] == y[j - x.len()]);
        }
    }
    assert forall|i: int| 0 <= i < z.len() && z[i] is Page implies min_int(xlo, ylo) <= (
    #[trigger] z[i])->Page_0 <= max_int(xhi, yhi) by {
        if i < x.len() {
            assert(z[i] == x[i]);
        } else {
            assert(z[i] == y[i - x.len()]);
        }
    }
}

proof fn lemma_dots(lo: int, hi: int)
    ensures
        pages_increasing(seq![PaginationRangeItem::Dots]),
        pages_within(seq![PaginationRangeItem::Dots], lo, hi),
{
}

/// Law: every page slot of a pagination range lies in `1..=total`, the page
/// numbers strictly increase, and the active page (clamped into `1..=total`)
/// is among them whenever there is at least one page.
pub proof fn law_pagination_range_ordered_and_complete(
    total: int,
    active: int,
    siblings: int,
    boundaries: int,
)
    requires
        0 <= total,
        0 <= siblings,
        0 <= boundaries,
        pagination_range_fits(total, active, siblings, boundaries),
    ensures
        pages_increasing(pagination_range_spec(total, active, siblings, boundaries)),
        pages_within(pagination_range_spec(total, active, siblings, boundaries), 1, total),
        total > 0 ==> pagination_range_spec(total, active, siblings, boundaries).contains(
            PaginationRangeItem::Page(clamp_page(active, total) as usize),
        ),
{
    let r = pagination_range_spec(total, active, siblings, boundaries);
    if total == 0 {
        return;
    }
    let a = clamp_page(active, total);
    let t = total;
    let sb = siblings;
    let b = boundaries;
    if untruncated_capacity(sb, b) >= t {
        lemma_page_run(1, t);
        assert(r[a - 1] == PaginationRangeItem::Page(a as usize));
        return;
    }
    let left_sibling = max_int(sat_sub(a, sb), b);
    let right_bound = sat_sub(t, b);
    let right_sibling = min_int(a + sb, right_bound);
    let left_dots = left_sibling > b + 2;
    let right_dots = right_sibling < right_bound;
    let tail_start = sat_sub(t + 1, b);
    let d = seq![PaginationRangeItem::Dots];
    lemma_dots(1, t);
    if !left_dots && right_dots {
        let r1 = page_run(1, sb * 2 + b + 2);
        let r2 = page_run(tail_start, t);
        lemma_page_run(1, sb * 2 + b + 2);
        lemma_page_run(tail_start, t);
        lemma_concat(r1, d, 1, sb * 2 + b + 2, sb * 2 + b + 3, sb * 2 + b + 3);
        lemma_concat(r1 + d, r2, 1, sb * 2 + b + 3, max_int(tail_start, 1), t);
        assert(r == r1 + d + r2);
        assert(r1[a - 1] == PaginationRangeItem::Page(a as usize));
        assert(r[a - 1] == r1[a - 1]);
    } else if left_dots && !right_dots {
        let s2 = sat_sub(t, b + 1 + 2 * sb);
        let r1 = page_run(1, b);
        let r2 = page_run(s2, t);
        lemma_page_run(1, b);
        lemma_page_run(s2, t);
        lemma_concat(r1, d, 1, b, b + 1, b + 1);
        lemma_concat(r1 + d, r2, 1, b + 1, max_int(s2, 1), t);
        assert(r == r1 + d + r2);
        let k = (r1 + d).len() + (a - max_int(s2, 1));
        assert(r2[a - max_int(s2, 1)] == PaginationRangeItem::Page(a as usize));
        assert(r[k] == r2[a - max_int(s2, 1)]);
    } else {
        let r1 = page_run(1, b);
        let r2 = page_run(left_sibling, right_sibling);
        let r3 = page_run(tail_start, t);
        lemma_page_run(1, b);
        lemma_page_run(left_sibling, right_sibling);
        lemma_page_run(tail_start, t);
        lemma_concat(r1, d, 1, b, b + 1, b + 1);
        lemma_concat(r1 + d, r2, 1, b + 1, max_int(left_sibling, 1), right_sibling);
        lemma_concat(r1 + d + r2, d, 1, right_sibling, right_sibling + 1, right_sibling + 1);
        lemma_concat(r1 + d + r2 + d, r3, 1, right_sibling + 1, max_int(tail_start, 1), t);
        assert(r == r1 + d + r2 + d + r3);
        let k = (r1 + d).len() + (a - left_sibling);
        assert(r2[a - left_sibling] == PaginationRangeItem::Page(a as usize));
        assert(r[k] == r2[a - left_sibling]);
    }
}

/// Facts about the slot `i + 1` of `x + seq![Dots] + y` and its neighbours, when
/// `x` and `y` are runs of consecutive pages.
proof fn lemma_gap_slots(x: Seq<PaginationRangeItem>, y: Seq<PaginationRangeItem>, xlo: int, ylo: int, i: int)
    requires
        forall|k: int| 0 <= k < x.len() ==> #[trigger] x[k] == PaginationRangeItem::Page((xlo + k) as usize),
        forall|k: int| 0 <= k < y.len() ==> #[trigger] y[k] == PaginationRangeItem::Page((ylo + k) as usize),
        1 <= xlo,
        xlo + x.len() <= usize::MAX,
        1 <= ylo,
        ylo + y.len() <= usize::MAX,
        0 <= i,
        i + 1 < (x + seq![PaginationRangeItem::Dots] + y).len(),
    ensures
        ({
            let r = x + seq![PaginationRangeItem::Dots] + y;
            &&& r[i] is Page && r[i + 1] is Page ==> r[i + 1]->Page_0 == r[i]->Page_0 + 1
            &&& r[i + 1] is Dots ==> i + 1 == x.len()
            &&& i + 1 == x.len() && i + 2 < r.len() ==> r[i] == PaginationRangeItem::Page((xlo + x.len() - 1) as usize)
                && r[i + 2] == PaginationRangeItem::Page(ylo as usize)
        }),
{
    let r = x + seq![PaginationRangeItem::Dots] + y;
    let n = x.len() as int;
    if i + 1 < n {
        assert(r[i] == x[i] && r[i + 1] == x[i + 1]);
    } else if i + 1 == n {
        assert(r[i] == x[i]);
        assert(r[i + 1] == PaginationRangeItem::Dots);
        if i + 2 < r.len() {
            assert(r[i + 2] == y[0]);
        }
    } else if i == n {
        assert(r[i] == PaginationRangeItem::Dots);
        assert(r[i + 1] == y[0]);
    } else {
        assert(r[i] == y[i - n - 1] && r[i + 1] == y[i - n]);
    }
}

/// Law: neighbouring page links are consecutive pages; a gap stands between two
/// page links and leaves out at least one page; and the first gap after a page
/// link leaves out at least two pages (an ellipsis never stands for the single
/// page after the leading ones).
pub proof fn law_pagination_gaps(total: int, active: int, siblings: int, boundaries: int, i: int)
    requires
        0 <= total,
        0 <= siblings,
        0 <= boundaries,
        pagination_range_fits(total, active, siblings, boundaries),
        0 <= i,
        i + 1 < pagination_range_spec(total, active, siblings, boundaries).len(),
    ensures
        ({
            let r = pagination_range_spec(total, active, siblings, boundaries);
            &&& r[i] is Page && r[i + 1] is Page ==> r[i + 1]->Page_0 == r[i]->Page_0 + 1
            &&& r[i + 1] is Dots && i + 2 < r.len() ==> r[i] is Page && r[i + 2] is Page && r[i + 2]->Page_0
                >= r[i]->Page_0 + 2
            &&& r[i + 1] is Dots && i + 2 < r.len() && (forall|j: int| 0 <= j <= i ==> (#[trigger] r[j]) is Page)
                ==> r[i + 2]->Page_0 >= r[i]->Page_0 + 3
        }),
{
    let r = pagination_range_spec(total, active, siblings, boundaries);
    let a = clamp_page(active, total);
    let t = total;
    let sb = siblings;
    let b = boundaries;
    let d = seq![PaginationRangeItem::Dots];
    if untruncated_capacity(sb, b) >= t {
        lemma_page_run(1, t);
        return;
    }
    let left_sibling = max_int(sat_sub(a, sb), b);
    let right_bound = sat_sub(t, b);
    let right_sibling = min_int(a + sb, right_bound);
    let left_dots = left_sibling > b + 2;
    let right_dots = right_sibling < right_bound;
    let tail_start = sat_sub(t + 1, b);
    if !left_dots && right_dots {
        let r1 = page_run(1, sb * 2 + b + 2);
        let r2 = page_run(tail_start, t);
        lemma_page_run(1, sb * 2 + b + 2);
        lemma_page_run(tail_start, t);
        assert(r == r1 + d + r2);
        lemma_gap_slots(r1, r2, 1, max_int(tail_start, 1), i);
    } else if left_dots && !right_dots {
        let s2 = sat_sub(t, b + 1 + 2 * sb);
        let r1 = page_run(1, b);
        let r2 = page_run(s2, t);
        lemma_page_run(1, b);
        lemma_page_run(s2, t);
        assert(r == r1 + d + r2);
        lemma_gap_slots(r1, r2, 1, max_int(s2, 1), i);
    } else {
        let r1 = page_run(1, b);
        let r2 = page_run(left_sibling, right_sibling);
        let r3 = page_run(tail_start, t);
        lemma_page_run(1, b);
        lemma_page_run(left_sibling, right_sibling);
        lemma_page_run(tail_start, t);
        assert(r == r1 + d + r2 + d + r3);
        let n1 = r1.len() as int;
        let n2 = r2.len() as int;
        assert(n2 > 0);
        let front = r1 + d + r2;
        if i + 1 <= n1 + n2 {
            lemma_gap_slots(r1, r2, 1, max_int(left_sibling, 1), i);
            assert(r[i] == front[i] && r[i + 1] == front[i + 1]);
            if i + 1 == n1 && i + 2 < r.len() {
                assert(r[i + 2] == front[i + 2]);
            }
        } else {
            lemma_gap_slots(r2, r3, max_int(left_sibling, 1), max_int(tail_start, 1), i - n1 - 1);
            let back = r2 + d + r3;
            assert(r == r1 + d + back);
            assert(r[i] == back[i - n1 - 1] && r[i + 1] == back[i - n1]);
            if i + 2 < r.len() {
                assert(r[i + 2] == back[i - n1 + 1]);
            }
            if r[i + 1] is Dots && i + 2 < r.len() {
                assert(r[n1] == PaginationRangeItem::Dots);
                assert(!(forall|j: int| 0 <= j <= i ==> (#[trigger] r[j]) is Page));
            }
        }
    }
}

/// Law: the active page is clamped into `1..=total` before the slots are
/// computed, and inputs that fit keep fitting once the active page is clamped.
pub proof fn law_pagination_range_clamps_active(total: int, active: int, siblings: int, boundaries: int)
    requires
        total > 0,
    ensures
        pagination_range_spec(total, active, siblings, boundaries) == pagination_range_spec(
            total,
            clamp_page(active, total),
            siblings,
            boundaries,
        ),
        pagination_range_fits(total, active, siblings, boundaries) ==> pagination_range_fits(
            total,
            clamp_page(active, total),
            siblings,
            boundaries,
        ),
{
}

/// Whether the paginator's backward and forward controls are disabled.
#[derive(Clone, Copy, PartialEq, Eq, Debug)]
pub struct PaginationControls {
    /// The first and previous controls are disabled.
    pub at_first: bool,
    /// The next and last controls are disabled.
    pub at_last: bool,
}

/// The control state of a paginator on page `current` of `total` pages (an
/// unknown total counts as none): disabled throughout when the paginator is, or
/// when there are no pages; otherwise backward at page 1 or before and forward
/// at the last page or after.
pub fn pagination_controls(total: Option<usize>, current: usize, disabled: bool) -> (r:
    PaginationControls)
    ensures
        r.at_first == (disabled || total.unwrap_or(0) == 0 || current <= 1),
        r.at_last == (disabled || total.unwrap_or(0) == 0 || current >= total.unwrap_or(0)),
{
    let total_pages: usize = match total {
        Some(t) => t,
        None => 0,
    };
    PaginationControls {
        at_first: disabled || total_pages == 0 || current <= 1,
        at_last: disabled || total_pages == 0 || current >= total_pages,
    }
}

/// The page a request for `page` moves to: `page` clamped into `1..=total`, or
/// nothing when the total is unknown or zero.
pub fn pagination_page_request(total: Option<usize>, page: usize) -> (r: Option<usize>)
    ensures
        r == (match total {
            Some(t) => if t > 0 {
                Some(clamp_page(page as int, t as int) as usize)
            } else {
                None
            },
            None => None,
        }),
{
    match total {
        Some(t) => if t > 0 {
            if page < 1 {
                Some(1)
            } else if page > t {
                Some(t)
            } else {
                Some(page)
            }
        } else {
            None
        },
        None => None,
    }
}

/// The page the previous control asks for: one before `current`, not below 0.
pub fn previous_page(current: usize) -> (r: usize)
    ensures
        r == sat_sub(current as int, 1),
{
    if current >= 1 {
        current - 1
    } else {
        0
    }
}

/// The page the next control asks for: one after `current`.
pub fn next_page(current: usize) -> (r: usize)
    requires
        current < usize::MAX,
    ensures
        r == current + 1,
{
    current + 1
}

/// Every page a paginator moves to lies within `1..=total`.
pub proof fn law_page_request_in_range(total: usize, page: usize)
    requires
        total > 0,
    ensures
        1 <= clamp_page(page as int, total as int) <= total,
        1 <= page <= total ==> clamp_page(page as int, total as int) == page,
{
}

} // verus!
