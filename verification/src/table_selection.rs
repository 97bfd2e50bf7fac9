//! Row selection, row expansion and sort toggling of the data table.

use vstd::prelude::*;
use crate::seqs::{dedup, lemma_keep_first_keys, same};
use crate::table_actions::dedupe_strings;
use crate::table_query::query_fingerprint;
use crate::table_state::{
    column_key_fn, DataTableRowId, DataTableRowSelectionState, DataTableSortDirection,
    DataTableSortState, DataTableState, SelectionView,
};
use crate::text::contains_string;

verus! {

/// Whether row `id` is selected under `sel` for the query `q`.
pub open spec fn selected_in(sel: SelectionView, id: Seq<char>, q: Seq<char>) -> bool {
    match sel {
        SelectionView::Explicit(rows) => rows.contains(id),
        SelectionView::AllMatching(query, except) => query == q && !except.contains(id),
    }
}

/// Whether a row is selected: listed in an explicit selection, or not excepted from
/// an all-matching selection of the active query.
pub fn is_row_selected(selection: &DataTableRowSelectionState, row_id: &str, active_query: &str) -> (b:
    bool)
    ensures
        b == selected_in(selection.deep_view(), row_id@, active_query@),
{
    let id = row_id.to_owned();
    match selection {
        DataTableRowSelectionState::Explicit { rows } => contains_string(rows, &id),
        DataTableRowSelectionState::AllMatching { query, except } => {
            let q = active_query.to_owned();
            *query == q && !contains_string(except, &id)
        },
    }
}

/// `s` without its first occurrence of `x`.
pub open spec fn remove_first<A>(s: Seq<A>, x: A) -> Seq<A>
    decreases s.len(),
{
    if s.len() == 0 {
        s
    } else if s[0] == x {
        s.skip(1)
    } else {
        seq![s[0]] + remove_first(s.skip(1), x)
    }
}

/// `s` with `x` removed if present, or appended if not.
pub open spec fn toggled(s: Seq<Seq<char>>, x: Seq<char>) -> Seq<Seq<char>> {
    if s.contains(x) {
        remove_first(s, x)
    } else {
        s.push(x)
    }
}

/// Removes the first occurrence of `id` from `ids`, or appends it when absent.
fn toggle_id(ids: &Vec<String>, id: String) -> (r: Vec<String>)
    ensures
        r.deep_view() == toggled(ids.deep_view(), id@),
{
    let mut out = crate::table_state::clone_exact(ids);
    let ghost s = ids.deep_view();
    let mut k: usize = 0;
    while k < out.len()
        invariant
            k <= out.len(),
            out.deep_view() == s,
            s == ids.deep_view(),
            forall|j: int| 0 <= j < k ==> s[j] != id@,
        decreases out.len() - k,
    {
        assert(s[k as int] == out@[k as int]@);
        if out[k] == id {
            proof {
                lemma_remove_first_at(s, id@, k as int);
            }
            let ghost before = out.deep_view();
            out.remove(k);
            assert(out.deep_view() =~= before.remove(k as int));
            return out;
        }
        k = k + 1;
    }
    let ghost before = out.deep_view();
    out.push(id);
    assert(out.deep_view() =~= before.push(id@));
    out
}

proof fn lemma_remove_first_at<A>(s: Seq<A>, x: A, k: int)
    requires
        0 <= k < s.len(),
        s[k] == x,
        forall|j: int| 0 <= j < k ==> s[j] != x,
    ensures
        remove_first(s, x) == s.remove(k),
        s.contains(x),
    decreases k,
{
    if k > 0 {
        lemma_remove_first_at(s.skip(1), x, k - 1);
        assert(seq![s[0]] + s.skip(1).remove(k - 1) =~= s.remove(k));
    } else {
        assert(s.skip(1) =~= s.remove(0));
    }
}

/// The selection after toggling one row: the row id is removed from (or added to)
/// the selected ids of an explicit selection, or the excepted ids of an all-matching
/// selection; ids are then kept once each.
pub open spec fn toggle_row_spec(sel: SelectionView, id: Seq<char>) -> SelectionView {
    match sel {
        SelectionView::Explicit(rows) => SelectionView::Explicit(dedup(toggled(rows, id))),
        SelectionView::AllMatching(q, except) => SelectionView::AllMatching(
            q,
            dedup(toggled(except, id)),
        ),
    }
}

/// Toggles the selection of one row.
pub fn toggle_row_selection(selection: &DataTableRowSelectionState, row_id: DataTableRowId) -> (r:
    DataTableRowSelectionState)
    ensures
        r.deep_view() == toggle_row_spec(selection.deep_view(), row_id@),
{
    match selection {
        DataTableRowSelectionState::Explicit { rows } => {
            let rows = toggle_id(rows, row_id);
            DataTableRowSelectionState::Explicit { rows: dedupe_strings(rows) }
        },
        DataTableRowSelectionState::AllMatching { query, except } => {
            let except = toggle_id(except, row_id);
            DataTableRowSelectionState::AllMatching {
                query: query.clone(),
                except: dedupe_strings(except),
            }
        },
    }
}

/// Adds `id` to `rows` when absent, removes its first occurrence when present.
pub fn toggle_expanded_row(rows: &Vec<DataTableRowId>, row_id: DataTableRowId) -> (r: Vec<
    DataTableRowId,
>)
    ensures
        r.deep_view() == toggled(rows.deep_view(), row_id@),
{
    toggle_id(rows, row_id)
}


/// The entries of `s` that are not in `page`, in order.
pub open spec fn without_all(s: Seq<Seq<char>>, page: Seq<Seq<char>>) -> Seq<Seq<char>>
    decreases s.len(),
{
    if s.len() == 0 {
        s
    } else if page.contains(s[0]) {
        without_all(s.skip(1), page)
    } else {
        seq![s[0]] + without_all(s.skip(1), page)
    }
}

/// Whether every row of `page` is selected.
pub open spec fn all_selected(sel: SelectionView, page: Seq<Seq<char>>, q: Seq<char>) -> bool {
    forall|i: int| 0 <= i < page.len() ==> selected_in(sel, #[trigger] page[i], q)
}

/// The selection after toggling the rows of a page: when every page row is selected
/// they are all deselected, otherwise they are all selected; ids are then kept once
/// each.
pub open spec fn toggle_page_spec(sel: SelectionView, page: Seq<Seq<char>>, q: Seq<char>) -> SelectionView {
    let all = all_selected(sel, page, q);
    match sel {
        SelectionView::Explicit(rows) => SelectionView::Explicit(
            dedup(if all { without_all(rows, page) } else { rows + page }),
        ),
        SelectionView::AllMatching(query, except) => SelectionView::AllMatching(
            query,
            dedup(if all { except + page } else { without_all(except, page) }),
        ),
    }
}

fn retain_not_in(values: &Vec<String>, page: &Vec<String>) -> (r: Vec<String>)
    ensures
        r.deep_view() == without_all(values.deep_view(), page.deep_view()),
{
    let mut out: Vec<String> = Vec::new();
    let ghost v = values.deep_view();
    let mut i: usize = 0;
    assert(v.skip(0) =~= v);
    assert(out.deep_view() + without_all(v, page.deep_view()) =~= without_all(v, page.deep_view()));
    while i < values.len()
        invariant
            i <= values.len(),
            v == values.deep_view(),
            out.deep_view() + without_all(v.skip(i as int), page.deep_view()) == without_all(
                v,
                page.deep_view(),
            ),
        decreases values.len() - i,
    {
        assert(v.skip(i as int).skip(1) =~= v.skip(i + 1));
        assert(v.skip(i as int)[0] == values@[i as int]@);
        if !contains_string(page, &values[i]) {
            let ghost before = out.deep_view();
            out.push(values[i].clone());
            assert(out.deep_view() =~= before.push(v[i as int]));
            assert(before + (seq![v[i as int]] + without_all(v.skip(i + 1), page.deep_view()))
                =~= out.deep_view() + without_all(v.skip(i + 1), page.deep_view()));
        }
        i = i + 1;
    }
    assert(v.skip(i as int) =~= Seq::<Seq<char>>::empty());
    assert(out.deep_view() + Seq::<Seq<char>>::empty() =~= out.deep_view());
    out
}

fn concat_strings(a: &Vec<String>, b: &Vec<String>) -> (r: Vec<String>)
    ensures
        r.deep_view() == a.deep_view() + b.deep_view(),
{
    let mut out = crate::table_state::clone_exact(a);
    let mut i: usize = 0;
    while i < b.len()
        invariant
            i <= b.len(),
            out.deep_view() == a.deep_view() + b.deep_view().take(i as int),
        decreases b.len() - i,
    {
        let ghost before = out.deep_view();
        out.push(b[i].clone());
        assert(out.deep_view() =~= before.push(b@[i as int]@));
        assert(b.deep_view().take(i + 1) =~= b.deep_view().take(i as int).push(b@[i as int]@));
        i = i + 1;
    }
    assert(b.deep_view().take(b.len() as int) =~= b.deep_view());
    out
}

/// Toggles the selection of every row of the current page.
pub fn toggle_page_selection(
    selection: &DataTableRowSelectionState,
    page_row_ids: &Vec<DataTableRowId>,
    active_query: &str,
) -> (r: DataTableRowSelectionState)
    ensures
        r.deep_view() == toggle_page_spec(selection.deep_view(), page_row_ids.deep_view(), active_query@),
{
    let mut all = true;
    let mut i: usize = 0;
    while i < page_row_ids.len()
        invariant
            i <= page_row_ids.len(),
            all == (forall|j: int|
                0 <= j < i ==> selected_in(
                    selection.deep_view(),
                    #[trigger] page_row_ids.deep_view()[j],
                    active_query@,
                )),
        decreases page_row_ids.len() - i,
    {
        let sel = is_row_selected(selection, page_row_ids[i].as_str(), active_query);
        assert(page_row_ids.deep_view()[i as int] == page_row_ids@[i as int]@);
        if !sel {
            all = false;
        }
        i = i + 1;
    }
    match selection {
        DataTableRowSelectionState::Explicit { rows } => {
            let rows = if all {
                retain_not_in(rows, page_row_ids)
            } else {
                concat_strings(rows, page_row_ids)
            };
            DataTableRowSelectionState::Explicit { rows: dedupe_strings(rows) }
        },
        DataTableRowSelectionState::AllMatching { query, except } => {
            let except = if all {
                concat_strings(except, page_row_ids)
            } else {
                retain_not_in(except, page_row_ids)
            };
            DataTableRowSelectionState::AllMatching {
                query: query.clone(),
                except: dedupe_strings(except),
            }
        },
    }
}

/// The selection after toggling "select all matching rows": an all-matching
/// selection of the active query without exceptions becomes an empty explicit
/// selection; any other selection becomes an all-matching selection of the active
/// query without exceptions.
pub open spec fn toggle_all_matching_spec(sel: SelectionView, q: Seq<char>) -> SelectionView {
    match sel {
        SelectionView::AllMatching(active, except) => if active == q && except.len() == 0 {
            SelectionView::Explicit(Seq::empty())
        } else {
            SelectionView::AllMatching(q, Seq::empty())
        },
        _ => SelectionView::AllMatching(q, Seq::empty()),
    }
}

/// Toggles the selection of all rows matching the state's query.
pub fn toggle_all_matching_selection(state: &DataTableState) -> (r: DataTableRowSelectionState)
    ensures
        r.deep_view() == toggle_all_matching_spec(
            state.row_selection.deep_view(),
            crate::table_query::fingerprint_text(
                state.filters.deep_view(),
                crate::table_state::opt_view(state.global_filter),
            ),
        ),
{
    let query = query_fingerprint(state);
    let empty: Vec<String> = Vec::new();
    assert(empty.deep_view() =~= Seq::<Seq<char>>::empty());
    match &state.row_selection {
        DataTableRowSelectionState::AllMatching { query: active, except } => {
            if *active == query && except.len() == 0 {
                assert(except.deep_view() =~= Seq::<Seq<char>>::empty());
                return DataTableRowSelectionState::Explicit { rows: empty };
            }
        },
        _ => {},
    }
    DataTableRowSelectionState::AllMatching { query, except: empty }
}

/// The sorting after a click on a column header: an unsorted column is put first in
/// ascending order, an ascending one is put first in descending order, a descending
/// one is removed.
pub open spec fn next_sorting_spec(
    sorting: Seq<(Seq<char>, DataTableSortDirection)>,
    column: Seq<char>,
) -> Seq<(Seq<char>, DataTableSortDirection)> {
    let others = crate::keyed::drop_key::<DataTableSortState>(sorting, column);
    let current = crate::keyed::first_with_key::<DataTableSortState>(sorting, column);
    match current {
        None => seq![(column, DataTableSortDirection::Ascending)] + others,
        Some(entry) => if entry.1 == DataTableSortDirection::Ascending {
            seq![(column, DataTableSortDirection::Descending)] + others
        } else {
            others
        },
    }
}

/// Cycles the sorting of one column.
pub fn next_sorting_for_column(state: &DataTableState, column_id: &str) -> (r: Vec<DataTableSortState>)
    ensures
        r.deep_view() == next_sorting_spec(state.sorting.deep_view(), column_id@),
{
    let column = column_id.to_owned();
    let current = crate::keyed::find_key(&state.sorting, &column);
    let mut sorting = crate::keyed::without_key(&state.sorting, &column);
    let ghost others = sorting.deep_view();
    match current {
        None => {
            let entry = DataTableSortState { column, direction: DataTableSortDirection::Ascending };
            let ghost ev = entry.deep_view();
            sorting.insert(0, entry);
            assert(sorting.deep_view() =~= seq![ev] + others);
        },
        Some(index) => {
            if let DataTableSortDirection::Ascending = state.sorting[index].direction {
                let entry = DataTableSortState {
                    column,
                    direction: DataTableSortDirection::Descending,
                };
                let ghost ev = entry.deep_view();
                sorting.insert(0, entry);
                assert(sorting.deep_view() =~= seq![ev] + others);
            }
        },
    }
    sorting
}


proof fn lemma_dedup_contains(s: Seq<Seq<char>>)
    ensures
        forall|x: Seq<char>| dedup(s).contains(x) <==> s.contains(x),
{
    let key = same::<Seq<char>>();
    lemma_keep_first_keys(Seq::<Seq<char>>::empty(), s, key);
    assert(Seq::<Seq<char>>::empty().map_values(key) =~= Seq::<Seq<char>>::empty());
    assert(s.map_values(key) =~= s);
    assert(dedup(s).map_values(key) =~= dedup(s));
}

proof fn lemma_remove_first_contains_one(s: Seq<Seq<char>>, x: Seq<char>, y: Seq<char>)
    requires
        s.no_duplicates(),
    ensures
        remove_first(s, x).contains(y) <==> (y != x && s.contains(y)),
    decreases s.len(),
{
    if s.len() > 0 {
        let t = s.skip(1);
        assert(t.no_duplicates());
        lemma_remove_first_contains_one(t, x, y);
        if s.contains(y) {
            let k = choose|k: int| 0 <= k < s.len() && s[k] == y;
            if k > 0 {
                assert(t[k - 1] == y);
            }
        }
        if t.contains(y) {
            let k = choose|k: int| 0 <= k < t.len() && t[k] == y;
            assert(s[k + 1] == y);
            if s[0] == y {
                assert(s[0] == s[k + 1]);
            }
        }
        if s[0] != x {
            let r = seq![s[0]] + remove_first(t, x);
            assert(remove_first(s, x) == r);
            if r.contains(y) {
                let k = choose|k: int| 0 <= k < r.len() && r[k] == y;
                if k > 0 {
                    assert(remove_first(t, x)[k - 1] == y);
                }
            }
            if y == s[0] {
                assert(r[0] == y);
            } else if remove_first(t, x).contains(y) {
                let k = choose|k: int| 0 <= k < remove_first(t, x).len() && remove_first(t, x)[k] == y;
                assert(r[k + 1] == y);
            }
        } else {
            assert(remove_first(s, x) == t);
        }
    }
}

proof fn lemma_without_all_contains(s: Seq<Seq<char>>, page: Seq<Seq<char>>)
    ensures
        forall|y: Seq<char>| without_all(s, page).contains(y) <==> (s.contains(y) && !page.contains(y)),
    decreases s.len(),
{
    if s.len() > 0 {
        lemma_without_all_contains(s.skip(1), page);
        assert forall|y: Seq<char>| without_all(s, page).contains(y) <==> (s.contains(y)
            && !page.contains(y)) by {
            let w = without_all(s.skip(1), page);
            if s.contains(y) {
                let k = choose|k: int| 0 <= k < s.len() && s[k] == y;
                if k > 0 {
                    assert(s.skip(1)[k - 1] == y);
                }
            }
            if s.skip(1).contains(y) {
                let k = choose|k: int| 0 <= k < s.skip(1).len() && s.skip(1)[k] == y;
                assert(s[k + 1] == y);
            }
            if !page.contains(s[0]) {
                let r = seq![s[0]] + w;
                if r.contains(y) {
                    let k = choose|k: int| 0 <= k < r.len() && r[k] == y;
                    if k > 0 {
                        assert(w[k - 1] == y);
                    }
                }
                if y == s[0] {
                    assert(r[0] == y);
                } else if w.contains(y) {
                    let k = choose|k: int| 0 <= k < w.len() && w[k] == y;
                    assert(r[k + 1] == y);
                }
            }
        }
    }
}

/// Whether toggles act on the given query: an explicit selection, or an
/// all-matching selection of that very query.
pub open spec fn acts_on_query(sel: SelectionView, q: Seq<char>) -> bool {
    match sel {
        SelectionView::Explicit(_) => true,
        SelectionView::AllMatching(query, _) => query == q,
    }
}

/// Whether the ids of a selection are listed once each.
pub open spec fn selection_ids_distinct(sel: SelectionView) -> bool {
    match sel {
        SelectionView::Explicit(rows) => rows.no_duplicates(),
        SelectionView::AllMatching(_, except) => except.no_duplicates(),
    }
}

/// Law: toggling a row flips whether that row is selected and leaves every other
/// row as it was.
pub proof fn law_toggle_row_flips_only_that_row(
    sel: SelectionView,
    id: Seq<char>,
    q: Seq<char>,
    other: Seq<char>,
)
    requires
        selection_ids_distinct(sel),
        acts_on_query(sel, q),
    ensures
        selected_in(toggle_row_spec(sel, id), id, q) == !selected_in(sel, id, q),
        other != id ==> selected_in(toggle_row_spec(sel, id), other, q) == selected_in(sel, other, q),
{
    let ids = match sel {
        SelectionView::Explicit(rows) => rows,
        SelectionView::AllMatching(_, except) => except,
    };
    lemma_dedup_contains(toggled(ids, id));
    lemma_remove_first_contains_one(ids, id, id);
    lemma_remove_first_contains_one(ids, id, other);
    if !ids.contains(id) {
        assert(ids.push(id)[ids.len() as int] == id);
        assert forall|y: Seq<char>| ids.push(id).contains(y) <==> (y == id || ids.contains(y)) by {
            if ids.contains(y) {
                let k = choose|k: int| 0 <= k < ids.len() && ids[k] == y;
                assert(ids.push(id)[k] == y);
            }
            if ids.push(id).contains(y) && y != id {
                let k = choose|k: int| 0 <= k < ids.push(id).len() && ids.push(id)[k] == y;
                assert(ids[k] == y);
            }
        }
    }
}

/// Law: toggling the rows of a page deselects all of them when all were selected,
/// and selects all of them otherwise; rows outside the page keep their status when
/// ids are listed once each.
pub proof fn law_toggle_page_selects_or_clears_page(
    sel: SelectionView,
    page: Seq<Seq<char>>,
    q: Seq<char>,
    other: Seq<char>,
)
    requires
        acts_on_query(sel, q),
    ensures
        all_selected(sel, page, q) ==> forall|i: int|
            0 <= i < page.len() ==> !selected_in(toggle_page_spec(sel, page, q), #[trigger] page[i], q),
        !all_selected(sel, page, q) ==> all_selected(toggle_page_spec(sel, page, q), page, q),
        !page.contains(other) ==> selected_in(toggle_page_spec(sel, page, q), other, q)
            == selected_in(sel, other, q),
{
    let ids = match sel {
        SelectionView::Explicit(rows) => rows,
        SelectionView::AllMatching(_, except) => except,
    };
    lemma_without_all_contains(ids, page);
    lemma_dedup_contains(without_all(ids, page));
    lemma_dedup_contains(ids + page);
    assert forall|y: Seq<char>| (ids + page).contains(y) <==> (ids.contains(y) || page.contains(y)) by {
        if ids.contains(y) {
            let k = choose|k: int| 0 <= k < ids.len() && ids[k] == y;
            assert((ids + page)[k] == y);
        }
        if page.contains(y) {
            let k = choose|k: int| 0 <= k < page.len() && page[k] == y;
            assert((ids + page)[ids.len() + k] == y);
        }
        if (ids + page).contains(y) {
            let k = choose|k: int| 0 <= k < (ids + page).len() && (ids + page)[k] == y;
            if k < ids.len() {
                assert(ids[k] == y);
            } else {
                assert(page[k - ids.len()] == y);
            }
        }
    }
    assert forall|i: int| 0 <= i < page.len() implies page.contains(#[trigger] page[i]) by {}
}

} // verus!
