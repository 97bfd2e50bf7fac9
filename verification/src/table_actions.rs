//! State transitions of the data table: canonicalization of each state part and
//! the reducer that applies an action.

use vstd::prelude::*;
use crate::keyed::{dedupe_keyed, drop_key, without_key};
use crate::seqs::{
    dedup, dedup_by, keep_first_by, keys_distinct, lemma_keep_first_distinct, lemma_keep_first_prefix,
    same,
};
use crate::table_state::{default_state_view, ColumnKeyed};
use crate::table_query::{fingerprint_text, query_fingerprint};
use crate::table_state::{
    column_key_fn, opt_view, ActionView, DataTableAction, DataTableColumnPinningState,
    DataTableColumnSizeState, DataTableColumnVisibilityState, DataTableFilterState,
    DataTableRowSelectionState, DataTableSortState, DataTableState, SelectionView, StateView,
};

verus! {

/// Removes repeated strings, keeping the first occurrence of each.
pub fn dedupe_strings(values: Vec<String>) -> (r: Vec<String>)
    ensures
        r.deep_view() == dedup(values.deep_view()),
{
    let r = dedupe_keyed(&values);
    assert(column_key_fn::<String>() =~= same::<Seq<char>>());
    r
}

/// Keeps the first sort entry of each column.
pub fn dedupe_by_column(states: Vec<DataTableSortState>) -> (r: Vec<DataTableSortState>)
    ensures
        r.deep_view() == dedup_by(states.deep_view(), column_key_fn::<DataTableSortState>()),
{
    dedupe_keyed(&states)
}

/// Keeps the first filter of each column.
pub fn canonicalize_filters(filters: Vec<DataTableFilterState>) -> (r: Vec<DataTableFilterState>)
    ensures
        r.deep_view() == dedup_by(filters.deep_view(), column_key_fn::<DataTableFilterState>()),
{
    dedupe_keyed(&filters)
}

/// Canonical pinning: each column id once, a column pinned left is not also pinned right.
pub open spec fn canonical_pinning(p: (Seq<Seq<char>>, Seq<Seq<char>>)) -> (
    Seq<Seq<char>>,
    Seq<Seq<char>>,
) {
    let left = dedup(p.0);
    (left, keep_first_by(left, p.1, same::<Seq<char>>()).skip(left.len() as int))
}

/// Removes repeated ids from the pinning lists; an id pinned left is dropped from the
/// right side.
pub fn canonicalize_pinning(pinning: &DataTableColumnPinningState) -> (r: DataTableColumnPinningState)
    ensures
        r.deep_view() == canonical_pinning(pinning.deep_view()),
{
    let left = dedupe_keyed(&pinning.left);
    let ghost key = same::<Seq<char>>();
    assert(column_key_fn::<String>() =~= key);
    let mut seen = dedupe_keyed(&pinning.left);
    let mut right: Vec<String> = Vec::new();
    let mut i: usize = 0;
    let ghost rv = pinning.right.deep_view();
    assert(rv.skip(0) =~= rv);
    assert(seen.deep_view() + right.deep_view() =~= left.deep_view());
    while i < pinning.right.len()
        invariant
            i <= pinning.right.len(),
            rv == pinning.right.deep_view(),
            key == same::<Seq<char>>(),
            seen.deep_view() == left.deep_view() + right.deep_view(),
            keep_first_by(seen.deep_view(), rv.skip(i as int), key) == keep_first_by(
                left.deep_view(),
                rv,
                key,
            ),
        decreases pinning.right.len() - i,
    {
        let id = pinning.right[i].clone();
        assert(rv.skip(i as int)[0] == id@);
        assert(rv.skip(i as int).skip(1) =~= rv.skip(i + 1));
        assert(seen.deep_view().map_values(key) =~= seen.deep_view());
        if !crate::text::contains_string(&seen, &id) {
            let ghost s0 = seen.deep_view();
            let ghost r0 = right.deep_view();
            seen.push(id.clone());
            right.push(id);
            assert(seen.deep_view() =~= s0.push(rv[i as int]));
            assert(right.deep_view() =~= r0.push(rv[i as int]));
        }
        i = i + 1;
    }
    assert(keep_first_by(left.deep_view(), rv, key).skip(left.deep_view().len() as int)
        =~= right.deep_view());
    DataTableColumnPinningState { left, right }
}

/// Canonical selection: each row id listed once.
pub open spec fn canonical_selection(sel: SelectionView) -> SelectionView {
    match sel {
        SelectionView::Explicit(rows) => SelectionView::Explicit(dedup(rows)),
        SelectionView::AllMatching(q, except) => SelectionView::AllMatching(q, dedup(except)),
    }
}

/// Removes repeated row ids from a selection.
pub fn canonicalize_selection(selection: DataTableRowSelectionState) -> (r: DataTableRowSelectionState)
    ensures
        r.deep_view() == canonical_selection(selection.deep_view()),
{
    match selection {
        DataTableRowSelectionState::Explicit { rows } => DataTableRowSelectionState::Explicit {
            rows: dedupe_strings(rows),
        },
        DataTableRowSelectionState::AllMatching { query, except } => {
            DataTableRowSelectionState::AllMatching { query, except: dedupe_strings(except) }
        },
    }
}

/// An all-matching selection becomes an empty explicit selection.
pub open spec fn cleared_all_matching(sel: SelectionView) -> SelectionView {
    match sel {
        SelectionView::AllMatching(_, _) => SelectionView::Explicit(Seq::empty()),
        _ => sel,
    }
}

/// An all-matching selection of another query than the state's becomes an empty
/// explicit selection.
pub open spec fn cleared_stale(s: StateView) -> SelectionView {
    match s.row_selection {
        SelectionView::AllMatching(q, _) => if q != fingerprint_text(s.filters, s.global_filter) {
            SelectionView::Explicit(Seq::empty())
        } else {
            s.row_selection
        },
        _ => s.row_selection,
    }
}

fn empty_selection() -> (r: DataTableRowSelectionState)
    ensures
        r.deep_view() == SelectionView::Explicit(Seq::empty()),
{
    let rows: Vec<String> = Vec::new();
    assert(rows.deep_view() =~= Seq::<Seq<char>>::empty());
    DataTableRowSelectionState::Explicit { rows }
}

/// Drops an all-matching selection.
pub fn clear_all_matching_selection(state: &mut DataTableState)
    ensures
        final(state).deep_view() == (StateView {
            row_selection: cleared_all_matching(old(state).deep_view().row_selection),
            ..old(state).deep_view()
        }),
{
    if let DataTableRowSelectionState::AllMatching { .. } = state.row_selection {
        state.row_selection = empty_selection();
    }
}

/// Drops an all-matching selection whose query is no longer the state's query.
pub fn clear_stale_all_matching_selection(state: &mut DataTableState)
    ensures
        final(state).deep_view() == (StateView {
            row_selection: cleared_stale(old(state).deep_view()),
            ..old(state).deep_view()
        }),
{
    let query = query_fingerprint(state);
    let stale = match &state.row_selection {
        DataTableRowSelectionState::AllMatching { query: active, .. } => *active != query,
        _ => false,
    };
    if stale {
        state.row_selection = empty_selection();
    }
}

/// `s` with its page set.
pub open spec fn with_page(s: StateView, page: u32) -> StateView {
    StateView { pagination: crate::table_state::DataTablePaginationState { page, ..s.pagination }, ..s }
}

pub open spec fn max_u32(a: u32, b: u32) -> u32 {
    if a >= b { a } else { b }
}

pub open spec fn max_u64(a: u64, b: u64) -> u64 {
    if a >= b { a } else { b }
}

/// The state an action leads to.
pub open spec fn apply_action_spec(s: StateView, a: ActionView) -> StateView {
    match a {
        ActionView::SetPage(page) => with_page(s, max_u32(page, 1)),
        ActionView::SetPageSize(size) => StateView {
            pagination: crate::table_state::DataTablePaginationState {
                page: 1,
                page_size: max_u64(size, 1),
            },
            ..s
        },
        ActionView::SetSorting(sorting) => StateView {
            sorting: dedup_by(sorting, column_key_fn::<DataTableSortState>()),
            ..s
        },
        ActionView::SetFilter(column, value) => {
            let kept = drop_key::<DataTableFilterState>(s.filters, column);
            let filters = match value {
                Some(v) => kept.push((column, v)),
                None => kept,
            };
            let t = StateView { filters, ..with_page(s, 1) };
            StateView { row_selection: cleared_stale(t), ..t }
        },
        ActionView::SetGlobalFilter(value) => {
            let t = StateView { global_filter: value, ..with_page(s, 1) };
            StateView { row_selection: cleared_stale(t), ..t }
        },
        ActionView::SetColumnVisibility(column, visible) => StateView {
            column_visibility: drop_key::<DataTableColumnVisibilityState>(
                s.column_visibility,
                column,
            ).push((column, visible)),
            row_selection: cleared_all_matching(s.row_selection),
            ..s
        },
        ActionView::SetColumnOrder(columns) => StateView { column_order: dedup(columns), ..s },
        ActionView::SetColumnPinning(p) => StateView { column_pinning: canonical_pinning(p), ..s },
        ActionView::SetColumnSize(column, width) => StateView {
            column_sizing: drop_key::<DataTableColumnSizeState>(s.column_sizing, column).push(
                (column, width),
            ),
            ..s
        },
        ActionView::SetRowSelection(sel) => StateView { row_selection: canonical_selection(sel), ..s },
        ActionView::SetExpandedRows(rows) => StateView { expanded_rows: dedup(rows), ..s },
        ActionView::ResetFilters => {
            let t = StateView { filters: Seq::empty(), global_filter: None, ..with_page(s, 1) };
            StateView { row_selection: cleared_stale(t), ..t }
        },
        ActionView::ResetColumnState => StateView {
            column_visibility: Seq::empty(),
            column_order: Seq::empty(),
            column_pinning: (Seq::empty(), Seq::empty()),
            column_sizing: Seq::empty(),
            row_selection: cleared_all_matching(s.row_selection),
            ..s
        },
    }
}

/// Applies an action to a table state, returning the next canonical state.
pub fn apply_action(state: &DataTableState, action: DataTableAction) -> (next: DataTableState)
    ensures
        next.deep_view() == apply_action_spec(state.deep_view(), action.deep_view()),
{
    let ghost a = action.deep_view();
    let mut next = state.clone();
    match action {
        DataTableAction::SetPage { page } => {
            next.pagination.page = if page >= 1 { page } else { 1 };
        },
        DataTableAction::SetPageSize { page_size } => {
            next.pagination.page = 1;
            next.pagination.page_size = if page_size >= 1 { page_size } else { 1 };
        },
        DataTableAction::SetSorting { sorting } => {
            next.sorting = dedupe_by_column(sorting);
        },
        DataTableAction::SetFilter { column, value } => {
            next.pagination.page = 1;
            next.filters = without_key(&next.filters, &column);
            if let Some(value) = value {
                let ghost before = next.filters.deep_view();
                let entry = DataTableFilterState { column, value };
                let ghost ev = entry.deep_view();
                next.filters.push(entry);
                assert(next.filters.deep_view() =~= before.push(ev));
            }
            clear_stale_all_matching_selection(&mut next);
        },
        DataTableAction::SetGlobalFilter { value } => {
            next.pagination.page = 1;
            next.global_filter = value;
            clear_stale_all_matching_selection(&mut next);
        },
        DataTableAction::SetColumnVisibility { column, visible } => {
            next.column_visibility = without_key(&next.column_visibility, &column);
            let ghost before = next.column_visibility.deep_view();
            let entry = DataTableColumnVisibilityState { column, visible };
            let ghost ev = entry.deep_view();
            next.column_visibility.push(entry);
            assert(next.column_visibility.deep_view() =~= before.push(ev));
            clear_all_matching_selection(&mut next);
        },
        DataTableAction::SetColumnOrder { columns } => {
            next.column_order = dedupe_strings(columns);
        },
        DataTableAction::SetColumnPinning { pinning } => {
            next.column_pinning = canonicalize_pinning(&pinning);
        },
        DataTableAction::SetColumnSize { column, width } => {
            next.column_sizing = without_key(&next.column_sizing, &column);
            let ghost before = next.column_sizing.deep_view();
            let entry = DataTableColumnSizeState { column, width };
            let ghost ev = entry.deep_view();
            next.column_sizing.push(entry);
            assert(next.column_sizing.deep_view() =~= before.push(ev));
        },
        DataTableAction::SetRowSelection { selection } => {
            next.row_selection = canonicalize_selection(selection);
        },
        DataTableAction::SetExpandedRows { rows } => {
            next.expanded_rows = dedupe_strings(rows);
        },
        DataTableAction::ResetFilters => {
            next.pagination.page = 1;
            next.filters = Vec::new();
            next.global_filter = None;
            assert(next.filters.deep_view() =~= Seq::empty());
            clear_stale_all_matching_selection(&mut next);
        },
        DataTableAction::ResetColumnState => {
            next.column_visibility = Vec::new();
            next.column_order = Vec::new();
            next.column_pinning = DataTableColumnPinningState::default();
            next.column_sizing = Vec::new();
            assert(next.column_visibility.deep_view() =~= Seq::empty());
            assert(next.column_order.deep_view() =~= Seq::empty());
            assert(next.column_sizing.deep_view() =~= Seq::empty());
            clear_all_matching_selection(&mut next);
        },
    }
    next
}


/// Whether a state is canonical: pages are at least one, every per-column list
/// holds each column once, column order, expanded rows and selected or excepted rows
/// hold each id once, and no column is pinned twice or on both sides.
pub open spec fn canonical_state(s: StateView) -> bool {
    &&& s.pagination.page >= 1
    &&& s.pagination.page_size >= 1
    &&& keys_distinct(s.sorting, column_key_fn::<DataTableSortState>())
    &&& keys_distinct(s.filters, column_key_fn::<DataTableFilterState>())
    &&& keys_distinct(s.column_visibility, column_key_fn::<DataTableColumnVisibilityState>())
    &&& keys_distinct(s.column_sizing, column_key_fn::<DataTableColumnSizeState>())
    &&& s.column_order.no_duplicates()
    &&& (s.column_pinning.0 + s.column_pinning.1).no_duplicates()
    &&& match s.row_selection {
        SelectionView::Explicit(rows) => rows.no_duplicates(),
        SelectionView::AllMatching(_, except) => except.no_duplicates(),
    }
    &&& s.expanded_rows.no_duplicates()
}

proof fn lemma_dedup_by_distinct<A, K>(s: Seq<A>, key: spec_fn(A) -> K)
    ensures
        keys_distinct(dedup_by(s, key), key),
{
    assert(Seq::<A>::empty().map_values(key) =~= Seq::<K>::empty());
    lemma_keep_first_distinct(Seq::<A>::empty(), s, key);
}

proof fn lemma_same_map<A>(s: Seq<A>)
    ensures
        s.map_values(same::<A>()) == s,
{
    assert(s.map_values(same::<A>()) =~= s);
}

proof fn lemma_dedup_distinct<A>(s: Seq<A>)
    ensures
        dedup(s).no_duplicates(),
{
    lemma_dedup_by_distinct(s, same::<A>());
    lemma_same_map(dedup(s));
}

proof fn lemma_drop_key<T: ColumnKeyed>(s: Seq<T::V>, k: Seq<char>)
    requires
        keys_distinct(s, column_key_fn::<T>()),
    ensures
        keys_distinct(drop_key::<T>(s, k), column_key_fn::<T>()),
        forall|i: int|
            0 <= i < drop_key::<T>(s, k).len() ==> T::key_of(#[trigger] drop_key::<T>(s, k)[i])
                != k && s.map_values(column_key_fn::<T>()).contains(
                T::key_of(drop_key::<T>(s, k)[i]),
            ),
    decreases s.len(),
{
    let key = column_key_fn::<T>();
    if s.len() > 0 {
        assert(s.skip(1).map_values(key) =~= s.map_values(key).skip(1));
        lemma_drop_key::<T>(s.skip(1), k);
        let d = drop_key::<T>(s.skip(1), k);
        assert forall|i: int| 0 <= i < d.len() implies s.map_values(key).contains(
            T::key_of(#[trigger] d[i]),
        ) by {
            let j = choose|j: int|
                0 <= j < s.skip(1).len() && s.skip(1).map_values(key)[j] == T::key_of(d[i]);
            assert(s.map_values(key)[j + 1] == T::key_of(d[i]));
        }
        if T::key_of(s[0]) != k {
            let r = seq![s[0]] + d;
            assert forall|i: int| 0 <= i < r.len() implies T::key_of(#[trigger] r[i]) != k
                && s.map_values(key).contains(T::key_of(r[i])) by {
                if i == 0 {
                    assert(s.map_values(key)[0] == T::key_of(r[0]));
                } else {
                    assert(r[i] == d[i - 1]);
                }
            }
            assert forall|i: int, j: int|
                0 <= i < j < r.len() implies r.map_values(key)[i] != r.map_values(key)[j] by {
                if i == 0 {
                    assert(r[j] == d[j - 1]);
                    let m = choose|m: int|
                        0 <= m < s.skip(1).len() && s.skip(1).map_values(key)[m] == T::key_of(
                            d[j - 1],
                        );
                    assert(s.map_values(key)[m + 1] == T::key_of(d[j - 1]));
                    assert(s.map_values(key)[0] == T::key_of(s[0]));
                } else {
                    assert(r.map_values(key)[i] == d.map_values(key)[i - 1]);
                    assert(r.map_values(key)[j] == d.map_values(key)[j - 1]);
                }
            }
        }
    }
}

proof fn lemma_drop_key_push<T: ColumnKeyed>(s: Seq<T::V>, k: Seq<char>, v: T::V)
    requires
        keys_distinct(s, column_key_fn::<T>()),
        T::key_of(v) == k,
    ensures
        keys_distinct(drop_key::<T>(s, k).push(v), column_key_fn::<T>()),
{
    let key = column_key_fn::<T>();
    lemma_drop_key::<T>(s, k);
    let d = drop_key::<T>(s, k);
    let r = d.push(v);
    assert forall|i: int, j: int|
        0 <= i < j < r.len() implies r.map_values(key)[i] != r.map_values(key)[j] by {
        if j == d.len() {
            assert(r[i] == d[i]);
        } else {
            assert(r.map_values(key)[i] == d.map_values(key)[i]);
            assert(r.map_values(key)[j] == d.map_values(key)[j]);
        }
    }
}

proof fn lemma_canonical_pinning(p: (Seq<Seq<char>>, Seq<Seq<char>>))
    ensures
        (canonical_pinning(p).0 + canonical_pinning(p).1).no_duplicates(),
{
    let left = dedup(p.0);
    let key = same::<Seq<char>>();
    lemma_dedup_distinct(p.0);
    lemma_same_map(left);
    lemma_keep_first_distinct(left, p.1, key);
    lemma_keep_first_prefix(left, p.1, key);
    let all = keep_first_by(left, p.1, key);
    lemma_same_map(all);
    assert(left + all.skip(left.len() as int) =~= all);
}

/// Law: the state a table starts from is canonical.
pub proof fn law_default_state_canonical()
    ensures
        canonical_state(default_state_view()),
{
    assert(Seq::<(Seq<char>, crate::table_state::DataTableSortDirection)>::empty().map_values(
        column_key_fn::<DataTableSortState>(),
    ) =~= Seq::empty());
    assert(Seq::<(Seq<char>, crate::table_state::FilterValueView)>::empty().map_values(
        column_key_fn::<DataTableFilterState>(),
    ) =~= Seq::empty());
    assert(Seq::<(Seq<char>, bool)>::empty().map_values(
        column_key_fn::<DataTableColumnVisibilityState>(),
    ) =~= Seq::empty());
    assert(Seq::<(Seq<char>, Option<u64>)>::empty().map_values(
        column_key_fn::<DataTableColumnSizeState>(),
    ) =~= Seq::empty());
    assert(Seq::<Seq<char>>::empty() + Seq::<Seq<char>>::empty() =~= Seq::<Seq<char>>::empty());
}

/// Law: every action keeps a canonical state canonical.
pub proof fn law_apply_action_keeps_canonical(s: StateView, a: ActionView)
    requires
        canonical_state(s),
    ensures
        canonical_state(apply_action_spec(s, a)),
{
    match a {
        ActionView::SetSorting(sorting) => {
            lemma_dedup_by_distinct(sorting, column_key_fn::<DataTableSortState>());
        },
        ActionView::SetFilter(column, value) => {
            lemma_drop_key::<DataTableFilterState>(s.filters, column);
            if let Some(v) = value {
                lemma_drop_key_push::<DataTableFilterState>(s.filters, column, (column, v));
            }
        },
        ActionView::SetColumnVisibility(column, visible) => {
            lemma_drop_key_push::<DataTableColumnVisibilityState>(
                s.column_visibility,
                column,
                (column, visible),
            );
        },
        ActionView::SetColumnOrder(columns) => {
            lemma_dedup_distinct(columns);
        },
        ActionView::SetColumnPinning(p) => {
            lemma_canonical_pinning(p);
        },
        ActionView::SetColumnSize(column, width) => {
            lemma_drop_key_push::<DataTableColumnSizeState>(s.column_sizing, column, (column, width));
        },
        ActionView::SetRowSelection(sel) => {
            match sel {
                SelectionView::Explicit(rows) => lemma_dedup_distinct(rows),
                SelectionView::AllMatching(_, except) => lemma_dedup_distinct(except),
            }
        },
        ActionView::SetExpandedRows(rows) => {
            lemma_dedup_distinct(rows);
        },
        ActionView::ResetFilters => {
            assert(Seq::<(Seq<char>, crate::table_state::FilterValueView)>::empty().map_values(
                column_key_fn::<DataTableFilterState>(),
            ) =~= Seq::empty());
        },
        ActionView::ResetColumnState => {
            assert(Seq::<(Seq<char>, bool)>::empty().map_values(
                column_key_fn::<DataTableColumnVisibilityState>(),
            ) =~= Seq::empty());
            assert(Seq::<(Seq<char>, Option<u64>)>::empty().map_values(
                column_key_fn::<DataTableColumnSizeState>(),
            ) =~= Seq::empty());
            assert(Seq::<Seq<char>>::empty() + Seq::<Seq<char>>::empty() =~= Seq::<Seq<char>>::empty());
        },
        _ => {},
    }
}

/// Whether an action changes which rows the query matches or how columns are
/// laid out, so that an all-matching selection may no longer describe the rows.
pub open spec fn changes_query_or_columns(a: ActionView) -> bool {
    ||| a is SetFilter
    ||| a is SetGlobalFilter
    ||| a is ResetFilters
    ||| a is SetColumnVisibility
    ||| a is ResetColumnState
}

/// Law: after an action that changes the query or the column layout, an
/// all-matching selection is left only when it selects the new state's own
/// query; after a column-layout change none is left at all.
pub proof fn law_query_changes_clear_stale_selection(s: StateView, a: ActionView)
    requires
        changes_query_or_columns(a),
    ensures
        ({
            let next = apply_action_spec(s, a);
            &&& (next.row_selection matches SelectionView::AllMatching(q, _) ==> q == fingerprint_text(
                next.filters,
                next.global_filter,
            ))
            &&& (a is SetColumnVisibility || a is ResetColumnState) ==> next.row_selection is Explicit
        }),
{
}

/// Law: the query fingerprint of a state depends on its column filters and its
/// global filter only; paging, sorting, column layout, selection and expansion
/// leave it unchanged.
pub proof fn law_fingerprint_reads_only_the_query(s: StateView, t: StateView)
    requires
        s.filters == t.filters,
        s.global_filter == t.global_filter,
    ensures
        fingerprint_text(s.filters, s.global_filter) == fingerprint_text(t.filters, t.global_filter),
{
}

/// Dropping a column from a list with an entry for it pushed at the end is
/// dropping it from the list.
proof fn lemma_drop_key_after_push<T: ColumnKeyed>(s: Seq<T::V>, k: Seq<char>, v: T::V)
    requires
        T::key_of(v) == k,
    ensures
        drop_key::<T>(s.push(v), k) == drop_key::<T>(s, k),
    decreases s.len(),
{
    let t = s.push(v);
    if s.len() == 0 {
        assert(t.skip(1) =~= Seq::<T::V>::empty());
        assert(t[0] == v);
        assert(drop_key::<T>(t.skip(1), k) == t.skip(1));
        assert(drop_key::<T>(t, k) == drop_key::<T>(t.skip(1), k));
        assert(drop_key::<T>(s, k) == s);
        assert(s =~= t.skip(1));
    } else {
        assert(t[0] == s[0]);
        assert(t.skip(1) =~= s.skip(1).push(v));
        lemma_drop_key_after_push::<T>(s.skip(1), k, v);
    }
}

/// Dropping a column twice is dropping it once.
proof fn lemma_drop_key_twice<T: ColumnKeyed>(s: Seq<T::V>, k: Seq<char>)
    ensures
        drop_key::<T>(drop_key::<T>(s, k), k) == drop_key::<T>(s, k),
    decreases s.len(),
{
    if s.len() > 0 {
        lemma_drop_key_twice::<T>(s.skip(1), k);
        if T::key_of(s[0]) != k {
            let d = seq![s[0]] + drop_key::<T>(s.skip(1), k);
            assert(d[0] == s[0]);
            assert(d.skip(1) =~= drop_key::<T>(s.skip(1), k));
        }
    }
}

/// Law: applying the same action twice leads to the state that applying it
/// once leads to.
pub proof fn law_apply_action_idempotent(s: StateView, a: ActionView)
    ensures
        apply_action_spec(apply_action_spec(s, a), a) == apply_action_spec(s, a),
{
    match a {
        ActionView::SetFilter(column, value) => {
            let kept = drop_key::<DataTableFilterState>(s.filters, column);
            lemma_drop_key_twice::<DataTableFilterState>(s.filters, column);
            if let Some(v) = value {
                lemma_drop_key_after_push::<DataTableFilterState>(kept, column, (column, v));
            }
            let first = apply_action_spec(s, a);
            assert(drop_key::<DataTableFilterState>(first.filters, column) == kept);
            assert(apply_action_spec(first, a) == first);
            assert(apply_action_spec(apply_action_spec(s, a), a) == apply_action_spec(s, a));
        },
        ActionView::SetColumnVisibility(column, visible) => {
            let kept = drop_key::<DataTableColumnVisibilityState>(s.column_visibility, column);
            lemma_drop_key_twice::<DataTableColumnVisibilityState>(s.column_visibility, column);
            lemma_drop_key_after_push::<DataTableColumnVisibilityState>(kept, column, (column, visible));
            let first = apply_action_spec(s, a);
            assert(drop_key::<DataTableColumnVisibilityState>(first.column_visibility, column) == kept);
            assert(cleared_all_matching(first.row_selection) == first.row_selection);
            assert(apply_action_spec(first, a) == first);
            assert(apply_action_spec(apply_action_spec(s, a), a) == apply_action_spec(s, a));
        },
        ActionView::SetColumnSize(column, width) => {
            let kept = drop_key::<DataTableColumnSizeState>(s.column_sizing, column);
            lemma_drop_key_twice::<DataTableColumnSizeState>(s.column_sizing, column);
            lemma_drop_key_after_push::<DataTableColumnSizeState>(kept, column, (column, width));
            let first = apply_action_spec(s, a);
            assert(drop_key::<DataTableColumnSizeState>(first.column_sizing, column) == kept);
            assert(apply_action_spec(first, a) == first);
            assert(apply_action_spec(apply_action_spec(s, a), a) == apply_action_spec(s, a));
        },
        ActionView::SetGlobalFilter(value) => {
            let first = apply_action_spec(s, a);
            assert(apply_action_spec(first, a) == first);
            assert(apply_action_spec(apply_action_spec(s, a), a) == apply_action_spec(s, a));
        },
        ActionView::ResetFilters => {
            let first = apply_action_spec(s, a);
            assert(apply_action_spec(first, a) == first);
            assert(apply_action_spec(apply_action_spec(s, a), a) == apply_action_spec(s, a));
        },
        _ => {
            assert(apply_action_spec(apply_action_spec(s, a), a) == apply_action_spec(s, a));
        },
    }
}

} // verus!
