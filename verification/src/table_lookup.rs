//! Per-column lookups in the table state, filter-value construction and labels.

use vstd::prelude::*;
use crate::keyed::first_with_key;
use crate::table_state::{
    ColumnKeyed, DataTableColumnSizeState, DataTableColumnVisibilityState, DataTableFilterState,
    DataTableFilterValue, DataTableSortDirection, DataTableSortState, DataTableState, FilterValueView,
    opt_view,
};
use crate::table_rows::DataTableRangeFilterKind;
use crate::text::{push_str};

verus! {

/// The last entry of `s` whose column is `k`.
pub open spec fn last_with_key<T: ColumnKeyed>(s: Seq<T::V>, k: Seq<char>) -> Option<T::V>
    decreases s.len(),
{
    if s.len() == 0 {
        None
    } else if T::key_of(s.last()) == k {
        Some(s.last())
    } else {
        last_with_key::<T>(s.drop_last(), k)
    }
}

/// The index of the last entry of `v` belonging to column `col`.
pub fn rfind_key<T: ColumnKeyed>(v: &Vec<T>, col: &String) -> (r: Option<usize>)
    ensures
        match r {
            Some(i) => i < v.len() && last_with_key::<T>(v.deep_view(), col@) == Some(
                v@[i as int].deep_view(),
            ),
            None => last_with_key::<T>(v.deep_view(), col@) is None,
        },
{
    let mut j: usize = v.len();
    let ghost s = v.deep_view();
    assert(s.take(j as int) =~= s);
    while j > 0
        invariant
            j <= v.len(),
            s == v.deep_view(),
            last_with_key::<T>(s.take(j as int), col@) == last_with_key::<T>(s, col@),
        decreases j,
    {
        assert(s.take(j as int).last() == v@[j - 1].deep_view());
        assert(s.take(j as int).drop_last() =~= s.take(j - 1));
        if *v[j - 1].column_key() == *col {
            return Some(j - 1);
        }
        j = j - 1;
    }
    None
}

/// Whether a column is visible: the last visibility override of the column
/// decides; a column without override is visible.
pub open spec fn column_visible_spec(visibility: Seq<(Seq<char>, bool)>, column: Seq<char>) -> bool {
    match last_with_key::<DataTableColumnVisibilityState>(visibility, column) {
        Some(entry) => entry.1,
        None => true,
    }
}

/// Tells whether the column with id `column_id` is visible.
pub fn is_column_visible(column_id: &String, state: &DataTableState) -> (b: bool)
    ensures
        b == column_visible_spec(state.column_visibility.deep_view(), column_id@),
{
    match rfind_key(&state.column_visibility, column_id) {
        Some(i) => state.column_visibility[i].visible,
        None => true,
    }
}

/// The active filter of a column: the value of its last filter entry.
pub fn active_filter<'a>(column_id: &String, state: &'a DataTableState) -> (r: Option<
    &'a DataTableFilterValue,
>)
    ensures
        match r {
            Some(v) => (last_with_key::<DataTableFilterState>(state.filters.deep_view(), column_id@)
                matches Some(entry) && entry.1 == v.deep_view()),
            None => last_with_key::<DataTableFilterState>(state.filters.deep_view(), column_id@) is None,
        },
{
    match rfind_key(&state.filters, column_id) {
        Some(i) => Some(&state.filters[i].value),
        None => None,
    }
}

/// The width override of a column: the width of its last sizing entry (`None`
/// inside when that entry clears the override).
pub fn column_width_override(column_id: &String, state: &DataTableState) -> (r: Option<Option<u64>>)
    ensures
        match last_with_key::<DataTableColumnSizeState>(state.column_sizing.deep_view(), column_id@) {
            Some(entry) => r == Some(entry.1),
            None => r is None,
        },
{
    match rfind_key(&state.column_sizing, column_id) {
        Some(i) => Some(state.column_sizing[i].width),
        None => None,
    }
}

/// The `aria-sort` value of a column: the direction of its first sort entry.
pub fn aria_sort(column_id: &String, state: &DataTableState) -> (r: Option<&'static str>)
    ensures
        match first_with_key::<DataTableSortState>(state.sorting.deep_view(), column_id@) {
            Some(entry) => r is Some && r->0@ == (if entry.1 == DataTableSortDirection::Ascending {
                "ascending"@
            } else {
                "descending"@
            }),
            None => r is None,
        },
{
    match crate::keyed::find_key(&state.sorting, column_id) {
        Some(i) => match state.sorting[i].direction {
            DataTableSortDirection::Ascending => Some("ascending"),
            DataTableSortDirection::Descending => Some("descending"),
        },
        None => None,
    }
}

/// The range filter for the two bound inputs: empty inputs are absent bounds, and
/// no filter when both are empty.
pub fn range_filter_value(min: String, max: String) -> (r: Option<DataTableFilterValue>)
    ensures
        (min@.len() == 0 && max@.len() == 0) ==> r is None,
        !(min@.len() == 0 && max@.len() == 0) ==> (r is Some && r->0.deep_view()
            == FilterValueView::Range(
            if min@.len() == 0 { None } else { Some(min@) },
            if max@.len() == 0 { None } else { Some(max@) },
        )),
{
    let min = if min.as_str().is_empty() { None } else { Some(min) };
    let max = if max.as_str().is_empty() { None } else { Some(max) };
    if min.is_none() && max.is_none() {
        None
    } else {
        Some(DataTableFilterValue::Range { min, max })
    }
}

/// The strings of a list joined by `, `.
pub open spec fn comma_joined(values: Seq<Seq<char>>) -> Seq<char>
    decreases values.len(),
{
    if values.len() == 0 {
        Seq::empty()
    } else if values.len() == 1 {
        values[0]
    } else {
        comma_joined(values.drop_last()) + ", "@ + values.last()
    }
}

/// The chip label of a filter value.
pub open spec fn filter_value_label_spec(v: FilterValueView) -> Seq<char> {
    match v {
        FilterValueView::Text(t) => t,
        FilterValueView::Option(t) => t,
        FilterValueView::Multiple(vs) => comma_joined(vs),
        FilterValueView::Boolean(b) => if b { "Yes"@ } else { "No"@ },
        FilterValueView::Range(min, max) => match (min, max) {
            (Some(lo), Some(hi)) => lo + " - "@ + hi,
            (Some(lo), None) => "From "@ + lo,
            (None, Some(hi)) => "To "@ + hi,
            (None, None) => Seq::empty(),
        },
    }
}

/// Renders the chip label of a filter value.
pub fn filter_value_label(value: &DataTableFilterValue) -> (r: String)
    ensures
        r@ == filter_value_label_spec(value.deep_view()),
{
    let mut out = String::new();
    match value {
        DataTableFilterValue::Text(v) => {
            push_str(&mut out, v.as_str());
        },
        DataTableFilterValue::Option(v) => {
            push_str(&mut out, v.as_str());
        },
        DataTableFilterValue::Multiple(values) => {
            let mut i: usize = 0;
            assert(values.deep_view().take(0) =~= Seq::<Seq<char>>::empty());
            while i < values.len()
                invariant
                    i <= values.len(),
                    out@ == comma_joined(values.deep_view().take(i as int)),
                decreases values.len() - i,
            {
                assert(values.deep_view().take(i + 1).drop_last() =~= values.deep_view().take(
                    i as int,
                ));
                assert(values.deep_view().take(i + 1).last() == values@[i as int]@);
                if i > 0 {
                    push_str(&mut out, ", ");
                }
                push_str(&mut out, values[i].as_str());
                proof {
                    if i == 0 {
                        assert(values.deep_view().take(1)[0] == values@[0]@);
                        assert(out@ =~= values@[0]@);
                    }
                }
                i = i + 1;
            }
            assert(values.deep_view().take(i as int) =~= values.deep_view());
        },
        DataTableFilterValue::Boolean(b) => {
            if *b {
                push_str(&mut out, "Yes");
            } else {
                push_str(&mut out, "No");
            }
        },
        DataTableFilterValue::Range { min, max } => {
            match (min, max) {
                (Some(lo), Some(hi)) => {
                    push_str(&mut out, lo.as_str());
                    push_str(&mut out, " - ");
                    push_str(&mut out, hi.as_str());
                },
                (Some(lo), None) => {
                    push_str(&mut out, "From ");
                    push_str(&mut out, lo.as_str());
                },
                (None, Some(hi)) => {
                    push_str(&mut out, "To ");
                    push_str(&mut out, hi.as_str());
                },
                (None, None) => {},
            }
        },
    }
    assert(out@ =~= filter_value_label_spec(value.deep_view()));
    out
}

/// Horizontal alignment of a column's cells.
#[derive(Clone, Copy, PartialEq, Eq, Debug)]
pub enum DataTableColumnAlign {
    Start,
    Center,
    End,
}

/// The `data-align` value of a column with the given alignment.
pub fn column_align(align: Option<DataTableColumnAlign>) -> (r: Option<&'static str>)
    ensures
        align is None ==> r is None,
        align == Some(DataTableColumnAlign::Start) ==> r is Some && r->0@ == "start"@,
        align == Some(DataTableColumnAlign::Center) ==> r is Some && r->0@ == "center"@,
        align == Some(DataTableColumnAlign::End) ==> r is Some && r->0@ == "end"@,
{
    match align {
        Some(DataTableColumnAlign::Start) => Some("start"),
        Some(DataTableColumnAlign::Center) => Some("center"),
        Some(DataTableColumnAlign::End) => Some("end"),
        None => None,
    }
}

/// A column's id and, when its header is plain text, that text.
pub struct DataTableColumnLabel {
    pub id: String,
    pub header_text: Option<String>,
}

/// The label a column is named by: its text header, or its id when the header
/// is rendered.
pub open spec fn label_of(c: DataTableColumnLabel) -> Seq<char> {
    match c.header_text {
        Some(t) => t@,
        None => c.id@,
    }
}

/// The label of a column.
pub fn column_label(column: &DataTableColumnLabel) -> (r: String)
    ensures
        r@ == label_of(*column),
{
    match &column.header_text {
        Some(t) => t.clone(),
        None => column.id.clone(),
    }
}

/// The index of the first column with id `id`.
pub open spec fn first_label_index(columns: Seq<DataTableColumnLabel>, id: Seq<char>) -> Option<int>
    decreases columns.len(),
{
    if columns.len() == 0 {
        None
    } else if columns[0].id@ == id {
        Some(0)
    } else {
        match first_label_index(columns.skip(1), id) {
            Some(i) => Some(i + 1),
            None => None,
        }
    }
}

/// The label an active filter chip shows for a column: the label of the first
/// column with that id, or the id itself when there is no such column.
pub fn filter_label(columns: &Vec<DataTableColumnLabel>, column_id: &String) -> (r: String)
    ensures
        r@ == match first_label_index(columns@, column_id@) {
            Some(i) => label_of(columns@[i]),
            None => column_id@,
        },
{
    let ghost s = columns@;
    let mut j: usize = 0;
    assert(s.skip(0) =~= s);
    while j < columns.len()
        invariant
            j <= columns.len(),
            s == columns@,
            first_label_index(s, column_id@) == match first_label_index(s.skip(j as int), column_id@) {
                Some(i) => Some(i + j),
                None => None::<int>,
            },
        decreases columns.len() - j,
    {
        assert(s.skip(j as int)[0] == s[j as int]);
        assert(s.skip(j as int).skip(1) =~= s.skip(j + 1));
        if columns[j].id == *column_id {
            return column_label(&columns[j]);
        }
        j = j + 1;
    }
    assert(s.skip(j as int) =~= Seq::<DataTableColumnLabel>::empty());
    column_id.clone()
}

/// The filter a text control sets: none for an empty text, otherwise a text
/// filter.
pub fn text_filter_value(value: String) -> (r: Option<DataTableFilterValue>)
    ensures
        value@.len() == 0 ==> r is None,
        value@.len() > 0 ==> r is Some && r->0.deep_view() == FilterValueView::Text(value@),
{
    if value.as_str().is_empty() {
        None
    } else {
        Some(DataTableFilterValue::Text(value))
    }
}

/// The filter a single-select control sets: none for no choice or the empty
/// "All" choice, otherwise an option filter.
pub fn option_filter_value(value: Option<String>) -> (r: Option<DataTableFilterValue>)
    ensures
        match value {
            Some(v) => if v@.len() > 0 {
                r is Some && r->0.deep_view() == FilterValueView::Option(v@)
            } else {
                r is None
            },
            None => r is None,
        },
{
    match value {
        Some(v) => if v.as_str().is_empty() {
            None
        } else {
            Some(DataTableFilterValue::Option(v))
        },
        None => None,
    }
}

/// The filter a multi-select control sets: none when nothing is chosen,
/// otherwise the chosen options.
pub fn multiple_filter_value(values: Vec<String>) -> (r: Option<DataTableFilterValue>)
    ensures
        values.len() == 0 ==> r is None,
        values.len() > 0 ==> r is Some && r->0.deep_view() == FilterValueView::Multiple(values.deep_view()),
{
    if values.len() == 0 {
        None
    } else {
        Some(DataTableFilterValue::Multiple(values))
    }
}

/// The filter a boolean control sets: `true` and `false` give a boolean filter,
/// anything else (the "All" choice) gives none.
pub fn boolean_filter_value(value: Option<&str>) -> (r: Option<DataTableFilterValue>)
    ensures
        value matches Some(v) && v@ == "true"@ ==> r == Some(DataTableFilterValue::Boolean(true)),
        value matches Some(v) && v@ == "false"@ ==> r == Some(DataTableFilterValue::Boolean(false)),
        !(value matches Some(v) && (v@ == "true"@ || v@ == "false"@)) ==> r is None,
{
    match value {
        Some(v) => {
            let t = crate::text::string_of_str("true");
            let f = crate::text::string_of_str("false");
            let s = crate::text::string_of_str(v);
            proof {
                reveal_strlit("true");
                reveal_strlit("false");
                assert("true"@[0] != "false"@[0]);
            }
            if s == t {
                Some(DataTableFilterValue::Boolean(true))
            } else if s == f {
                Some(DataTableFilterValue::Boolean(false))
            } else {
                None
            }
        },
        None => None,
    }
}

/// The value a boolean control shows for the active filter: `true`, `false`,
/// or empty when the filter is not a boolean one.
pub fn boolean_control_value(filter: Option<&DataTableFilterValue>) -> (r: &'static str)
    ensures
        filter matches Some(v) && v.deep_view() == FilterValueView::Boolean(true) ==> r@ == "true"@,
        filter matches Some(v) && v.deep_view() == FilterValueView::Boolean(false) ==> r@ == "false"@,
        !(filter matches Some(v) && v.deep_view() is Boolean) ==> r@ == ""@,
{
    match filter {
        Some(DataTableFilterValue::Boolean(true)) => "true",
        Some(DataTableFilterValue::Boolean(false)) => "false",
        _ => "",
    }
}

/// The input type of a range filter's bound fields.
pub fn range_input_type(kind: DataTableRangeFilterKind) -> (r: &'static str)
    ensures
        kind == DataTableRangeFilterKind::Number ==> r@ == "number"@,
        kind == DataTableRangeFilterKind::Text ==> r@ == "text"@,
        kind == DataTableRangeFilterKind::DateTime ==> r@ == "datetime-local"@,
{
    match kind {
        DataTableRangeFilterKind::Number => "number",
        DataTableRangeFilterKind::Text => "text",
        DataTableRangeFilterKind::DateTime => "datetime-local",
    }
}

} // verus!
