//! The row model of the data table: cell values, column features, and the
//! filtering, sorting and paging stages applied to derived rows.

use vstd::prelude::*;
use crate::seqs::{
    law_sort_by_order_permutes, law_sort_by_order_sorted_on, lemma_lex_irreflexive, lemma_lex_total,
    lemma_lex_transitive, lemma_order_pos, lex_lt, order_pos, ordered_by, preorder_on, sort_by_order,
};
use crate::table_state::{
    DataTableFilterState, DataTableFilterValue, DataTableSortDirection, DataTableState, FilterValueView,
    opt_view,
};
use crate::text::{
    contains_string, contains_substring, has_substring, lowercase, push_str, str_lt, to_lowercase,
};

verus! {

/// Normalized column value used by built-in table features and default cells.
#[derive(Debug, PartialEq)]
pub enum DataTableValue {
    /// Text value.
    Text(String),
    /// Numeric value, held as a key whose unsigned order is the numeric order of the
    /// number (not-a-number last), with the text the number displays as.
    Number { order_key: u64, text: String },
    /// Boolean value.
    Boolean(bool),
    /// Sortable datetime string, preferably ISO 8601.
    DateTime(String),
    /// Empty value.
    Empty,
}

/// The model of a value.
pub enum ValueView {
    Text(Seq<char>),
    Number(u64, Seq<char>),
    Boolean(bool),
    DateTime(Seq<char>),
    Empty,
}

impl DeepView for DataTableValue {
    type V = ValueView;

    open spec fn deep_view(&self) -> ValueView {
        match self {
            DataTableValue::Text(s) => ValueView::Text(s@),
            DataTableValue::Number { order_key, text } => ValueView::Number(*order_key, text@),
            DataTableValue::Boolean(b) => ValueView::Boolean(*b),
            DataTableValue::DateTime(s) => ValueView::DateTime(s@),
            DataTableValue::Empty => ValueView::Empty,
        }
    }
}

impl Clone for DataTableValue {
    fn clone(&self) -> (r: Self)
        ensures
            r.deep_view() == self.deep_view(),
    {
        match self {
            DataTableValue::Text(s) => DataTableValue::Text(s.clone()),
            DataTableValue::Number { order_key, text } => DataTableValue::Number {
                order_key: *order_key,
                text: text.clone(),
            },
            DataTableValue::Boolean(b) => DataTableValue::Boolean(*b),
            DataTableValue::DateTime(s) => DataTableValue::DateTime(s.clone()),
            DataTableValue::Empty => DataTableValue::Empty,
        }
    }
}

/// The text a value displays as.
pub open spec fn value_text(v: ValueView) -> Seq<char> {
    match v {
        ValueView::Text(s) => s,
        ValueView::Number(_, t) => t,
        ValueView::Boolean(b) => if b { "true"@ } else { "false"@ },
        ValueView::DateTime(s) => s,
        ValueView::Empty => Seq::empty(),
    }
}

impl DataTableValue {
    /// The text this value displays as.
    pub fn to_text(&self) -> (r: String)
        ensures
            r@ == value_text(self.deep_view()),
    {
        let mut out = String::new();
        match self {
            DataTableValue::Text(s) => push_str(&mut out, s.as_str()),
            DataTableValue::Number { text, .. } => push_str(&mut out, text.as_str()),
            DataTableValue::Boolean(b) => if *b {
                push_str(&mut out, "true")
            } else {
                push_str(&mut out, "false")
            },
            DataTableValue::DateTime(s) => push_str(&mut out, s.as_str()),
            DataTableValue::Empty => {},
        }
        assert(out@ =~= value_text(self.deep_view()));
        out
    }
}

/// What a range filter compares.
#[derive(Clone, Copy, Debug, PartialEq, Eq)]
pub enum DataTableRangeFilterKind {
    /// Numeric range: numbers compared by value, through the order keys of the
    /// bounds that the host parses.
    Number,
    /// Text range, compared lexicographically.
    Text,
    /// Datetime range over sortable datetime strings, compared lexicographically.
    DateTime,
}

/// The order keys the host parsed from the bounds of the range filter of one
/// column: a bound the host could not read as a number has no key.
#[derive(Debug, PartialEq, Eq)]
pub struct RangeBoundKeys {
    pub column: String,
    pub min: Option<u64>,
    pub max: Option<u64>,
}

/// Filter kind of a column.
#[derive(Clone, Copy, Debug, PartialEq, Eq)]
pub enum DataTableColumnFilterKind {
    /// Case-insensitive text containment.
    Text,
    /// Single option equality.
    Select,
    /// Any of several options.
    MultiSelect,
    /// Boolean equality.
    Boolean,
    /// A range of the given kind.
    Range(DataTableRangeFilterKind),
    /// A predicate supplied by the host.
    Custom,
}

/// Sorting kind of a column.
#[derive(Clone, Copy, Debug, PartialEq, Eq)]
pub enum DataTableColumnSortKind {
    /// Built-in comparison of the column values.
    BuiltIn,
    /// A comparator supplied by the host.
    Custom,
}

/// The features of a column that the row model reads.
#[derive(Debug, PartialEq, Eq)]
pub struct DataTableColumnInfo {
    /// Column id.
    pub id: String,
    /// Whether the global search reads this column.
    pub searchable: bool,
    /// Whether the column can be hidden.
    pub hideable: bool,
    /// How the column sorts, if it sorts.
    pub sorting: Option<DataTableColumnSortKind>,
    /// How the column filters, if it filters.
    pub filter: Option<DataTableColumnFilterKind>,
}

/// The model of a column.
pub struct ColumnView {
    pub id: Seq<char>,
    pub searchable: bool,
    pub hideable: bool,
    pub sorting: Option<DataTableColumnSortKind>,
    pub filter: Option<DataTableColumnFilterKind>,
}

impl DeepView for DataTableColumnInfo {
    type V = ColumnView;

    open spec fn deep_view(&self) -> ColumnView {
        ColumnView {
            id: self.id@,
            searchable: self.searchable,
            hideable: self.hideable,
            sorting: self.sorting,
            filter: self.filter,
        }
    }
}

impl Clone for DataTableColumnInfo {
    fn clone(&self) -> (r: Self)
        ensures
            r.deep_view() == self.deep_view(),
    {
        DataTableColumnInfo {
            id: self.id.clone(),
            searchable: self.searchable,
            hideable: self.hideable,
            sorting: self.sorting,
            filter: self.filter,
        }
    }
}

/// A derived row: its identity, positions, flags, and the cached values of the
/// columns, in column order.
#[derive(Debug, PartialEq)]
pub struct DataTableDerivedRow {
    /// Row id.
    pub id: String,
    /// Index of the item in the supplied items.
    pub source_index: usize,
    /// Index of the row among the displayed rows.
    pub display_index: usize,
    /// Whether the row is selected.
    pub selected: bool,
    /// Whether the row is expanded.
    pub expanded: bool,
    /// The values of the columns, one per column.
    pub values: Vec<DataTableValue>,
}

/// The model of a row.
pub struct RowView {
    pub id: Seq<char>,
    pub source_index: usize,
    pub display_index: usize,
    pub selected: bool,
    pub expanded: bool,
    pub values: Seq<ValueView>,
}

impl DeepView for DataTableDerivedRow {
    type V = RowView;

    open spec fn deep_view(&self) -> RowView {
        RowView {
            id: self.id@,
            source_index: self.source_index,
            display_index: self.display_index,
            selected: self.selected,
            expanded: self.expanded,
            values: self.values.deep_view(),
        }
    }
}

impl Clone for DataTableDerivedRow {
    fn clone(&self) -> (r: Self)
        ensures
            r.deep_view() == self.deep_view(),
    {
        let values = self.values.clone();
        assert(values.deep_view() =~= self.values.deep_view());
        DataTableDerivedRow {
            id: self.id.clone(),
            source_index: self.source_index,
            display_index: self.display_index,
            selected: self.selected,
            expanded: self.expanded,
            values,
        }
    }
}

/// Host-supplied predicates and comparators of columns with custom filtering or
/// sorting. Nothing is assumed of what they return.
pub trait DataTableCustomHooks {
    /// Whether `row` passes `filter` on the custom-filtered column `column_index`.
    fn custom_filter(&self, row: &DataTableDerivedRow, column_index: usize, filter: &DataTableFilterValue) -> bool;

    /// Compares two rows on the custom-sorted column `column_index`: negative when
    /// `left` comes first, zero when tied, positive when `right` comes first.
    fn custom_compare(
        &self,
        left: &DataTableDerivedRow,
        right: &DataTableDerivedRow,
        column_index: usize,
        direction: DataTableSortDirection,
    ) -> i8;
}

/// Index of the first column with id `id`.
pub open spec fn column_index_of(columns: Seq<ColumnView>, id: Seq<char>) -> Option<int>
    decreases columns.len(),
{
    if columns.len() == 0 {
        None
    } else if columns[0].id == id {
        Some(0)
    } else {
        match column_index_of(columns.skip(1), id) {
            Some(i) => Some(i + 1),
            None => None,
        }
    }
}

/// Finds the first column with id `id`.
pub fn find_column(columns: &Vec<DataTableColumnInfo>, id: &String) -> (r: Option<usize>)
    ensures
        match r {
            Some(i) => column_index_of(columns.deep_view(), id@) == Some(i as int) && i < columns.len(),
            None => column_index_of(columns.deep_view(), id@) is None,
        },
{
    let ghost s = columns.deep_view();
    let mut j: usize = 0;
    assert(s.skip(0) =~= s);
    while j < columns.len()
        invariant
            j <= columns.len(),
            s == columns.deep_view(),
            forall|k: int| 0 <= k < j ==> s[k].id != id@,
            column_index_of(s, id@) == match column_index_of(s.skip(j as int), id@) {
                Some(i) => Some(i + j),
                None => None::<int>,
            },
        decreases columns.len() - j,
    {
        assert(s.skip(j as int)[0] == columns@[j as int].deep_view());
        assert(s.skip(j as int).skip(1) =~= s.skip(j + 1));
        if columns[j].id == *id {
            return Some(j);
        }
        j = j + 1;
    }
    assert(s.skip(j as int) =~= Seq::<ColumnView>::empty());
    None
}

/// The value a row caches for the column `column_id`: the value at that
/// column's position among `columns`, when the column is there and the row holds
/// a value for it; otherwise the host computes it with the column's accessor.
pub fn cached_column_value(column_id: &String, row: &DataTableDerivedRow, columns: &Vec<DataTableColumnInfo>) -> (r:
    Option<DataTableValue>)
    ensures
        match column_index_of(columns.deep_view(), column_id@) {
            Some(i) => if i < row.values.len() {
                r is Some && r->0.deep_view() == row.values.deep_view()[i]
            } else {
                r is None
            },
            None => r is None,
        },
{
    match find_column(columns, column_id) {
        Some(i) => if i < row.values.len() {
            Some(row.values[i].clone())
        } else {
            None
        },
        None => None,
    }
}

/// Whether a value passes a built-in filter: case-insensitive containment for text,
/// equality with the option, membership among several options, equality of booleans
/// (only for boolean values), and lexicographic bounds for ranges (the ranges of
/// text and datetime columns; numeric ranges compare order keys, see
/// [`numeric_range_match`]).
pub open spec fn builtin_filter_match(value: ValueView, filter: FilterValueView) -> bool {
    let text = value_text(value);
    match filter {
        FilterValueView::Text(f) => has_substring(lowercase(text), lowercase(f)),
        FilterValueView::Option(f) => text == f,
        FilterValueView::Multiple(fs) => fs.contains(text),
        FilterValueView::Boolean(b) => value matches ValueView::Boolean(v) && v == b,
        FilterValueView::Range(min, max) => (match min {
            Some(lo) => !lex_lt(text, lo),
            None => true,
        }) && (match max {
            Some(hi) => !lex_lt(hi, text),
            None => true,
        }),
    }
}

/// Applies a built-in filter to a value.
pub fn filter_matches(value: &DataTableValue, filter: &DataTableFilterValue) -> (b: bool)
    ensures
        b == builtin_filter_match(value.deep_view(), filter.deep_view()),
{
    let text = value.to_text();
    match filter {
        DataTableFilterValue::Text(f) => {
            let hay = to_lowercase(text.as_str());
            let needle = to_lowercase(f.as_str());
            contains_substring(hay.as_str(), needle.as_str())
        },
        DataTableFilterValue::Option(f) => text == *f,
        DataTableFilterValue::Multiple(fs) => contains_string(fs, &text),
        DataTableFilterValue::Boolean(f) => match value {
            DataTableValue::Boolean(v) => *v == *f,
            _ => false,
        },
        DataTableFilterValue::Range { min, max } => {
            let lo_ok = match min {
                Some(lo) => !str_lt(text.as_str(), lo.as_str()),
                None => true,
            };
            let hi_ok = match max {
                Some(hi) => !str_lt(hi.as_str(), text.as_str()),
                None => true,
            };
            lo_ok && hi_ok
        },
    }
}


/// Whether a row passes one column filter entry when the filtered column has a
/// built-in filter: a filter of a column that is not among `columns` passes.
pub open spec fn entry_passes(
    row: RowView,
    columns: Seq<ColumnView>,
    keys: Seq<RangeBoundKeys>,
    f: (Seq<char>, FilterValueView),
) -> bool {
    match column_index_of(columns, f.0) {
        Some(ci) => if columns[ci].filter == Some(DataTableColumnFilterKind::Range(DataTableRangeFilterKind::Number))
            && f.1 is Range {
            numeric_range_match(row.values[ci], bound_keys_of(keys, f.0))
        } else {
            builtin_filter_match(row.values[ci], f.1)
        },
        None => true,
    }
}

/// The bound keys the host gave for `column` (the first entry for it), or none.
pub open spec fn bound_keys_of(keys: Seq<RangeBoundKeys>, column: Seq<char>) -> (Option<u64>, Option<u64>)
    decreases keys.len(),
{
    if keys.len() == 0 {
        (None, None)
    } else if keys[0].column@ == column {
        (keys[0].min, keys[0].max)
    } else {
        bound_keys_of(keys.skip(1), column)
    }
}

/// Whether a value lies within numeric bounds: a number whose order key is at
/// least the lower and at most the upper bound's key; a value that is not a
/// number passes only when no bound is set.
pub open spec fn numeric_range_match(value: ValueView, b: (Option<u64>, Option<u64>)) -> bool {
    match value {
        ValueView::Number(k, _) => (match b.0 {
            Some(lo) => k >= lo,
            None => true,
        }) && (match b.1 {
            Some(hi) => k <= hi,
            None => true,
        }),
        _ => b.0 is None && b.1 is None,
    }
}

/// The bound keys the host gave for `column`.
fn bound_keys_for(keys: &Vec<RangeBoundKeys>, column: &String) -> (r: (Option<u64>, Option<u64>))
    ensures
        r == bound_keys_of(keys@, column@),
{
    let ghost s = keys@;
    let mut j: usize = 0;
    assert(s.skip(0) =~= s);
    while j < keys.len()
        invariant
            j <= keys.len(),
            s == keys@,
            bound_keys_of(s, column@) == bound_keys_of(s.skip(j as int), column@),
        decreases keys.len() - j,
    {
        assert(s.skip(j as int)[0] == s[j as int]);
        assert(s.skip(j as int).skip(1) =~= s.skip(j + 1));
        if keys[j].column == *column {
            return (keys[j].min, keys[j].max);
        }
        j = j + 1;
    }
    assert(s.skip(j as int) =~= Seq::<RangeBoundKeys>::empty());
    (None, None)
}

/// Whether a value lies within numeric bounds.
pub fn numeric_range_matches(value: &DataTableValue, bounds: (Option<u64>, Option<u64>)) -> (b: bool)
    ensures
        b == numeric_range_match(value.deep_view(), bounds),
{
    match value {
        DataTableValue::Number { order_key, .. } => (match bounds.0 {
            Some(lo) => *order_key >= lo,
            None => true,
        }) && (match bounds.1 {
            Some(hi) => *order_key <= hi,
            None => true,
        }),
        _ => bounds.0.is_none() && bounds.1.is_none(),
    }
}

/// Whether a filter entry is handled by a host predicate.
pub open spec fn entry_is_custom(columns: Seq<ColumnView>, f: (Seq<char>, FilterValueView)) -> bool {
    match column_index_of(columns, f.0) {
        Some(ci) => columns[ci].filter == Some(DataTableColumnFilterKind::Custom),
        None => false,
    }
}

/// Whether any filter entry is handled by a host predicate.
pub open spec fn uses_custom_filter(columns: Seq<ColumnView>, filters: Seq<(Seq<char>, FilterValueView)>) -> bool {
    exists|k: int| 0 <= k < filters.len() && entry_is_custom(columns, #[trigger] filters[k])
}

/// Whether a row passes the global search: an empty or absent search passes;
/// otherwise the lowercased search text occurs in the lowercased text of a
/// searchable column.
pub open spec fn global_passes(row: RowView, columns: Seq<ColumnView>, g: Option<Seq<char>>) -> bool {
    match g {
        Some(t) => t.len() == 0 || exists|ci: int|
            0 <= ci < columns.len() && (#[trigger] columns[ci]).searchable && has_substring(
                lowercase(value_text(row.values[ci])),
                lowercase(t),
            ),
        None => true,
    }
}

/// Whether any filtering is requested: a column filter, or a non-empty search.
pub open spec fn filtering_active(filters: Seq<(Seq<char>, FilterValueView)>, g: Option<Seq<char>>) -> bool {
    filters.len() > 0 || (g matches Some(t) && t.len() > 0)
}

/// The host predicates' verdicts on row `i`, one per filter entry (none for a row
/// beyond `vs`).
pub open spec fn row_verdicts(vs: Seq<Seq<bool>>, i: int) -> Seq<bool> {
    if 0 <= i < vs.len() {
        vs[i]
    } else {
        Seq::empty()
    }
}

/// Whether a row passes one filter entry: by the verdict `v` when a host predicate
/// decides the entry, by the built-in filter otherwise.
pub open spec fn entry_verdict(
    row: RowView,
    columns: Seq<ColumnView>,
    keys: Seq<RangeBoundKeys>,
    f: (Seq<char>, FilterValueView),
    v: bool,
) -> bool {
    if entry_is_custom(columns, f) {
        v
    } else {
        entry_passes(row, columns, keys, f)
    }
}

/// Whether a row passes every column filter, `v[k]` being the host's verdict on
/// entry `k` (an entry without a verdict fails).
pub open spec fn row_passes_filters(
    row: RowView,
    columns: Seq<ColumnView>,
    keys: Seq<RangeBoundKeys>,
    filters: Seq<(Seq<char>, FilterValueView)>,
    v: Seq<bool>,
) -> bool {
    forall|k: int| 0 <= k < filters.len() ==> entry_verdict(row, columns, keys, #[trigger] filters[k], k < v.len() && v[k])
}

/// Whether a row passes every column filter that no host predicate decides.
pub open spec fn passes_builtin_filters(
    row: RowView,
    columns: Seq<ColumnView>,
    keys: Seq<RangeBoundKeys>,
    filters: Seq<(Seq<char>, FilterValueView)>,
) -> bool {
    forall|k: int| 0 <= k < filters.len() && !entry_is_custom(columns, #[trigger] filters[k]) ==> entry_passes(
        row,
        columns,
        keys,
        filters[k],
    )
}

/// The rows that pass every column filter, in order, `vs[i]` holding the host's
/// verdicts on row `i`.
pub open spec fn rows_kept(
    rows: Seq<RowView>,
    columns: Seq<ColumnView>,
    keys: Seq<RangeBoundKeys>,
    filters: Seq<(Seq<char>, FilterValueView)>,
    vs: Seq<Seq<bool>>,
) -> Seq<RowView>
    decreases rows.len(),
{
    if rows.len() == 0 {
        rows
    } else {
        let rest = rows_kept(rows.drop_last(), columns, keys, filters, vs);
        if row_passes_filters(rows.last(), columns, keys, filters, row_verdicts(vs, rows.len() - 1)) {
            rest.push(rows.last())
        } else {
            rest
        }
    }
}

/// The rows the global search finds, in order.
pub open spec fn rows_found(rows: Seq<RowView>, columns: Seq<ColumnView>, g: Option<Seq<char>>) -> Seq<RowView>
    decreases rows.len(),
{
    if rows.len() == 0 {
        rows
    } else {
        let rest = rows_found(rows.drop_last(), columns, g);
        if global_passes(rows.last(), columns, g) {
            rest.push(rows.last())
        } else {
            rest
        }
    }
}

/// Whether a non-empty search text occurs (compared in lowercase) in one of
/// `hidden`, the texts of the searchable columns that are not shown.
pub open spec fn search_hidden(hidden: Seq<Seq<char>>, g: Option<Seq<char>>) -> bool {
    match g {
        Some(t) => t.len() > 0 && exists|i: int|
            0 <= i < hidden.len() && has_substring(lowercase(#[trigger] hidden[i]), lowercase(t)),
        None => false,
    }
}

/// The rows a state's filters keep: the rows that pass every column filter (a
/// filter of a column that is not shown passes; a filter of a column with a host
/// predicate passes by the host's verdict, `vs[i][k]` for row `i` and entry `k`),
/// then, among them, those the global search finds in a shown, searchable column.
/// A search whose text occurs in a searchable column that is not shown (one of
/// `hidden`) narrows nothing. Rows are kept as they are when nothing filters.
pub open spec fn filter_rows_spec(
    rows: Seq<RowView>,
    columns: Seq<ColumnView>,
    keys: Seq<RangeBoundKeys>,
    filters: Seq<(Seq<char>, FilterValueView)>,
    g: Option<Seq<char>>,
    hidden: Seq<Seq<char>>,
    vs: Seq<Seq<bool>>,
) -> Seq<RowView> {
    if filtering_active(filters, g) {
        let kept = rows_kept(rows, columns, keys, filters, vs);
        if search_hidden(hidden, g) {
            kept
        } else {
            rows_found(kept, columns, g)
        }
    } else {
        rows
    }
}

/// Whether each row holds one value per column.
pub open spec fn rows_aligned(rows: Seq<RowView>, columns: Seq<ColumnView>) -> bool {
    forall|i: int| 0 <= i < rows.len() ==> (#[trigger] rows[i]).values.len() == columns.len()
}

/// The lowercased search text, when a non-empty search is set.
pub open spec fn search_needle(g: Option<Seq<char>>) -> Option<Seq<char>> {
    match g {
        Some(t) => if t.len() > 0 { Some(lowercase(t)) } else { None },
        None => None,
    }
}

/// How a filter entry is decided for a row: `Ok` with the built-in filter's
/// verdict, or `Err` with the column's index when a host predicate decides it.
fn builtin_entry(
    row: &DataTableDerivedRow,
    columns: &Vec<DataTableColumnInfo>,
    keys: &Vec<RangeBoundKeys>,
    filter: &DataTableFilterState,
) -> (r: Result<bool, usize>)
    requires
        row.values.len() == columns.len(),
    ensures
        match r {
            Ok(b) => !entry_is_custom(columns.deep_view(), filter.deep_view()) && b == entry_passes(
                row.deep_view(),
                columns.deep_view(),
                keys@,
                filter.deep_view(),
            ),
            Err(ci) => entry_is_custom(columns.deep_view(), filter.deep_view()) && ci < columns.len(),
        },
{
    match find_column(columns, &filter.column) {
        Some(ci) => {
            assert(row.deep_view().values[ci as int] == row.values@[ci as int].deep_view());
            assert(columns.deep_view()[ci as int] == columns@[ci as int].deep_view());
            match (columns[ci].filter, &filter.value) {
                (Some(DataTableColumnFilterKind::Custom), _) => Err(ci),
                (
                    Some(DataTableColumnFilterKind::Range(DataTableRangeFilterKind::Number)),
                    DataTableFilterValue::Range { .. },
                ) => Ok(numeric_range_matches(&row.values[ci], bound_keys_for(keys, &filter.column))),
                _ => Ok(filter_matches(&row.values[ci], &filter.value)),
            }
        },
        None => Ok(true),
    }
}

/// Whether a row passes every column filter, `verdicts[k]` being the host's
/// verdict on entry `k`.
fn passes_filters(
    row: &DataTableDerivedRow,
    columns: &Vec<DataTableColumnInfo>,
    keys: &Vec<RangeBoundKeys>,
    filters: &Vec<DataTableFilterState>,
    verdicts: &Vec<bool>,
) -> (b: bool)
    requires
        row.values.len() == columns.len(),
    ensures
        b == row_passes_filters(row.deep_view(), columns.deep_view(), keys@, filters.deep_view(), verdicts@),
{
    let ghost rv = row.deep_view();
    let ghost cs = columns.deep_view();
    let ghost fs = filters.deep_view();
    let mut k: usize = 0;
    while k < filters.len()
        invariant
            k <= filters.len(),
            row.values.len() == columns.len(),
            rv == row.deep_view(),
            cs == columns.deep_view(),
            fs == filters.deep_view(),
            forall|j: int| 0 <= j < k ==> entry_verdict(rv, cs, keys@, #[trigger] fs[j], j < verdicts@.len() && verdicts@[j]),
        decreases filters.len() - k,
    {
        assert(fs[k as int] == filters@[k as int].deep_view());
        let ok = match builtin_entry(row, columns, keys, &filters[k]) {
            Ok(b) => b,
            Err(_) => k < verdicts.len() && verdicts[k],
        };
        if !ok {
            return false;
        }
        k = k + 1;
    }
    true
}

/// Whether a row passes the global search, `needle` being the lowercased search
/// text when one is set.
fn search_passes(
    row: &DataTableDerivedRow,
    columns: &Vec<DataTableColumnInfo>,
    needle: &Option<String>,
    Ghost(g): Ghost<Option<Seq<char>>>,
) -> (b: bool)
    requires
        row.values.len() == columns.len(),
        opt_view(*needle) == search_needle(g),
    ensures
        b == global_passes(row.deep_view(), columns.deep_view(), g),
{
    let ghost rv = row.deep_view();
    let ghost cs = columns.deep_view();
    match needle {
        Some(n) => {
            let mut ci: usize = 0;
            while ci < columns.len()
                invariant
                    ci <= columns.len(),
                    row.values.len() == columns.len(),
                    rv == row.deep_view(),
                    cs == columns.deep_view(),
                    opt_view(*needle) == Some(n@),
                    opt_view(*needle) == search_needle(g),
                    forall|j: int|
                        0 <= j < ci ==> !((#[trigger] cs[j]).searchable && has_substring(
                            lowercase(value_text(rv.values[j])),
                            n@,
                        )),
                decreases columns.len() - ci,
            {
                assert(cs[ci as int] == columns@[ci as int].deep_view());
                assert(rv.values[ci as int] == row.values@[ci as int].deep_view());
                if columns[ci].searchable {
                    let text = row.values[ci].to_text();
                    let lower = to_lowercase(text.as_str());
                    if contains_substring(lower.as_str(), n.as_str()) {
                        proof {
                            let t = g->0;
                            assert(n@ == lowercase(t));
                            assert(cs[ci as int].searchable && has_substring(
                                lowercase(value_text(rv.values[ci as int])),
                                lowercase(t),
                            ));
                        }
                        return true;
                    }
                }
                ci = ci + 1;
            }
            false
        },
        None => true,
    }
}

/// Whether the search text, `needle` in lowercase, occurs in one of `hidden`.
fn search_hits_hidden(hidden: &Vec<String>, needle: &Option<String>, Ghost(g): Ghost<Option<Seq<char>>>) -> (b: bool)
    requires
        opt_view(*needle) == search_needle(g),
    ensures
        b == search_hidden(hidden.deep_view(), g),
{
    let ghost hs = hidden.deep_view();
    match needle {
        Some(n) => {
            let mut i: usize = 0;
            while i < hidden.len()
                invariant
                    i <= hidden.len(),
                    hs == hidden.deep_view(),
                    opt_view(*needle) == Some(n@),
                    opt_view(*needle) == search_needle(g),
                    forall|j: int| 0 <= j < i ==> !has_substring(lowercase(#[trigger] hs[j]), n@),
                decreases hidden.len() - i,
            {
                assert(hs[i as int] == hidden@[i as int]@);
                let lower = to_lowercase(hidden[i].as_str());
                if contains_substring(lower.as_str(), n.as_str()) {
                    return true;
                }
                i = i + 1;
            }
            false
        },
        None => false,
    }
}

/// Keeps the rows that pass the state's filters (see [`filter_rows_spec`]):
/// `verdicts[i][k]` is the verdict of the host predicate on row `i` for filter
/// entry `k`, consulted only for entries of columns with a host predicate (a
/// missing verdict fails), and `hidden_texts` are the texts of the searchable
/// columns that are not shown. Numeric range filters compare with the bound keys
/// in `bound_keys`.
pub fn filter_rows_by_verdicts(
    rows: Vec<DataTableDerivedRow>,
    columns: &Vec<DataTableColumnInfo>,
    state: &DataTableState,
    bound_keys: &Vec<RangeBoundKeys>,
    hidden_texts: &Vec<String>,
    verdicts: &Vec<Vec<bool>>,
) -> (r: Vec<DataTableDerivedRow>)
    requires
        rows_aligned(rows.deep_view(), columns.deep_view()),
    ensures
        rows_aligned(r.deep_view(), columns.deep_view()),
        r.deep_view() == filter_rows_spec(
            rows.deep_view(),
            columns.deep_view(),
            bound_keys@,
            state.filters.deep_view(),
            opt_view(state.global_filter),
            hidden_texts.deep_view(),
            verdicts.deep_view(),
        ),
{
    let search_active = match &state.global_filter {
        Some(g) => !g.as_str().is_empty(),
        None => false,
    };
    if state.filters.len() == 0 && !search_active {
        return rows;
    }
    let ghost g = opt_view(state.global_filter);
    let ghost rs = rows.deep_view();
    let ghost cs = columns.deep_view();
    let ghost fs = state.filters.deep_view();
    let ghost vs = verdicts.deep_view();
    let needle: Option<String> = match &state.global_filter {
        Some(t) => if t.as_str().is_empty() {
            None
        } else {
            Some(to_lowercase(t.as_str()))
        },
        None => None,
    };
    let none: Vec<bool> = Vec::new();
    let mut kept: Vec<DataTableDerivedRow> = Vec::new();
    let mut i: usize = 0;
    assert(rs.take(0) =~= Seq::<RowView>::empty());
    assert(kept.deep_view() =~= Seq::<RowView>::empty());
    while i < rows.len()
        invariant
            i <= rows.len(),
            rs == rows.deep_view(),
            cs == columns.deep_view(),
            fs == state.filters.deep_view(),
            vs == verdicts.deep_view(),
            none@ == Seq::<bool>::empty(),
            rows_aligned(rs, cs),
            kept.deep_view() == rows_kept(rs.take(i as int), cs, bound_keys@, fs, vs),
            rows_aligned(kept.deep_view(), cs),
        decreases rows.len() - i,
    {
        assert(rs[i as int] == rows@[i as int].deep_view());
        assert(rs.take(i + 1).drop_last() =~= rs.take(i as int));
        assert(rs.take(i + 1).last() == rs[i as int]);
        let pass = if i < verdicts.len() {
            assert(vs[i as int] =~= verdicts@[i as int]@);
            passes_filters(&rows[i], columns, bound_keys, &state.filters, &verdicts[i])
        } else {
            passes_filters(&rows[i], columns, bound_keys, &state.filters, &none)
        };
        if pass {
            let ghost before = kept.deep_view();
            kept.push(rows[i].clone());
            assert(kept.deep_view() =~= before.push(rs[i as int]));
            assert forall|k: int| 0 <= k < kept.deep_view().len() implies (#[trigger] kept.deep_view()[k]).values.len()
                == cs.len() by {
                if k < before.len() {
                    assert(kept.deep_view()[k] == before[k]);
                }
            }
        }
        i = i + 1;
    }
    assert(rs.take(i as int) =~= rs);
    if search_hits_hidden(hidden_texts, &needle, Ghost(g)) {
        return kept;
    }
    let ghost ks = kept.deep_view();
    let mut found: Vec<DataTableDerivedRow> = Vec::new();
    let mut j: usize = 0;
    assert(ks.take(0) =~= Seq::<RowView>::empty());
    assert(found.deep_view() =~= Seq::<RowView>::empty());
    while j < kept.len()
        invariant
            j <= kept.len(),
            ks == kept.deep_view(),
            cs == columns.deep_view(),
            rows_aligned(ks, cs),
            opt_view(needle) == search_needle(g),
            found.deep_view() == rows_found(ks.take(j as int), cs, g),
            rows_aligned(found.deep_view(), cs),
        decreases kept.len() - j,
    {
        assert(ks[j as int] == kept@[j as int].deep_view());
        assert(ks.take(j + 1).drop_last() =~= ks.take(j as int));
        assert(ks.take(j + 1).last() == ks[j as int]);
        if search_passes(&kept[j], columns, &needle, Ghost(g)) {
            let ghost before = found.deep_view();
            found.push(kept[j].clone());
            assert(found.deep_view() =~= before.push(ks[j as int]));
            assert forall|k: int| 0 <= k < found.deep_view().len() implies (#[trigger] found.deep_view()[k]).values.len()
                == cs.len() by {
                if k < before.len() {
                    assert(found.deep_view()[k] == before[k]);
                }
            }
        }
        j = j + 1;
    }
    assert(ks.take(j as int) =~= ks);
    found
}

/// The host predicates' verdicts on one row, one per filter entry: the entries are
/// tried in order, a host predicate is asked for the entries of its column, and
/// no predicate is asked once an entry has failed.
fn host_verdicts<H: DataTableCustomHooks>(
    row: &DataTableDerivedRow,
    columns: &Vec<DataTableColumnInfo>,
    keys: &Vec<RangeBoundKeys>,
    filters: &Vec<DataTableFilterState>,
    hooks: &H,
) -> (v: Vec<bool>)
    requires
        row.values.len() == columns.len(),
    ensures
        v.len() == filters.len(),
{
    let mut v: Vec<bool> = Vec::new();
    let mut passing = true;
    let mut k: usize = 0;
    while k < filters.len()
        invariant
            k <= filters.len(),
            v.len() == k,
            row.values.len() == columns.len(),
        decreases filters.len() - k,
    {
        if passing {
            let ok = match builtin_entry(row, columns, keys, &filters[k]) {
                Ok(b) => b,
                Err(ci) => hooks.custom_filter(row, ci, &filters[k].value),
            };
            v.push(ok);
            passing = ok;
        } else {
            v.push(false);
        }
        k = k + 1;
    }
    v
}

/// Keeps the rows that pass the state's filters (see [`filter_rows_spec`]), asking
/// `hooks` for the filters of columns with a host predicate; `hidden_texts` are
/// the texts of the searchable columns that are not shown, and numeric range
/// filters compare with the bound keys in `bound_keys`.
pub fn filter_rows<H: DataTableCustomHooks>(
    rows: Vec<DataTableDerivedRow>,
    columns: &Vec<DataTableColumnInfo>,
    state: &DataTableState,
    bound_keys: &Vec<RangeBoundKeys>,
    hidden_texts: &Vec<String>,
    hooks: &H,
) -> (r: Vec<DataTableDerivedRow>)
    requires
        rows_aligned(rows.deep_view(), columns.deep_view()),
    ensures
        rows_aligned(r.deep_view(), columns.deep_view()),
        exists|vs: Seq<Seq<bool>>|
            r.deep_view() == #[trigger] filter_rows_spec(
                rows.deep_view(),
                columns.deep_view(),
                bound_keys@,
                state.filters.deep_view(),
                opt_view(state.global_filter),
                hidden_texts.deep_view(),
                vs,
            ),
        !uses_custom_filter(columns.deep_view(), state.filters.deep_view()) ==> r.deep_view() == filter_rows_spec(
            rows.deep_view(),
            columns.deep_view(),
            bound_keys@,
            state.filters.deep_view(),
            opt_view(state.global_filter),
            hidden_texts.deep_view(),
            Seq::empty(),
        ),
{
    let ghost rs = rows.deep_view();
    let ghost cs = columns.deep_view();
    let mut verdicts: Vec<Vec<bool>> = Vec::new();
    let mut i: usize = 0;
    while i < rows.len()
        invariant
            i <= rows.len(),
            rs == rows.deep_view(),
            cs == columns.deep_view(),
            rows_aligned(rs, cs),
        decreases rows.len() - i,
    {
        assert(rs[i as int] == rows@[i as int].deep_view());
        let v = host_verdicts(&rows[i], columns, bound_keys, &state.filters, hooks);
        verdicts.push(v);
        i = i + 1;
    }
    let r = filter_rows_by_verdicts(rows, columns, state, bound_keys, hidden_texts, &verdicts);
    proof {
        if !uses_custom_filter(cs, state.filters.deep_view()) {
            lemma_filter_spec_builtin(
                rs,
                cs,
                bound_keys@,
                state.filters.deep_view(),
                opt_view(state.global_filter),
                hidden_texts.deep_view(),
                verdicts.deep_view(),
            );
        }
    }
    r
}

/// With no host predicate among the filters, the verdicts do not matter.
proof fn lemma_rows_kept_builtin(
    rows: Seq<RowView>,
    columns: Seq<ColumnView>,
    keys: Seq<RangeBoundKeys>,
    filters: Seq<(Seq<char>, FilterValueView)>,
    vs: Seq<Seq<bool>>,
)
    requires
        !uses_custom_filter(columns, filters),
    ensures
        rows_kept(rows, columns, keys, filters, vs) == rows_kept(rows, columns, keys, filters, Seq::empty()),
    decreases rows.len(),
{
    if rows.len() > 0 {
        lemma_rows_kept_builtin(rows.drop_last(), columns, keys, filters, vs);
        lemma_passes_filters_builtin(rows.last(), columns, keys, filters, row_verdicts(vs, rows.len() - 1));
        lemma_passes_filters_builtin(rows.last(), columns, keys, filters, row_verdicts(Seq::empty(), rows.len() - 1));
    }
}

/// With no host predicate among the filters, a row passes them when it passes
/// every built-in one.
proof fn lemma_passes_filters_builtin(
    row: RowView,
    columns: Seq<ColumnView>,
    keys: Seq<RangeBoundKeys>,
    filters: Seq<(Seq<char>, FilterValueView)>,
    v: Seq<bool>,
)
    requires
        !uses_custom_filter(columns, filters),
    ensures
        row_passes_filters(row, columns, keys, filters, v) == passes_builtin_filters(row, columns, keys, filters),
{
    assert forall|k: int| 0 <= k < filters.len() implies !entry_is_custom(columns, #[trigger] filters[k]) by {}
    if passes_builtin_filters(row, columns, keys, filters) {
        assert forall|k: int| 0 <= k < filters.len() implies entry_verdict(
            row,
            columns,
            keys,
            #[trigger] filters[k],
            k < v.len() && v[k],
        ) by {}
    }
    if row_passes_filters(row, columns, keys, filters, v) {
        assert forall|k: int| 0 <= k < filters.len() && !entry_is_custom(columns, #[trigger] filters[k]) implies entry_passes(
            row,
            columns,
            keys,
            filters[k],
        ) by {}
    }
}

/// With no host predicate among the filters, the verdicts do not change what the
/// filters keep.
pub proof fn lemma_filter_spec_builtin(
    rows: Seq<RowView>,
    columns: Seq<ColumnView>,
    keys: Seq<RangeBoundKeys>,
    filters: Seq<(Seq<char>, FilterValueView)>,
    g: Option<Seq<char>>,
    hidden: Seq<Seq<char>>,
    vs: Seq<Seq<bool>>,
)
    requires
        !uses_custom_filter(columns, filters),
    ensures
        filter_rows_spec(rows, columns, keys, filters, g, hidden, vs) == filter_rows_spec(
            rows,
            columns,
            keys,
            filters,
            g,
            hidden,
            Seq::empty(),
        ),
{
    lemma_rows_kept_builtin(rows, columns, keys, filters, vs);
}

/// Every row kept passes the filters with its own verdicts.
proof fn lemma_rows_kept_pass(
    rows: Seq<RowView>,
    columns: Seq<ColumnView>,
    keys: Seq<RangeBoundKeys>,
    filters: Seq<(Seq<char>, FilterValueView)>,
    vs: Seq<Seq<bool>>,
)
    ensures
        forall|i: int|
            0 <= i < rows_kept(rows, columns, keys, filters, vs).len() ==> passes_builtin_filters(
                #[trigger] rows_kept(rows, columns, keys, filters, vs)[i],
                columns,
                keys,
                filters,
            ),
    decreases rows.len(),
{
    if rows.len() > 0 {
        lemma_rows_kept_pass(rows.drop_last(), columns, keys, filters, vs);
        let rest = rows_kept(rows.drop_last(), columns, keys, filters, vs);
        let last = rows.last();
        if row_passes_filters(last, columns, keys, filters, row_verdicts(vs, rows.len() - 1)) {
            let v = row_verdicts(vs, rows.len() - 1);
            assert forall|k: int| 0 <= k < filters.len() && !entry_is_custom(columns, #[trigger] filters[k]) implies entry_passes(
                last,
                columns,
                keys,
                filters[k],
            ) by {
                assert(entry_verdict(last, columns, keys, filters[k], k < v.len() && v[k]));
            }
            let r = rest.push(last);
            assert forall|i: int| 0 <= i < r.len() implies passes_builtin_filters(#[trigger] r[i], columns, keys, filters) by {
                if i < rest.len() {
                    assert(r[i] == rest[i]);
                }
            }
        }
    }
}

/// Every row the search finds passes it and is among the rows searched.
proof fn lemma_rows_found_pass(rows: Seq<RowView>, columns: Seq<ColumnView>, g: Option<Seq<char>>)
    ensures
        forall|i: int|
            0 <= i < rows_found(rows, columns, g).len() ==> global_passes(
                #[trigger] rows_found(rows, columns, g)[i],
                columns,
                g,
            ) && rows.contains(rows_found(rows, columns, g)[i]),
    decreases rows.len(),
{
    if rows.len() > 0 {
        lemma_rows_found_pass(rows.drop_last(), columns, g);
        let rest = rows_found(rows.drop_last(), columns, g);
        let r = if global_passes(rows.last(), columns, g) {
            rest.push(rows.last())
        } else {
            rest
        };
        assert forall|i: int| 0 <= i < r.len() implies global_passes(#[trigger] r[i], columns, g) && rows.contains(r[i]) by {
            if i < rest.len() {
                assert(r[i] == rest[i]);
                let j = choose|j: int| 0 <= j < rows.drop_last().len() && rows.drop_last()[j] == rest[i];
                assert(rows[j] == rest[i]);
            } else {
                assert(rows[rows.len() - 1] == r[i]);
            }
        }
    }
}

/// Rows that all pass the filters are all kept.
proof fn lemma_rows_kept_all(
    rows: Seq<RowView>,
    columns: Seq<ColumnView>,
    keys: Seq<RangeBoundKeys>,
    filters: Seq<(Seq<char>, FilterValueView)>,
    vs: Seq<Seq<bool>>,
)
    requires
        !uses_custom_filter(columns, filters),
        forall|i: int| 0 <= i < rows.len() ==> passes_builtin_filters(#[trigger] rows[i], columns, keys, filters),
    ensures
        rows_kept(rows, columns, keys, filters, vs) == rows,
    decreases rows.len(),
{
    if rows.len() > 0 {
        assert forall|i: int| 0 <= i < rows.drop_last().len() implies passes_builtin_filters(
            #[trigger] rows.drop_last()[i],
            columns,
            keys,
            filters,
        ) by {
            assert(rows.drop_last()[i] == rows[i]);
        }
        lemma_rows_kept_all(rows.drop_last(), columns, keys, filters, vs);
        assert(passes_builtin_filters(rows[rows.len() - 1], columns, keys, filters));
        lemma_passes_filters_builtin(rows.last(), columns, keys, filters, row_verdicts(vs, rows.len() - 1));
        assert(rows.drop_last().push(rows.last()) =~= rows);
    }
}

/// Rows that all pass the search are all found.
proof fn lemma_rows_found_all(rows: Seq<RowView>, columns: Seq<ColumnView>, g: Option<Seq<char>>)
    requires
        forall|i: int| 0 <= i < rows.len() ==> global_passes(#[trigger] rows[i], columns, g),
    ensures
        rows_found(rows, columns, g) == rows,
    decreases rows.len(),
{
    if rows.len() > 0 {
        assert forall|i: int| 0 <= i < rows.drop_last().len() implies global_passes(
            #[trigger] rows.drop_last()[i],
            columns,
            g,
        ) by {
            assert(rows.drop_last()[i] == rows[i]);
        }
        lemma_rows_found_all(rows.drop_last(), columns, g);
        assert(global_passes(rows[rows.len() - 1], columns, g));
        assert(rows.drop_last().push(rows.last()) =~= rows);
    }
}

/// Law: whatever the host predicates answer, every row the filters keep passes
/// every column filter that no host predicate decides, and, unless the search
/// text occurs in a column that is not shown, the global search.
pub proof fn law_filtered_rows_pass_builtin_filters(
    rows: Seq<RowView>,
    columns: Seq<ColumnView>,
    keys: Seq<RangeBoundKeys>,
    filters: Seq<(Seq<char>, FilterValueView)>,
    g: Option<Seq<char>>,
    hidden: Seq<Seq<char>>,
    vs: Seq<Seq<bool>>,
)
    requires
        filtering_active(filters, g),
    ensures
        forall|i: int|
            0 <= i < filter_rows_spec(rows, columns, keys, filters, g, hidden, vs).len() ==> passes_builtin_filters(
                #[trigger] filter_rows_spec(rows, columns, keys, filters, g, hidden, vs)[i],
                columns,
                keys,
                filters,
            ) && (!search_hidden(hidden, g) ==> global_passes(
                filter_rows_spec(rows, columns, keys, filters, g, hidden, vs)[i],
                columns,
                g,
            )),
{
    let kept = rows_kept(rows, columns, keys, filters, vs);
    lemma_rows_kept_pass(rows, columns, keys, filters, vs);
    lemma_rows_found_pass(kept, columns, g);
    let r = filter_rows_spec(rows, columns, keys, filters, g, hidden, vs);
    if !search_hidden(hidden, g) {
        assert forall|i: int| 0 <= i < r.len() implies passes_builtin_filters(#[trigger] r[i], columns, keys, filters) by {
            let j = choose|j: int| 0 <= j < kept.len() && kept[j] == r[i];
            assert(passes_builtin_filters(kept[j], columns, keys, filters));
        }
    }
}

/// Law: with no host predicate among the filters, filtering the rows the filters
/// keep keeps them all.
pub proof fn law_filtering_is_idempotent(
    rows: Seq<RowView>,
    columns: Seq<ColumnView>,
    keys: Seq<RangeBoundKeys>,
    filters: Seq<(Seq<char>, FilterValueView)>,
    g: Option<Seq<char>>,
    hidden: Seq<Seq<char>>,
    vs: Seq<Seq<bool>>,
)
    requires
        !uses_custom_filter(columns, filters),
    ensures
        filter_rows_spec(filter_rows_spec(rows, columns, keys, filters, g, hidden, vs), columns, keys, filters, g, hidden, vs)
            == filter_rows_spec(rows, columns, keys, filters, g, hidden, vs),
{
    if filtering_active(filters, g) {
        let r = filter_rows_spec(rows, columns, keys, filters, g, hidden, vs);
        law_filtered_rows_pass_builtin_filters(rows, columns, keys, filters, g, hidden, vs);
        assert forall|i: int| 0 <= i < r.len() implies passes_builtin_filters(#[trigger] r[i], columns, keys, filters) by {}
        lemma_rows_kept_all(r, columns, keys, filters, vs);
        if !search_hidden(hidden, g) {
            assert forall|i: int| 0 <= i < r.len() implies global_passes(#[trigger] r[i], columns, g) by {}
            lemma_rows_found_all(r, columns, g);
        }
    }
}

/// The built-in three-way order of two values: numbers by their key, booleans with
/// `false` first, empty values last, anything else by its text.
pub open spec fn value_order(l: ValueView, r: ValueView) -> int {
    match (l, r) {
        (ValueView::Number(a, _), ValueView::Number(b, _)) => if a < b {
            -1
        } else if a == b {
            0
        } else {
            1
        },
        (ValueView::Boolean(a), ValueView::Boolean(b)) => if a == b {
            0
        } else if !a {
            -1
        } else {
            1
        },
        (ValueView::Empty, ValueView::Empty) => 0,
        (ValueView::Empty, _) => 1,
        (_, ValueView::Empty) => -1,
        _ => if lex_lt(value_text(l), value_text(r)) {
            -1
        } else if value_text(l) == value_text(r) {
            0
        } else {
            1
        },
    }
}

/// `o` in the given direction.
pub open spec fn directed(o: int, direction: DataTableSortDirection) -> int {
    match direction {
        DataTableSortDirection::Ascending => o,
        DataTableSortDirection::Descending => -o,
    }
}

/// Compares two values in a sort direction (the built-in column comparison).
pub fn compare_values(left: &DataTableValue, right: &DataTableValue, direction: DataTableSortDirection) -> (r:
    std::cmp::Ordering)
    ensures
        directed(value_order(left.deep_view(), right.deep_view()), direction) < 0 <==> r
            == std::cmp::Ordering::Less,
        directed(value_order(left.deep_view(), right.deep_view()), direction) == 0 <==> r
            == std::cmp::Ordering::Equal,
        directed(value_order(left.deep_view(), right.deep_view()), direction) > 0 <==> r
            == std::cmp::Ordering::Greater,
{
    let ordering: i8 = match (left, right) {
        (DataTableValue::Number { order_key: a, .. }, DataTableValue::Number { order_key: b, .. }) => {
            if *a < *b {
                -1
            } else if *a == *b {
                0
            } else {
                1
            }
        },
        (DataTableValue::Boolean(a), DataTableValue::Boolean(b)) => {
            if *a == *b {
                0
            } else if !*a {
                -1
            } else {
                1
            }
        },
        (DataTableValue::Empty, DataTableValue::Empty) => 0,
        (DataTableValue::Empty, _) => 1,
        (_, DataTableValue::Empty) => -1,
        _ => {
            let lt = left.to_text();
            let rt = right.to_text();
            if str_lt(lt.as_str(), rt.as_str()) {
                -1
            } else if lt == rt {
                0
            } else {
                1
            }
        },
    };
    let directed_ordering: i8 = match direction {
        DataTableSortDirection::Ascending => ordering,
        DataTableSortDirection::Descending => -ordering,
    };
    if directed_ordering < 0 {
        std::cmp::Ordering::Less
    } else if directed_ordering == 0 {
        std::cmp::Ordering::Equal
    } else {
        std::cmp::Ordering::Greater
    }
}


/// The built-in comparison of two values as `-1`, `0` or `1`.
fn value_sign(left: &DataTableValue, right: &DataTableValue, direction: DataTableSortDirection) -> (r: i8)
    ensures
        r == directed(value_order(left.deep_view(), right.deep_view()), direction),
{
    match compare_values(left, right, direction) {
        std::cmp::Ordering::Less => -1,
        std::cmp::Ordering::Equal => 0,
        std::cmp::Ordering::Greater => 1,
    }
}

/// The sorts that apply: for each sort entry, in order, the index of the first
/// column with its id and its direction; entries without such a column are skipped.
pub open spec fn sort_plan(sorting: Seq<(Seq<char>, DataTableSortDirection)>, columns: Seq<ColumnView>) -> Seq<
    (int, DataTableSortDirection),
>
    decreases sorting.len(),
{
    if sorting.len() == 0 {
        Seq::empty()
    } else {
        let rest = sort_plan(sorting.drop_last(), columns);
        match column_index_of(columns, sorting.last().0) {
            Some(ci) => rest.push((ci, sorting.last().1)),
            None => rest,
        }
    }
}

/// Whether a sorting entry names a column among `columns`.
pub open spec fn sorts_existing_column(columns: Seq<ColumnView>) -> spec_fn((Seq<char>, DataTableSortDirection)) -> bool {
    |e: (Seq<char>, DataTableSortDirection)| column_index_of(columns, e.0) is Some
}

/// Law: the sort plan keeps every sorting entry whose column is among `columns`,
/// in order and none other: its `k`-th sort is the `k`-th such entry, on that
/// entry's column (its first position) and in that entry's direction.
pub proof fn law_sort_plan_keeps_every_sort(
    sorting: Seq<(Seq<char>, DataTableSortDirection)>,
    columns: Seq<ColumnView>,
)
    ensures
        sort_plan(sorting, columns).len() == sorting.filter(sorts_existing_column(columns)).len(),
        forall|k: int|
            0 <= k < sort_plan(sorting, columns).len() ==> column_index_of(
                columns,
                sorting.filter(sorts_existing_column(columns))[k].0,
            ) == Some((#[trigger] sort_plan(sorting, columns)[k]).0) && sort_plan(sorting, columns)[k].1
                == sorting.filter(sorts_existing_column(columns))[k].1,
    decreases sorting.len(),
{
    reveal_with_fuel(Seq::filter, 1);
    if sorting.len() > 0 {
        law_sort_plan_keeps_every_sort(sorting.drop_last(), columns);
        let rest = sort_plan(sorting.drop_last(), columns);
        let kept = sorting.drop_last().filter(sorts_existing_column(columns));
        let plan = sort_plan(sorting, columns);
        let f = sorting.filter(sorts_existing_column(columns));
        if sorts_existing_column(columns)(sorting.last()) {
            assert(f == kept.push(sorting.last()));
            assert forall|k: int| 0 <= k < plan.len() implies column_index_of(columns, f[k].0) == Some(
                (#[trigger] plan[k]).0,
            ) && plan[k].1 == f[k].1 by {
                if k < rest.len() {
                    assert(plan[k] == rest[k] && f[k] == kept[k]);
                }
            }
        } else {
            assert(f == kept);
        }
    }
}

/// Law: two rows compare by the first planned sort that tells them apart, and
/// rows that tie on every planned sort keep their source order.
pub proof fn law_rows_order_lexicographic(
    l: RowView,
    r: RowView,
    columns: Seq<ColumnView>,
    plan: Seq<(int, DataTableSortDirection)>,
    k: int,
)
    requires
        0 <= k <= plan.len(),
        forall|j: int| 0 <= j < k ==> entry_order(l, r, columns, #[trigger] plan[j]) == 0,
    ensures
        k < plan.len() && entry_order(l, r, columns, plan[k]) != 0 ==> rows_order(l, r, columns, plan) == entry_order(
            l,
            r,
            columns,
            plan[k],
        ),
        k == plan.len() ==> rows_order(l, r, columns, plan) == (if l.source_index < r.source_index {
            -1int
        } else if l.source_index == r.source_index {
            0int
        } else {
            1int
        }),
    decreases k,
{
    if k > 0 {
        assert(entry_order(l, r, columns, plan[0]) == 0);
        assert forall|j: int| 0 <= j < k - 1 implies entry_order(l, r, columns, #[trigger] plan.skip(1)[j]) == 0 by {
            assert(plan.skip(1)[j] == plan[j + 1]);
        }
        law_rows_order_lexicographic(l, r, columns, plan.skip(1), k - 1);
        if k < plan.len() {
            assert(plan.skip(1)[k - 1] == plan[k]);
        }
    }
}

/// Whether a sort of the plan is done by a host comparator.
pub open spec fn plan_uses_custom(plan: Seq<(int, DataTableSortDirection)>, columns: Seq<ColumnView>) -> bool {
    exists|k: int|
        0 <= k < plan.len() && columns[(#[trigger] plan[k]).0].sorting == Some(
            DataTableColumnSortKind::Custom,
        )
}

/// The order of two rows under one planned sort: none for a column that does not
/// sort, the built-in value order otherwise.
pub open spec fn entry_order(l: RowView, r: RowView, columns: Seq<ColumnView>, e: (int, DataTableSortDirection)) -> int {
    match columns[e.0].sorting {
        Some(DataTableColumnSortKind::BuiltIn) => directed(value_order(l.values[e.0], r.values[e.0]), e.1),
        _ => 0,
    }
}

/// The order of two rows: the first planned sort that tells them apart, else their
/// position among the supplied items.
pub open spec fn rows_order(l: RowView, r: RowView, columns: Seq<ColumnView>, plan: Seq<(int, DataTableSortDirection)>) -> int
    decreases plan.len(),
{
    if plan.len() == 0 {
        if l.source_index < r.source_index {
            -1
        } else if l.source_index == r.source_index {
            0
        } else {
            1
        }
    } else if entry_order(l, r, columns, plan[0]) != 0 {
        entry_order(l, r, columns, plan[0])
    } else {
        rows_order(l, r, columns, plan.skip(1))
    }
}

/// The order of two rows under the planned sorts alone: the first that tells
/// them apart, else a tie.
pub open spec fn key_order(l: RowView, r: RowView, columns: Seq<ColumnView>, plan: Seq<(int, DataTableSortDirection)>) -> int
    decreases plan.len(),
{
    if plan.len() == 0 {
        0
    } else if entry_order(l, r, columns, plan[0]) != 0 {
        entry_order(l, r, columns, plan[0])
    } else {
        key_order(l, r, columns, plan.skip(1))
    }
}

/// The planned sorts that precede the first one done by a host comparator.
pub open spec fn builtin_sorts(plan: Seq<(int, DataTableSortDirection)>, columns: Seq<ColumnView>) -> Seq<
    (int, DataTableSortDirection),
>
    decreases plan.len(),
{
    if plan.len() == 0 || columns[plan[0].0].sorting == Some(DataTableColumnSortKind::Custom) {
        Seq::empty()
    } else {
        seq![plan[0]] + builtin_sorts(plan.skip(1), columns)
    }
}

/// Whether rows come in the order of the given sorts.
pub open spec fn keys_ordered(rows: Seq<RowView>, columns: Seq<ColumnView>, plan: Seq<(int, DataTableSortDirection)>) -> bool {
    forall|a: int, b: int| 0 <= a < b < rows.len() ==> key_order(#[trigger] rows[a], #[trigger] rows[b], columns, plan) <= 0
}

/// The sorts before the first host comparator are a prefix of the plan, none of
/// them done by a host comparator.
proof fn lemma_builtin_sorts(plan: Seq<(int, DataTableSortDirection)>, columns: Seq<ColumnView>) -> (n: int)
    ensures
        0 <= n <= plan.len(),
        builtin_sorts(plan, columns) == plan.take(n),
        forall|j: int| 0 <= j < n ==> columns[(#[trigger] plan[j]).0].sorting != Some(DataTableColumnSortKind::Custom),
    decreases plan.len(),
{
    if plan.len() == 0 || columns[plan[0].0].sorting == Some(DataTableColumnSortKind::Custom) {
        assert(plan.take(0) =~= Seq::<(int, DataTableSortDirection)>::empty());
        0
    } else {
        let m = lemma_builtin_sorts(plan.skip(1), columns);
        assert(seq![plan[0]] + plan.skip(1).take(m) =~= plan.take(m + 1));
        assert forall|j: int| 0 <= j < m + 1 implies columns[(#[trigger] plan[j]).0].sorting != Some(
            DataTableColumnSortKind::Custom,
        ) by {
            if j > 0 {
                assert(plan[j] == plan.skip(1)[j - 1]);
            }
        }
        m + 1
    }
}

/// The rows of a sort plan, ordered.
pub open spec fn sorted_rows(rows: Seq<RowView>, columns: Seq<ColumnView>, plan: Seq<(int, DataTableSortDirection)>) -> Seq<RowView> {
    if plan.len() == 0 {
        rows
    } else {
        sort_by_order(rows, |l: RowView, r: RowView| rows_order(l, r, columns, plan))
    }
}

fn build_sort_plan(state: &DataTableState, columns: &Vec<DataTableColumnInfo>) -> (plan: Vec<(usize, DataTableSortDirection)>)
    ensures
        plan@.map_values(|e: (usize, DataTableSortDirection)| (e.0 as int, e.1)) == sort_plan(
            state.sorting.deep_view(),
            columns.deep_view(),
        ),
        forall|k: int| 0 <= k < plan@.len() ==> (#[trigger] plan@[k]).0 < columns.len(),
{
    let mut plan: Vec<(usize, DataTableSortDirection)> = Vec::new();
    let ghost ss = state.sorting.deep_view();
    let ghost cs = columns.deep_view();
    let mut i: usize = 0;
    assert(ss.take(0) =~= Seq::<(Seq<char>, DataTableSortDirection)>::empty());
    assert(plan@.map_values(|e: (usize, DataTableSortDirection)| (e.0 as int, e.1)) =~= Seq::<(int, DataTableSortDirection)>::empty());
    while i < state.sorting.len()
        invariant
            i <= state.sorting.len(),
            ss == state.sorting.deep_view(),
            cs == columns.deep_view(),
            plan@.map_values(|e: (usize, DataTableSortDirection)| (e.0 as int, e.1)) == sort_plan(ss.take(i as int), cs),
            forall|k: int| 0 <= k < plan@.len() ==> (#[trigger] plan@[k]).0 < columns.len(),
        decreases state.sorting.len() - i,
    {
        assert(ss.take(i + 1).drop_last() =~= ss.take(i as int));
        assert(ss.take(i + 1).last() == state.sorting@[i as int].deep_view());
        match find_column(columns, &state.sorting[i].column) {
            Some(ci) => {
                let ghost before = plan@;
                plan.push((ci, state.sorting[i].direction));
                assert(plan@.map_values(|e: (usize, DataTableSortDirection)| (e.0 as int, e.1)) =~= before.map_values(
                    |e: (usize, DataTableSortDirection)| (e.0 as int, e.1),
                ).push((ci as int, state.sorting@[i as int].direction)));
            },
            None => {},
        }
        i = i + 1;
    }
    assert(ss.take(i as int) =~= ss);
    plan
}

fn compare_rows<H: DataTableCustomHooks>(
    left: &DataTableDerivedRow,
    right: &DataTableDerivedRow,
    columns: &Vec<DataTableColumnInfo>,
    plan: &Vec<(usize, DataTableSortDirection)>,
    hooks: &H,
) -> (r: i8)
    requires
        left.values.len() == columns.len(),
        right.values.len() == columns.len(),
        forall|k: int| 0 <= k < plan@.len() ==> (#[trigger] plan@[k]).0 < columns.len(),
    ensures
        !plan_uses_custom(plan@.map_values(|e: (usize, DataTableSortDirection)| (e.0 as int, e.1)), columns.deep_view())
            ==> r == rows_order(
            left.deep_view(),
            right.deep_view(),
            columns.deep_view(),
            plan@.map_values(|e: (usize, DataTableSortDirection)| (e.0 as int, e.1)),
        ),
        ({
            let q = builtin_sorts(
                plan@.map_values(|e: (usize, DataTableSortDirection)| (e.0 as int, e.1)),
                columns.deep_view(),
            );
            key_order(left.deep_view(), right.deep_view(), columns.deep_view(), q) != 0 ==> r == key_order(
                left.deep_view(),
                right.deep_view(),
                columns.deep_view(),
                q,
            )
        }),
{
    let ghost p = plan@.map_values(|e: (usize, DataTableSortDirection)| (e.0 as int, e.1));
    let ghost cs = columns.deep_view();
    let ghost lv = left.deep_view();
    let ghost rv = right.deep_view();
    let ghost q = builtin_sorts(p, cs);
    let ghost n = lemma_builtin_sorts(p, cs);
    let mut k: usize = 0;
    assert(p.skip(0) =~= p);
    assert(q.skip(0) =~= q);
    proof {
        if n == 0 {
            assert(q.len() == 0);
        }
    }
    while k < plan.len()
        invariant
            k <= plan.len(),
            p == plan@.map_values(|e: (usize, DataTableSortDirection)| (e.0 as int, e.1)),
            cs == columns.deep_view(),
            lv == left.deep_view(),
            rv == right.deep_view(),
            left.values.len() == columns.len(),
            right.values.len() == columns.len(),
            forall|j: int| 0 <= j < plan@.len() ==> (#[trigger] plan@[j]).0 < columns.len(),
            !plan_uses_custom(p, cs) ==> rows_order(lv, rv, cs, p.skip(k as int)) == rows_order(lv, rv, cs, p),
            q == builtin_sorts(p, cs),
            0 <= n <= p.len(),
            q == p.take(n),
            forall|j: int| 0 <= j < n ==> cs[(#[trigger] p[j]).0].sorting != Some(DataTableColumnSortKind::Custom),
            k <= n ==> key_order(lv, rv, cs, q) == key_order(lv, rv, cs, q.skip(k as int)),
            k >= n ==> key_order(lv, rv, cs, q) == 0,
        decreases plan.len() - k,
    {
        let (ci, direction) = plan[k];
        assert(p[k as int] == (ci as int, direction));
        assert(p.skip(k as int)[0] == p[k as int]);
        assert(p.skip(k as int).skip(1) =~= p.skip(k + 1));
        assert(cs[ci as int] == columns@[ci as int].deep_view());
        assert(lv.values[ci as int] == left.values@[ci as int].deep_view());
        assert(rv.values[ci as int] == right.values@[ci as int].deep_view());
        let c: i8 = match columns[ci].sorting {
            Some(DataTableColumnSortKind::Custom) => {
                let c = hooks.custom_compare(left, right, ci, direction);
                if c < 0 {
                    -1
                } else if c == 0 {
                    0
                } else {
                    1
                }
            },
            Some(DataTableColumnSortKind::BuiltIn) => {
                value_sign(&left.values[ci], &right.values[ci], direction)
            },
            None => 0,
        };
        proof {
            if !plan_uses_custom(p, cs) {
                assert(cs[p[k as int].0].sorting != Some(DataTableColumnSortKind::Custom));
                assert(c == entry_order(lv, rv, cs, p[k as int]));
            }
            if (k as int) < n {
                assert(q[k as int] == p[k as int]);
                assert(q.skip(k as int)[0] == q[k as int]);
                assert(q.skip(k as int).skip(1) =~= q.skip(k + 1));
                assert(c == entry_order(lv, rv, cs, p[k as int]));
                if c == 0 {
                    assert(key_order(lv, rv, cs, q.skip(k as int)) == key_order(lv, rv, cs, q.skip(k + 1)));
                    if k + 1 == n {
                        assert(q.skip(k + 1).len() == 0);
                        assert(key_order(lv, rv, cs, q.skip(k + 1)) == 0);
                    }
                }
            }
        }
        if c != 0 {
            return c;
        }
        k = k + 1;
    }
    if left.source_index < right.source_index {
        -1
    } else if left.source_index == right.source_index {
        0
    } else {
        1
    }
}

/// Sorts rows by the state's sorting: the sorts whose column is among `columns` are
/// tried in order, and rows that tie on all of them keep their source order. Rows
/// are left as they are when no sort applies. Columns with a host comparator ask
/// `hooks`; whatever it answers, the rows come out in the order of the built-in
/// sorts that precede the first host-compared one, where on each of their columns
/// no row holds a number while another holds a text, date-time or boolean.
pub fn sort_rows<H: DataTableCustomHooks>(
    rows: &mut Vec<DataTableDerivedRow>,
    columns: &Vec<DataTableColumnInfo>,
    state: &DataTableState,
    hooks: &H,
)
    requires
        rows_aligned(old(rows).deep_view(), columns.deep_view()),
    ensures
        rows_aligned(final(rows).deep_view(), columns.deep_view()),
        final(rows).deep_view().to_multiset() == old(rows).deep_view().to_multiset(),
        !plan_uses_custom(sort_plan(state.sorting.deep_view(), columns.deep_view()), columns.deep_view())
            ==> final(rows).deep_view() == sorted_rows(
            old(rows).deep_view(),
            columns.deep_view(),
            sort_plan(state.sorting.deep_view(), columns.deep_view()),
        ),
        planned_kinds_agree(
            old(rows).deep_view(),
            builtin_sorts(sort_plan(state.sorting.deep_view(), columns.deep_view()), columns.deep_view()),
        ) ==> keys_ordered(
            final(rows).deep_view(),
            columns.deep_view(),
            builtin_sorts(sort_plan(state.sorting.deep_view(), columns.deep_view()), columns.deep_view()),
        ),
{
    let plan = build_sort_plan(state, columns);
    let ghost p = plan@.map_values(|e: (usize, DataTableSortDirection)| (e.0 as int, e.1));
    if plan.len() == 0 {
        assert(p.len() == 0);
        return;
    }
    assert(forall|k: int| 0 <= k < rows@.len() ==> (#[trigger] rows@[k]).values.len() == columns.len()) by {
        assert forall|k: int| 0 <= k < rows@.len() implies (#[trigger] rows@[k]).values.len() == columns.len() by {
            assert(rows.deep_view()[k] == rows@[k].deep_view());
        }
    }
    let ghost cs = columns.deep_view();
    let ghost rs = rows.deep_view();
    let ghost q = builtin_sorts(p, cs);
    let ghost order = |l: RowView, r: RowView| rows_order(l, r, cs, p);
    let mut out: Vec<DataTableDerivedRow> = Vec::new();
    let mut i: usize = 0;
    assert(rs.take(0) =~= Seq::<RowView>::empty());
    assert(out.deep_view() =~= Seq::<RowView>::empty());
    while i < rows.len()
        invariant
            i <= rows.len(),
            rs == rows.deep_view(),
            cs == columns.deep_view(),
            p == plan@.map_values(|e: (usize, DataTableSortDirection)| (e.0 as int, e.1)),
            q == builtin_sorts(p, cs),
            order == (|l: RowView, r: RowView| rows_order(l, r, cs, p)),
            rows_aligned(rs, cs),
            forall|k: int| 0 <= k < plan@.len() ==> (#[trigger] plan@[k]).0 < columns.len(),
            forall|k: int| 0 <= k < out@.len() ==> (#[trigger] out@[k]).values.len() == columns.len(),
            forall|k: int| 0 <= k < out.deep_view().len() ==> rs.contains(#[trigger] out.deep_view()[k]),
            out.deep_view().to_multiset() == rs.take(i as int).to_multiset(),
            !plan_uses_custom(p, cs) ==> out.deep_view() == sort_by_order(rs.take(i as int), order),
            planned_kinds_agree(rs, q) ==> keys_ordered(out.deep_view(), cs, q),
        decreases rows.len() - i,
    {
        let x = rows[i].clone();
        assert(rs[i as int] == x.deep_view());
        assert(x.values.len() == x.deep_view().values.len());
        let ghost sorted = out.deep_view();
        let ghost xv = x.deep_view();
        let mut j: usize = 0;
        let mut placed = false;
        while !placed && j < out.len()
            invariant
                j <= out.len(),
                out.deep_view() == sorted,
                xv == x.deep_view(),
                cs == columns.deep_view(),
                p == plan@.map_values(|e: (usize, DataTableSortDirection)| (e.0 as int, e.1)),
                q == builtin_sorts(p, cs),
                order == (|l: RowView, r: RowView| rows_order(l, r, cs, p)),
                x.values.len() == columns.len(),
                forall|k: int| 0 <= k < plan@.len() ==> (#[trigger] plan@[k]).0 < columns.len(),
                forall|k: int| 0 <= k < out@.len() ==> (#[trigger] out@[k]).values.len() == columns.len(),
                !plan_uses_custom(p, cs) ==> forall|k: int| 0 <= k < j ==> order(xv, #[trigger] sorted[k]) >= 0,
                forall|k: int| 0 <= k < j ==> key_order(xv, #[trigger] sorted[k], cs, q) >= 0,
                placed ==> j < out.len() && key_order(xv, sorted[j as int], cs, q) <= 0 && (!plan_uses_custom(p, cs)
                    ==> order(xv, sorted[j as int]) < 0),
            decreases out.len() - j, (if placed { 0int } else { 1int }),
        {
            assert(sorted[j as int] == out@[j as int].deep_view());
            let c = compare_rows(&x, &out[j], columns, &plan, hooks);
            if c >= 0 {
                j = j + 1;
            } else {
                placed = true;
            }
        }
        proof {
            if !plan_uses_custom(p, cs) {
                lemma_order_pos(sorted, xv, order);
                let pos = order_pos(sorted, xv, order);
                if (j as int) < pos {
                    assert(order(xv, sorted[j as int]) >= 0);
                }
                if pos < j {
                    assert(order(xv, sorted[pos]) < 0);
                }
            }
            assert(rs.take(i + 1).drop_last() =~= rs.take(i as int));
            assert(rs.take(i + 1).last() == xv);
        }
        out.insert(j, x);
        assert(out.deep_view() =~= sorted.insert(j as int, xv));
        proof {
            broadcast use vstd::seq_lib::to_multiset_build, vstd::seq_lib::to_multiset_insert;
            assert(rs.take(i + 1) =~= rs.take(i as int).push(xv));
            let ns = out.deep_view();
            assert forall|k: int| 0 <= k < ns.len() implies rs.contains(#[trigger] ns[k]) by {
                if k < j {
                    assert(ns[k] == sorted[k]);
                } else if k > j {
                    assert(ns[k] == sorted[k - 1]);
                } else {
                    assert(rs[i as int] == ns[k]);
                }
            }
            if planned_kinds_agree(rs, q) {
                assert(keys_ordered(sorted, cs, q));
                assert forall|a: int, b: int| 0 <= a < b < ns.len() implies key_order(
                    #[trigger] ns[a],
                    #[trigger] ns[b],
                    cs,
                    q,
                ) <= 0 by {
                    if b < j {
                        assert(ns[a] == sorted[a] && ns[b] == sorted[b]);
                    } else if b == j {
                        assert(ns[a] == sorted[a] && ns[b] == xv);
                        assert(key_order(xv, sorted[a], cs, q) >= 0);
                        lemma_key_order_sign(xv, sorted[a], cs, q);
                    } else if a > j {
                        assert(ns[a] == sorted[a - 1] && ns[b] == sorted[b - 1]);
                    } else if a < j {
                        assert(ns[a] == sorted[a] && ns[b] == sorted[b - 1]);
                    } else {
                        assert(ns[a] == xv && ns[b] == sorted[b - 1]);
                        assert(placed);
                        if b - 1 > j {
                            assert(key_order(sorted[j as int], sorted[b - 1], cs, q) <= 0);
                            assert(rs.contains(sorted[j as int]));
                            assert(rs.contains(sorted[b - 1]));
                            assert(rs.contains(xv));
                            lemma_member_kinds_agree(rs, q, xv, sorted[j as int], sorted[b - 1]);
                            lemma_key_order_transitive(xv, sorted[j as int], sorted[b - 1], cs, q);
                        }
                    }
                }
            }
        }
        assert forall|k: int| 0 <= k < out@.len() implies (#[trigger] out@[k]).values.len() == columns.len() by {
            assert(out.deep_view()[k] == out@[k].deep_view());
            if k < j {
                assert(out.deep_view()[k] == sorted[k]);
            } else if k > j {
                assert(out.deep_view()[k] == sorted[k - 1]);
            }
        }
        i = i + 1;
    }
    assert(rs.take(i as int) =~= rs);
    assert forall|k: int| 0 <= k < out.deep_view().len() implies (#[trigger] out.deep_view()[k]).values.len() == columns.len() by {
        assert(out.deep_view()[k] == out@[k].deep_view());
    }
    *rows = out;
}


/// The rows of one page: `page_size` rows (at least one) starting after the rows of
/// the earlier pages (the page is at least one).
pub open spec fn page_rows_spec(rows: Seq<RowView>, page: u32, page_size: u64) -> Seq<RowView> {
    let size: int = if page_size >= 1 { page_size as int } else { 1 };
    let p: int = if page >= 1 { page as int } else { 1 };
    let start: int = (p - 1) * size;
    let lo: int = if start < rows.len() { start } else { rows.len() as int };
    let hi: int = if start + size < rows.len() { start + size } else { rows.len() as int };
    rows.subrange(lo, hi)
}

/// Keeps the rows of the current page.
pub fn paginate_rows(rows: Vec<DataTableDerivedRow>, pagination: &crate::table_state::DataTablePaginationState) -> (r:
    Vec<DataTableDerivedRow>)
    ensures
        r.deep_view() == page_rows_spec(rows.deep_view(), pagination.page, pagination.page_size),
{
    let size: u64 = if pagination.page_size >= 1 { pagination.page_size } else { 1 };
    let page: u32 = if pagination.page >= 1 { pagination.page } else { 1 };
    let len: u64 = rows.len() as u64;
    let ghost start: int = (page as int - 1) * size as int;
    let lo: u64 = if (page as u64 - 1) >= 1 && size > len / (page as u64 - 1) {
        proof {
            assert((page as int - 1) * size as int > len as int) by (nonlinear_arith)
                requires
                    page as int - 1 >= 1,
                    size as int > len as int / (page as int - 1),
            ;
        }
        len
    } else {
        proof {
            assert((page as int - 1) * size as int <= len as int) by (nonlinear_arith)
                requires
                    page as int - 1 == 0 || size as int <= len as int / (page as int - 1),
                    page as int - 1 >= 0,
                    len >= 0,
            ;
        }
        (page as u64 - 1) * size
    };
    assert(lo as int == (if start < rows.len() { start } else { rows.len() as int }));
    let hi: u64 = if size >= len - lo { len } else { lo + size };
    let ghost rs = rows.deep_view();
    let mut out: Vec<DataTableDerivedRow> = Vec::new();
    let mut i: usize = lo as usize;
    assert(rs.subrange(lo as int, lo as int) =~= out.deep_view());
    while i < hi as usize
        invariant
            lo as int <= i <= hi as int,
            hi as int <= rows.len(),
            rs == rows.deep_view(),
            out.deep_view() == rs.subrange(lo as int, i as int),
        decreases hi as int - i,
    {
        let ghost before = out.deep_view();
        assert(rs[i as int] == rows@[i as int].deep_view());
        let row = rows[i].clone();
        out.push(row);
        assert(out.deep_view() =~= before.push(rs[i as int]));
        assert(out.deep_view() =~= rs.subrange(lo as int, i + 1));
        i = i + 1;
    }
    out
}

/// The rows with their display index set to their position.
pub open spec fn with_display_indexes(rows: Seq<RowView>) -> Seq<RowView> {
    Seq::new(rows.len(), |i: int| RowView { display_index: i as usize, ..rows[i] })
}

/// Numbers the rows in display order.
pub fn assign_display_indexes(rows: Vec<DataTableDerivedRow>) -> (r: Vec<DataTableDerivedRow>)
    ensures
        r.deep_view() == with_display_indexes(rows.deep_view()),
{
    let mut rows = rows;
    let ghost rs = rows.deep_view();
    let mut i: usize = 0;
    while i < rows.len()
        invariant
            i <= rows.len(),
            rs.len() == rows.len(),
            forall|k: int| 0 <= k < i ==> #[trigger] rows.deep_view()[k] == with_display_indexes(rs)[k],
            forall|k: int| i <= k < rows.len() ==> #[trigger] rows.deep_view()[k] == rs[k],
        decreases rows.len() - i,
    {
        let ghost before = rows@;
        let ghost before_dv = rows.deep_view();
        assert(rows.deep_view()[i as int] == rs[i as int]);
        assert(before[i as int].deep_view() == rs[i as int]);
        let mut row = rows.remove(i);
        row.display_index = i;
        let ghost new_row = row;
        rows.insert(i, row);
        assert(rows@ =~= before.update(i as int, new_row));
        assert forall|k: int| 0 <= k <= i implies #[trigger] rows.deep_view()[k] == with_display_indexes(rs)[k] by {
            if k < i {
                assert(rows@[k] == before[k]);
                assert(rows.deep_view()[k] == rows@[k].deep_view());
                assert(before_dv[k] == before[k].deep_view());
            } else {
                assert(new_row.deep_view() == RowView { display_index: i, ..rs[i as int] });
                assert(rows.deep_view()[k] == new_row.deep_view());
            }
        }
        assert forall|k: int| i < k < rows.len() implies #[trigger] rows.deep_view()[k] == rs[k] by {
            assert(rows@[k] == before[k]);
            assert(rows.deep_view()[k] == rows@[k].deep_view());
            assert(before_dv[k] == before[k].deep_view());
        }
        i = i + 1;
    }
    assert(rows.deep_view() =~= with_display_indexes(rs));
    rows
}


/// The rows made from the supplied items' ids: the first item of each id, in item
/// order, with its selection under the state's query and its expansion; no values
/// yet.
pub open spec fn base_rows_spec(ids: Seq<Seq<char>>, selection: crate::table_state::SelectionView, expanded: Seq<Seq<char>>, query: Seq<char>) -> Seq<RowView>
    decreases ids.len(),
{
    if ids.len() == 0 {
        Seq::empty()
    } else {
        let r = base_rows_spec(ids.drop_last(), selection, expanded, query);
        let id = ids.last();
        if r.map_values(|x: RowView| x.id).contains(id) {
            r
        } else {
            r.push(
                RowView {
                    id,
                    source_index: (ids.len() - 1) as usize,
                    display_index: (ids.len() - 1) as usize,
                    selected: crate::table_selection::selected_in(selection, id, query),
                    expanded: expanded.contains(id),
                    values: Seq::empty(),
                },
            )
        }
    }
}

/// Builds the base rows for the supplied items' ids; an id already seen is
/// dropped, keeping the first item with it.
pub fn build_base_rows(ids: &Vec<String>, state: &DataTableState) -> (r: Vec<DataTableDerivedRow>)
    ensures
        r.deep_view() == base_rows_spec(
            ids.deep_view(),
            state.row_selection.deep_view(),
            state.expanded_rows.deep_view(),
            crate::table_query::fingerprint_text(state.filters.deep_view(), opt_view(state.global_filter)),
        ),
{
    let query = crate::table_query::query_fingerprint(state);
    let ghost is = ids.deep_view();
    let mut seen: Vec<String> = Vec::new();
    let mut out: Vec<DataTableDerivedRow> = Vec::new();
    let mut i: usize = 0;
    assert(is.take(0) =~= Seq::<Seq<char>>::empty());
    assert(out.deep_view() =~= Seq::<RowView>::empty());
    assert(seen.deep_view() =~= Seq::<Seq<char>>::empty());
    while i < ids.len()
        invariant
            i <= ids.len(),
            is == ids.deep_view(),
            query@ == crate::table_query::fingerprint_text(state.filters.deep_view(), opt_view(state.global_filter)),
            out.deep_view() == base_rows_spec(
                is.take(i as int),
                state.row_selection.deep_view(),
                state.expanded_rows.deep_view(),
                query@,
            ),
            seen.deep_view() == out.deep_view().map_values(|x: RowView| x.id),
        decreases ids.len() - i,
    {
        assert(is.take(i + 1).drop_last() =~= is.take(i as int));
        assert(is.take(i + 1).last() == ids@[i as int]@);
        let id = ids[i].clone();
        if !contains_string(&seen, &id) {
            let selected = crate::table_selection::is_row_selected(&state.row_selection, id.as_str(), query.as_str());
            let expanded = contains_string(&state.expanded_rows, &id);
            let values: Vec<DataTableValue> = Vec::new();
            assert(values.deep_view() =~= Seq::<ValueView>::empty());
            let row = DataTableDerivedRow {
                id: id.clone(),
                source_index: i,
                display_index: i,
                selected,
                expanded,
                values,
            };
            let ghost s0 = seen.deep_view();
            let ghost o0 = out.deep_view();
            let ghost rv = row.deep_view();
            seen.push(id);
            out.push(row);
            assert(out.deep_view() =~= o0.push(rv));
            assert(seen.deep_view() =~= s0.push(rv.id));
            assert(out.deep_view().map_values(|x: RowView| x.id) =~= o0.map_values(|x: RowView| x.id).push(rv.id));
        }
        i = i + 1;
    }
    assert(is.take(i as int) =~= is);
    out
}

/// Which row-model stages the host performs itself.
#[derive(Clone, Copy, Debug, PartialEq, Eq)]
pub struct DataTableManualModes {
    /// The host pages the rows.
    pub pagination: bool,
    /// The host sorts the rows.
    pub sorting: bool,
    /// The host filters the rows.
    pub filtering: bool,
}

/// The rows after the filtering stage, when the table performs it (`vs` holds the
/// host predicates' verdicts, see [`filter_rows_spec`]).
pub open spec fn filter_stage(
    rows: Seq<RowView>,
    columns: Seq<ColumnView>,
    keys: Seq<RangeBoundKeys>,
    s: crate::table_state::StateView,
    manual: DataTableManualModes,
    hidden: Seq<Seq<char>>,
    vs: Seq<Seq<bool>>,
) -> Seq<RowView> {
    if manual.filtering {
        rows
    } else {
        filter_rows_spec(rows, columns, keys, s.filters, s.global_filter, hidden, vs)
    }
}

/// The rows after the sorting stage, when the table performs it.
pub open spec fn sort_stage(
    rows: Seq<RowView>,
    columns: Seq<ColumnView>,
    s: crate::table_state::StateView,
    manual: DataTableManualModes,
) -> Seq<RowView> {
    if manual.sorting {
        rows
    } else {
        sorted_rows(rows, columns, sort_plan(s.sorting, columns))
    }
}

/// The rows after the paging stage, when the table performs it.
pub open spec fn page_stage(rows: Seq<RowView>, s: crate::table_state::StateView, manual: DataTableManualModes) -> Seq<
    RowView,
> {
    if manual.pagination {
        rows
    } else {
        page_rows_spec(rows, s.pagination.page, s.pagination.page_size)
    }
}

/// The rows after the filtering, sorting and paging stages the table performs.
pub open spec fn row_model_spec(
    rows: Seq<RowView>,
    columns: Seq<ColumnView>,
    keys: Seq<RangeBoundKeys>,
    s: crate::table_state::StateView,
    manual: DataTableManualModes,
    hidden: Seq<Seq<char>>,
    vs: Seq<Seq<bool>>,
) -> Seq<RowView> {
    page_stage(sort_stage(filter_stage(rows, columns, keys, s, manual, hidden, vs), columns, s, manual), s, manual)
}

/// Applies the filtering, sorting and paging stages that the host does not
/// perform. Whatever the host predicates and comparators answer, the rows are a
/// page of a reordering of what the filters keep; with no host predicate or
/// comparator involved, they are exactly the row model.
pub fn apply_row_model_stages<H: DataTableCustomHooks>(
    rows: Vec<DataTableDerivedRow>,
    columns: &Vec<DataTableColumnInfo>,
    state: &DataTableState,
    bound_keys: &Vec<RangeBoundKeys>,
    hidden_texts: &Vec<String>,
    manual_modes: DataTableManualModes,
    hooks: &H,
) -> (r: Vec<DataTableDerivedRow>)
    requires
        rows_aligned(rows.deep_view(), columns.deep_view()),
    ensures
        exists|vs: Seq<Seq<bool>>, sorted: Seq<RowView>|
            sorted.to_multiset() == #[trigger] filter_stage(
                rows.deep_view(),
                columns.deep_view(),
                bound_keys@,
                state.deep_view(),
                manual_modes,
                hidden_texts.deep_view(),
                vs,
            ).to_multiset() && (manual_modes.sorting ==> sorted == filter_stage(
                rows.deep_view(),
                columns.deep_view(),
                bound_keys@,
                state.deep_view(),
                manual_modes,
                hidden_texts.deep_view(),
                vs,
            )) && (!plan_uses_custom(sort_plan(state.sorting.deep_view(), columns.deep_view()), columns.deep_view())
                ==> sorted == sort_stage(
                filter_stage(
                    rows.deep_view(),
                    columns.deep_view(),
                    bound_keys@,
                    state.deep_view(),
                    manual_modes,
                    hidden_texts.deep_view(),
                    vs,
                ),
                columns.deep_view(),
                state.deep_view(),
                manual_modes,
            )) && r.deep_view() == #[trigger] page_stage(sorted, state.deep_view(), manual_modes),
        !manual_modes.pagination ==> r.len() <= (if state.pagination.page_size >= 1 {
            state.pagination.page_size as int
        } else {
            1
        }),
        !uses_custom_filter(columns.deep_view(), state.filters.deep_view()) && !plan_uses_custom(
            sort_plan(state.sorting.deep_view(), columns.deep_view()),
            columns.deep_view(),
        ) ==> r.deep_view() == row_model_spec(
            rows.deep_view(),
            columns.deep_view(),
            bound_keys@,
            state.deep_view(),
            manual_modes,
            hidden_texts.deep_view(),
            Seq::empty(),
        ),
{
    let ghost rs = rows.deep_view();
    let ghost cs = columns.deep_view();
    let ghost s = state.deep_view();
    let ghost hs = hidden_texts.deep_view();
    let mut rows = rows;
    if !manual_modes.filtering {
        rows = filter_rows(rows, columns, state, bound_keys, hidden_texts, hooks);
    }
    let ghost filtered = rows.deep_view();
    let ghost vs: Seq<Seq<bool>> = if manual_modes.filtering {
        Seq::empty()
    } else {
        choose|vs: Seq<Seq<bool>>| filtered == filter_rows_spec(rs, cs, bound_keys@, s.filters, s.global_filter, hs, vs)
    };
    assert(filtered == filter_stage(rs, cs, bound_keys@, s, manual_modes, hs, vs));
    if !manual_modes.sorting {
        sort_rows(&mut rows, columns, state, hooks);
    }
    let ghost sorted = rows.deep_view();
    if !manual_modes.pagination {
        rows = paginate_rows(rows, &state.pagination);
        proof {
            law_page_within_page_size(sorted, state.pagination.page, state.pagination.page_size);
        }
    }
    proof {
        assert(sorted.to_multiset() == filter_stage(rs, cs, bound_keys@, s, manual_modes, hs, vs).to_multiset());
        assert(rows.deep_view() == page_stage(sorted, s, manual_modes));
        if !uses_custom_filter(cs, state.filters.deep_view()) {
            lemma_filter_spec_builtin(rs, cs, bound_keys@, s.filters, s.global_filter, hs, vs);
        }
    }
    rows
}

/// Law: sorting rows rearranges them without adding or losing any.
pub proof fn law_sorted_rows_permutes(rows: Seq<RowView>, columns: Seq<ColumnView>, plan: Seq<(int, DataTableSortDirection)>)
    ensures
        sorted_rows(rows, columns, plan).to_multiset() == rows.to_multiset(),
{
    if plan.len() > 0 {
        law_sort_by_order_permutes(rows, |l: RowView, r: RowView| rows_order(l, r, columns, plan));
    }
}

/// Law: a page holds at most the page size (at least one) of rows.
pub proof fn law_page_within_page_size(rows: Seq<RowView>, page: u32, page_size: u64)
    ensures
        page_rows_spec(rows, page, page_size).len() <= (if page_size >= 1 { page_size as int } else { 1 }),
{
}

/// Whether a value compares by its text with every value but numbers: a text, a
/// date-time or a boolean.
pub open spec fn is_text_like(v: ValueView) -> bool {
    v is Text || v is DateTime || v is Boolean
}

/// The three-way lexicographic order of two texts.
pub open spec fn text_order(a: Seq<char>, b: Seq<char>) -> int {
    if lex_lt(a, b) {
        -1
    } else if a == b {
        0
    } else {
        1
    }
}

/// No two of the values are a number and a text-like value.
pub open spec fn kinds_agree(a: ValueView, b: ValueView, c: ValueView) -> bool {
    &&& !(a is Number && (is_text_like(b) || is_text_like(c)))
    &&& !(b is Number && (is_text_like(a) || is_text_like(c)))
    &&& !(c is Number && (is_text_like(a) || is_text_like(b)))
}

/// Every planned column lies among the columns.
pub open spec fn plan_in_columns(plan: Seq<(int, DataTableSortDirection)>, columns: Seq<ColumnView>) -> bool {
    forall|k: int| 0 <= k < plan.len() ==> 0 <= (#[trigger] plan[k]).0 < columns.len()
}

/// On each planned column, no row holds a number where another row holds a
/// text-like value.
pub open spec fn planned_kinds_agree(rows: Seq<RowView>, plan: Seq<(int, DataTableSortDirection)>) -> bool {
    forall|k: int, i: int, j: int|
        0 <= k < plan.len() && 0 <= i < rows.len() && 0 <= j < rows.len() ==> !(
        (#[trigger] rows[i]).values[(#[trigger] plan[k]).0] is Number && is_text_like(
            (#[trigger] rows[j]).values[plan[k].0],
        ))
}

/// The text order is antisymmetric in sign.
proof fn lemma_text_order_sign(a: Seq<char>, b: Seq<char>)
    ensures
        text_order(a, b) < 0 <==> text_order(b, a) > 0,
        text_order(a, b) == 0 <==> text_order(b, a) == 0,
{
    if a == b {
        lemma_lex_irreflexive(a);
    } else {
        lemma_lex_total(a, b);
        if lex_lt(a, b) && lex_lt(b, a) {
            lemma_lex_transitive(a, b, a);
            lemma_lex_irreflexive(a);
        }
    }
}

/// The text order is transitive.
proof fn lemma_text_order_transitive(a: Seq<char>, b: Seq<char>, c: Seq<char>)
    requires
        text_order(a, b) <= 0,
        text_order(b, c) <= 0,
    ensures
        text_order(a, c) <= 0,
{
    if lex_lt(a, b) && lex_lt(b, c) {
        lemma_lex_transitive(a, b, c);
    }
}

/// Booleans compare as their texts do.
proof fn lemma_boolean_order_is_text_order(x: bool, y: bool)
    ensures
        value_order(ValueView::Boolean(x), ValueView::Boolean(y)) == text_order(
            value_text(ValueView::Boolean(x)),
            value_text(ValueView::Boolean(y)),
        ),
{
    reveal_strlit("true");
    reveal_strlit("false");
    let t = value_text(ValueView::Boolean(true));
    let f = value_text(ValueView::Boolean(false));
    assert(t[0] == 't' && f[0] == 'f');
    assert(lex_lt(f, t));
    lemma_lex_irreflexive(f);
    lemma_lex_irreflexive(t);
    lemma_text_order_sign(f, t);
}

/// Text-like values compare by their texts.
proof fn lemma_text_like_order(a: ValueView, b: ValueView)
    requires
        is_text_like(a),
        is_text_like(b),
    ensures
        value_order(a, b) == text_order(value_text(a), value_text(b)),
{
    if let (ValueView::Boolean(x), ValueView::Boolean(y)) = (a, b) {
        lemma_boolean_order_is_text_order(x, y);
    }
}

/// The built-in value order is antisymmetric in sign.
pub proof fn lemma_value_order_sign(a: ValueView, b: ValueView)
    ensures
        value_order(a, b) < 0 <==> value_order(b, a) > 0,
        value_order(a, b) == 0 <==> value_order(b, a) == 0,
{
    lemma_text_order_sign(value_text(a), value_text(b));
}

/// The built-in value order is transitive among values whose kinds agree.
pub proof fn lemma_value_order_transitive(a: ValueView, b: ValueView, c: ValueView)
    requires
        kinds_agree(a, b, c),
        value_order(a, b) <= 0,
        value_order(b, c) <= 0,
    ensures
        value_order(a, c) <= 0,
{
    if !(c is Empty) && !(a is Empty) && !(b is Empty) {
        if a is Number {
        } else {
            lemma_text_like_order(a, b);
            lemma_text_like_order(b, c);
            lemma_text_like_order(a, c);
            lemma_text_order_transitive(value_text(a), value_text(b), value_text(c));
        }
    }
}

/// One planned sort is antisymmetric in sign.
proof fn lemma_entry_order_sign(l: RowView, r: RowView, columns: Seq<ColumnView>, e: (int, DataTableSortDirection))
    ensures
        entry_order(l, r, columns, e) < 0 <==> entry_order(r, l, columns, e) > 0,
        entry_order(l, r, columns, e) == 0 <==> entry_order(r, l, columns, e) == 0,
{
    lemma_value_order_sign(l.values[e.0], r.values[e.0]);
}

/// One planned sort is transitive among rows whose values agree in kind.
proof fn lemma_entry_order_transitive(
    a: RowView,
    b: RowView,
    c: RowView,
    columns: Seq<ColumnView>,
    e: (int, DataTableSortDirection),
)
    requires
        kinds_agree(a.values[e.0], b.values[e.0], c.values[e.0]),
        entry_order(a, b, columns, e) <= 0,
        entry_order(b, c, columns, e) <= 0,
    ensures
        entry_order(a, c, columns, e) <= 0,
{
    let (x, y, z) = (a.values[e.0], b.values[e.0], c.values[e.0]);
    if columns[e.0].sorting == Some(DataTableColumnSortKind::BuiltIn) {
        lemma_value_order_sign(x, y);
        lemma_value_order_sign(y, z);
        lemma_value_order_sign(x, z);
        match e.1 {
            DataTableSortDirection::Ascending => {
                lemma_value_order_transitive(x, y, z);
            },
            DataTableSortDirection::Descending => {
                lemma_value_order_transitive(z, y, x);
            },
        }
    }
}

/// The row order is antisymmetric in sign.
proof fn lemma_rows_order_sign(l: RowView, r: RowView, columns: Seq<ColumnView>, plan: Seq<(int, DataTableSortDirection)>)
    ensures
        rows_order(l, r, columns, plan) < 0 <==> rows_order(r, l, columns, plan) > 0,
    decreases plan.len(),
{
    if plan.len() > 0 {
        lemma_entry_order_sign(l, r, columns, plan[0]);
        lemma_rows_order_sign(l, r, columns, plan.skip(1));
    }
}

/// The row order is transitive among rows whose planned values agree in kind.
proof fn lemma_rows_order_transitive(
    a: RowView,
    b: RowView,
    c: RowView,
    columns: Seq<ColumnView>,
    plan: Seq<(int, DataTableSortDirection)>,
)
    requires
        forall|k: int| 0 <= k < plan.len() ==> kinds_agree(
            a.values[(#[trigger] plan[k]).0],
            b.values[plan[k].0],
            c.values[plan[k].0],
        ),
        rows_order(a, b, columns, plan) <= 0,
        rows_order(b, c, columns, plan) <= 0,
    ensures
        rows_order(a, c, columns, plan) <= 0,
    decreases plan.len(),
{
    if plan.len() > 0 {
        let e = plan[0];
        assert(kinds_agree(a.values[e.0], b.values[e.0], c.values[e.0]));
        assert(kinds_agree(c.values[e.0], b.values[e.0], a.values[e.0]));
        assert(kinds_agree(b.values[e.0], c.values[e.0], a.values[e.0]));
        assert(kinds_agree(c.values[e.0], a.values[e.0], b.values[e.0]));
        lemma_entry_order_sign(a, b, columns, e);
        lemma_entry_order_sign(b, c, columns, e);
        lemma_entry_order_sign(a, c, columns, e);
        let x = entry_order(a, b, columns, e);
        let y = entry_order(b, c, columns, e);
        if x != 0 || y != 0 {
            lemma_entry_order_transitive(a, b, c, columns, e);
            if entry_order(a, c, columns, e) == 0 {
                if x != 0 {
                    lemma_entry_order_transitive(b, c, a, columns, e);
                } else {
                    lemma_entry_order_transitive(c, a, b, columns, e);
                }
            }
        } else {
            lemma_entry_order_transitive(a, b, c, columns, e);
            lemma_entry_order_transitive(c, b, a, columns, e);
            assert forall|k: int| 0 <= k < plan.skip(1).len() implies kinds_agree(
                a.values[(#[trigger] plan.skip(1)[k]).0],
                b.values[plan.skip(1)[k].0],
                c.values[plan.skip(1)[k].0],
            ) by {
                assert(plan.skip(1)[k] == plan[k + 1]);
            }
            lemma_rows_order_transitive(a, b, c, columns, plan.skip(1));
        }
    }
}

/// The order under the planned sorts is antisymmetric in sign.
proof fn lemma_key_order_sign(l: RowView, r: RowView, columns: Seq<ColumnView>, plan: Seq<(int, DataTableSortDirection)>)
    ensures
        key_order(l, r, columns, plan) < 0 <==> key_order(r, l, columns, plan) > 0,
    decreases plan.len(),
{
    if plan.len() > 0 {
        lemma_entry_order_sign(l, r, columns, plan[0]);
        lemma_key_order_sign(l, r, columns, plan.skip(1));
    }
}

/// The order under the planned sorts is transitive among rows whose planned
/// values agree in kind.
proof fn lemma_key_order_transitive(
    a: RowView,
    b: RowView,
    c: RowView,
    columns: Seq<ColumnView>,
    plan: Seq<(int, DataTableSortDirection)>,
)
    requires
        forall|k: int| 0 <= k < plan.len() ==> kinds_agree(
            a.values[(#[trigger] plan[k]).0],
            b.values[plan[k].0],
            c.values[plan[k].0],
        ),
        key_order(a, b, columns, plan) <= 0,
        key_order(b, c, columns, plan) <= 0,
    ensures
        key_order(a, c, columns, plan) <= 0,
    decreases plan.len(),
{
    if plan.len() > 0 {
        let e = plan[0];
        assert(kinds_agree(a.values[e.0], b.values[e.0], c.values[e.0]));
        assert(kinds_agree(c.values[e.0], b.values[e.0], a.values[e.0]));
        assert(kinds_agree(b.values[e.0], c.values[e.0], a.values[e.0]));
        assert(kinds_agree(c.values[e.0], a.values[e.0], b.values[e.0]));
        lemma_entry_order_sign(a, b, columns, e);
        lemma_entry_order_sign(b, c, columns, e);
        lemma_entry_order_sign(a, c, columns, e);
        let x = entry_order(a, b, columns, e);
        let y = entry_order(b, c, columns, e);
        if x != 0 || y != 0 {
            lemma_entry_order_transitive(a, b, c, columns, e);
            if entry_order(a, c, columns, e) == 0 {
                if x != 0 {
                    lemma_entry_order_transitive(b, c, a, columns, e);
                } else {
                    lemma_entry_order_transitive(c, a, b, columns, e);
                }
            }
        } else {
            lemma_entry_order_transitive(a, b, c, columns, e);
            lemma_entry_order_transitive(c, b, a, columns, e);
            assert forall|k: int| 0 <= k < plan.skip(1).len() implies kinds_agree(
                a.values[(#[trigger] plan.skip(1)[k]).0],
                b.values[plan.skip(1)[k].0],
                c.values[plan.skip(1)[k].0],
            ) by {
                assert(plan.skip(1)[k] == plan[k + 1]);
            }
            lemma_key_order_transitive(a, b, c, columns, plan.skip(1));
        }
    }
}

/// Three rows among rows whose planned values agree in kind agree in kind on
/// every planned column.
proof fn lemma_member_kinds_agree(
    rows: Seq<RowView>,
    plan: Seq<(int, DataTableSortDirection)>,
    a: RowView,
    b: RowView,
    c: RowView,
)
    requires
        planned_kinds_agree(rows, plan),
        rows.contains(a),
        rows.contains(b),
        rows.contains(c),
    ensures
        forall|k: int| 0 <= k < plan.len() ==> kinds_agree(
            a.values[(#[trigger] plan[k]).0],
            b.values[plan[k].0],
            c.values[plan[k].0],
        ),
{
    let i = choose|i: int| 0 <= i < rows.len() && rows[i] == a;
    let j = choose|j: int| 0 <= j < rows.len() && rows[j] == b;
    let m = choose|m: int| 0 <= m < rows.len() && rows[m] == c;
    assert forall|k: int| 0 <= k < plan.len() implies kinds_agree(
        a.values[(#[trigger] plan[k]).0],
        b.values[plan[k].0],
        c.values[plan[k].0],
    ) by {
        assert(!(rows[i].values[plan[k].0] is Number && is_text_like(rows[j].values[plan[k].0])));
        assert(!(rows[i].values[plan[k].0] is Number && is_text_like(rows[m].values[plan[k].0])));
        assert(!(rows[j].values[plan[k].0] is Number && is_text_like(rows[i].values[plan[k].0])));
        assert(!(rows[j].values[plan[k].0] is Number && is_text_like(rows[m].values[plan[k].0])));
        assert(!(rows[m].values[plan[k].0] is Number && is_text_like(rows[i].values[plan[k].0])));
        assert(!(rows[m].values[plan[k].0] is Number && is_text_like(rows[j].values[plan[k].0])));
    }
}

/// Law: where, on each planned column, no row holds a number while another holds
/// a text, date-time or boolean, the sorted rows come out in the row order.
pub proof fn law_sorted_rows_ordered(rows: Seq<RowView>, columns: Seq<ColumnView>, plan: Seq<(int, DataTableSortDirection)>)
    requires
        rows_aligned(rows, columns),
        plan_in_columns(plan, columns),
        planned_kinds_agree(rows, plan),
        plan.len() > 0,
    ensures
        ordered_by(sorted_rows(rows, columns, plan), |l: RowView, r: RowView| rows_order(l, r, columns, plan)),
{
    let order = |l: RowView, r: RowView| rows_order(l, r, columns, plan);
    assert forall|a: RowView, b: RowView| rows.contains(a) && rows.contains(b) implies (order(a, b) < 0
        <==> order(b, a) > 0) by {
        lemma_rows_order_sign(a, b, columns, plan);
    }
    assert forall|a: RowView, b: RowView, c: RowView|
        rows.contains(a) && rows.contains(b) && rows.contains(c) && order(a, b) <= 0 && order(b, c)
            <= 0 implies order(a, c) <= 0 by {
        lemma_member_kinds_agree(rows, plan, a, b, c);
        lemma_rows_order_transitive(a, b, c, columns, plan);
    }
    assert(preorder_on(order, rows));
    law_sort_by_order_sorted_on(rows, order);
}

} // verus!
