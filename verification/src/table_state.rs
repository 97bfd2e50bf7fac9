//! Canonical state of the data table and the values it is made of.

use vstd::prelude::*;

verus! {

/// Stable row identifier used by table state.
pub type DataTableRowId = String;

/// Stable fingerprint for the active filtered query.
pub type DataTableQueryFingerprint = String;

/// Clones a vector whose element type clones to an equal model.
pub fn clone_exact<T: Clone + DeepView>(v: &Vec<T>) -> (r: Vec<T>)
    requires
        forall|a: T, b: T| #[trigger] cloned(a, b) ==> a.deep_view() == b.deep_view(),
    ensures
        r.deep_view() == v.deep_view(),
{
    let r = v.clone();
    assert(r.deep_view() =~= v.deep_view());
    r
}

/// Clones an optional string.
pub fn clone_opt_string(v: &Option<String>) -> (r: Option<String>)
    ensures
        r == *v,
{
    match v {
        Some(s) => Some(s.clone()),
        None => None,
    }
}

/// A state entry that belongs to one column, named by its id.
pub trait ColumnKeyed: DeepView + Clone + Sized {
    /// The column id of an entry model.
    spec fn key_of(v: Self::V) -> Seq<char>;

    /// The column id of this entry.
    fn column_key(&self) -> (k: &String)
        ensures
            k@ == Self::key_of(self.deep_view()),
    ;

    /// A clone has the same model as the value it copies.
    proof fn lemma_clone_same(a: Self, b: Self)
        requires
            cloned(a, b),
        ensures
            a.deep_view() == b.deep_view(),
    ;
}

impl ColumnKeyed for String {
    open spec fn key_of(v: Seq<char>) -> Seq<char> {
        v
    }

    fn column_key(&self) -> (k: &String) {
        self
    }

    proof fn lemma_clone_same(a: Self, b: Self) {
    }
}

/// The column key of an entry model, as a spec closure.
pub open spec fn column_key_fn<T: ColumnKeyed>() -> spec_fn(T::V) -> Seq<char> {
    |v: T::V| T::key_of(v)
}

/// Pagination state for the canonical table model.
#[derive(Clone, Copy, Debug, PartialEq, Eq)]
pub struct DataTablePaginationState {
    /// One-based page number.
    pub page: u32,
    /// Number of rows represented by each page.
    pub page_size: u64,
}

/// Sort direction for a sorted column.
#[derive(Clone, Copy, Debug, PartialEq, Eq)]
pub enum DataTableSortDirection {
    /// Ascending sort order.
    Ascending,
    /// Descending sort order.
    Descending,
}

/// One sorted column entry.
#[derive(Debug, PartialEq, Eq)]
pub struct DataTableSortState {
    /// Column id being sorted.
    pub column: String,
    /// Sort direction for the column.
    pub direction: DataTableSortDirection,
}

impl DeepView for DataTableSortState {
    type V = (Seq<char>, DataTableSortDirection);

    open spec fn deep_view(&self) -> (Seq<char>, DataTableSortDirection) {
        (self.column@, self.direction)
    }
}

impl ColumnKeyed for DataTableSortState {
    open spec fn key_of(v: Self::V) -> Seq<char> {
        v.0
    }

    fn column_key(&self) -> (k: &String) {
        &self.column
    }

    proof fn lemma_clone_same(a: Self, b: Self) {
    }
}

impl Clone for DataTableSortState {
    fn clone(&self) -> (r: Self)
        ensures
            r.deep_view() == self.deep_view(),
    {
        DataTableSortState { column: self.column.clone(), direction: self.direction }
    }
}


/// One column filter entry.
#[derive(Debug, PartialEq)]
pub struct DataTableFilterState {
    /// Column id being filtered.
    pub column: String,
    /// Filter value for the column.
    pub value: DataTableFilterValue,
}

impl DeepView for DataTableFilterState {
    type V = (Seq<char>, FilterValueView);

    open spec fn deep_view(&self) -> (Seq<char>, FilterValueView) {
        (self.column@, self.value.deep_view())
    }
}

impl ColumnKeyed for DataTableFilterState {
    open spec fn key_of(v: Self::V) -> Seq<char> {
        v.0
    }

    fn column_key(&self) -> (k: &String) {
        &self.column
    }

    proof fn lemma_clone_same(a: Self, b: Self) {
    }
}

impl Clone for DataTableFilterState {
    fn clone(&self) -> (r: Self)
        ensures
            r.deep_view() == self.deep_view(),
    {
        DataTableFilterState { column: self.column.clone(), value: self.value.clone() }
    }
}

/// Serializable filter value used by table state.
#[derive(Debug, PartialEq)]
pub enum DataTableFilterValue {
    /// Text filter.
    Text(String),
    /// Single option filter.
    Option(String),
    /// Multiple option filter.
    Multiple(Vec<String>),
    /// Boolean filter.
    Boolean(bool),
    /// Range filter with optional string bounds.
    Range {
        /// Optional minimum value.
        min: Option<String>,
        /// Optional maximum value.
        max: Option<String>,
    },
}

/// The model of a filter value: its strings taken as character sequences.
pub enum FilterValueView {
    Text(Seq<char>),
    Option(Seq<char>),
    Multiple(Seq<Seq<char>>),
    Boolean(bool),
    Range(Option<Seq<char>>, Option<Seq<char>>),
}

pub open spec fn opt_view(o: Option<String>) -> Option<Seq<char>> {
    match o {
        Some(s) => Some(s@),
        None => None,
    }
}

impl DeepView for DataTableFilterValue {
    type V = FilterValueView;

    open spec fn deep_view(&self) -> FilterValueView {
        match self {
            DataTableFilterValue::Text(v) => FilterValueView::Text(v@),
            DataTableFilterValue::Option(v) => FilterValueView::Option(v@),
            DataTableFilterValue::Multiple(v) => FilterValueView::Multiple(v.deep_view()),
            DataTableFilterValue::Boolean(b) => FilterValueView::Boolean(*b),
            DataTableFilterValue::Range { min, max } => FilterValueView::Range(opt_view(*min), opt_view(*max)),
        }
    }
}

impl Clone for DataTableFilterValue {
    fn clone(&self) -> (r: Self)
        ensures
            r.deep_view() == self.deep_view(),
    {
        match self {
            DataTableFilterValue::Text(v) => DataTableFilterValue::Text(v.clone()),
            DataTableFilterValue::Option(v) => DataTableFilterValue::Option(v.clone()),
            DataTableFilterValue::Multiple(v) => DataTableFilterValue::Multiple(clone_exact(v)),
            DataTableFilterValue::Boolean(b) => DataTableFilterValue::Boolean(*b),
            DataTableFilterValue::Range { min, max } => DataTableFilterValue::Range {
                min: clone_opt_string(min),
                max: clone_opt_string(max),
            },
        }
    }
}

/// One column visibility override.
#[derive(Debug, PartialEq, Eq)]
pub struct DataTableColumnVisibilityState {
    /// Column id.
    pub column: String,
    /// Whether the column is visible.
    pub visible: bool,
}

impl DeepView for DataTableColumnVisibilityState {
    type V = (Seq<char>, bool);

    open spec fn deep_view(&self) -> (Seq<char>, bool) {
        (self.column@, self.visible)
    }
}

impl ColumnKeyed for DataTableColumnVisibilityState {
    open spec fn key_of(v: Self::V) -> Seq<char> {
        v.0
    }

    fn column_key(&self) -> (k: &String) {
        &self.column
    }

    proof fn lemma_clone_same(a: Self, b: Self) {
    }
}

impl Clone for DataTableColumnVisibilityState {
    fn clone(&self) -> (r: Self)
        ensures
            r.deep_view() == self.deep_view(),
    {
        DataTableColumnVisibilityState { column: self.column.clone(), visible: self.visible }
    }
}

/// Column pinning state.
#[derive(Debug, PartialEq, Eq)]
pub struct DataTableColumnPinningState {
    /// Column ids pinned to the left side.
    pub left: Vec<String>,
    /// Column ids pinned to the right side.
    pub right: Vec<String>,
}

impl DeepView for DataTableColumnPinningState {
    type V = (Seq<Seq<char>>, Seq<Seq<char>>);

    open spec fn deep_view(&self) -> (Seq<Seq<char>>, Seq<Seq<char>>) {
        (self.left.deep_view(), self.right.deep_view())
    }
}

impl Clone for DataTableColumnPinningState {
    fn clone(&self) -> (r: Self)
        ensures
            r.deep_view() == self.deep_view(),
    {
        DataTableColumnPinningState { left: clone_exact(&self.left), right: clone_exact(&self.right) }
    }
}

impl Default for DataTableColumnPinningState {
    fn default() -> (r: Self)
        ensures
            r.deep_view() == (Seq::<Seq<char>>::empty(), Seq::<Seq<char>>::empty()),
    {
        let r = DataTableColumnPinningState { left: Vec::new(), right: Vec::new() };
        assert(r.deep_view().0 =~= Seq::<Seq<char>>::empty());
        assert(r.deep_view().1 =~= Seq::<Seq<char>>::empty());
        r
    }
}

/// One column sizing override.
#[derive(Debug, PartialEq, Eq)]
pub struct DataTableColumnSizeState {
    /// Column id.
    pub column: String,
    /// Pixel width override, held as the bit pattern of the `f64` width
    /// (`f64::to_bits`); the table only stores and replaces it. `None` clears the
    /// override.
    pub width: Option<u64>,
}

impl DeepView for DataTableColumnSizeState {
    type V = (Seq<char>, Option<u64>);

    open spec fn deep_view(&self) -> (Seq<char>, Option<u64>) {
        (self.column@, self.width)
    }
}

impl ColumnKeyed for DataTableColumnSizeState {
    open spec fn key_of(v: Self::V) -> Seq<char> {
        v.0
    }

    fn column_key(&self) -> (k: &String) {
        &self.column
    }

    proof fn lemma_clone_same(a: Self, b: Self) {
    }
}

impl Clone for DataTableColumnSizeState {
    fn clone(&self) -> (r: Self)
        ensures
            r.deep_view() == self.deep_view(),
    {
        DataTableColumnSizeState { column: self.column.clone(), width: self.width }
    }
}

/// Row selection state.
#[derive(Debug, PartialEq, Eq)]
pub enum DataTableRowSelectionState {
    /// Explicitly selected row ids.
    Explicit {
        /// Selected row ids.
        rows: Vec<DataTableRowId>,
    },
    /// All rows matching a query fingerprint except listed row ids.
    AllMatching {
        /// Query fingerprint represented by the selection.
        query: DataTableQueryFingerprint,
        /// Excluded row ids.
        except: Vec<DataTableRowId>,
    },
}

/// The model of a row selection.
pub enum SelectionView {
    Explicit(Seq<Seq<char>>),
    AllMatching(Seq<char>, Seq<Seq<char>>),
}

impl DeepView for DataTableRowSelectionState {
    type V = SelectionView;

    open spec fn deep_view(&self) -> SelectionView {
        match self {
            DataTableRowSelectionState::Explicit { rows } => SelectionView::Explicit(rows.deep_view()),
            DataTableRowSelectionState::AllMatching { query, except } => SelectionView::AllMatching(
                query@,
                except.deep_view(),
            ),
        }
    }
}

impl Clone for DataTableRowSelectionState {
    fn clone(&self) -> (r: Self)
        ensures
            r.deep_view() == self.deep_view(),
    {
        match self {
            DataTableRowSelectionState::Explicit { rows } => DataTableRowSelectionState::Explicit {
                rows: clone_exact(rows),
            },
            DataTableRowSelectionState::AllMatching { query, except } => {
                DataTableRowSelectionState::AllMatching {
                    query: query.clone(),
                    except: clone_exact(except),
                }
            },
        }
    }
}

impl Default for DataTableRowSelectionState {
    fn default() -> (r: Self)
        ensures
            r.deep_view() == SelectionView::Explicit(Seq::empty()),
    {
        let rows: Vec<String> = Vec::new();
        assert(rows.deep_view() =~= Seq::<Seq<char>>::empty());
        DataTableRowSelectionState::Explicit { rows }
    }
}

/// Complete canonical state for table behavior.
#[derive(Debug, PartialEq)]
pub struct DataTableState {
    /// Current one-based page and page size.
    pub pagination: DataTablePaginationState,
    /// Ordered sorting state.
    pub sorting: Vec<DataTableSortState>,
    /// Column filter state.
    pub filters: Vec<DataTableFilterState>,
    /// Optional global search filter.
    pub global_filter: Option<String>,
    /// Column visibility overrides.
    pub column_visibility: Vec<DataTableColumnVisibilityState>,
    /// Preferred column display order.
    pub column_order: Vec<String>,
    /// Column pinning state.
    pub column_pinning: DataTableColumnPinningState,
    /// Column sizing overrides.
    pub column_sizing: Vec<DataTableColumnSizeState>,
    /// Row selection state.
    pub row_selection: DataTableRowSelectionState,
    /// Expanded row identifiers.
    pub expanded_rows: Vec<DataTableRowId>,
}

/// The model of the whole table state.
pub struct StateView {
    pub pagination: DataTablePaginationState,
    pub sorting: Seq<(Seq<char>, DataTableSortDirection)>,
    pub filters: Seq<(Seq<char>, FilterValueView)>,
    pub global_filter: Option<Seq<char>>,
    pub column_visibility: Seq<(Seq<char>, bool)>,
    pub column_order: Seq<Seq<char>>,
    pub column_pinning: (Seq<Seq<char>>, Seq<Seq<char>>),
    pub column_sizing: Seq<(Seq<char>, Option<u64>)>,
    pub row_selection: SelectionView,
    pub expanded_rows: Seq<Seq<char>>,
}

impl DeepView for DataTableState {
    type V = StateView;

    open spec fn deep_view(&self) -> StateView {
        StateView {
            pagination: self.pagination,
            sorting: self.sorting.deep_view(),
            filters: self.filters.deep_view(),
            global_filter: opt_view(self.global_filter),
            column_visibility: self.column_visibility.deep_view(),
            column_order: self.column_order.deep_view(),
            column_pinning: self.column_pinning.deep_view(),
            column_sizing: self.column_sizing.deep_view(),
            row_selection: self.row_selection.deep_view(),
            expanded_rows: self.expanded_rows.deep_view(),
        }
    }
}

impl Clone for DataTableState {
    fn clone(&self) -> (r: Self)
        ensures
            r.deep_view() == self.deep_view(),
    {
        DataTableState {
            pagination: self.pagination,
            sorting: clone_exact(&self.sorting),
            filters: clone_exact(&self.filters),
            global_filter: clone_opt_string(&self.global_filter),
            column_visibility: clone_exact(&self.column_visibility),
            column_order: clone_exact(&self.column_order),
            column_pinning: self.column_pinning.clone(),
            column_sizing: clone_exact(&self.column_sizing),
            row_selection: self.row_selection.clone(),
            expanded_rows: clone_exact(&self.expanded_rows),
        }
    }
}

/// The state a table starts from: first page of 25 rows, nothing sorted,
/// filtered, reordered, pinned, sized, selected or expanded.
pub open spec fn default_state_view() -> StateView {
    StateView {
        pagination: DataTablePaginationState { page: 1, page_size: 25 },
        sorting: Seq::empty(),
        filters: Seq::empty(),
        global_filter: None,
        column_visibility: Seq::empty(),
        column_order: Seq::empty(),
        column_pinning: (Seq::empty(), Seq::empty()),
        column_sizing: Seq::empty(),
        row_selection: SelectionView::Explicit(Seq::empty()),
        expanded_rows: Seq::empty(),
    }
}

impl Default for DataTableState {
    fn default() -> (r: Self)
        ensures
            r.deep_view() == default_state_view(),
    {
        let r = DataTableState {
            pagination: DataTablePaginationState { page: 1, page_size: 25 },
            sorting: Vec::new(),
            filters: Vec::new(),
            global_filter: None,
            column_visibility: Vec::new(),
            column_order: Vec::new(),
            column_pinning: DataTableColumnPinningState::default(),
            column_sizing: Vec::new(),
            row_selection: DataTableRowSelectionState::default(),
            expanded_rows: Vec::new(),
        };
        assert(r.sorting.deep_view() =~= Seq::empty());
        assert(r.filters.deep_view() =~= Seq::empty());
        assert(r.column_visibility.deep_view() =~= Seq::empty());
        assert(r.column_order.deep_view() =~= Seq::empty());
        assert(r.column_sizing.deep_view() =~= Seq::empty());
        assert(r.expanded_rows.deep_view() =~= Seq::empty());
        r
    }
}

/// Canonical state action for table controls and renderer contexts.
#[derive(Debug, PartialEq)]
#[allow(inconsistent_fields)]
pub enum DataTableAction {
    /// Set the one-based page.
    SetPage { page: u32 },
    /// Set page size and reset page to one.
    SetPageSize { page_size: u64 },
    /// Replace sorting state.
    SetSorting { sorting: Vec<DataTableSortState> },
    /// Set or remove a column filter.
    SetFilter {
        /// Column id.
        column: String,
        /// New filter value, or `None` to remove it.
        value: Option<DataTableFilterValue>,
    },
    /// Set global filter.
    SetGlobalFilter { value: Option<String> },
    /// Set a column visibility override.
    SetColumnVisibility { column: String, visible: bool },
    /// Set column order.
    SetColumnOrder { columns: Vec<String> },
    /// Set column pinning.
    SetColumnPinning { pinning: DataTableColumnPinningState },
    /// Set or clear a column pixel width (the `f64` bit pattern).
    SetColumnSize { column: String, width: Option<u64> },
    /// Replace row selection state.
    SetRowSelection {
        /// New selection state.
        selection: DataTableRowSelectionState,
    },
    /// Replace expanded row ids.
    SetExpandedRows { rows: Vec<DataTableRowId> },
    /// Clear column filters and global filter.
    ResetFilters,
    /// Reset column visibility, order, pinning, and sizing.
    ResetColumnState,
}

/// The model of an action.
pub enum ActionView {
    SetPage(u32),
    SetPageSize(u64),
    SetSorting(Seq<(Seq<char>, DataTableSortDirection)>),
    SetFilter(Seq<char>, Option<FilterValueView>),
    SetGlobalFilter(Option<Seq<char>>),
    SetColumnVisibility(Seq<char>, bool),
    SetColumnOrder(Seq<Seq<char>>),
    SetColumnPinning((Seq<Seq<char>>, Seq<Seq<char>>)),
    SetColumnSize(Seq<char>, Option<u64>),
    SetRowSelection(SelectionView),
    SetExpandedRows(Seq<Seq<char>>),
    ResetFilters,
    ResetColumnState,
}

impl DeepView for DataTableAction {
    type V = ActionView;

    open spec fn deep_view(&self) -> ActionView {
        match self {
            DataTableAction::SetPage { page } => ActionView::SetPage(*page),
            DataTableAction::SetPageSize { page_size } => ActionView::SetPageSize(*page_size),
            DataTableAction::SetSorting { sorting } => ActionView::SetSorting(sorting.deep_view()),
            DataTableAction::SetFilter { column, value } => ActionView::SetFilter(
                column@,
                match value {
                    Some(v) => Some(v.deep_view()),
                    None => None,
                },
            ),
            DataTableAction::SetGlobalFilter { value } => ActionView::SetGlobalFilter(opt_view(*value)),
            DataTableAction::SetColumnVisibility { column, visible } => ActionView::SetColumnVisibility(
                column@,
                *visible,
            ),
            DataTableAction::SetColumnOrder { columns } => ActionView::SetColumnOrder(columns.deep_view()),
            DataTableAction::SetColumnPinning { pinning } => ActionView::SetColumnPinning(
                pinning.deep_view(),
            ),
            DataTableAction::SetColumnSize { column, width } => ActionView::SetColumnSize(column@, *width),
            DataTableAction::SetRowSelection { selection } => ActionView::SetRowSelection(
                selection.deep_view(),
            ),
            DataTableAction::SetExpandedRows { rows } => ActionView::SetExpandedRows(rows.deep_view()),
            DataTableAction::ResetFilters => ActionView::ResetFilters,
            DataTableAction::ResetColumnState => ActionView::ResetColumnState,
        }
    }
}

/// Total row count mode for pagination.
#[derive(Clone, Copy, Debug, PartialEq, Eq)]
pub enum DataTableTotalCount {
    /// Total count is known.
    Known(u64),
    /// Total count is unknown.
    Unknown,
}

/// Pagination metadata for the currently supplied items.
#[derive(Clone, Copy, Debug, PartialEq, Eq)]
pub struct DataTablePageInfo {
    /// Total row count mode.
    pub total_count: DataTableTotalCount,
    /// Whether a next page is known to exist.
    pub has_next_page: Option<bool>,
    /// Whether a previous page is known to exist.
    pub has_previous_page: Option<bool>,
}

impl DataTablePageInfo {
    /// Creates page info for a known total count.
    pub fn known_total(total_count: u64) -> (r: Self)
        ensures
            r == (DataTablePageInfo {
                total_count: DataTableTotalCount::Known(total_count),
                has_next_page: None,
                has_previous_page: None,
            }),
    {
        DataTablePageInfo {
            total_count: DataTableTotalCount::Known(total_count),
            has_next_page: None,
            has_previous_page: None,
        }
    }
}

impl Default for DataTablePageInfo {
    fn default() -> (r: Self)
        ensures
            r == (DataTablePageInfo {
                total_count: DataTableTotalCount::Known(0),
                has_next_page: None,
                has_previous_page: None,
            }),
    {
        Self::known_total(0)
    }
}

} // verus!
