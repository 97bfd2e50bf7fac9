//! View decisions of the data table: the initial state, page information, the
//! body status, the toolbar and the control columns.

use vstd::prelude::*;
use crate::table_paging::{merge_transitional_pagination_state, merged_pagination};
use crate::table_rows::{ColumnView, DataTableColumnInfo, DataTableDerivedRow};
use crate::table_selection::{is_row_selected, selected_in};
use crate::table_state::{default_state_view, DataTablePageInfo, DataTableState, StateView};

verus! {

/// Controlled or uncontrolled canonical state mode.
#[derive(Debug, PartialEq)]
pub enum DataTableStateMode {
    /// Caller owns the full table state.
    Controlled { state: DataTableState },
    /// Table owns state initialized from `default_state` when provided.
    Uncontrolled {
        /// Optional initial state for the uncontrolled table.
        default_state: Option<DataTableState>,
    },
}

impl Default for DataTableStateMode {
    fn default() -> (r: Self)
        ensures
            r matches DataTableStateMode::Uncontrolled { default_state: None },
    {
        DataTableStateMode::Uncontrolled { default_state: None }
    }
}

/// The state a table starts from: the controlled state, or the default state, or
/// the empty default, with the host's page-size and current-page properties merged in.
pub open spec fn initial_state_spec(mode: DataTableStateMode, page_size: Option<u64>, current_page: Option<u32>) -> StateView {
    let base = match mode {
        DataTableStateMode::Controlled { state } => state.deep_view(),
        DataTableStateMode::Uncontrolled { default_state: Some(state) } => state.deep_view(),
        DataTableStateMode::Uncontrolled { default_state: None } => default_state_view(),
    };
    merged_pagination(base, page_size, current_page)
}

/// Computes the state a table starts from.
pub fn initial_state_from_props(mode: &DataTableStateMode, page_size: Option<u64>, current_page: Option<u32>) -> (r:
    DataTableState)
    ensures
        r.deep_view() == initial_state_spec(*mode, page_size, current_page),
{
    let base = match mode {
        DataTableStateMode::Controlled { state } => state.clone(),
        DataTableStateMode::Uncontrolled { default_state: Some(state) } => state.clone(),
        DataTableStateMode::Uncontrolled { default_state: None } => DataTableState::default(),
    };
    merge_transitional_pagination_state(base, page_size, current_page)
}

/// The page information: a known total count given by the host wins over the page
/// information.
pub fn page_info_from_props(total_count: Option<u64>, page_info: DataTablePageInfo) -> (r: DataTablePageInfo)
    ensures
        r == match total_count {
            Some(t) => DataTablePageInfo {
                total_count: crate::table_state::DataTableTotalCount::Known(t),
                has_next_page: None,
                has_previous_page: None,
            },
            None => page_info,
        },
{
    match total_count {
        Some(t) => DataTablePageInfo::known_total(t),
        None => page_info,
    }
}

/// What the table body shows.
#[derive(Debug, PartialEq, Eq)]
pub enum DataTableBodyStatus<'a> {
    /// The loading row.
    Loading { message: &'a str },
    /// The error row.
    Error { message: &'a str },
    /// The empty row.
    Empty { message: &'a str, hint: Option<&'a str> },
    /// The data rows.
    Rows,
}

impl<'a> DataTableBodyStatus<'a> {
    /// Loading wins; then an error when there are no rows; then the empty state when
    /// there are no rows; otherwise the rows.
    pub fn from_parts(
        loading: bool,
        error: Option<&'a String>,
        row_count: usize,
        loading_message: &'a str,
        empty_message: &'a str,
        empty_hint: Option<&'a str>,
    ) -> (r: Self)
        ensures
            loading ==> r == (DataTableBodyStatus::Loading { message: loading_message }),
            !loading && row_count == 0 && error is Some ==> (r matches DataTableBodyStatus::Error { message }
                && message@ == error->0@),
            !loading && row_count == 0 && error is None ==> r == (DataTableBodyStatus::Empty {
                message: empty_message,
                hint: empty_hint,
            }),
            !loading && row_count > 0 ==> r == DataTableBodyStatus::Rows,
    {
        if loading {
            DataTableBodyStatus::Loading { message: loading_message }
        } else if row_count == 0 && error.is_some() {
            DataTableBodyStatus::Error { message: error.unwrap().as_str() }
        } else if row_count == 0 {
            DataTableBodyStatus::Empty { message: empty_message, hint: empty_hint }
        } else {
            DataTableBodyStatus::Rows
        }
    }
}

/// Whether some column of the list satisfies the property.
pub open spec fn any_column(cols: Seq<ColumnView>, p: spec_fn(ColumnView) -> bool) -> bool {
    exists|i: int| 0 <= i < cols.len() && p(#[trigger] cols[i])
}

/// The toolbar's controls and inline error.
#[derive(Debug, PartialEq, Eq)]
pub struct DataTableToolbarModel<'a> {
    /// Some operation column filters.
    pub has_filter_controls: bool,
    /// Some displayed column is searchable.
    pub has_search_controls: bool,
    /// Some configured column can be hidden.
    pub has_visibility_controls: bool,
    /// The error shown in the toolbar: only once loaded and while rows are shown.
    pub inline_error: Option<&'a String>,
}

impl<'a> DataTableToolbarModel<'a> {
    /// Derives the toolbar's controls from the column lists.
    pub fn new(
        operation_columns: &Vec<DataTableColumnInfo>,
        visible_columns: &Vec<DataTableColumnInfo>,
        configured_columns: &Vec<DataTableColumnInfo>,
        error: Option<&'a String>,
        loading: bool,
        row_count: usize,
    ) -> (r: Self)
        ensures
            r.has_filter_controls == any_column(operation_columns.deep_view(), |c: ColumnView| c.filter is Some),
            r.has_search_controls == any_column(visible_columns.deep_view(), |c: ColumnView| c.searchable),
            r.has_visibility_controls == any_column(configured_columns.deep_view(), |c: ColumnView| c.hideable),
            r.inline_error == (if !loading && row_count > 0 { error } else { None }),
    {
        let mut has_filter = false;
        let mut i: usize = 0;
        while i < operation_columns.len()
            invariant
                i <= operation_columns.len(),
                has_filter == exists|j: int| 0 <= j < i && (#[trigger] operation_columns.deep_view()[j]).filter is Some,
            decreases operation_columns.len() - i,
        {
            assert(operation_columns.deep_view()[i as int] == operation_columns@[i as int].deep_view());
            if operation_columns[i].filter.is_some() {
                has_filter = true;
            }
            i = i + 1;
        }
        let mut has_search = false;
        let mut i: usize = 0;
        while i < visible_columns.len()
            invariant
                i <= visible_columns.len(),
                has_search == exists|j: int| 0 <= j < i && (#[trigger] visible_columns.deep_view()[j]).searchable,
            decreases visible_columns.len() - i,
        {
            assert(visible_columns.deep_view()[i as int] == visible_columns@[i as int].deep_view());
            if visible_columns[i].searchable {
                has_search = true;
            }
            i = i + 1;
        }
        let mut has_visibility = false;
        let mut i: usize = 0;
        while i < configured_columns.len()
            invariant
                i <= configured_columns.len(),
                has_visibility == exists|j: int| 0 <= j < i && (#[trigger] configured_columns.deep_view()[j]).hideable,
            decreases configured_columns.len() - i,
        {
            assert(configured_columns.deep_view()[i as int] == configured_columns@[i as int].deep_view());
            if configured_columns[i].hideable {
                has_visibility = true;
            }
            i = i + 1;
        }
        DataTableToolbarModel {
            has_filter_controls: has_filter,
            has_search_controls: has_search,
            has_visibility_controls: has_visibility,
            inline_error: if !loading && row_count > 0 { error } else { None },
        }
    }

    /// Whether the toolbar renders: when the host supplies toolbar content, header
    /// controls or table settings, when an inline error shows, or when some control
    /// applies.
    pub fn should_render(
        &self,
        has_toolbar_left: bool,
        has_toolbar_right: bool,
        has_header_controls: bool,
        has_table_settings: bool,
    ) -> (b: bool)
        ensures
            b == (has_toolbar_left || has_toolbar_right || has_header_controls || has_table_settings
                || self.inline_error is Some || self.has_filter_controls || self.has_search_controls
                || self.has_visibility_controls),
    {
        has_toolbar_left || has_toolbar_right || has_header_controls || has_table_settings
            || self.inline_error.is_some() || self.has_filter_controls || self.has_search_controls
            || self.has_visibility_controls
    }
}

/// Number of columns a full-width body row spans: the data columns (at least one)
/// plus the selection and expansion control columns that are shown.
pub fn control_colspan(column_count: usize, show_selection: bool, has_expansion: bool) -> (r: usize)
    requires
        column_count + 2 <= usize::MAX,
    ensures
        r == (if column_count >= 1 { column_count } else { 1 }) + (if show_selection { 1usize } else { 0 })
            + (if has_expansion { 1usize } else { 0 }),
{
    let base = if column_count >= 1 { column_count } else { 1 };
    base + (if show_selection { 1 } else { 0 }) + (if has_expansion { 1 } else { 0 })
}

/// Whether every row of the page is selected (and there is at least one).
pub fn all_page_rows_selected(rows: &Vec<DataTableDerivedRow>, state: &DataTableState) -> (b: bool)
    ensures
        b == (rows@.len() > 0 && forall|i: int|
            0 <= i < rows@.len() ==> selected_in(
                state.row_selection.deep_view(),
                #[trigger] rows.deep_view()[i].id,
                crate::table_query::fingerprint_text(
                    state.filters.deep_view(),
                    crate::table_state::opt_view(state.global_filter),
                ),
            )),
{
    if rows.len() == 0 {
        return false;
    }
    let query = crate::table_query::query_fingerprint(state);
    let mut i: usize = 0;
    while i < rows.len()
        invariant
            i <= rows.len(),
            query@ == crate::table_query::fingerprint_text(
                state.filters.deep_view(),
                crate::table_state::opt_view(state.global_filter),
            ),
            forall|j: int|
                0 <= j < i ==> selected_in(state.row_selection.deep_view(), #[trigger] rows.deep_view()[j].id, query@),
        decreases rows.len() - i,
    {
        assert(rows.deep_view()[i as int] == rows@[i as int].deep_view());
        assert(rows.deep_view()[i as int].id == rows@[i as int].id@);
        if !is_row_selected(&state.row_selection, rows[i].id.as_str(), query.as_str()) {
            return false;
        }
        i = i + 1;
    }
    true
}

/// Whether the pager shows: not hidden, not virtualized, and it has somewhere to go.
pub fn show_pagination(hide_pagination: bool, is_virtualized: bool, targets_show: bool) -> (b: bool)
    ensures
        b == (!hide_pagination && !is_virtualized && targets_show),
{
    !hide_pagination && !is_virtualized && targets_show
}

/// Virtualized body settings: the estimated height of an unmeasured row, the
/// buffer rows rendered around the viewport, and an optional CSS bound on the
/// viewport height.
#[derive(Debug, PartialEq)]
pub struct DataTableVirtualization {
    pub estimated_row_height: u32,
    pub overscan: usize,
    pub max_height: Option<String>,
}

impl Default for DataTableVirtualization {
    fn default() -> (r: Self)
        ensures
            r.estimated_row_height == 48,
            r.overscan == 8,
            r.max_height is Some && r.max_height->0@ == "32rem"@,
    {
        DataTableVirtualization {
            estimated_row_height: 48,
            overscan: 8,
            max_height: Some(crate::text::string_of_str("32rem")),
        }
    }
}

/// The row height a virtualized body estimates with: the configured estimate,
/// at least one pixel.
pub fn estimated_row_height(config: &DataTableVirtualization) -> (r: u32)
    ensures
        r == (if config.estimated_row_height >= 1 { config.estimated_row_height } else { 1 }),
{
    if config.estimated_row_height >= 1 {
        config.estimated_row_height
    } else {
        1
    }
}

/// The heights of the spacers above and below the rendered rows of a
/// virtualized body: the start of the first rendered row, and what of the total
/// height lies below the end of the last one (none when no row is rendered).
pub fn virtual_spacers(total_height: u32, first_start: Option<u32>, last_end: Option<u32>) -> (r: (u32, u32))
    ensures
        r.0 == (match first_start {
            Some(s) => s,
            None => 0,
        }),
        r.1 == (match last_end {
            Some(e) => if e <= total_height { total_height - e } else { 0 },
            None => total_height as int,
        }),
{
    let top = match first_start {
        Some(s) => s,
        None => 0,
    };
    let bottom = match last_end {
        Some(e) => total_height.saturating_sub(e),
        None => total_height,
    };
    (top, bottom)
}

/// The scroll offset after the virtualizer corrects it by `delta` pixels, never
/// above the top.
pub fn corrected_scroll(offset: u32, delta: i32) -> (r: u32)
    requires
        offset <= i32::MAX,
        offset + delta <= i32::MAX,
    ensures
        r == (if offset + delta >= 0 { offset + delta } else { 0 }),
{
    let moved: i32 = offset as i32 + delta;
    if moved >= 0 {
        moved as u32
    } else {
        0
    }
}

} // verus!
