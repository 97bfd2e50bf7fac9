use std::cell::Cell;

use dioxus_components::table_actions::apply_action;
use dioxus_components::table_columns::canonicalize_columns;
use dioxus_components::table_paging::{
    merge_transitional_pagination_state, page_size_options, page_targets, pagination_summary,
    total_pages,
};
use dioxus_components::table_query::{filter_value_json, json_string, query_fingerprint};
use dioxus_components::table_rows::{
    apply_row_model_stages, assign_display_indexes, build_base_rows, cached_column_value,
    filter_rows, filter_rows_by_verdicts, sort_rows,
    DataTableColumnFilterKind, DataTableColumnInfo, DataTableColumnSortKind,
    DataTableCustomHooks, DataTableDerivedRow, DataTableManualModes, DataTableRangeFilterKind,
    DataTableValue, RangeBoundKeys,
};
use dioxus_components::table_state::{
    DataTableAction, DataTableColumnPinningState, DataTableColumnVisibilityState,
    DataTableFilterState, DataTableFilterValue, DataTablePageInfo, DataTablePaginationState,
    DataTableRowSelectionState, DataTableSortDirection, DataTableSortState, DataTableState,
    DataTableTotalCount,
};

fn filtered_state() -> DataTableState {
    DataTableState {
        pagination: DataTablePaginationState {
            page: 3,
            page_size: 10,
        },
        sorting: vec![DataTableSortState {
            column: "total".to_string(),
            direction: DataTableSortDirection::Descending,
        }],
        filters: vec![DataTableFilterState {
            column: "status".to_string(),
            value: DataTableFilterValue::Option("paid".to_string()),
        }],
        global_filter: Some("north".to_string()),
        ..DataTableState::default()
    }
}

#[test]
fn page_size_changes_reset_to_first_page() {
    let next = apply_action(
        &filtered_state(),
        DataTableAction::SetPageSize { page_size: 50 },
    );

    assert_eq!(next.pagination.page, 1);
    assert_eq!(next.pagination.page_size, 50);
}

#[test]
fn page_size_options_keep_default_sizes_unique() {
    assert_eq!(page_size_options(25), vec![10, 25, 50, 1000]);
}

#[test]
fn page_size_options_include_active_custom_size() {
    assert_eq!(page_size_options(3), vec![3, 10, 25, 50, 1000]);
}

#[test]
fn filter_changes_reset_page_and_clear_stale_all_matching_selection() {
    let mut state = filtered_state();
    state.row_selection = DataTableRowSelectionState::AllMatching {
        query: query_fingerprint(&state),
        except: Vec::new(),
    };

    let next = apply_action(
        &state,
        DataTableAction::SetFilter {
            column: "status".to_string(),
            value: Some(DataTableFilterValue::Option("failed".to_string())),
        },
    );

    assert_eq!(next.pagination.page, 1);
    assert_eq!(
        next.row_selection,
        DataTableRowSelectionState::Explicit { rows: Vec::new() }
    );
}

#[test]
fn column_visibility_changes_clear_stale_all_matching_selection() {
    let mut state = filtered_state();
    state.row_selection = DataTableRowSelectionState::AllMatching {
        query: query_fingerprint(&state),
        except: Vec::new(),
    };

    let next = apply_action(
        &state,
        DataTableAction::SetColumnVisibility {
            column: "status".to_string(),
            visible: false,
        },
    );

    assert_eq!(
        next.row_selection,
        DataTableRowSelectionState::Explicit { rows: Vec::new() }
    );
}

#[test]
fn reset_column_state_clears_stale_all_matching_selection() {
    let mut state = filtered_state();
    state.column_visibility = vec![DataTableColumnVisibilityState {
        column: "status".to_string(),
        visible: false,
    }];
    state.row_selection = DataTableRowSelectionState::AllMatching {
        query: query_fingerprint(&state),
        except: Vec::new(),
    };

    let next = apply_action(&state, DataTableAction::ResetColumnState);

    assert_eq!(
        next.row_selection,
        DataTableRowSelectionState::Explicit { rows: Vec::new() }
    );
}

#[test]
fn merged_transitional_pagination_survives_later_actions() {
    let state = DataTableState {
        pagination: DataTablePaginationState {
            page: 1,
            page_size: 25,
        },
        ..DataTableState::default()
    };
    let merged = merge_transitional_pagination_state(state, Some(50), Some(3));
    let next = apply_action(
        &merged,
        DataTableAction::SetSorting {
            sorting: vec![DataTableSortState {
                column: "rank".to_string(),
                direction: DataTableSortDirection::Ascending,
            }],
        },
    );

    assert_eq!(next.pagination.page, 3);
    assert_eq!(next.pagination.page_size, 50);
}

#[test]
fn query_fingerprint_excludes_pagination_and_sorting() {
    let mut left = filtered_state();
    let right = {
        let mut right = left.clone();
        right.pagination = DataTablePaginationState {
            page: 99,
            page_size: 100,
        };
        right.sorting = vec![DataTableSortState {
            column: "customer".to_string(),
            direction: DataTableSortDirection::Ascending,
        }];
        right
    };

    assert_eq!(query_fingerprint(&left), query_fingerprint(&right));

    left.global_filter = Some("south".to_string());
    assert_ne!(query_fingerprint(&left), query_fingerprint(&right));
}

#[test]
fn query_fingerprint_canonicalizes_filter_order() {
    let mut left = DataTableState {
        filters: vec![
            DataTableFilterState {
                column: "status".to_string(),
                value: DataTableFilterValue::Option("paid".to_string()),
            },
            DataTableFilterState {
                column: "customer".to_string(),
                value: DataTableFilterValue::Text("ada".to_string()),
            },
        ],
        ..DataTableState::default()
    };
    let mut right = left.clone();
    right.filters.reverse();

    assert_eq!(query_fingerprint(&left), query_fingerprint(&right));

    left.filters[0].value = DataTableFilterValue::Option("failed".to_string());
    assert_ne!(query_fingerprint(&left), query_fingerprint(&right));
}

#[test]
fn row_selection_is_deduped_deterministically() {
    let next = apply_action(
        &DataTableState::default(),
        DataTableAction::SetRowSelection {
            selection: DataTableRowSelectionState::Explicit {
                rows: vec!["a".to_string(), "b".to_string(), "a".to_string()],
            },
        },
    );

    assert_eq!(
        next.row_selection,
        DataTableRowSelectionState::Explicit {
            rows: vec!["a".to_string(), "b".to_string()]
        }
    );
}

#[test]
fn pinning_canonicalization_removes_right_side_conflicts() {
    let next = apply_action(
        &DataTableState::default(),
        DataTableAction::SetColumnPinning {
            pinning: DataTableColumnPinningState {
                left: vec!["id".to_string(), "id".to_string(), "name".to_string()],
                right: vec!["name".to_string(), "total".to_string(), "total".to_string()],
            },
        },
    );

    assert_eq!(next.column_pinning.left, vec!["id", "name"]);
    assert_eq!(next.column_pinning.right, vec!["total"]);
}

#[test]
fn known_total_page_targets_include_last_page() {
    let targets = page_targets(
        &DataTablePaginationState {
            page: 2,
            page_size: 10,
        },
        DataTablePageInfo::known_total(35),
    );

    assert!(targets.show);
    assert_eq!(targets.first, Some(1));
    assert_eq!(targets.previous, Some(1));
    assert_eq!(targets.next, Some(3));
    assert_eq!(targets.last, Some(4));
}

#[test]
fn unknown_total_page_targets_do_not_include_last_page() {
    let targets = page_targets(
        &DataTablePaginationState {
            page: 2,
            page_size: 10,
        },
        DataTablePageInfo {
            total_count: DataTableTotalCount::Unknown,
            has_previous_page: Some(true),
            has_next_page: Some(true),
        },
    );

    assert!(targets.show);
    assert_eq!(targets.first, Some(1));
    assert_eq!(targets.previous, Some(1));
    assert_eq!(targets.next, Some(3));
    assert_eq!(targets.last, None);
}

struct NoHooks;

impl DataTableCustomHooks for NoHooks {
    fn custom_filter(
        &self,
        _row: &DataTableDerivedRow,
        _column_index: usize,
        _filter: &DataTableFilterValue,
    ) -> bool {
        false
    }

    fn custom_compare(
        &self,
        _left: &DataTableDerivedRow,
        _right: &DataTableDerivedRow,
        _column_index: usize,
        _direction: DataTableSortDirection,
    ) -> i8 {
        0
    }
}

#[derive(Clone, PartialEq)]
struct TestItem {
    visible: String,
    hidden: String,
    rank: f64,
}

fn number(value: f64) -> DataTableValue {
    let order_key = if value.is_nan() {
        u64::MAX
    } else {
        let value = if value == 0.0 { 0.0 } else { value };
        let bits = value.to_bits();
        if bits >> 63 == 1 {
            !bits
        } else {
            bits | (1u64 << 63)
        }
    };
    DataTableValue::Number {
        order_key,
        text: value.to_string(),
    }
}

fn column(
    id: &str,
    searchable: bool,
    hideable: bool,
    sorting: Option<DataTableColumnSortKind>,
    filter: Option<DataTableColumnFilterKind>,
) -> DataTableColumnInfo {
    DataTableColumnInfo {
        id: id.to_string(),
        searchable,
        hideable,
        sorting,
        filter,
    }
}

fn test_columns() -> Vec<DataTableColumnInfo> {
    vec![
        column("visible", true, false, None, Some(DataTableColumnFilterKind::Text)),
        column("hidden", true, true, None, Some(DataTableColumnFilterKind::Text)),
        column("rank", false, true, Some(DataTableColumnSortKind::BuiltIn), None),
    ]
}

fn accessor(item: &TestItem, column_id: &str) -> DataTableValue {
    match column_id {
        "visible" => DataTableValue::Text(item.visible.clone()),
        "hidden" => DataTableValue::Text(item.hidden.clone()),
        _ => number(item.rank),
    }
}

fn derive_rows(
    items: &[TestItem],
    columns: &Vec<DataTableColumnInfo>,
    state: &DataTableState,
    manual_modes: DataTableManualModes,
    accesses: &Cell<usize>,
) -> Vec<DataTableDerivedRow> {
    let ids: Vec<String> = (0..items.len()).map(|index| format!("row-{index}")).collect();
    let mut rows = build_base_rows(&ids, state);
    for row in rows.iter_mut() {
        row.values = columns
            .iter()
            .map(|column| {
                accesses.set(accesses.get() + 1);
                accessor(&items[row.source_index], &column.id)
            })
            .collect();
    }
    let mut hidden_texts: Vec<String> = Vec::new();
    for entry in &state.column_visibility {
        let hidden_searchable = !entry.visible
            && test_columns()
                .iter()
                .any(|column| column.id == entry.column && column.searchable);
        if hidden_searchable {
            for item in items {
                accesses.set(accesses.get() + 1);
                hidden_texts.push(accessor(item, &entry.column).to_text());
            }
        }
    }
    let rows = apply_row_model_stages(rows, columns, state, &Vec::new(), &hidden_texts, manual_modes, &NoHooks);
    assign_display_indexes(rows)
}

fn local_modes() -> DataTableManualModes {
    DataTableManualModes {
        pagination: false,
        sorting: false,
        filtering: false,
    }
}

fn hidden_column_items() -> Vec<TestItem> {
    vec![
        TestItem {
            visible: "Ada".to_string(),
            hidden: "internal".to_string(),
            rank: 2.0,
        },
        TestItem {
            visible: "Grace".to_string(),
            hidden: "match me".to_string(),
            rank: 1.0,
        },
    ]
}

fn hidden_column_state(global_filter: Option<String>) -> DataTableState {
    DataTableState {
        filters: vec![DataTableFilterState {
            column: "hidden".to_string(),
            value: DataTableFilterValue::Text("match".to_string()),
        }],
        global_filter,
        column_visibility: vec![DataTableColumnVisibilityState {
            column: "hidden".to_string(),
            visible: false,
        }],
        ..DataTableState::default()
    }
}

#[test]
fn filters_on_hidden_columns_are_ignored() {
    let items = hidden_column_items();
    let state = hidden_column_state(None);
    let columns = canonicalize_columns(&test_columns(), &state);
    assert_eq!(columns.len(), 2);

    let rows = derive_rows(&items, &columns, &state, local_modes(), &Cell::new(0));

    assert_eq!(rows.len(), 2);
}

#[test]
fn hidden_columns_do_not_participate_in_local_filtering_or_search() {
    let items = hidden_column_items();
    let state = hidden_column_state(Some("match".to_string()));
    let columns = canonicalize_columns(&test_columns(), &state);

    let rows = derive_rows(&items, &columns, &state, local_modes(), &Cell::new(0));

    assert_eq!(rows.len(), 2);
}

#[test]
fn global_search_narrows_by_shown_columns_only() {
    let items = hidden_column_items();
    let state = hidden_column_state(Some("match".to_string()));
    let columns = canonicalize_columns(&test_columns(), &state);

    let visible = hidden_column_state(Some("grace".to_string()));
    let rows = derive_rows(&items, &columns, &state, local_modes(), &Cell::new(0));
    assert_eq!(rows.len(), 2);
    let rows = derive_rows(&items, &columns, &visible, local_modes(), &Cell::new(0));
    let kept: Vec<usize> = rows.iter().map(|row| row.source_index).collect();
    assert_eq!(kept, vec![1]);
}

#[test]
fn search_found_in_no_column_keeps_no_rows() {
    let items = hidden_column_items();
    let state = hidden_column_state(Some("zzz".to_string()));
    let columns = canonicalize_columns(&test_columns(), &state);

    let rows = derive_rows(&items, &columns, &state, local_modes(), &Cell::new(0));

    assert!(rows.is_empty());
}

struct EvenRows;

impl DataTableCustomHooks for EvenRows {
    fn custom_filter(
        &self,
        row: &DataTableDerivedRow,
        _column_index: usize,
        _filter: &DataTableFilterValue,
    ) -> bool {
        row.source_index % 2 == 0
    }

    fn custom_compare(
        &self,
        _left: &DataTableDerivedRow,
        _right: &DataTableDerivedRow,
        _column_index: usize,
        _direction: DataTableSortDirection,
    ) -> i8 {
        0
    }
}

fn host_filter_setup() -> (Vec<DataTableColumnInfo>, Vec<DataTableDerivedRow>, DataTableState) {
    let columns = vec![
        column("name", true, false, None, Some(DataTableColumnFilterKind::Text)),
        column("kind", false, false, None, Some(DataTableColumnFilterKind::Custom)),
    ];
    let names = ["ada", "nan", "dan", "anna", "bob"];
    let state = DataTableState {
        filters: vec![
            DataTableFilterState {
                column: "kind".to_string(),
                value: DataTableFilterValue::Text("even".to_string()),
            },
            DataTableFilterState {
                column: "name".to_string(),
                value: DataTableFilterValue::Text("a".to_string()),
            },
        ],
        global_filter: Some("N".to_string()),
        ..DataTableState::default()
    };
    let ids: Vec<String> = (0..names.len()).map(|index| format!("row-{index}")).collect();
    let mut rows = build_base_rows(&ids, &state);
    for row in rows.iter_mut() {
        row.values = vec![
            DataTableValue::Text(names[row.source_index].to_string()),
            DataTableValue::Empty,
        ];
    }
    (columns, rows, state)
}

#[test]
fn host_filters_combine_with_builtin_filters_and_search() {
    let (columns, rows, state) = host_filter_setup();

    let kept = filter_rows(rows, &columns, &state, &Vec::new(), &Vec::new(), &EvenRows);

    let indexes: Vec<usize> = kept.iter().map(|row| row.source_index).collect();
    assert_eq!(indexes, vec![2]);
}

#[test]
fn filtering_kept_rows_again_keeps_them_all() {
    let (columns, rows, mut state) = host_filter_setup();
    state.filters.remove(0);

    let once = filter_rows(rows, &columns, &state, &Vec::new(), &Vec::new(), &NoHooks);
    let once_indexes: Vec<usize> = once.iter().map(|row| row.source_index).collect();
    assert_eq!(once_indexes, vec![1, 2, 3]);

    let twice = filter_rows(once, &columns, &state, &Vec::new(), &Vec::new(), &NoHooks);
    let twice_indexes: Vec<usize> = twice.iter().map(|row| row.source_index).collect();
    assert_eq!(twice_indexes, once_indexes);
}

#[test]
fn filtering_by_verdicts_uses_the_verdicts_of_host_filters_only() {
    let (columns, rows, state) = host_filter_setup();
    let verdicts = vec![
        vec![true, true],
        vec![true, true],
        vec![false, true],
        vec![true, false],
        vec![true],
    ];

    let kept = filter_rows_by_verdicts(rows.clone(), &columns, &state, &Vec::new(), &Vec::new(), &verdicts);
    let indexes: Vec<usize> = kept.iter().map(|row| row.source_index).collect();
    assert_eq!(indexes, vec![1, 3]);

    let hidden = vec!["Nobody".to_string()];
    let kept = filter_rows_by_verdicts(rows, &columns, &state, &Vec::new(), &hidden, &verdicts);
    let indexes: Vec<usize> = kept.iter().map(|row| row.source_index).collect();
    assert_eq!(indexes, vec![0, 1, 3]);
}

struct ContraryComparator;

impl DataTableCustomHooks for ContraryComparator {
    fn custom_filter(
        &self,
        _row: &DataTableDerivedRow,
        _column_index: usize,
        _filter: &DataTableFilterValue,
    ) -> bool {
        true
    }

    fn custom_compare(
        &self,
        _left: &DataTableDerivedRow,
        _right: &DataTableDerivedRow,
        _column_index: usize,
        _direction: DataTableSortDirection,
    ) -> i8 {
        1
    }
}

#[test]
fn host_comparators_keep_the_order_of_earlier_builtin_sorts() {
    let columns = vec![
        column("name", false, false, Some(DataTableColumnSortKind::BuiltIn), None),
        column("kind", false, false, Some(DataTableColumnSortKind::Custom), None),
    ];
    let names = ["b", "a", "c", "a", "b"];
    let state = DataTableState {
        sorting: vec![
            DataTableSortState {
                column: "name".to_string(),
                direction: DataTableSortDirection::Ascending,
            },
            DataTableSortState {
                column: "kind".to_string(),
                direction: DataTableSortDirection::Ascending,
            },
        ],
        ..DataTableState::default()
    };
    let ids: Vec<String> = (0..names.len()).map(|index| format!("row-{index}")).collect();
    let mut rows = build_base_rows(&ids, &state);
    for row in rows.iter_mut() {
        row.values = vec![
            DataTableValue::Text(names[row.source_index].to_string()),
            DataTableValue::Empty,
        ];
    }

    sort_rows(&mut rows, &columns, &state, &ContraryComparator);

    let sorted_names: Vec<&str> = rows.iter().map(|row| names[row.source_index]).collect();
    assert_eq!(sorted_names, vec!["a", "a", "b", "b", "c"]);
    let mut indexes: Vec<usize> = rows.iter().map(|row| row.source_index).collect();
    indexes.sort();
    assert_eq!(indexes, vec![0, 1, 2, 3, 4]);
}

#[test]
fn hidden_columns_do_not_participate_in_local_sorting() {
    let items = vec![
        TestItem {
            visible: "First".to_string(),
            hidden: "z".to_string(),
            rank: 2.0,
        },
        TestItem {
            visible: "Second".to_string(),
            hidden: "a".to_string(),
            rank: 1.0,
        },
    ];
    let state = DataTableState {
        sorting: vec![DataTableSortState {
            column: "rank".to_string(),
            direction: DataTableSortDirection::Ascending,
        }],
        column_visibility: vec![DataTableColumnVisibilityState {
            column: "rank".to_string(),
            visible: false,
        }],
        ..DataTableState::default()
    };
    let columns = canonicalize_columns(&test_columns(), &state);

    let rows = derive_rows(&items, &columns, &state, local_modes(), &Cell::new(0));

    assert_eq!(items[rows[0].source_index].visible, "First");
    assert_eq!(items[rows[1].source_index].visible, "Second");
}

#[test]
fn accessor_values_are_reused_across_filter_sort_and_render_value_lookup() {
    let accesses = Cell::new(0);
    let columns = vec![column(
        "visible",
        true,
        false,
        Some(DataTableColumnSortKind::BuiltIn),
        Some(DataTableColumnFilterKind::Text),
    )];
    let items = vec![
        TestItem {
            visible: "beta".to_string(),
            hidden: String::new(),
            rank: 0.0,
        },
        TestItem {
            visible: "alpha".to_string(),
            hidden: String::new(),
            rank: 0.0,
        },
        TestItem {
            visible: "gamma".to_string(),
            hidden: String::new(),
            rank: 0.0,
        },
    ];
    let state = DataTableState {
        sorting: vec![DataTableSortState {
            column: "visible".to_string(),
            direction: DataTableSortDirection::Ascending,
        }],
        global_filter: Some("a".to_string()),
        ..DataTableState::default()
    };

    let rows = derive_rows(&items, &columns, &state, local_modes(), &accesses);

    assert_eq!(accesses.get(), items.len());
    assert_eq!(items[rows[0].source_index].visible, "alpha");
    assert_eq!(
        cached_column_value(&"visible".to_string(), &rows[0], &columns),
        Some(DataTableValue::Text("alpha".to_string()))
    );
    assert_eq!(accesses.get(), items.len());
}

#[test]
fn sorting_numbers_orders_by_value_and_keeps_ties_in_source_order() {
    let columns = vec![column(
        "rank",
        false,
        false,
        Some(DataTableColumnSortKind::BuiltIn),
        None,
    )];
    let ranks = [3.5, -1.0, f64::NAN, 3.5, 0.0];
    let items: Vec<TestItem> = ranks
        .iter()
        .map(|rank| TestItem {
            visible: String::new(),
            hidden: String::new(),
            rank: *rank,
        })
        .collect();
    let state = DataTableState {
        sorting: vec![DataTableSortState {
            column: "rank".to_string(),
            direction: DataTableSortDirection::Ascending,
        }],
        ..DataTableState::default()
    };
    let rows = derive_rows(&items, &columns, &state, local_modes(), &Cell::new(0));
    let order: Vec<usize> = rows.iter().map(|row| row.source_index).collect();
    assert_eq!(order, vec![1, 4, 0, 3, 2]);
    let display: Vec<usize> = rows.iter().map(|row| row.display_index).collect();
    assert_eq!(display, vec![0, 1, 2, 3, 4]);
}

#[test]
fn local_pagination_takes_one_page() {
    let columns = vec![column("visible", true, false, None, None)];
    let items: Vec<TestItem> = (0..25)
        .map(|index| TestItem {
            visible: format!("item {index}"),
            hidden: String::new(),
            rank: 0.0,
        })
        .collect();
    let state = DataTableState {
        pagination: DataTablePaginationState {
            page: 3,
            page_size: 10,
        },
        ..DataTableState::default()
    };
    let rows = derive_rows(&items, &columns, &state, local_modes(), &Cell::new(0));
    let order: Vec<usize> = rows.iter().map(|row| row.source_index).collect();
    assert_eq!(order, vec![20, 21, 22, 23, 24]);
}

#[test]
fn duplicate_row_ids_keep_the_first_row() {
    let ids = vec!["a".to_string(), "b".to_string(), "a".to_string()];
    let rows = build_base_rows(&ids, &DataTableState::default());
    let kept: Vec<(String, usize)> = rows.iter().map(|row| (row.id.clone(), row.source_index)).collect();
    assert_eq!(kept, vec![("a".to_string(), 0), ("b".to_string(), 1)]);
}

#[test]
fn json_string_escapes_control_characters() {
    assert_eq!(json_string("a\"b\\c\n\t\u{1}"), "\"a\\\"b\\\\c\\n\\t\\u0001\"");
}

#[test]
fn filter_value_json_sorts_multiple_values() {
    let value = DataTableFilterValue::Multiple(vec!["b".to_string(), "a".to_string()]);
    assert_eq!(
        filter_value_json(&value),
        "{\"type\":\"multiple\",\"value\":[\"a\",\"b\"]}"
    );
    let range = DataTableFilterValue::Range {
        min: Some("1".to_string()),
        max: None,
    };
    assert_eq!(
        filter_value_json(&range),
        "{\"type\":\"range\",\"min\":\"1\",\"max\":null}"
    );
}

#[test]
fn query_fingerprint_has_the_documented_shape() {
    let state = filtered_state();
    assert_eq!(
        query_fingerprint(&state),
        "{\"filters\":[{\"column\":\"status\",\"value\":{\"type\":\"option\",\"value\":\"paid\"}}],\"global_filter\":\"north\"}"
    );
    assert_eq!(
        query_fingerprint(&DataTableState::default()),
        "{\"filters\":[],\"global_filter\":null}"
    );
}

#[test]
fn total_pages_rounds_up_and_counts_one_page_when_empty() {
    assert_eq!(total_pages(0, 10), 1);
    assert_eq!(total_pages(35, 10), 4);
    assert_eq!(total_pages(30, 10), 3);
    assert_eq!(total_pages(5, 0), 5);
}

#[test]
fn pagination_summary_describes_the_page() {
    let pagination = DataTablePaginationState {
        page: 9,
        page_size: 10,
    };
    assert_eq!(
        pagination_summary(&pagination, DataTablePageInfo::known_total(35)),
        "Page 4 of 4 - 35 total"
    );
    assert_eq!(
        pagination_summary(
            &pagination,
            DataTablePageInfo {
                total_count: DataTableTotalCount::Unknown,
                has_next_page: None,
                has_previous_page: None,
            }
        ),
        "Page 9 - total unknown"
    );
}

#[test]
fn set_page_changes_only_the_page() {
    let state = filtered_state();
    let next = apply_action(&state, DataTableAction::SetPage { page: 7 });
    assert_eq!(next.pagination.page, 7);
    assert_eq!(next.pagination.page_size, 10);
    assert_eq!(next.filters, state.filters);
    assert_eq!(next.sorting, state.sorting);
}

#[test]
fn reset_filters_clears_filters_and_search() {
    let next = apply_action(&filtered_state(), DataTableAction::ResetFilters);
    assert!(next.filters.is_empty());
    assert_eq!(next.global_filter, None);
    assert_eq!(next.pagination.page, 1);
}

use dioxus_components::table_lookup::{
    boolean_control_value, boolean_filter_value, multiple_filter_value, option_filter_value,
    range_input_type, text_filter_value,
};
use dioxus_components::table_lookup::{
    active_filter, aria_sort, column_align, column_label, filter_label, filter_value_label,
    is_column_visible, range_filter_value, DataTableColumnAlign, DataTableColumnLabel,
};
use dioxus_components::table_selection::{
    is_row_selected, next_sorting_for_column, toggle_all_matching_selection, toggle_expanded_row,
    toggle_page_selection, toggle_row_selection,
};

fn ids(values: &[&str]) -> Vec<String> {
    values.iter().map(|value| value.to_string()).collect()
}

#[test]
fn fingerprint_ignores_the_order_of_three_filters() {
    let filters = vec![
        DataTableFilterState {
            column: "b".to_string(),
            value: DataTableFilterValue::Boolean(true),
        },
        DataTableFilterState {
            column: "c".to_string(),
            value: DataTableFilterValue::Multiple(ids(&["y", "x"])),
        },
        DataTableFilterState {
            column: "a".to_string(),
            value: DataTableFilterValue::Text("q".to_string()),
        },
    ];
    let left = DataTableState {
        filters: filters.clone(),
        ..DataTableState::default()
    };
    let right = DataTableState {
        filters: vec![filters[2].clone(), filters[0].clone(), filters[1].clone()],
        ..DataTableState::default()
    };
    assert_eq!(query_fingerprint(&left), query_fingerprint(&right));
}

#[test]
fn global_filter_changes_clear_stale_all_matching_selection() {
    let mut state = filtered_state();
    state.row_selection = DataTableRowSelectionState::AllMatching {
        query: query_fingerprint(&state),
        except: Vec::new(),
    };
    let next = apply_action(
        &state,
        DataTableAction::SetGlobalFilter {
            value: Some("south".to_string()),
        },
    );
    assert_eq!(next.pagination.page, 1);
    assert_eq!(
        next.row_selection,
        DataTableRowSelectionState::Explicit { rows: Vec::new() }
    );

    let same = apply_action(
        &state,
        DataTableAction::SetGlobalFilter {
            value: Some("north".to_string()),
        },
    );
    assert_eq!(same.row_selection, state.row_selection);
}

#[test]
fn sorting_actions_keep_one_entry_per_column() {
    let next = apply_action(
        &DataTableState::default(),
        DataTableAction::SetSorting {
            sorting: vec![
                DataTableSortState {
                    column: "a".to_string(),
                    direction: DataTableSortDirection::Ascending,
                },
                DataTableSortState {
                    column: "a".to_string(),
                    direction: DataTableSortDirection::Descending,
                },
            ],
        },
    );
    assert_eq!(
        next.sorting,
        vec![DataTableSortState {
            column: "a".to_string(),
            direction: DataTableSortDirection::Ascending,
        }]
    );
}

#[test]
fn toggling_a_row_twice_restores_the_selection() {
    let selection = DataTableRowSelectionState::Explicit { rows: ids(&["a", "b"]) };
    let once = toggle_row_selection(&selection, "b".to_string());
    assert_eq!(once, DataTableRowSelectionState::Explicit { rows: ids(&["a"]) });
    let twice = toggle_row_selection(&once, "b".to_string());
    assert_eq!(twice, selection);

    let all = DataTableRowSelectionState::AllMatching {
        query: "q".to_string(),
        except: Vec::new(),
    };
    let excluded = toggle_row_selection(&all, "c".to_string());
    assert!(!is_row_selected(&excluded, "c", "q"));
    assert!(is_row_selected(&excluded, "d", "q"));
    assert!(!is_row_selected(&excluded, "d", "other"));
}

#[test]
fn page_toggle_selects_then_clears_the_page() {
    let page = ids(&["r1", "r2"]);
    let none = DataTableRowSelectionState::Explicit { rows: ids(&["r9"]) };
    let selected = toggle_page_selection(&none, &page, "q");
    assert_eq!(
        selected,
        DataTableRowSelectionState::Explicit { rows: ids(&["r9", "r1", "r2"]) }
    );
    let cleared = toggle_page_selection(&selected, &page, "q");
    assert_eq!(cleared, DataTableRowSelectionState::Explicit { rows: ids(&["r9"]) });
}

#[test]
fn all_matching_toggle_selects_the_current_query() {
    let state = filtered_state();
    let query = query_fingerprint(&state);
    let selected = toggle_all_matching_selection(&state);
    assert_eq!(
        selected,
        DataTableRowSelectionState::AllMatching {
            query: query.clone(),
            except: Vec::new(),
        }
    );
    let mut with_all = state.clone();
    with_all.row_selection = selected;
    assert_eq!(
        toggle_all_matching_selection(&with_all),
        DataTableRowSelectionState::Explicit { rows: Vec::new() }
    );
}

#[test]
fn expanded_rows_toggle_in_and_out() {
    let rows = ids(&["a"]);
    let added = toggle_expanded_row(&rows, "b".to_string());
    assert_eq!(added, ids(&["a", "b"]));
    assert_eq!(toggle_expanded_row(&added, "a".to_string()), ids(&["b"]));
}

#[test]
fn sorting_cycles_ascending_descending_off() {
    let mut state = DataTableState::default();
    state.sorting = vec![DataTableSortState {
        column: "b".to_string(),
        direction: DataTableSortDirection::Ascending,
    }];
    let first = next_sorting_for_column(&state, "a");
    assert_eq!(first[0].column, "a");
    assert_eq!(first[0].direction, DataTableSortDirection::Ascending);
    assert_eq!(first[1].column, "b");
    state.sorting = first;
    let second = next_sorting_for_column(&state, "a");
    assert_eq!(second[0].direction, DataTableSortDirection::Descending);
    state.sorting = second;
    let third = next_sorting_for_column(&state, "a");
    assert_eq!(third.len(), 1);
    assert_eq!(third[0].column, "b");
    assert_eq!(aria_sort(&"b".to_string(), &state), Some("ascending"));
    assert_eq!(aria_sort(&"a".to_string(), &state), Some("descending"));
    assert_eq!(aria_sort(&"z".to_string(), &state), None);
}

#[test]
fn lookups_read_the_latest_override() {
    let mut state = filtered_state();
    state.column_visibility = vec![
        DataTableColumnVisibilityState {
            column: "a".to_string(),
            visible: false,
        },
        DataTableColumnVisibilityState {
            column: "a".to_string(),
            visible: true,
        },
    ];
    assert!(is_column_visible(&"a".to_string(), &state));
    assert!(is_column_visible(&"b".to_string(), &state));
    assert_eq!(
        active_filter(&"status".to_string(), &state),
        Some(&DataTableFilterValue::Option("paid".to_string()))
    );
    assert_eq!(active_filter(&"other".to_string(), &state), None);
}

#[test]
fn filter_labels_and_ranges() {
    assert_eq!(range_filter_value(String::new(), String::new()), None);
    assert_eq!(
        range_filter_value("1".to_string(), String::new()),
        Some(DataTableFilterValue::Range {
            min: Some("1".to_string()),
            max: None,
        })
    );
    assert_eq!(
        filter_value_label(&DataTableFilterValue::Multiple(ids(&["a", "b"]))),
        "a, b"
    );
    assert_eq!(filter_value_label(&DataTableFilterValue::Boolean(true)), "Yes");
    assert_eq!(
        filter_value_label(&DataTableFilterValue::Range {
            min: Some("1".to_string()),
            max: Some("9".to_string()),
        }),
        "1 - 9"
    );
    assert_eq!(
        filter_value_label(&DataTableFilterValue::Range {
            min: None,
            max: Some("9".to_string()),
        }),
        "To 9"
    );
}

#[test]
fn column_labels_fall_back_to_ids() {
    let columns = vec![
        DataTableColumnLabel {
            id: "name".to_string(),
            header_text: Some("Name".to_string()),
        },
        DataTableColumnLabel {
            id: "icon".to_string(),
            header_text: None,
        },
    ];
    assert_eq!(column_label(&columns[0]), "Name");
    assert_eq!(filter_label(&columns, &"name".to_string()), "Name");
    assert_eq!(filter_label(&columns, &"icon".to_string()), "icon");
    assert_eq!(filter_label(&columns, &"gone".to_string()), "gone");
    assert_eq!(column_align(Some(DataTableColumnAlign::Center)), Some("center"));
    assert_eq!(column_align(None), None);
}

use dioxus_components::table_view::{
    control_colspan, corrected_scroll, estimated_row_height, show_pagination, virtual_spacers,
    DataTableVirtualization,
};

#[test]
fn virtualization_defaults_and_estimates() {
    let config = DataTableVirtualization::default();
    assert_eq!(config.estimated_row_height, 48);
    assert_eq!(config.overscan, 8);
    assert_eq!(config.max_height, Some("32rem".to_string()));
    let zero = DataTableVirtualization {
        estimated_row_height: 0,
        overscan: 0,
        max_height: None,
    };
    assert_eq!(estimated_row_height(&zero), 1);
    assert_eq!(control_colspan(0, true, true), 3);
    assert_eq!(control_colspan(4, false, false), 4);
    assert!(show_pagination(false, false, true));
    assert!(!show_pagination(true, false, true));
}

fn numeric_range_rows(min: Option<f64>, max: Option<f64>, kind: DataTableRangeFilterKind) -> Vec<usize> {
    let columns = vec![column("rank", false, false, None, Some(DataTableColumnFilterKind::Range(kind)))];
    let items: Vec<TestItem> = [10.0, 9.0, 2.5, 100.0]
        .iter()
        .map(|rank| TestItem {
            visible: String::new(),
            hidden: String::new(),
            rank: *rank,
        })
        .collect();
    let state = DataTableState {
        filters: vec![DataTableFilterState {
            column: "rank".to_string(),
            value: DataTableFilterValue::Range {
                min: min.map(|v| v.to_string()),
                max: max.map(|v| v.to_string()),
            },
        }],
        ..DataTableState::default()
    };
    let key = |v: f64| match number(v) {
        DataTableValue::Number { order_key, .. } => order_key,
        _ => unreachable!(),
    };
    let keys = vec![RangeBoundKeys {
        column: "rank".to_string(),
        min: min.map(key),
        max: max.map(key),
    }];
    let ids: Vec<String> = (0..items.len()).map(|index| format!("row-{index}")).collect();
    let mut rows = build_base_rows(&ids, &state);
    for row in rows.iter_mut() {
        row.values = vec![number(items[row.source_index].rank)];
    }
    let rows = apply_row_model_stages(rows, &columns, &state, &keys, &Vec::new(), local_modes(), &NoHooks);
    rows.iter().map(|row| row.source_index).collect()
}

#[test]
fn numeric_range_filters_compare_numbers() {
    assert_eq!(numeric_range_rows(Some(9.0), None, DataTableRangeFilterKind::Number), vec![0, 1, 3]);
    assert_eq!(numeric_range_rows(None, Some(10.0), DataTableRangeFilterKind::Number), vec![0, 1, 2]);
    assert_eq!(numeric_range_rows(Some(3.0), Some(50.0), DataTableRangeFilterKind::Number), vec![0, 1]);
}

#[test]
fn text_range_filters_compare_text() {
    assert_eq!(numeric_range_rows(Some(9.0), None, DataTableRangeFilterKind::Text), vec![1]);
}

#[test]
fn filter_controls_map_their_values() {
    assert_eq!(text_filter_value(String::new()), None);
    assert_eq!(
        text_filter_value("ada".to_string()),
        Some(DataTableFilterValue::Text("ada".to_string()))
    );
    assert_eq!(option_filter_value(Some(String::new())), None);
    assert_eq!(option_filter_value(None), None);
    assert_eq!(
        option_filter_value(Some("paid".to_string())),
        Some(DataTableFilterValue::Option("paid".to_string()))
    );
    assert_eq!(multiple_filter_value(Vec::new()), None);
    assert_eq!(
        multiple_filter_value(ids(&["a"])),
        Some(DataTableFilterValue::Multiple(ids(&["a"])))
    );
    assert_eq!(boolean_filter_value(Some("true")), Some(DataTableFilterValue::Boolean(true)));
    assert_eq!(boolean_filter_value(Some("false")), Some(DataTableFilterValue::Boolean(false)));
    assert_eq!(boolean_filter_value(Some("")), None);
    assert_eq!(boolean_filter_value(None), None);
    assert_eq!(boolean_control_value(Some(&DataTableFilterValue::Boolean(true))), "true");
    assert_eq!(boolean_control_value(Some(&DataTableFilterValue::Text("x".to_string()))), "");
    assert_eq!(boolean_control_value(None), "");
}

#[test]
fn virtual_body_spacers_and_scroll_corrections() {
    assert_eq!(virtual_spacers(1000, Some(96), Some(480)), (96, 520));
    assert_eq!(virtual_spacers(1000, None, None), (0, 1000));
    assert_eq!(virtual_spacers(100, Some(0), Some(140)), (0, 0));
    assert_eq!(corrected_scroll(200, -48), 152);
    assert_eq!(corrected_scroll(20, -48), 0);
    assert_eq!(corrected_scroll(20, 30), 50);
}

#[test]
fn range_filters_pick_their_input_type() {
    assert_eq!(range_input_type(DataTableRangeFilterKind::Number), "number");
    assert_eq!(range_input_type(DataTableRangeFilterKind::Text), "text");
    assert_eq!(range_input_type(DataTableRangeFilterKind::DateTime), "datetime-local");
}
