# dioxus_components

The decision logic of a styled component library for Dioxus, written in Verus
and proved against its contracts.

- `src/` is the verified library:
  - `css`: comment stripping, class extraction and constant naming for
    component stylesheets;
  - `pagination`: page slots, control state and page requests of a paginator;
  - `table_*`, `seqs`, `keyed`: data-table state, actions, query fingerprints,
    selection, row filtering, sorting and paging, column layout and pager;
  - `clock`: time-picker columns, choices, range checks and labels;
  - `color`: hex color text normalisation, parsing and formatting;
  - `field`: described-by ids, attribute reading, class lists and password
    visibility;
  - `number_text`: number input sanitising, grouping and separator handling;
  - `variants`: presentation variants and their attribute values;
  - `text`: character-level helpers.
- `tests/` holds the tests, run against the compiled library.
- `app/` is the host-side glue that works on floating-point numbers, `palette`
  colors and `time` values.
