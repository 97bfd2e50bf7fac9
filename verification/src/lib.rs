//! Verified logic of a styled component library: stylesheet class extraction,
//! pagination ranges, data-table state transitions, field text helpers,
//! number and color text handling, and clock-time helpers.

pub mod text;
pub mod clock;
pub mod color;
pub mod field;
pub mod variants;
pub mod css;
pub mod pagination;
pub mod table_state;
pub mod seqs;
pub mod keyed;
pub mod table_query;
pub mod table_actions;
pub mod table_selection;
pub mod table_paging;
pub mod table_lookup;
pub mod table_rows;
pub mod table_columns;
pub mod table_view;
pub mod number_text;
