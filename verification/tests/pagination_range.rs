use dioxus_components::pagination::{
    next_page, pagination_controls, pagination_page_request, pagination_range, previous_page,
    PaginationLinkKind, PaginationLinkSize, PaginationRangeItem,
};

fn pages(items: &[PaginationRangeItem]) -> Vec<Option<usize>> {
    items
        .iter()
        .map(|item| match item {
            PaginationRangeItem::Page(page) => Some(*page),
            PaginationRangeItem::Dots => None,
        })
        .collect()
}

#[test]
fn empty_when_no_pages() {
    assert!(pagination_range(0, 1, 1, 1).is_empty());
}

#[test]
fn single_page() {
    assert_eq!(pages(&pagination_range(1, 1, 1, 1)), vec![Some(1)]);
}

#[test]
fn no_truncation_when_everything_fits() {
    assert_eq!(
        pages(&pagination_range(5, 3, 1, 1)),
        vec![Some(1), Some(2), Some(3), Some(4), Some(5)]
    );
}

#[test]
fn right_dots_near_start() {
    assert_eq!(
        pages(&pagination_range(10, 1, 1, 1)),
        vec![Some(1), Some(2), Some(3), Some(4), Some(5), None, Some(10)]
    );
}

#[test]
fn left_dots_near_end() {
    assert_eq!(
        pages(&pagination_range(10, 10, 1, 1)),
        vec![Some(1), None, Some(6), Some(7), Some(8), Some(9), Some(10)]
    );
}

#[test]
fn both_dots_in_middle() {
    assert_eq!(
        pages(&pagination_range(10, 6, 1, 1)),
        vec![Some(1), None, Some(5), Some(6), Some(7), None, Some(10)]
    );
}

#[test]
fn clamps_active_into_range() {
    assert_eq!(
        pages(&pagination_range(10, 99, 1, 1)),
        pages(&pagination_range(10, 10, 1, 1))
    );
    assert_eq!(
        pages(&pagination_range(10, 0, 1, 1)),
        pages(&pagination_range(10, 1, 1, 1))
    );
}

#[test]
fn siblings_larger_than_total_does_not_panic() {
    assert_eq!(
        pages(&pagination_range(3, 2, 5, 1)),
        vec![Some(1), Some(2), Some(3)]
    );
}

#[test]
fn zero_boundaries_does_not_panic() {
    let range = pagination_range(10, 5, 1, 0);
    assert_eq!(pages(&range), vec![None, Some(4), Some(5), Some(6), None]);
}

#[test]
fn range_pages_increase_and_include_the_active_page() {
    let range = pages(&pagination_range(40, 17, 2, 2));
    let numbers: Vec<usize> = range.iter().flatten().copied().collect();
    assert!(numbers.windows(2).all(|w| w[0] < w[1]));
    assert!(numbers.contains(&17));
    assert!(numbers.iter().all(|p| (1..=40).contains(p)));
    assert_eq!(
        range,
        vec![Some(1), Some(2), None, Some(15), Some(16), Some(17), Some(18), Some(19), None, Some(39), Some(40)]
    );
}

#[test]
fn controls_are_disabled_at_the_edges() {
    let first = pagination_controls(Some(5), 1, false);
    assert!(first.at_first && !first.at_last);
    let last = pagination_controls(Some(5), 5, false);
    assert!(!last.at_first && last.at_last);
    let middle = pagination_controls(Some(5), 3, false);
    assert!(!middle.at_first && !middle.at_last);
    let none = pagination_controls(None, 3, false);
    assert!(none.at_first && none.at_last);
    let disabled = pagination_controls(Some(5), 3, true);
    assert!(disabled.at_first && disabled.at_last);
}

#[test]
fn page_requests_are_clamped_into_range() {
    assert_eq!(pagination_page_request(Some(5), 0), Some(1));
    assert_eq!(pagination_page_request(Some(5), 9), Some(5));
    assert_eq!(pagination_page_request(Some(5), 3), Some(3));
    assert_eq!(pagination_page_request(Some(0), 3), None);
    assert_eq!(pagination_page_request(None, 3), None);
}

#[test]
fn step_controls_move_by_one_page() {
    assert_eq!(previous_page(4), 3);
    assert_eq!(previous_page(0), 0);
    assert_eq!(next_page(4), 5);
}

#[test]
fn link_attributes_name_their_kind() {
    assert_eq!(PaginationLinkSize::Icon.class(), "icon");
    assert_eq!(PaginationLinkSize::Default.class(), "default");
    assert_eq!(PaginationLinkKind::First.attr(), "first");
    assert_eq!(PaginationLinkKind::Previous.attr(), "previous");
    assert_eq!(PaginationLinkKind::Next.attr(), "next");
    assert_eq!(PaginationLinkKind::Last.attr(), "last");
}
