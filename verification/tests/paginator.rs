use optopodi::metrics::issue_closures::{count_issue_closures, IssueClosuresCount};
use optopodi::metrics::paginator::{fetch_all, present, FetchError, PageResponse, Paginator, Progress};

fn page(items: &[u32], has_next_page: bool, end_cursor: Option<&str>) -> PageResponse<u32> {
    PageResponse::Page {
        items: items.to_vec(),
        has_next_page,
        end_cursor: end_cursor.map(String::from),
    }
}

#[test]
fn pages_are_concatenated_in_order() {
    let items = fetch_all(vec![
        page(&[1, 2, 3], true, Some("a")),
        page(&[], true, Some("b")),
        page(&[4], true, Some("c")),
        page(&[5, 6], false, None),
    ])
    .unwrap();
    assert_eq!(items, vec![1, 2, 3, 4, 5, 6]);
}

#[test]
fn a_single_last_page_is_everything() {
    assert_eq!(fetch_all(vec![page(&[7, 8], false, None)]).unwrap(), vec![7, 8]);
    assert_eq!(fetch_all(vec![page(&[], false, None)]).unwrap(), Vec::<u32>::new());
}

#[test]
fn responses_after_the_last_page_are_not_read() {
    let items = fetch_all(vec![
        page(&[1], false, Some("a")),
        page(&[2], false, None),
        PageResponse::MissingData,
    ])
    .unwrap();
    assert_eq!(items, vec![1]);
}

#[test]
fn an_absent_entity_ends_the_reading_in_good_order() {
    assert_eq!(
        fetch_all::<u32>(vec![PageResponse::NoEntity]).unwrap(),
        Vec::<u32>::new()
    );
    assert_eq!(
        fetch_all(vec![page(&[1, 2], true, Some("a")), PageResponse::NoEntity]).unwrap(),
        vec![1, 2]
    );
}

#[test]
fn a_failed_request_is_an_api_error() {
    let error = fetch_all(vec![
        page(&[1], true, Some("a")),
        PageResponse::Failed { reason: "503".to_string() },
        page(&[2], false, None),
    ])
    .unwrap_err();
    assert!(matches!(error, FetchError::ApiError { reason } if reason == "503"));
}

#[test]
fn a_response_without_data_is_missing_data() {
    let error = fetch_all::<u32>(vec![PageResponse::MissingData]).unwrap_err();
    assert!(matches!(error, FetchError::MissingData));
}

#[test]
fn responses_that_end_too_early_are_an_error() {
    let error = fetch_all(vec![page(&[1], true, Some("a"))]).unwrap_err();
    assert!(matches!(error, FetchError::ApiError { .. }));
    let error = fetch_all::<u32>(vec![]).unwrap_err();
    assert!(
        matches!(error, FetchError::ApiError { reason } if reason == "the responses end before the last page")
    );
}

#[test]
fn the_paginator_hands_the_cursor_on() {
    let mut paginator: Paginator<u32> = Paginator::new();
    assert!(paginator.cursor().is_none());
    assert!(!paginator.is_finished());
    assert!(matches!(
        paginator.accept(page(&[1, 2], true, Some("first"))),
        Ok(Progress::More)
    ));
    assert_eq!(paginator.cursor().map(String::as_str), Some("first"));
    assert_eq!(paginator.len(), 2);
    assert!(matches!(
        paginator.accept(page(&[3], true, Some("second"))),
        Ok(Progress::More)
    ));
    assert_eq!(paginator.cursor().map(String::as_str), Some("second"));
    assert!(matches!(paginator.accept(page(&[4], false, None)), Ok(Progress::Done)));
    assert!(paginator.is_finished());
    // nothing changes once the end is reached
    assert!(matches!(paginator.accept(page(&[5], true, Some("x"))), Ok(Progress::Done)));
    assert!(matches!(
        paginator.accept(PageResponse::Failed { reason: "late".to_string() }),
        Ok(Progress::Done)
    ));
    assert_eq!(paginator.into_items(), vec![1, 2, 3, 4]);
}

#[test]
fn an_error_ends_the_paginator() {
    let mut paginator: Paginator<u32> = Paginator::new();
    assert!(matches!(paginator.accept(page(&[1], true, Some("a"))), Ok(Progress::More)));
    assert!(matches!(
        paginator.accept(PageResponse::MissingData),
        Err(FetchError::MissingData)
    ));
    assert!(paginator.is_finished());
    assert_eq!(paginator.into_items(), vec![1]);
}

#[test]
fn absent_edges_and_nodes_are_passed_over() {
    assert_eq!(present::<u32>(None), Vec::<u32>::new());
    assert_eq!(present::<u32>(Some(vec![])), Vec::<u32>::new());
    assert_eq!(
        present(Some(vec![Some(Some(1)), None, Some(None), Some(Some(2)), Some(Some(3))])),
        vec![1, 2, 3]
    );
}

#[test]
fn issues_are_counted_over_all_pages() {
    let opened = vec![page(&[0, 0, 0], true, Some("a")), page(&[0, 0], false, None)];
    let closed = vec![page(&[0], false, None)];
    assert_eq!(
        count_issue_closures(opened, closed).unwrap(),
        IssueClosuresCount { opened: 5, closed: 1 }
    );
}

#[test]
fn counting_issues_stops_at_the_first_error() {
    let opened = vec![PageResponse::Failed { reason: "opened".to_string() }];
    let closed = vec![PageResponse::<u32>::MissingData];
    assert!(matches!(
        count_issue_closures(opened, closed),
        Err(FetchError::ApiError { reason }) if reason == "opened"
    ));
    let opened = vec![page(&[1], false, None)];
    let closed = vec![PageResponse::<u32>::MissingData];
    assert!(matches!(count_issue_closures(opened, closed), Err(FetchError::MissingData)));
}
