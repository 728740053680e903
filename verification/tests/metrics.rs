use std::path::PathBuf;

use optopodi::metrics::issue_closures::{IssueClosuresCount, IssueSearch};
use optopodi::metrics::paginator::PageResponse;
use optopodi::metrics::print::{print_all, ConsumeError};
use optopodi::metrics::repo_participants::PrsAndParticipants;
use optopodi::metrics::util::{issue_query, pull_request_query, Date, IssueState};
use optopodi::metrics::{
    producer_failure_notice, Event, ExportToSheets, Graphql, IssueClosures, ListReposForOrg, Print,
    Producer, ProducerTask, Step, CHANNEL_CAPACITY,
};

fn strings(fields: &[&str]) -> Vec<String> {
    fields.iter().map(|f| f.to_string()).collect()
}

fn january() -> Date {
    Date::new(2024, 1, 1).unwrap()
}

fn february() -> Date {
    Date::new(2024, 2, 1).unwrap()
}

#[test]
fn the_channel_holds_four_hundred_rows() {
    assert_eq!(CHANNEL_CAPACITY, 400);
}

#[test]
fn dates_are_written_with_leading_zeros() {
    assert_eq!(january().to_text(), "2024-01-01");
    assert_eq!(Date::new(987, 12, 31).unwrap().to_text(), "0987-12-31");
    assert_eq!(Date::new(0, 1, 9).unwrap().to_text(), "0000-01-09");
    assert_eq!(Date::new(9999, 10, 10).unwrap().to_text(), "9999-10-10");
}

#[test]
fn numbers_that_are_no_date_are_refused() {
    assert_eq!(Date::new(2024, 0, 1), None);
    assert_eq!(Date::new(2024, 13, 1), None);
    assert_eq!(Date::new(2024, 1, 0), None);
    assert_eq!(Date::new(2024, 1, 32), None);
    assert_eq!(Date::new(10000, 1, 1), None);
    assert_eq!(Date::new(2024, 2, 29), Some(Date { year: 2024, month: 2, day: 29 }));
}

#[test]
fn searches_name_the_repository_the_kind_and_the_period() {
    assert_eq!(
        pull_request_query("ORG", "REPO", &january(), &february()),
        "repo:ORG/REPO is:pr created:2024-01-01..2024-02-01"
    );
    assert_eq!(
        issue_query("ORG", "REPO", &january(), &february(), IssueState::Closed),
        "repo:ORG/REPO is:issue closed:2024-01-01..2024-02-01"
    );
    assert_eq!(
        IssueSearch::query_string("ORG", "REPO", &january(), &february(), IssueState::Created),
        "repo:ORG/REPO is:issue created:2024-01-01..2024-02-01"
    );
    assert_eq!(
        PrsAndParticipants::query_string("rust-lang", "rust", &january(), &february()),
        "repo:rust-lang/rust is:pr created:2024-01-01..2024-02-01"
    );
}

#[test]
fn responses_are_numbered_in_the_order_of_the_requests() {
    let mut graphql = Graphql::new(PathBuf::from("graphql/all-repos"), true);
    assert_eq!(graphql.counter, 0);
    let first = graphql.next_exchange();
    assert_eq!(first.file_name, "0.json");
    assert!(first.replay);
    let second = graphql.next_exchange();
    assert_eq!(second.file_name, "1.json");
    for _ in 0..9 {
        graphql.next_exchange();
    }
    assert_eq!(graphql.next_exchange().file_name, "11.json");
    assert_eq!(graphql.counter, 12);
    assert!(!Graphql::new(PathBuf::from("x"), false).next_exchange().replay);
}

fn list_repos() -> ListReposForOrg {
    ListReposForOrg::new(
        Graphql::new(PathBuf::from("graphql/repo-infos"), false),
        "rust-lang".to_string(),
        strings(&["rust", "cargo"]),
        january(),
        february(),
    )
}

#[test]
fn repositories_are_listed_under_seven_columns() {
    let producer = list_repos();
    assert_eq!(
        producer.column_names(),
        strings(&[
            "Organization",
            "Repository",
            "PRs Opened",
            "Issues Opened",
            "Issues Closed",
            "Start Date",
            "End Date"
        ])
    );
    let row = producer.row(1, 12, &IssueClosuresCount { opened: 3, closed: 4 });
    assert_eq!(
        row,
        strings(&["rust-lang", "cargo", "12", "3", "4", "2024-01-01", "2024-02-01"])
    );
    assert_eq!(row.len(), producer.column_names().len());
    assert_eq!(
        producer.count_pulls_query(0),
        "repo:rust-lang/rust is:pr created:2024-01-01..2024-02-01"
    );
    assert_eq!(
        producer.count_issues_query(1, IssueState::Created),
        "repo:rust-lang/cargo is:issue created:2024-01-01..2024-02-01"
    );
}

#[test]
fn issue_closures_are_listed_under_six_columns() {
    let producer = IssueClosures::new(
        Graphql::new(PathBuf::from("graphql/issue-closures"), false),
        "rust-lang".to_string(),
        strings(&["rust"]),
        january(),
        february(),
    );
    assert_eq!(
        producer.column_names(),
        strings(&[
            "Organization",
            "Repository",
            "Issues Opened",
            "Issues Closed",
            "Start Date",
            "End Date"
        ])
    );
    let row = producer.row(0, &IssueClosuresCount { opened: 30, closed: 0 });
    assert_eq!(row, strings(&["rust-lang", "rust", "30", "0", "2024-01-01", "2024-02-01"]));
    assert_eq!(row.len(), producer.column_names().len());
}

fn sends(step: Step) -> Vec<String> {
    match step {
        Step::Send { row } => row,
        Step::Fetch { repo } => panic!("fetch {} where a row was due", repo),
        Step::Finish { .. } => panic!("finish where a row was due"),
    }
}

#[test]
fn a_producer_sends_its_rows_in_the_order_collected() {
    let (mut task, first) = ProducerTask::start(2);
    assert!(matches!(first, Step::Fetch { repo: 0 }));
    let step = task.on(Event::Fetched { rows: vec![strings(&["a"]), strings(&["b"]), strings(&["c"])] });
    assert_eq!(sends(step), strings(&["a"]));
    assert_eq!(sends(task.on(Event::Sent)), strings(&["b"]));
    assert_eq!(sends(task.on(Event::Sent)), strings(&["c"]));
    assert!(matches!(task.on(Event::Sent), Step::Fetch { repo: 1 }));
    assert!(!task.is_finished());
    assert_eq!(sends(task.on(Event::Fetched { rows: vec![strings(&["d"])] })), strings(&["d"]));
    assert!(matches!(task.on(Event::Sent), Step::Finish { outcome: Ok(()) }));
    assert!(task.is_finished());
}

#[test]
fn a_repository_without_rows_is_passed_over() {
    let (mut task, _) = ProducerTask::start(3);
    assert!(matches!(task.on(Event::Fetched { rows: vec![] }), Step::Fetch { repo: 1 }));
    assert!(matches!(task.on(Event::Fetched { rows: vec![] }), Step::Fetch { repo: 2 }));
    assert!(matches!(
        task.on(Event::Fetched { rows: vec![] }),
        Step::Finish { outcome: Ok(()) }
    ));
}

#[test]
fn a_producer_without_repositories_is_done_at_once() {
    let (task, first) = ProducerTask::start(0);
    assert!(matches!(first, Step::Finish { outcome: Ok(()) }));
    assert!(task.is_finished());
    let (task, first) = list_repos().task();
    assert!(matches!(first, Step::Fetch { repo: 0 }));
    assert!(!task.is_finished());
}

#[test]
fn a_failure_to_collect_ends_the_run_with_its_reason() {
    let (mut task, _) = ProducerTask::start(2);
    assert_eq!(sends(task.on(Event::Fetched { rows: vec![strings(&["a"])] })), strings(&["a"]));
    assert!(matches!(task.on(Event::Sent), Step::Fetch { repo: 1 }));
    let step = task.on(Event::FetchFailed { reason: "rate limit".to_string() });
    assert!(matches!(step, Step::Finish { outcome: Err(reason) } if reason == "rate limit"));
    assert!(task.is_finished());
}

#[test]
fn a_row_that_nobody_takes_ends_the_run_in_good_order() {
    let (mut task, _) = ProducerTask::start(2);
    let step = task.on(Event::Fetched { rows: vec![strings(&["a"]), strings(&["b"])] });
    assert_eq!(sends(step), strings(&["a"]));
    assert!(matches!(task.on(Event::ReceiverGone), Step::Finish { outcome: Ok(()) }));
    assert!(task.is_finished());
}

#[test]
fn a_failed_producer_is_reported() {
    assert_eq!(
        producer_failure_notice("rate limit"),
        "Encountered an error while collecting data: rate limit"
    );
}

#[test]
fn rows_are_printed_below_one_header_with_their_numbers() {
    let bytes = print_all(
        &strings(&["Participant", "Repository"]),
        &vec![strings(&["alice", "rust"]), strings(&["bob", "cargo"]), strings(&["carol", "rust"])],
    )
    .unwrap();
    assert_eq!(
        String::from_utf8(bytes).unwrap(),
        "#,Participant,Repository\n1,alice,rust\n2,bob,cargo\n3,carol,rust\n"
    );
}

#[test]
fn a_header_alone_is_printed_for_no_rows() {
    let bytes = print_all(&strings(&["a", "b"]), &vec![]).unwrap();
    assert_eq!(String::from_utf8(bytes).unwrap(), "#,a,b\n");
    let bytes = print_all(&vec![], &vec![vec![], vec![]]).unwrap();
    assert_eq!(String::from_utf8(bytes).unwrap(), "#\n1\n2\n");
}

#[test]
fn fields_are_quoted_where_they_have_to_be() {
    let bytes = print_all(
        &strings(&["name, first", "say"]),
        &vec![strings(&["a,b", "he said \"hi\""]), strings(&["two\nlines", ""])],
    )
    .unwrap();
    assert_eq!(
        String::from_utf8(bytes).unwrap(),
        "#,\"name, first\",say\n1,\"a,b\",\"he said \"\"hi\"\"\"\n2,\"two\nlines\",\n"
    );
}

#[test]
fn a_row_of_another_width_is_refused() {
    let error = print_all(
        &strings(&["a", "b"]),
        &vec![strings(&["1", "2"]), strings(&["1", "2", "3"])],
    )
    .unwrap_err();
    assert!(matches!(error, ConsumeError::UnequalLengths { expected_len: 3, len: 4 }));
    let error = print_all(&strings(&["a", "b"]), &vec![strings(&["1"])]).unwrap_err();
    assert!(matches!(error, ConsumeError::UnequalLengths { expected_len: 3, len: 2 }));
}

#[test]
fn the_consumer_writes_the_header_first_and_once() {
    let mut consumer = Print::new();
    assert!(matches!(consumer.entry(&strings(&["x"])), Err(ConsumeError::NoHeader)));
    assert_eq!(consumer.header(&strings(&["a"])).unwrap(), b"#,a\n".to_vec());
    assert!(matches!(consumer.header(&strings(&["a"])), Err(ConsumeError::HeaderTwice)));
    assert_eq!(consumer.rows_written(), 0);
    assert_eq!(consumer.entry(&strings(&["x"])).unwrap(), b"1,x\n".to_vec());
    assert!(matches!(
        consumer.entry(&strings(&["x", "y"])),
        Err(ConsumeError::UnequalLengths { expected_len: 2, len: 3 })
    ));
    assert_eq!(consumer.rows_written(), 1);
    assert_eq!(consumer.entry(&strings(&["z"])).unwrap(), b"2,z\n".to_vec());
    assert_eq!(consumer.rows_written(), 2);
}

#[test]
fn the_spreadsheet_is_cleared_before_the_header_is_written() {
    let consumer = ExportToSheets::new("SHEET");
    let (clear, header) = consumer.opening(strings(&["a", "b", "c"]));
    assert_eq!(clear.path, "spreadsheets/SHEET/values/Sheet1:clear");
    assert!(clear.query.is_empty());
    assert_eq!(header.path, "spreadsheets/SHEET/values/A:D:append");
    let row = consumer.entry(strings(&["1", "2", "3"]));
    assert_eq!(row.path, "spreadsheets/SHEET/values/A:D:append");
    assert_eq!(
        consumer.closing(),
        "Successfully uploaded data to Google Sheets: https://docs.google.com/spreadsheets/d/SHEET/"
    );
}

#[test]
fn a_run_writes_every_row_that_was_collected_below_one_header() {
    let collected = vec![
        vec![strings(&["a", "1"]), strings(&["b", "2"])],
        vec![],
        vec![strings(&["c", "3"])],
    ];
    let bytes = optopodi::metrics::pipeline::run_through(&strings(&["name", "n"]), collected).unwrap();
    assert_eq!(String::from_utf8(bytes).unwrap(), "#,name,n\n1,a,1\n2,b,2\n3,c,3\n");
    let bytes = optopodi::metrics::pipeline::run_through(&strings(&["name"]), vec![]).unwrap();
    assert_eq!(String::from_utf8(bytes).unwrap(), "#,name\n");
    let error = optopodi::metrics::pipeline::run_through(
        &strings(&["name"]),
        vec![vec![strings(&["a"])], vec![strings(&["b", "c"])]],
    )
    .unwrap_err();
    assert!(matches!(error, ConsumeError::UnequalLengths { expected_len: 2, len: 3 }));
}

#[test]
fn the_names_of_all_repositories_are_read_from_the_pages() {
    let repos = optopodi::metrics::util::all_repos(vec![
        PageResponse::Page {
            items: strings(&["rust", "cargo"]),
            has_next_page: true,
            end_cursor: Some("Y3Vyc29y".to_string()),
        },
        PageResponse::Page { items: strings(&["clippy"]), has_next_page: false, end_cursor: None },
    ])
    .unwrap();
    assert_eq!(repos, strings(&["rust", "cargo", "clippy"]));
    assert_eq!(
        optopodi::metrics::util::all_repos(vec![PageResponse::NoEntity]).unwrap(),
        Vec::<String>::new()
    );
}

#[test]
fn an_error_of_the_encoder_is_handed_on() {
    let failure = csv::Error::from(std::io::Error::new(std::io::ErrorKind::Other, "disk full"));
    match optopodi::metrics::print::written_or_error(Err(failure)) {
        Err(ConsumeError::Encode { source }) => assert!(source.is_io_error()),
        _ => panic!("the error of the encoder is the error"),
    }
    assert_eq!(
        optopodi::metrics::print::written_or_error(Ok(b"a,b\n".to_vec())).unwrap(),
        b"a,b\n".to_vec()
    );
}
