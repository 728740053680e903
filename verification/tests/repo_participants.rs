use std::path::PathBuf;

use optopodi::metrics::repo_participants::{
    fits_counters, pr_participants, AggregateError, ParticipantCounts, PullRequest, RepoParticipants,
};
use optopodi::metrics::util::Date;
use optopodi::metrics::{Graphql, Producer};

fn pr(
    author: Option<&str>,
    participants: &[&str],
    reviews: &[Option<&str>],
    merged_by: Option<&str>,
) -> PullRequest {
    PullRequest {
        author: author.map(String::from),
        participants: participants.iter().map(|p| p.to_string()).collect(),
        participants_total: participants.len() as i64,
        reviews: reviews.iter().map(|r| r.map(String::from)).collect(),
        reviews_total: reviews.len() as i64,
        merged_by: merged_by.map(String::from),
    }
}

fn line(table: &[(String, ParticipantCounts)], login: &str) -> (u64, u64, u64, u64) {
    let found: Vec<_> = table.iter().filter(|(l, _)| l == login).collect();
    assert_eq!(found.len(), 1, "{} has one line", login);
    let c = &found[0].1;
    (c.participated_in, c.authored, c.reviewed, c.resolved)
}

#[test]
fn no_pull_requests_give_an_empty_table() {
    let table = pr_participants(&vec![]).unwrap();
    assert!(table.is_empty());
}

#[test]
fn counts_follow_the_five_rules() {
    let prs = vec![
        pr(
            Some("alice"),
            &["alice", "bob", "carol"],
            &[Some("bob"), Some("bob"), Some("alice"), None],
            Some("carol"),
        ),
        pr(Some("bob"), &["bob", "alice"], &[Some("alice")], Some("bob")),
        pr(None, &["dave"], &[], None),
    ];
    let table = pr_participants(&prs).unwrap();
    assert_eq!(table.len(), 4);
    // participated_in, authored, reviewed, resolved
    assert_eq!(line(&table, "alice"), (1, 1, 1, 0));
    assert_eq!(line(&table, "bob"), (1, 1, 1, 1));
    assert_eq!(line(&table, "carol"), (1, 0, 0, 1));
    assert_eq!(line(&table, "dave"), (1, 0, 0, 0));
}

#[test]
fn table_is_ordered_by_participation_then_login() {
    let prs = vec![
        pr(None, &["zoe", "bob", "alice"], &[], None),
        pr(None, &["zoe", "bob"], &[], None),
        pr(None, &["zoe", "carol"], &[], None),
        pr(Some("mallory"), &[], &[], None),
    ];
    let table = pr_participants(&prs).unwrap();
    let logins: Vec<&str> = table.iter().map(|(l, _)| l.as_str()).collect();
    assert_eq!(logins, vec!["zoe", "bob", "alice", "carol", "mallory"]);
    let participation: Vec<u64> = table.iter().map(|(_, c)| c.participated_in).collect();
    assert_eq!(participation, vec![3, 2, 1, 1, 0]);
}

#[test]
fn a_participant_listed_twice_counts_twice() {
    let prs = vec![pr(None, &["bob", "bob"], &[], None)];
    let table = pr_participants(&prs).unwrap();
    assert_eq!(line(&table, "bob"), (2, 0, 0, 0));
}

#[test]
fn the_author_neither_participates_nor_reviews() {
    let prs = vec![pr(Some("alice"), &["alice"], &[Some("alice")], Some("alice"))];
    let table = pr_participants(&prs).unwrap();
    assert_eq!(table.len(), 1);
    assert_eq!(line(&table, "alice"), (0, 1, 0, 1));
}

#[test]
fn partial_participant_list_is_refused() {
    let mut short = pr(Some("alice"), &["bob"], &[], None);
    short.participants_total = 101;
    let prs = vec![pr(None, &["carol"], &[], None), short];
    assert_eq!(
        pr_participants(&prs).unwrap_err(),
        AggregateError::PaginationUnsupported
    );
}

#[test]
fn partial_review_list_is_refused() {
    let mut short = pr(Some("alice"), &["bob"], &[Some("bob")], None);
    short.reviews_total = 2;
    assert_eq!(
        pr_participants(&vec![short]).unwrap_err(),
        AggregateError::PaginationUnsupported
    );
    let mut negative = pr(None, &[], &[], None);
    negative.reviews_total = -1;
    assert!(pr_participants(&vec![negative]).is_err());
}

#[test]
fn counting_again_and_in_another_order_gives_the_same_table() {
    let make = || {
        vec![
            pr(Some("alice"), &["bob", "carol"], &[Some("bob")], Some("carol")),
            pr(Some("bob"), &["alice", "carol"], &[Some("carol"), Some("alice")], None),
            pr(Some("carol"), &["alice"], &[None], Some("alice")),
            pr(None, &["dave", "bob"], &[Some("dave")], Some("bob")),
        ]
    };
    let show = |table: Vec<(String, ParticipantCounts)>| -> Vec<(String, u64, u64, u64, u64)> {
        table
            .into_iter()
            .map(|(l, c)| (l, c.participated_in, c.authored, c.reviewed, c.resolved))
            .collect()
    };
    let first = show(pr_participants(&make()).unwrap());
    let again = show(pr_participants(&make()).unwrap());
    assert_eq!(first, again);
    let mut turned = make();
    turned.reverse();
    assert_eq!(first, show(pr_participants(&turned).unwrap()));
    let mut shifted = make();
    shifted.rotate_left(1);
    assert_eq!(first, show(pr_participants(&shifted).unwrap()));
}

fn producer() -> RepoParticipants {
    RepoParticipants::new(
        Graphql::new(PathBuf::from("graphql/repo-participants"), false),
        "rust-lang".to_string(),
        vec!["rust".to_string(), "cargo".to_string()],
        Date::new(2024, 1, 1).unwrap(),
        Date::new(2024, 2, 1).unwrap(),
    )
}

#[test]
fn participant_columns() {
    assert_eq!(
        producer().column_names(),
        vec![
            "Participant",
            "Repository",
            "PRs participated in",
            "PRs authored",
            "PRs reviewed",
            "PRs resolved"
        ]
    );
}

#[test]
fn participant_rows_match_the_columns() {
    let table = pr_participants(&vec![
        pr(Some("alice"), &["bob"], &[Some("bob")], Some("bob")),
        pr(Some("alice"), &["bob"], &[], None),
    ])
    .unwrap();
    let producer = producer();
    let rows = producer.rows(1, &table);
    assert_eq!(
        rows,
        vec![
            vec!["bob", "cargo", "2", "0", "1", "1"],
            vec!["alice", "cargo", "0", "2", "0", "0"],
        ]
    );
    for row in &rows {
        assert_eq!(row.len(), producer.column_names().len());
    }
}

#[test]
fn counters_of_lists_in_memory_fit() {
    assert!(fits_counters(&vec![]));
    assert!(fits_counters(&vec![
        pr(Some("alice"), &["bob"], &[Some("bob")], None),
        pr(None, &[], &[], None),
    ]));
}

#[test]
fn automation_accounts_get_no_line() {
    let prs = vec![
        pr(Some("alice"), &["bors", "bob", "rust-highfive"], &[Some("rustbot"), Some("bob")], Some("bors")),
        pr(Some("rust-timer"), &["alice", "rfcbot"], &[Some("alice"), Some("rust-log-analyzer")], Some("alice")),
    ];
    let table = pr_participants(&prs).unwrap();
    let logins: Vec<&str> = table.iter().map(|(l, _)| l.as_str()).collect();
    assert_eq!(logins, vec!["alice", "bob"]);
    assert_eq!(line(&table, "alice"), (1, 1, 1, 1));
    assert_eq!(line(&table, "bob"), (1, 0, 1, 0));

    // the others are counted as they are without the automation accounts
    let without = vec![
        pr(Some("alice"), &["bob"], &[Some("bob")], None),
        pr(None, &["alice"], &[Some("alice")], Some("alice")),
    ];
    let table = pr_participants(&without).unwrap();
    assert_eq!(line(&table, "alice"), (1, 1, 1, 1));
    assert_eq!(line(&table, "bob"), (1, 0, 1, 0));

    let only = vec![pr(Some("bors"), &["bors"], &[], Some("bors"))];
    assert!(pr_participants(&only).unwrap().is_empty());
}
