use optopodi::report::issue_closure::write_issue_closures;
use optopodi::report::repo_info::{RepoInfo, RepoInfos};
use optopodi::report::repo_participant::{is_robot, Metric, RepoParticipant, RepoParticipants};
use std::path::PathBuf;

use optopodi::report::{
    DataSourceConfig, GithubConfig, HighContributorConfig, Report, ReportConfig, ReportData,
};

fn repo(name: &str, num_prs: u64) -> RepoInfo {
    RepoInfo {
        row: 1,
        org: "rust-lang".to_string(),
        repo: name.to_string(),
        num_prs,
        num_opened: 7,
        num_closed: 9,
        start: "2024-01-01".to_string(),
        end: "2024-02-01".to_string(),
    }
}

fn participant(
    login: &str,
    repo: &str,
    participated_in: u64,
    authored: u64,
    reviewed: u64,
    resolved: u64,
) -> RepoParticipant {
    RepoParticipant {
        row: 1,
        participant: login.to_string(),
        repo: repo.to_string(),
        participated_in,
        authored,
        reviewed,
        resolved,
    }
}

fn thresholds() -> HighContributorConfig {
    HighContributorConfig {
        high_reviewer_min_percentage: 40,
        high_reviewer_min_prs: 5,
        reviewer_saturation_threshold: 50,
        author_saturation_threshold: 50,
        high_participant_min_percentage: 40,
        high_participant_min_prs: 5,
        high_author_min_percentage: 50,
        high_author_min_prs: 3,
        high_contributor_categories_threshold: 1,
    }
}

fn config(repos: &[&str], high_contributor: HighContributorConfig) -> ReportConfig {
    ReportConfig {
        github: GithubConfig {
            org: "rust-lang".to_string(),
            repos: repos.iter().map(|r| r.to_string()).collect(),
        },
        high_contributor,
        data_source: DataSourceConfig {
            start_date: "2024-01-01".to_string(),
            end_date: "2024-02-01".to_string(),
        },
    }
}

fn data(repos: Vec<RepoInfo>, participants: Vec<RepoParticipant>) -> ReportData {
    ReportData {
        repo_participants: RepoParticipants::parse_participants(participants),
        repo_infos: RepoInfos::parse_repo_infos(repos),
    }
}

fn report() -> Report {
    Report::new(PathBuf::from("data"), false)
}

#[test]
fn alice_is_a_high_author_and_so_a_high_contributor() {
    let info = repo("rust", 10);
    let alice = participant("alice", "rust", 0, 6, 2, 0);
    let mut hc = thresholds();
    hc.high_author_min_percentage = 50;
    hc.high_author_min_prs = 3;
    hc.high_reviewer_min_percentage = 100;
    hc.high_reviewer_min_prs = 100;
    hc.high_participant_min_percentage = 100;
    hc.high_participant_min_prs = 100;
    hc.high_contributor_categories_threshold = 1;
    assert_eq!(optopodi::util::percentage(alice.authored, info.num_prs), 60);
    assert!(info.is_high_contributor(&config(&["rust"], hc), &alice));
    hc.high_contributor_categories_threshold = 2;
    assert!(!info.is_high_contributor(&config(&["rust"], hc), &alice));
}

#[test]
fn reviewing_takes_either_condition_and_the_others_take_both() {
    let info = repo("rust", 100);
    let mut hc = thresholds();
    hc.high_reviewer_min_percentage = 10;
    hc.high_reviewer_min_prs = 50;
    hc.high_participant_min_percentage = 10;
    hc.high_participant_min_prs = 50;
    hc.high_author_min_percentage = 10;
    hc.high_author_min_prs = 50;
    hc.high_contributor_categories_threshold = 1;
    let cfg = config(&["rust"], hc);
    // 20 percent is above the share, 20 is not above the number
    assert!(info.is_high_contributor(&cfg, &participant("r", "rust", 0, 0, 20, 0)));
    assert!(info.is_high_contributor(&cfg, &participant("m", "rust", 0, 0, 0, 20)));
    assert!(!info.is_high_contributor(&cfg, &participant("p", "rust", 20, 0, 0, 0)));
    assert!(!info.is_high_contributor(&cfg, &participant("a", "rust", 0, 20, 0, 0)));
    // the thresholds themselves are not above the thresholds
    assert!(!info.is_high_contributor(&cfg, &participant("r", "rust", 0, 0, 10, 0)));
    assert!(info.is_high_contributor(&cfg, &participant("r", "rust", 0, 0, 11, 0)));
    assert!(!info.is_high_contributor(&cfg, &participant("p", "rust", 50, 0, 0, 0)));
    assert!(info.is_high_contributor(&cfg, &participant("p", "rust", 51, 0, 0, 0)));
    assert!(info.is_high_contributor(&cfg, &participant("a", "rust", 0, 51, 0, 0)));
}

#[test]
fn zero_categories_make_everyone_a_high_contributor() {
    let info = repo("rust", 0);
    let mut hc = thresholds();
    hc.high_contributor_categories_threshold = 0;
    assert!(info.is_high_contributor(&config(&["rust"], hc), &participant("x", "rust", 0, 0, 0, 0)));
    hc.high_contributor_categories_threshold = 4;
    assert!(!info.is_high_contributor(
        &config(&["rust"], hc),
        &participant("x", "rust", u64::MAX, u64::MAX, u64::MAX, u64::MAX)
    ));
}

#[test]
fn saturation_stops_once_the_target_is_exceeded() {
    let info = repo("rust", 10);
    let data = data(
        vec![repo("rust", 10)],
        vec![
            participant("bob", "rust", 3, 0, 0, 0),
            participant("alice", "rust", 5, 0, 0, 0),
            participant("carol", "rust", 2, 0, 0, 0),
            participant("eve", "cargo", 9, 0, 0, 0),
        ],
    );
    let (names, count) = report().saturation(&data, 50, &info, |p: &RepoParticipant| p.participated_in);
    assert_eq!(names, "alice (50%), bob (30%)");
    assert_eq!(count, 2);
}

#[test]
fn saturation_takes_everyone_where_the_target_is_out_of_reach() {
    let info = repo("rust", 10);
    let data = data(
        vec![repo("rust", 10)],
        vec![
            participant("alice", "rust", 0, 2, 0, 0),
            participant("bob", "rust", 0, 1, 0, 0),
        ],
    );
    let (names, count) = report().saturation(&data, 90, &info, |p: &RepoParticipant| p.authored);
    assert_eq!(names, "alice (20%), bob (10%)");
    assert_eq!(count, 2);
    let (names, count) = report().saturation(&data, 10, &info, |p: &RepoParticipant| p.authored);
    assert_eq!(names, "alice (20%)");
    assert_eq!(count, 1);
}

#[test]
fn saturation_of_an_empty_repository_is_empty() {
    let info = repo("rust", 10);
    let data = data(vec![repo("rust", 10)], vec![participant("eve", "cargo", 9, 0, 0, 0)]);
    let (names, count) = report().saturation(&data, 50, &info, |p: &RepoParticipant| p.participated_in);
    assert_eq!(names, "");
    assert_eq!(count, 0);
}

#[test]
fn saturation_ranks_equal_values_by_login_downwards() {
    let info = repo("rust", 0);
    let data = data(
        vec![repo("rust", 0)],
        vec![
            participant("alice", "rust", 0, 0, 0, 0),
            participant("carol", "rust", 0, 0, 0, 0),
            participant("bob", "rust", 0, 0, 0, 0),
        ],
    );
    // nothing exceeds a target of zero, so all are taken
    let (names, count) = report().saturation(&data, 50, &info, |p: &RepoParticipant| p.reviewed_or_resolved());
    assert_eq!(names, "carol (0%), bob (0%), alice (0%)");
    assert_eq!(count, 3);
}

#[test]
fn top_participant_is_the_last_of_the_greatest() {
    let info = repo("rust", 10);
    let participants = RepoParticipants {
        participants: vec![
            participant("alice", "rust", 5, 1, 2, 7),
            participant("eve", "cargo", 50, 50, 50, 50),
            participant("bob", "rust", 5, 3, 4, 1),
            participant("carol", "rust", 2, 3, 1, 0),
        ],
    };
    assert_eq!(
        participants.top_participant(&info, |p: &RepoParticipant| p.participated_in),
        ("bob".to_string(), 50)
    );
    assert_eq!(
        participants.top_participant(&info, |p: &RepoParticipant| p.authored),
        ("carol".to_string(), 30)
    );
    assert_eq!(
        participants.top_participant(&info, |p: &RepoParticipant| p.reviewed_or_resolved()),
        ("alice".to_string(), 70)
    );
}

#[test]
fn top_participant_of_nobody_is_not_available() {
    let info = repo("rust", 10);
    let participants = RepoParticipants { participants: vec![participant("eve", "cargo", 1, 1, 1, 1)] };
    assert_eq!(
        participants.top_participant(&info, |p: &RepoParticipant| p.authored),
        ("N/A".to_string(), 0)
    );
    let nobody = RepoParticipants { participants: vec![] };
    assert_eq!(nobody.top_participant(&info, |p: &RepoParticipant| p.authored), ("N/A".to_string(), 0));
}

#[test]
fn top_participant_of_a_repository_without_pull_requests_has_zero_percent() {
    let info = repo("rust", 0);
    let participants = RepoParticipants { participants: vec![participant("alice", "rust", 1, 2, 3, 4)] };
    assert_eq!(
        participants.top_participant(&info, |p: &RepoParticipant| p.reviewed_or_resolved()),
        ("alice".to_string(), 0)
    );
}

#[test]
fn in_repo_keeps_the_order_of_the_table() {
    let info = repo("rust", 10);
    let participants = RepoParticipants {
        participants: vec![
            participant("alice", "rust", 1, 0, 0, 0),
            participant("eve", "cargo", 1, 0, 0, 0),
            participant("bob", "rust", 1, 0, 0, 0),
        ],
    };
    let logins: Vec<&str> = participants
        .in_repo(&info)
        .iter()
        .map(|p| p.participant.as_str())
        .collect();
    assert_eq!(logins, vec!["alice", "bob"]);
}

#[test]
fn reviewed_or_resolved_is_the_larger() {
    assert_eq!(participant("a", "r", 0, 0, 3, 5).reviewed_or_resolved(), 5);
    assert_eq!(participant("a", "r", 0, 0, 5, 3).reviewed_or_resolved(), 5);
    assert_eq!(participant("a", "r", 0, 0, 4, 4).reviewed_or_resolved(), 4);
}

#[test]
fn robots_are_known() {
    for robot in ["rust-highfive", "bors", "rustbot", "rust-log-analyzer", "rust-timer", "rfcbot"] {
        assert!(is_robot(robot));
    }
    for human in ["alice", "Bors", "bors ", "", "rust"] {
        assert!(!is_robot(human));
    }
}

#[test]
fn robots_are_left_out_of_the_participants() {
    let parsed = RepoParticipants::parse_participants(vec![
        participant("bors", "rust", 100, 0, 0, 100),
        participant("alice", "rust", 1, 0, 0, 0),
        participant("rust-highfive", "rust", 50, 0, 0, 0),
        participant("bob", "rust", 2, 0, 0, 0),
        participant("rfcbot", "cargo", 2, 0, 0, 0),
    ]);
    let logins: Vec<&str> = parsed.participants.iter().map(|p| p.participant.as_str()).collect();
    assert_eq!(logins, vec!["alice", "bob"]);
}

#[test]
fn a_later_record_of_a_repository_stands() {
    let mut second = repo("rust", 20);
    second.row = 3;
    let infos = RepoInfos::parse_repo_infos(vec![repo("rust", 10), repo("cargo", 5), second]);
    assert_eq!(infos.repos.len(), 2);
    assert_eq!(infos.get("rust").num_prs, 20);
    assert_eq!(infos.get("rust").row, 3);
    assert_eq!(infos.get("cargo").num_prs, 5);
    assert_eq!(infos.find("cargo"), Some(1));
    assert_eq!(infos.find("clippy"), None);
}

#[test]
fn the_row_of_a_repository_puts_it_all_together() {
    let mut hc = thresholds();
    hc.high_author_min_percentage = 50;
    hc.high_author_min_prs = 3;
    hc.high_reviewer_min_percentage = 25;
    hc.high_reviewer_min_prs = 100;
    hc.high_participant_min_percentage = 100;
    hc.high_participant_min_prs = 100;
    hc.reviewer_saturation_threshold = 40;
    hc.author_saturation_threshold = 50;
    let cfg = config(&["rust", "cargo"], hc);
    let data = data(
        vec![repo("rust", 10), repo("cargo", 0)],
        vec![
            participant("alice", "rust", 0, 6, 2, 0),
            participant("bors", "rust", 10, 0, 0, 10),
            participant("bob", "rust", 5, 4, 3, 1),
            participant("carol", "rust", 3, 0, 0, 4),
        ],
    );
    let rows = report().high_contributor_rows(&cfg, &data);
    assert_eq!(rows.len(), 2);
    let row = &rows[0];
    assert_eq!(row.repo, "rust");
    assert_eq!(row.number_of_prs, 10);
    assert_eq!(row.total_participants, 2);
    assert_eq!(row.total_authors, 2);
    assert_eq!(row.total_reviewers, 3);
    assert_eq!((row.top_author.as_str(), row.top_author_percentage), ("alice", 60));
    assert_eq!((row.top_reviewer.as_str(), row.top_reviewer_percentage), ("carol", 40));
    assert_eq!((row.top_participant.as_str(), row.top_participant_percentage), ("bob", 50));
    assert_eq!(row.saturation_authors, 1);
    assert_eq!(row.saturation_author_names, "alice (60%)");
    assert_eq!(row.saturation_reviewers, 2);
    assert_eq!(row.saturation_reviewer_names, "carol (40%), bob (30%)");
    assert_eq!(row.high_contributors, 3);
    assert_eq!(row.high_contributor_names, "alice,bob,carol");

    let empty = &rows[1];
    assert_eq!(empty.repo, "cargo");
    assert_eq!(empty.number_of_prs, 0);
    assert_eq!(empty.total_participants, 0);
    assert_eq!((empty.top_author.as_str(), empty.top_author_percentage), ("N/A", 0));
    assert_eq!(empty.saturation_authors, 0);
    assert_eq!(empty.saturation_author_names, "");
    assert_eq!(empty.high_contributors, 0);
    assert_eq!(empty.high_contributor_names, "");

    let single = report().high_contributor_row(&cfg, &data, "rust");
    assert_eq!(single.high_contributor_names, row.high_contributor_names);
}

#[test]
fn issue_closures_are_listed_with_their_delta() {
    let mut shrinking = repo("cargo", 1);
    shrinking.num_opened = 12;
    shrinking.num_closed = 5;
    let mut even = repo("clippy", 1);
    even.num_opened = 3;
    even.num_closed = 3;
    let data = data(vec![repo("rust", 10), shrinking, even], vec![]);
    assert_eq!(
        write_issue_closures(&data),
        "Organization,Repo,Opened,Closed,Delta,Time Period\n\
rust-lang,rust,7,9,-2,2024-01-01<>2024-02-01\n\
rust-lang,cargo,12,5,7,2024-01-01<>2024-02-01\n\
rust-lang,clippy,3,3,0,2024-01-01<>2024-02-01\n"
    );
    let nothing = ReportData {
        repo_participants: RepoParticipants { participants: vec![] },
        repo_infos: RepoInfos::new(),
    };
    assert_eq!(
        write_issue_closures(&nothing),
        "Organization,Repo,Opened,Closed,Delta,Time Period\n"
    );
}

#[test]
fn the_report_knows_its_directories() {
    let data_dir = PathBuf::from("data").join("2024");
    let report = Report::new(data_dir.clone(), true);
    assert_eq!(report.graphql_dir(), data_dir.join("graphql"));
    assert_eq!(report.input_dir(), data_dir.join("inputs"));
    assert_eq!(report.output_dir(), data_dir.join("output"));
    assert_eq!(report.config_path(), data_dir.join("report.toml"));
    assert_eq!(report.repo_infos_path(), data_dir.join("inputs").join("repo-infos.csv"));
    assert_eq!(
        report.repo_participants_path(),
        data_dir.join("inputs").join("repo-participants.csv")
    );
    assert_eq!(
        report.high_contributors_path(),
        data_dir.join("output").join("high-contributors.csv")
    );
    assert_eq!(
        report.issue_closures_path(),
        data_dir.join("output").join("issue-closures.csv")
    );
    let graphql = report.graphql("repo-infos");
    assert_eq!(graphql.graphql_dir, data_dir.join("graphql").join("repo-infos"));
    assert_eq!(graphql.counter, 0);
    assert!(graphql.replay);
    let copy = graphql.clone();
    assert_eq!(copy.graphql_dir, graphql.graphql_dir);
}

#[test]
fn an_empty_list_of_repositories_stands_for_all() {
    assert!(config(&[], thresholds()).covers_all_repos());
    assert!(!config(&["rust"], thresholds()).covers_all_repos());
}

#[test]
fn a_row_is_ready_for_a_known_repository_with_counts_that_fit() {
    let cfg = config(&["rust"], thresholds());
    let fine = data(vec![repo("rust", 10)], vec![participant("alice", "rust", 1, 2, 3, 4)]);
    assert!(report().row_is_ready(&cfg, &fine, "rust"));
    assert!(!report().row_is_ready(&cfg, &fine, "cargo"));
    let huge = data(vec![repo("rust", 10)], vec![participant("alice", "rust", u64::MAX, 0, 0, 0)]);
    assert!(!report().row_is_ready(&cfg, &huge, "rust"));
    let elsewhere = data(vec![repo("rust", 10)], vec![participant("alice", "cargo", u64::MAX, 0, 0, 0)]);
    assert!(report().row_is_ready(&cfg, &elsewhere, "rust"));
    let idle = data(vec![repo("rust", 0)], vec![participant("alice", "rust", u64::MAX, 0, 0, 0)]);
    assert!(report().row_is_ready(&cfg, &idle, "rust"));
    let many = data(
        vec![repo("rust", u64::MAX)],
        vec![participant("alice", "rust", u64::MAX, 0, 0, 0)],
    );
    assert!(report().row_is_ready(&cfg, &many, "rust"));
    assert!(participant("a", "r", 1, 2, 3, 4).fits_percentages(1));
    assert!(participant("a", "r", 1, 2, 3, u64::MAX).fits_percentages(100));
    assert!(participant("a", "r", 1, 2, 3, u64::MAX).fits_percentages(0));
    assert!(!participant("a", "r", 1, 2, 3, u64::MAX).fits_percentages(99));
    assert!(!participant("a", "r", 1, 2, u64::MAX / 100 + 1, 0).fits_percentages(1));
}

#[test]
fn saturation_counts_beyond_the_machine_word() {
    let info = repo("rust", u64::MAX);
    let data = data(
        vec![repo("rust", u64::MAX)],
        vec![
            participant("alice", "rust", u64::MAX, 0, 0, 0),
            participant("bob", "rust", u64::MAX, 0, 0, 0),
            participant("carol", "rust", 1, 0, 0, 0),
        ],
    );
    // the target is twice the greatest count: it takes all three to exceed it
    let (names, count) = report().saturation(&data, 200, &info, |p: &RepoParticipant| p.participated_in);
    assert_eq!(names, "bob (100%), alice (100%), carol (0%)");
    assert_eq!(count, 3);
    let (names, count) = report().saturation(&data, 100, &info, |p: &RepoParticipant| p.participated_in);
    assert_eq!(names, "bob (100%), alice (100%)");
    assert_eq!(count, 2);
}

#[test]
fn participants_are_ranked_by_any_key() {
    let info = repo("rust", 10);
    let data = data(
        vec![repo("rust", 10)],
        vec![
            participant("alice", "rust", 0, 0, 1, 9),
            participant("bob", "rust", 0, 0, 4, 0),
            participant("carol", "rust", 0, 0, 2, 0),
        ],
    );
    // by reviews alone, whatever was merged
    let by_reviews = |p: &RepoParticipant| p.reviewed;
    assert_eq!(
        data.repo_participants.top_participant(&info, by_reviews),
        ("bob".to_string(), 40)
    );
    let (names, count) = report().saturation(&data, 50, &info, by_reviews);
    assert_eq!(names, "bob (40%), carol (20%)");
    assert_eq!(count, 2);
    // by the sum of all counters
    let by_all = |p: &RepoParticipant| p.participated_in + p.authored + p.reviewed + p.resolved;
    assert_eq!(
        data.repo_participants.top_participant(&info, by_all),
        ("alice".to_string(), 100)
    );
    // the metrics of the report are keys like any other
    for (metric, expected) in [
        (Metric::Authored, 3),
        (Metric::ReviewedOrResolved, 1),
        (Metric::ParticipatedIn, 3),
    ] {
        let by_metric = |p: &RepoParticipant| metric.of(p);
        let (_, count) = report().saturation(&data, 0, &info, by_metric);
        assert_eq!(count, expected);
    }
    let (names, _) = report().saturation(&data, 0, &info, |p: &RepoParticipant| {
        Metric::ReviewedOrResolved.of(p)
    });
    assert_eq!(names, "alice (90%)");
}
