//! The report: the input tables read back as typed records, and what is
//! derived from them for each repository.

use crate::metrics::gql::Graphql;
use crate::report::repo_info::RepoInfos;
use crate::report::repo_participant::RepoParticipants;
use std::path::PathBuf;
use vstd::prelude::*;

pub mod high_contributor;
pub mod issue_closure;
pub mod repo_info;
pub mod repo_participant;

verus! {

/// One run of the report over a data directory.
pub struct Report {
    /// Directory where the data is stored.
    pub data_dir: PathBuf,
    /// Whether saved query responses are read back instead of asking again.
    pub replay_graphql: bool,
}

/// The configuration of a report.
#[derive(Debug)]
pub struct ReportConfig {
    pub github: GithubConfig,
    pub high_contributor: HighContributorConfig,
    pub data_source: DataSourceConfig,
}

/// Everything that was collected, held in memory.
#[derive(Debug)]
pub struct ReportData {
    pub repo_participants: RepoParticipants,
    pub repo_infos: RepoInfos,
}

/// Which organization and which of its repositories the report covers.
#[derive(Debug)]
pub struct GithubConfig {
    pub org: String,
    pub repos: Vec<String>,
}

/// The period that the report covers.
#[derive(Debug)]
pub struct DataSourceConfig {
    pub start_date: String,
    pub end_date: String,
}

/// The thresholds by which contributors are classified.
#[derive(Clone, Copy, Debug)]
pub struct HighContributorConfig {
    /// Share of the pull requests, in percent, above which reviewing counts
    /// as high.
    pub high_reviewer_min_percentage: u64,
    /// Number of pull requests above which reviewing counts as high.
    pub high_reviewer_min_prs: u64,
    /// Share of the pull requests, in percent, that those who review most
    /// must exceed together.
    pub reviewer_saturation_threshold: u64,
    /// Share of the pull requests, in percent, that the top authors must
    /// exceed together.
    pub author_saturation_threshold: u64,
    /// Share that high activity takes.
    pub high_participant_min_percentage: u64,
    /// Number of pull requests that high activity takes.
    pub high_participant_min_prs: u64,
    /// Share that a high author takes.
    pub high_author_min_percentage: u64,
    /// Number of pull requests that a high author takes.
    pub high_author_min_prs: u64,
    /// In how many of the three categories one must be high to be a high
    /// contributor.
    pub high_contributor_categories_threshold: u64,
}


/// `std::path::PathBuf`, a path as the machine writes it: it is carried
/// through as it is, and nothing is said of what it holds.
#[verifier::external_type_specification]
#[verifier::external_body]
pub struct ExPathBuf(PathBuf);

/// `Clone::clone` of `std::path::PathBuf`: the copy is the same path.
pub assume_specification[ <PathBuf as Clone>::clone ](path: &PathBuf) -> (copy: PathBuf)
    ensures
        copy == *path,
;

/// `std::path::Path::join`, which adjoins `name` to `dir`.  How the two are
/// put together follows the conventions of the machine, so nothing is said
/// of the result.
#[verifier::external_body]
fn child(dir: &PathBuf, name: &str) -> PathBuf {
    dir.join(name)
}

impl Report {
    /// A report over the data directory `data_dir`, which holds its
    /// configuration and takes what is collected and derived.
    pub fn new(data_dir: PathBuf, replay_graphql: bool) -> (report: Self)
        ensures
            report.data_dir == data_dir,
            report.replay_graphql == replay_graphql,
    {
        Report { data_dir, replay_graphql }
    }

    /// The bookkeeping for the queries of one kind, whose responses are kept
    /// in the directory `dir_name` below that of all queries.
    pub fn graphql(&self, dir_name: &str) -> (graphql: Graphql)
        ensures
            graphql.counter == 0,
            graphql.replay == self.replay_graphql,
    {
        let graphql_dir = child(&self.graphql_dir(), dir_name);
        Graphql::new(graphql_dir, self.replay_graphql)
    }

    /// Where the responses to the queries are kept: `graphql` in the data
    /// directory.
    pub fn graphql_dir(&self) -> PathBuf {
        child(&self.data_dir, "graphql")
    }

    /// Where the tables are kept that the report is derived from: `inputs`
    /// in the data directory.
    pub fn input_dir(&self) -> PathBuf {
        child(&self.data_dir, "inputs")
    }

    /// Where what is derived is written: `output` in the data directory.
    pub fn output_dir(&self) -> PathBuf {
        child(&self.data_dir, "output")
    }

    /// Where the configuration is read from: `report.toml` in the data
    /// directory.
    pub fn config_path(&self) -> PathBuf {
        child(&self.data_dir, "report.toml")
    }

    /// Where the table of the repositories is kept.
    pub fn repo_infos_path(&self) -> PathBuf {
        child(&self.input_dir(), "repo-infos.csv")
    }

    /// Where the table of the participants is kept.
    pub fn repo_participants_path(&self) -> PathBuf {
        child(&self.input_dir(), "repo-participants.csv")
    }

    /// Where the high contributors are written.
    pub fn high_contributors_path(&self) -> PathBuf {
        child(&self.output_dir(), "high-contributors.csv")
    }

    /// Where the issue closures are written.
    pub fn issue_closures_path(&self) -> PathBuf {
        child(&self.output_dir(), "issue-closures.csv")
    }
}

impl ReportConfig {
    /// Whether the repositories are still to be looked up: an empty list
    /// stands for all repositories of the organization.
    pub fn covers_all_repos(&self) -> (all: bool)
        ensures
            all == (self.github.repos.len() == 0),
    {
        self.github.repos.len() == 0
    }
}

} // verus!
