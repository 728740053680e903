//! The repositories of an organization with their pull requests and issues.

use crate::metrics::gql::Graphql;
use crate::metrics::issue_closures::IssueClosuresCount;
use crate::metrics::util::{issue_query, issue_search, pull_request_query, pull_request_search};
use crate::metrics::util::{Date, IssueState};
use crate::metrics::{Producer, ProducerTask, Step, StepView};
use crate::text::{decimal, decimal_string, texts};
use vstd::prelude::*;

verus! {

/// Lists the repositories of an organization with what happened in them over
/// a period.
#[derive(Debug)]
pub struct ListReposForOrg {
    pub graphql: Graphql,
    pub org_name: String,
    pub repo_names: Vec<String>,
    pub start_date: Date,
    pub end_date: Date,
}

impl ListReposForOrg {
    pub fn new(
        graphql: Graphql,
        org_name: String,
        repo_names: Vec<String>,
        start_date: Date,
        end_date: Date,
    ) -> (producer: Self)
        ensures
            producer.graphql == graphql,
            producer.org_name == org_name,
            producer.repo_names == repo_names,
            producer.start_date == start_date,
            producer.end_date == end_date,
    {
        ListReposForOrg { graphql, org_name, repo_names, start_date, end_date }
    }

    /// The row of the repository at place `repo` of the list.
    pub open spec fn row_of(&self, repo: int, count_prs: nat, count_issues: IssueClosuresCount) -> Seq<
        Seq<char>,
    > {
        seq![
            self.org_name@,
            self.repo_names@[repo]@,
            decimal(count_prs),
            decimal(count_issues.opened as nat),
            decimal(count_issues.closed as nat),
            self.start_date.text(),
            self.end_date.text(),
        ]
    }

    /// Lays out the row of the repository at place `repo` of the list.
    pub fn row(&self, repo: usize, count_prs: usize, count_issues: &IssueClosuresCount) -> (row: Vec<
        String,
    >)
        requires
            repo < self.repo_names.len(),
            self.start_date.is_date(),
            self.end_date.is_date(),
        ensures
            texts(row@) == self.row_of(repo as int, count_prs as nat, *count_issues),
            row.len() == self.columns().len(),
    {
        let mut row: Vec<String> = Vec::new();
        row.push(self.org_name.clone());
        row.push(self.repo_names[repo].clone());
        row.push(decimal_string(count_prs as u64));
        row.push(decimal_string(count_issues.opened as u64));
        row.push(decimal_string(count_issues.closed as u64));
        row.push(self.start_date.to_text());
        row.push(self.end_date.to_text());
        assert(texts(row@) =~= self.row_of(repo as int, count_prs as nat, *count_issues));
        row
    }

    /// Writes the search that counts the pull requests of the repository at
    /// place `repo` of the list.
    pub fn count_pulls_query(&self, repo: usize) -> (query: String)
        requires
            repo < self.repo_names.len(),
            self.start_date.is_date(),
            self.end_date.is_date(),
        ensures
            query@ == pull_request_search(
                self.org_name@,
                self.repo_names@[repo as int]@,
                self.start_date,
                self.end_date,
            ),
    {
        pull_request_query(
            self.org_name.as_str(),
            self.repo_names[repo].as_str(),
            &self.start_date,
            &self.end_date,
        )
    }

    /// Writes the search that counts the issues of the repository at place
    /// `repo` of the list that came into `state`.
    pub fn count_issues_query(&self, repo: usize, state: IssueState) -> (query: String)
        requires
            repo < self.repo_names.len(),
            self.start_date.is_date(),
            self.end_date.is_date(),
        ensures
            query@ == issue_search(
                self.org_name@,
                self.repo_names@[repo as int]@,
                state,
                self.start_date,
                self.end_date,
            ),
    {
        issue_query(
            self.org_name.as_str(),
            self.repo_names[repo].as_str(),
            &self.start_date,
            &self.end_date,
            state,
        )
    }

    /// Starts the run over the repositories: at the first of them, with no
    /// row waiting.
    pub fn task(&self) -> (begun: (ProducerTask, Step))
        ensures
            begun.0.well_formed(),
            begun.0@.repos == self.repo_names.len(),
            begun.0@.repo == 0,
            begun.0@.pending.len() == 0,
            begun.0@.finished == (self.repo_names.len() == 0),
            !begun.0@.sending,
            begun.1@ == if self.repo_names.len() == 0 {
                StepView::Done
            } else {
                StepView::Fetch { repo: 0 }
            },
    {
        ProducerTask::start(self.repo_names.len())
    }
}

impl Producer for ListReposForOrg {
    open spec fn columns(&self) -> Seq<Seq<char>> {
        seq![
            "Organization"@,
            "Repository"@,
            "PRs Opened"@,
            "Issues Opened"@,
            "Issues Closed"@,
            "Start Date"@,
            "End Date"@,
        ]
    }

    fn column_names(&self) -> (names: Vec<String>) {
        let mut names: Vec<String> = Vec::new();
        names.push("Organization".to_owned());
        names.push("Repository".to_owned());
        names.push("PRs Opened".to_owned());
        names.push("Issues Opened".to_owned());
        names.push("Issues Closed".to_owned());
        names.push("Start Date".to_owned());
        names.push("End Date".to_owned());
        assert(texts(names@) =~= self.columns());
        names
    }
}

} // verus!
