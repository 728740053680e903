//! How many issues were opened and closed in each repository.

use crate::metrics::gql::Graphql;
use crate::metrics::paginator::{fetch_all, fetch_view, fetched, Failure, FetchError, PageResponse};
use crate::metrics::util::{issue_query, issue_search, Date, IssueState};
use crate::metrics::{Producer, ProducerTask, Step, StepView};
use crate::text::{decimal, decimal_string, texts};
use vstd::prelude::*;

verus! {

/// Finds the number of issues opened and closed in a set of repositories over
/// a period.
pub struct IssueClosures {
    pub graphql: Graphql,
    pub org_name: String,
    pub repo_names: Vec<String>,
    pub start_date: Date,
    pub end_date: Date,
}

/// The search that finds the issues of a repository.
#[derive(Clone, Copy, Debug, Default)]
pub struct IssueSearch;

impl IssueSearch {
    /// Writes the search for the issues of a repository that came into
    /// `state` in the period.
    pub fn query_string(
        org_name: &str,
        repo_name: &str,
        start_date: &Date,
        end_date: &Date,
        state: IssueState,
    ) -> (query: String)
        requires
            start_date.is_date(),
            end_date.is_date(),
        ensures
            query@ == issue_search(org_name@, repo_name@, state, *start_date, *end_date),
    {
        issue_query(org_name, repo_name, start_date, end_date, state)
    }
}

/// The issues opened and closed in one repository.
#[derive(Clone, Copy, Debug, Default, PartialEq, Eq, Structural)]
pub struct IssueClosuresCount {
    pub opened: usize,
    pub closed: usize,
}

/// What counting the opened and then the closed issues leads to: the two
/// numbers, or the first error on the way.
pub open spec fn closures_counted<T>(
    opened: Seq<PageResponse<T>>,
    closed: Seq<PageResponse<T>>,
) -> Result<IssueClosuresCount, Failure> {
    match fetched(opened) {
        Err(failure) => Err(failure),
        Ok(opened_issues) => match fetched(closed) {
            Err(failure) => Err(failure),
            Ok(closed_issues) => Ok(
                IssueClosuresCount {
                    opened: opened_issues.len() as usize,
                    closed: closed_issues.len() as usize,
                },
            ),
        },
    }
}

/// The result of the count as a mathematical value.
pub open spec fn count_view(result: Result<IssueClosuresCount, FetchError>) -> Result<
    IssueClosuresCount,
    Failure,
> {
    match result {
        Ok(count) => Ok(count),
        Err(error) => Err(error@),
    }
}

/// Counts the issues opened and closed in a repository, from the pages of the
/// two searches.
pub fn count_issue_closures<T>(opened: Vec<PageResponse<T>>, closed: Vec<PageResponse<T>>) -> (result:
    Result<IssueClosuresCount, FetchError>)
    ensures
        count_view(result) == closures_counted(opened@, closed@),
{
    let opened_issues = match fetch_all(opened) {
        Ok(issues) => issues,
        Err(error) => {
            return Err(error);
        },
    };
    let closed_issues = match fetch_all(closed) {
        Ok(issues) => issues,
        Err(error) => {
            return Err(error);
        },
    };
    Ok(IssueClosuresCount { opened: opened_issues.len(), closed: closed_issues.len() })
}

impl IssueClosures {
    pub fn new(
        graphql: Graphql,
        org_name: String,
        repo_names: Vec<String>,
        start_date: Date,
        end_date: Date,
    ) -> (producer: Self)
        ensures
            producer.graphql == graphql,
            producer.org_name == org_name,
            producer.repo_names == repo_names,
            producer.start_date == start_date,
            producer.end_date == end_date,
    {
        Self { graphql, org_name, repo_names, start_date, end_date }
    }

    /// The row of the repository at place `repo` of the list.
    pub open spec fn row_of(&self, repo: int, count: IssueClosuresCount) -> Seq<Seq<char>> {
        seq![
            self.org_name@,
            self.repo_names@[repo]@,
            decimal(count.opened as nat),
            decimal(count.closed as nat),
            self.start_date.text(),
            self.end_date.text(),
        ]
    }

    /// Lays out the row of the repository at place `repo` of the list.
    pub fn row(&self, repo: usize, count: &IssueClosuresCount) -> (row: Vec<String>)
        requires
            repo < self.repo_names.len(),
            self.start_date.is_date(),
            self.end_date.is_date(),
        ensures
            texts(row@) == self.row_of(repo as int, *count),
            row.len() == self.columns().len(),
    {
        let mut row: Vec<String> = Vec::new();
        row.push(self.org_name.clone());
        row.push(self.repo_names[repo].clone());
        row.push(decimal_string(count.opened as u64));
        row.push(decimal_string(count.closed as u64));
        row.push(self.start_date.to_text());
        row.push(self.end_date.to_text());
        assert(texts(row@) =~= self.row_of(repo as int, *count));
        row
    }

    /// Starts the run over the repositories: at the first of them, with no
    /// row waiting.
    pub fn task(&self) -> (begun: (ProducerTask, Step))
        ensures
            begun.0.well_formed(),
            begun.0@.repos == self.repo_names.len(),
            begun.0@.repo == 0,
            begun.0@.pending.len() == 0,
            begun.0@.finished == (self.repo_names.len() == 0),
            !begun.0@.sending,
            begun.1@ == if self.repo_names.len() == 0 {
                StepView::Done
            } else {
                StepView::Fetch { repo: 0 }
            },
    {
        ProducerTask::start(self.repo_names.len())
    }
}

impl Producer for IssueClosures {
    open spec fn columns(&self) -> Seq<Seq<char>> {
        seq![
            "Organization"@,
            "Repository"@,
            "Issues Opened"@,
            "Issues Closed"@,
            "Start Date"@,
            "End Date"@,
        ]
    }

    fn column_names(&self) -> (names: Vec<String>) {
        let mut names: Vec<String> = Vec::new();
        names.push("Organization".to_owned());
        names.push("Repository".to_owned());
        names.push("Issues Opened".to_owned());
        names.push("Issues Closed".to_owned());
        names.push("Start Date".to_owned());
        names.push("End Date".to_owned());
        assert(texts(names@) =~= self.columns());
        names
    }
}

} // verus!
