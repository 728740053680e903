//! Dates and the search queries that are made of them.

use crate::metrics::paginator::{fetch_all, fetch_view, fetched, FetchError, PageResponse};
use crate::text::{digit_char, digit_of};
use vstd::prelude::*;
use vstd::string::*;

verus! {

/// A day of the calendar.
#[derive(Clone, Copy, Debug, PartialEq, Eq, Structural)]
pub struct Date {
    pub year: u16,
    pub month: u8,
    pub day: u8,
}

/// Two digits for a number below one hundred.
pub open spec fn two_digits(n: nat) -> Seq<char> {
    seq![digit_of(n / 10), digit_of(n % 10)]
}

/// Four digits for a number below ten thousand.
pub open spec fn four_digits(n: nat) -> Seq<char> {
    seq![digit_of(n / 1000), digit_of(n / 100 % 10), digit_of(n / 10 % 10), digit_of(n % 10)]
}

impl Date {
    /// Whether the numbers can be a date: a year of four digits, a month of
    /// the year and a day of a month.
    pub open spec fn is_date(self) -> bool {
        self.year <= 9999 && 1 <= self.month <= 12 && 1 <= self.day <= 31
    }

    /// The date as `YYYY-MM-DD`.
    pub open spec fn text(self) -> Seq<char> {
        four_digits(self.year as nat) + seq!['-'] + two_digits(self.month as nat) + seq!['-']
            + two_digits(self.day as nat)
    }

    /// The date from its numbers, where they can be a date.
    pub fn new(year: u16, month: u8, day: u8) -> (date: Option<Date>)
        ensures
            date == if (Date { year, month, day }).is_date() {
                Some(Date { year, month, day })
            } else {
                None
            },
    {
        if year <= 9999 && 1 <= month && month <= 12 && 1 <= day && day <= 31 {
            Some(Date { year, month, day })
        } else {
            None
        }
    }

    /// Whether the numbers can be a date.
    pub fn is_valid(&self) -> (valid: bool)
        ensures
            valid == self.is_date(),
    {
        self.year <= 9999 && 1 <= self.month && self.month <= 12 && 1 <= self.day && self.day <= 31
    }

    /// Appends the date as `YYYY-MM-DD`.
    pub fn push_to(&self, out: &mut String)
        requires
            self.is_date(),
        ensures
            final(out)@ == old(out)@ + self.text(),
    {
        let year = self.year as u64;
        let month = self.month as u64;
        let day = self.day as u64;
        out.push(digit_char(year / 1000));
        out.push(digit_char(year / 100 % 10));
        out.push(digit_char(year / 10 % 10));
        out.push(digit_char(year % 10));
        out.push('-');
        out.push(digit_char(month / 10));
        out.push(digit_char(month % 10));
        out.push('-');
        out.push(digit_char(day / 10));
        out.push(digit_char(day % 10));
        assert(out@ =~= old(out)@ + self.text());
    }

    /// Writes the date as `YYYY-MM-DD`.
    pub fn to_text(&self) -> (text: String)
        requires
            self.is_date(),
        ensures
            text@ == self.text(),
    {
        let mut text = String::new();
        self.push_to(&mut text);
        text
    }
}

/// Which end of an issue's life a search asks about.
#[derive(Clone, Copy, Debug, PartialEq, Eq, Structural)]
pub enum IssueState {
    /// The issue was opened.
    Created,
    /// The issue was closed.
    Closed,
}

impl IssueState {
    /// The word of the search language for the state.
    pub open spec fn word(self) -> Seq<char> {
        match self {
            IssueState::Created => "created"@,
            IssueState::Closed => "closed"@,
        }
    }

    pub fn as_str(self) -> (word: &'static str)
        ensures
            word@ == self.word(),
    {
        match self {
            IssueState::Created => "created",
            IssueState::Closed => "closed",
        }
    }
}

/// The search for the pull requests of a repository that were created from
/// `start` to `end`.
pub open spec fn pull_request_search(
    org_name: Seq<char>,
    repo_name: Seq<char>,
    start: Date,
    end: Date,
) -> Seq<char> {
    "repo:"@ + org_name + "/"@ + repo_name + " is:pr created:"@ + start.text() + ".."@ + end.text()
}

/// The search for the issues of a repository that came into `state` from
/// `start` to `end`.
pub open spec fn issue_search(
    org_name: Seq<char>,
    repo_name: Seq<char>,
    state: IssueState,
    start: Date,
    end: Date,
) -> Seq<char> {
    "repo:"@ + org_name + "/"@ + repo_name + " is:issue "@ + state.word() + ":"@ + start.text()
        + ".."@ + end.text()
}

/// Writes the search for the pull requests of a repository that were created
/// in the period.
pub fn pull_request_query(org_name: &str, repo_name: &str, start_date: &Date, end_date: &Date) -> (query:
    String)
    requires
        start_date.is_date(),
        end_date.is_date(),
    ensures
        query@ == pull_request_search(org_name@, repo_name@, *start_date, *end_date),
{
    let mut query = "repo:".to_owned();
    query.append(org_name);
    query.append("/");
    query.append(repo_name);
    query.append(" is:pr created:");
    start_date.push_to(&mut query);
    query.append("..");
    end_date.push_to(&mut query);
    query
}

/// Writes the search for the issues of a repository that were opened, or
/// closed, in the period.
pub fn issue_query(
    org_name: &str,
    repo_name: &str,
    start_date: &Date,
    end_date: &Date,
    state: IssueState,
) -> (query: String)
    requires
        start_date.is_date(),
        end_date.is_date(),
    ensures
        query@ == issue_search(org_name@, repo_name@, state, *start_date, *end_date),
{
    let mut query = "repo:".to_owned();
    query.append(org_name);
    query.append("/");
    query.append(repo_name);
    query.append(" is:issue ");
    query.append(state.as_str());
    query.append(":");
    start_date.push_to(&mut query);
    query.append("..");
    end_date.push_to(&mut query);
    query
}


/// Reads the names of all repositories of an organization from the pages of
/// the query that lists them.  An organization that is not there has no
/// repositories.
pub fn all_repos(responses: Vec<PageResponse<String>>) -> (repos: Result<Vec<String>, FetchError>)
    ensures
        fetch_view(repos) == fetched(responses@),
{
    fetch_all(responses)
}

} // verus!
