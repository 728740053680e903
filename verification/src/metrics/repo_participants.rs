//! Who took part in the pull requests of a repository, and how often.

use crate::text::{lemma_text_lt_asymmetric, lemma_text_lt_connected, lemma_text_lt_irreflexive};
use crate::text::lemma_text_lt_transitive;
use crate::metrics::gql::Graphql;
use crate::metrics::util::{pull_request_query, pull_request_search, Date};
use crate::metrics::{rows_view, Producer, ProducerTask, Step, StepView};
use crate::report::repo_participant::{is_robot, is_robot_login};
use crate::text::{decimal, decimal_string, str_eq, str_lt, text_lt, texts};
use vstd::prelude::*;

verus! {

/// Finds who took part in the pull requests of a set of repositories over a
/// period.
pub struct RepoParticipants {
    pub graphql: Graphql,
    pub org_name: String,
    pub repo_names: Vec<String>,
    pub start_date: Date,
    pub end_date: Date,
}

/// The search that finds the pull requests of a repository with those who
/// took part in them.
#[derive(Clone, Copy, Debug, Default)]
pub struct PrsAndParticipants;

impl PrsAndParticipants {
    /// Writes the search for the pull requests of a repository that were
    /// created in the period.
    pub fn query_string(org_name: &str, repo_name: &str, start_date: &Date, end_date: &Date) -> (query:
        String)
        requires
            start_date.is_date(),
            end_date.is_date(),
        ensures
            query@ == pull_request_search(org_name@, repo_name@, *start_date, *end_date),
    {
        pull_request_query(org_name, repo_name, start_date, end_date)
    }
}

/// The row of one login of the repository `repo_name`.
pub open spec fn participant_row(repo_name: Seq<char>, line: Entry) -> Seq<Seq<char>> {
    seq![
        line.0,
        repo_name,
        decimal(line.1.participated_in),
        decimal(line.1.authored),
        decimal(line.1.reviewed),
        decimal(line.1.resolved),
    ]
}

/// The rows of the repository `repo_name`: one for each line of its table,
/// in the order of the table.
pub open spec fn participant_rows(repo_name: Seq<char>, table: Seq<Entry>) -> Seq<Seq<Seq<char>>> {
    Seq::new(table.len(), |i: int| participant_row(repo_name, table[i]))
}

impl RepoParticipants {
    pub fn new(
        graphql: Graphql,
        org_name: String,
        repo_names: Vec<String>,
        start_date: Date,
        end_date: Date,
    ) -> (producer: Self)
        ensures
            producer.graphql == graphql,
            producer.org_name == org_name,
            producer.repo_names == repo_names,
            producer.start_date == start_date,
            producer.end_date == end_date,
    {
        Self { graphql, org_name, repo_names, start_date, end_date }
    }

    /// Lays out the rows of the repository at place `repo` of the list from
    /// its participant table.
    pub fn rows(&self, repo: usize, data: &Vec<(String, ParticipantCounts)>) -> (rows: Vec<
        Vec<String>,
    >)
        requires
            repo < self.repo_names.len(),
        ensures
            rows_view(rows@) == participant_rows(self.repo_names@[repo as int]@, entries(data@)),
            forall|i: int| 0 <= i < rows.len() ==> (#[trigger] rows[i]).len() == self.columns().len(),
    {
        let ghost repo_name = self.repo_names@[repo as int]@;
        let mut rows: Vec<Vec<String>> = Vec::new();
        let mut i: usize = 0;
        while i < data.len()
            invariant
                i <= data.len(),
                repo < self.repo_names.len(),
                repo_name == self.repo_names@[repo as int]@,
                rows.len() == i,
                forall|j: int|
                    0 <= j < i ==> texts((#[trigger] rows[j])@) == participant_row(
                        repo_name,
                        entries(data@)[j],
                    ),
            decreases data.len() - i,
        {
            let counts = &data[i].1;
            let mut row: Vec<String> = Vec::new();
            row.push(data[i].0.clone());
            row.push(self.repo_names[repo].clone());
            row.push(decimal_string(counts.participated_in));
            row.push(decimal_string(counts.authored));
            row.push(decimal_string(counts.reviewed));
            row.push(decimal_string(counts.resolved));
            assert(texts(row@) =~= participant_row(repo_name, entries(data@)[i as int]));
            rows.push(row);
            i += 1;
        }
        assert(rows_view(rows@) =~= participant_rows(repo_name, entries(data@)));
        rows
    }

    /// Starts the run over the repositories: at the first of them, with no
    /// row waiting.
    pub fn task(&self) -> (begun: (ProducerTask, Step))
        ensures
            begun.0.well_formed(),
            begun.0@.repos == self.repo_names.len(),
            begun.0@.repo == 0,
            begun.0@.pending.len() == 0,
            begun.0@.finished == (self.repo_names.len() == 0),
            !begun.0@.sending,
            begun.1@ == if self.repo_names.len() == 0 {
                StepView::Done
            } else {
                StepView::Fetch { repo: 0 }
            },
    {
        ProducerTask::start(self.repo_names.len())
    }
}

impl Producer for RepoParticipants {
    open spec fn columns(&self) -> Seq<Seq<char>> {
        seq![
            "Participant"@,
            "Repository"@,
            "PRs participated in"@,
            "PRs authored"@,
            "PRs reviewed"@,
            "PRs resolved"@,
        ]
    }

    fn column_names(&self) -> (names: Vec<String>) {
        let mut names: Vec<String> = Vec::new();
        names.push("Participant".to_owned());
        names.push("Repository".to_owned());
        names.push("PRs participated in".to_owned());
        names.push("PRs authored".to_owned());
        names.push("PRs reviewed".to_owned());
        names.push("PRs resolved".to_owned());
        assert(texts(names@) =~= self.columns());
        names
    }
}

/// What the aggregation reads of one pull request.
pub struct PullRequest {
    /// Login of the author, where the author is a user.
    pub author: Option<String>,
    /// Logins of the participants that were retrieved.
    pub participants: Vec<String>,
    /// How many participants the source says there are.
    pub participants_total: i64,
    /// One entry for each review that was retrieved: the login of its author,
    /// where the review has an author and that author is a user.
    pub reviews: Vec<Option<String>>,
    /// How many reviews the source says there are.
    pub reviews_total: i64,
    /// Login of the user who merged the pull request.
    pub merged_by: Option<String>,
}

/// A pull request as a mathematical value.
pub struct PullRequestView {
    pub author: Option<Seq<char>>,
    pub participants: Seq<Seq<char>>,
    pub participants_total: int,
    pub reviews: Seq<Option<Seq<char>>>,
    pub reviews_total: int,
    pub merged_by: Option<Seq<char>>,
}

/// The text of an optional string.
pub open spec fn optional_text(text: Option<String>) -> Option<Seq<char>> {
    match text {
        Some(t) => Some(t@),
        None => None,
    }
}

impl View for PullRequest {
    type V = PullRequestView;

    open spec fn view(&self) -> PullRequestView {
        PullRequestView {
            author: optional_text(self.author),
            participants: texts(self.participants@),
            participants_total: self.participants_total as int,
            reviews: Seq::new(self.reviews@.len(), |i: int| optional_text(self.reviews@[i])),
            reviews_total: self.reviews_total as int,
            merged_by: optional_text(self.merged_by),
        }
    }
}

/// The pull requests of a vector as mathematical values.
pub open spec fn pull_requests(prs: Seq<PullRequest>) -> Seq<PullRequestView> {
    Seq::new(prs.len(), |i: int| prs[i]@)
}

/// The four counters kept for one login in one repository.
#[derive(Clone, Copy, Debug, Default)]
pub struct ParticipantCounts {
    pub participated_in: u64,
    pub authored: u64,
    pub reviewed: u64,
    pub resolved: u64,
}

/// The four counters as natural numbers.
pub struct Tally {
    pub participated_in: nat,
    pub authored: nat,
    pub reviewed: nat,
    pub resolved: nat,
}

impl Tally {
    pub open spec fn zero() -> Tally {
        Tally { participated_in: 0, authored: 0, reviewed: 0, resolved: 0 }
    }

    pub open spec fn plus(self, other: Tally) -> Tally {
        Tally {
            participated_in: self.participated_in + other.participated_in,
            authored: self.authored + other.authored,
            reviewed: self.reviewed + other.reviewed,
            resolved: self.resolved + other.resolved,
        }
    }

    /// The largest of the four counters.
    pub open spec fn peak(self) -> nat {
        let a = if self.participated_in >= self.authored {
            self.participated_in
        } else {
            self.authored
        };
        let b = if self.reviewed >= self.resolved {
            self.reviewed
        } else {
            self.resolved
        };
        if a >= b {
            a
        } else {
            b
        }
    }
}

impl View for ParticipantCounts {
    type V = Tally;

    open spec fn view(&self) -> Tally {
        Tally {
            participated_in: self.participated_in as nat,
            authored: self.authored as nat,
            reviewed: self.reviewed as nat,
            resolved: self.resolved as nat,
        }
    }
}

/// Why a set of pull requests could not be counted.
#[derive(Clone, Copy, Debug, PartialEq, Eq, Structural)]
pub enum AggregateError {
    /// A pull request came with fewer (or more) participants or reviews than
    /// the source says it has: the lists are partial, and counting them would
    /// under-count.
    PaginationUnsupported,
}

/// How often `login` occurs in `list`.
pub open spec fn occurrences(list: Seq<Seq<char>>, login: Seq<char>) -> nat
    decreases list.len(),
{
    if list.len() == 0 {
        0
    } else {
        occurrences(list.drop_last(), login) + if list.last() == login {
            1nat
        } else {
            0nat
        }
    }
}

/// Whether `login` wrote the pull request.
pub open spec fn is_author(pr: PullRequestView, login: Seq<char>) -> bool {
    pr.author == Some(login)
}

/// What one pull request adds to the counters of `login`.
///
/// An author neither participates in nor reviews their own pull request.
/// Every other entry of the participant list counts; several reviews of one
/// pull request by one login count once.
pub open spec fn contribution(pr: PullRequestView, login: Seq<char>) -> Tally {
    Tally {
        participated_in: if is_author(pr, login) {
            0
        } else {
            occurrences(pr.participants, login)
        },
        authored: if is_author(pr, login) {
            1
        } else {
            0
        },
        reviewed: if !is_author(pr, login) && pr.reviews.contains(Some(login)) {
            1
        } else {
            0
        },
        resolved: if pr.merged_by == Some(login) {
            1
        } else {
            0
        },
    }
}

/// The counters of `login` over all of `prs`.
pub open spec fn tally(prs: Seq<PullRequestView>, login: Seq<char>) -> Tally
    decreases prs.len(),
{
    if prs.len() == 0 {
        Tally::zero()
    } else {
        tally(prs.drop_last(), login).plus(contribution(prs.last(), login))
    }
}

/// Whether the lists of the pull request are as long as the source says.
pub open spec fn is_complete(pr: PullRequestView) -> bool {
    pr.participants.len() == pr.participants_total && pr.reviews.len() == pr.reviews_total
}

/// An upper bound on any counter: the number of list entries, authors and
/// mergers that the pull requests can hold.
pub open spec fn mentions(prs: Seq<PullRequestView>) -> nat
    decreases prs.len(),
{
    if prs.len() == 0 {
        0
    } else {
        mentions(prs.drop_last()) + prs.last().participants.len() + prs.last().reviews.len() + 2
    }
}

/// One line of the result: a login with its counters.
pub type Entry = (Seq<char>, Tally);

/// The order of the result: more participation first, and among equals the
/// login that sorts first.
pub open spec fn ranks_before(a: Entry, b: Entry) -> bool {
    a.1.participated_in > b.1.participated_in || (a.1.participated_in == b.1.participated_in
        && text_lt(a.0, b.0))
}

/// The lines of a result vector as mathematical values.
pub open spec fn entries(table: Seq<(String, ParticipantCounts)>) -> Seq<Entry> {
    Seq::new(table.len(), |i: int| (table[i].0@, table[i].1@))
}

/// Whether `login` has a line in the participant table of `prs`: it has a
/// counter above zero and is none of the known automation accounts.
pub open spec fn is_listed(prs: Seq<PullRequestView>, login: Seq<char>) -> bool {
    tally(prs, login) != Tally::zero() && !is_robot_login(login)
}

/// Whether `table` is the participant table of `prs`: one line for each login
/// that is listed and for no other, holding that login's counters, the lines
/// in ranking order.
pub open spec fn is_participant_table(table: Seq<Entry>, prs: Seq<PullRequestView>) -> bool {
    &&& forall|i: int|
        0 <= i < table.len() ==> (#[trigger] table[i]).1 == tally(prs, table[i].0) && is_listed(
            prs,
            table[i].0,
        )
    &&& forall|login: Seq<char>|
        #[trigger] is_listed(prs, login) ==> exists|i: int|
            0 <= i < table.len() && (#[trigger] table[i]).0 == login
    &&& forall|i: int, j: int|
        0 <= i < j < table.len() ==> ranks_before(#[trigger] table[i], #[trigger] table[j])
}


/// One of the four counters.
#[derive(Clone, Copy)]
enum Counter {
    ParticipatedIn,
    Authored,
    Reviewed,
    Resolved,
}

/// One count on the counter `which`.
spec fn one(which: Counter) -> Tally {
    match which {
        Counter::ParticipatedIn => Tally { participated_in: 1, ..Tally::zero() },
        Counter::Authored => Tally { authored: 1, ..Tally::zero() },
        Counter::Reviewed => Tally { reviewed: 1, ..Tally::zero() },
        Counter::Resolved => Tally { resolved: 1, ..Tally::zero() },
    }
}

/// Where `login` stands in `logins`, or -1 where it does not occur.
spec fn position(logins: Seq<Seq<char>>, login: Seq<char>) -> int
    decreases logins.len(),
{
    if logins.len() == 0 {
        -1
    } else if logins.last() == login {
        logins.len() - 1
    } else {
        position(logins.drop_last(), login)
    }
}

spec fn distinct(logins: Seq<Seq<char>>) -> bool {
    forall|i: int, j: int| 0 <= i < j < logins.len() ==> logins[i] != logins[j]
}

/// The counters that the working state holds for `login`.
spec fn held(logins: Seq<String>, counts: Seq<ParticipantCounts>, login: Seq<char>) -> Tally {
    let at = position(texts(logins), login);
    if 0 <= at < counts.len() {
        counts[at]@
    } else {
        Tally::zero()
    }
}

/// The working state: one counter set for each login seen so far, no login
/// twice, no counter set empty, no counter above `bound`.
spec fn well_kept(logins: Seq<String>, counts: Seq<ParticipantCounts>, bound: int) -> bool {
    &&& 0 <= bound
    &&& logins.len() == counts.len()
    &&& distinct(texts(logins))
    &&& forall|i: int|
        0 <= i < counts.len() ==> (#[trigger] counts[i])@ != Tally::zero() && counts[i]@.peak()
            <= bound
}

proof fn lemma_position(logins: Seq<Seq<char>>, login: Seq<char>)
    ensures
        -1 <= position(logins, login) < logins.len(),
        position(logins, login) >= 0 ==> logins[position(logins, login)] == login,
        position(logins, login) == -1 ==> forall|i: int|
            0 <= i < logins.len() ==> logins[i] != login,
    decreases logins.len(),
{
    if logins.len() > 0 && logins.last() != login {
        lemma_position(logins.drop_last(), login);
        if position(logins, login) == -1 {
            assert forall|i: int| 0 <= i < logins.len() implies logins[i] != login by {
                if i < logins.len() - 1 {
                    assert(logins.drop_last()[i] == logins[i]);
                }
            }
        }
    }
}

proof fn lemma_position_distinct(logins: Seq<Seq<char>>, at: int)
    requires
        distinct(logins),
        0 <= at < logins.len(),
    ensures
        position(logins, logins[at]) == at,
    decreases logins.len(),
{
    if logins.last() != logins[at] {
        lemma_position_distinct(logins.drop_last(), at);
    }
}

/// Looks `login` up among the logins seen so far.
fn find(logins: &Vec<String>, login: &str) -> (at: Option<usize>)
    ensures
        match at {
            Some(i) => i < logins.len() && logins[i as int]@ == login@,
            None => forall|i: int| 0 <= i < logins.len() ==> logins[i]@ != login@,
        },
{
    let mut i: usize = 0;
    while i < logins.len()
        invariant
            i <= logins.len(),
            forall|j: int| 0 <= j < i ==> logins[j]@ != login@,
        decreases logins.len() - i,
    {
        if str_eq(logins[i].as_str(), login) {
            return Some(i);
        }
        i += 1;
    }
    None
}

/// Adds one to the counter `which` of `login`, which gets a line of its own
/// where it had none.
fn bump(
    logins: &mut Vec<String>,
    counts: &mut Vec<ParticipantCounts>,
    login: &str,
    which: Counter,
    Ghost(bound): Ghost<int>,
)
    requires
        well_kept(old(logins)@, old(counts)@, bound),
        bound < u64::MAX,
    ensures
        well_kept(final(logins)@, final(counts)@, bound + 1),
        forall|other: Seq<char>| #[trigger]
            held(final(logins)@, final(counts)@, other) == if other == login@ {
                held(old(logins)@, old(counts)@, other).plus(one(which))
            } else {
                held(old(logins)@, old(counts)@, other)
            },
{
    let ghost names = texts(logins@);
    let ghost before = counts@;
    match find(logins, login) {
        Some(i) => {
            let mut line = counts[i];
            match which {
                Counter::ParticipatedIn => {
                    line.participated_in = line.participated_in + 1;
                },
                Counter::Authored => {
                    line.authored = line.authored + 1;
                },
                Counter::Reviewed => {
                    line.reviewed = line.reviewed + 1;
                },
                Counter::Resolved => {
                    line.resolved = line.resolved + 1;
                },
            }
            counts.set(i, line);
            proof {
                assert(names[i as int] == login@);
                lemma_position_distinct(names, i as int);
                assert forall|other: Seq<char>| #[trigger]
                    held(logins@, counts@, other) == if other == login@ {
                        held(logins@, before, other).plus(one(which))
                    } else {
                        held(logins@, before, other)
                    } by {
                    lemma_position(names, other);
                }
            }
        },
        None => {
            let line = match which {
                Counter::ParticipatedIn => ParticipantCounts {
                    participated_in: 1,
                    authored: 0,
                    reviewed: 0,
                    resolved: 0,
                },
                Counter::Authored => ParticipantCounts {
                    participated_in: 0,
                    authored: 1,
                    reviewed: 0,
                    resolved: 0,
                },
                Counter::Reviewed => ParticipantCounts {
                    participated_in: 0,
                    authored: 0,
                    reviewed: 1,
                    resolved: 0,
                },
                Counter::Resolved => ParticipantCounts {
                    participated_in: 0,
                    authored: 0,
                    reviewed: 0,
                    resolved: 1,
                },
            };
            let ghost old_logins = logins@;
            logins.push(login.to_owned());
            counts.push(line);
            proof {
                assert(texts(logins@) == names.push(login@));
                assert(names.push(login@).drop_last() == names);
                lemma_position(names, login@);
                assert forall|other: Seq<char>| #[trigger]
                    held(logins@, counts@, other) == if other == login@ {
                        held(old_logins, before, other).plus(one(which))
                    } else {
                        held(old_logins, before, other)
                    } by {
                    lemma_position(names, other);
                }
            }
        },
    }
}


proof fn lemma_take_contains<A>(s: Seq<A>, k: int, x: A)
    requires
        0 <= k < s.len(),
    ensures
        s.take(k + 1).contains(x) <==> s.take(k).contains(x) || s[k] == x,
{
    let shorter = s.take(k);
    let longer = s.take(k + 1);
    if shorter.contains(x) {
        let i = choose|i: int| 0 <= i < shorter.len() && shorter[i] == x;
        assert(longer[i] == x);
    }
    if s[k] == x {
        assert(longer[k] == x);
    }
    if longer.contains(x) {
        let i = choose|i: int| 0 <= i < longer.len() && longer[i] == x;
        if i < k {
            assert(shorter[i] == x);
        }
    }
}

proof fn lemma_mentions_prefix(prs: Seq<PullRequestView>, k: int)
    requires
        0 <= k <= prs.len(),
    ensures
        mentions(prs.take(k)) <= mentions(prs),
    decreases prs.len(),
{
    if k < prs.len() {
        assert(prs.drop_last().take(k) == prs.take(k));
        lemma_mentions_prefix(prs.drop_last(), k);
    } else {
        assert(prs.take(k) == prs);
    }
}

/// Whether `login` wrote the pull request.
fn wrote(pr: &PullRequest, login: &str) -> (yes: bool)
    ensures
        yes == is_author(pr@, login@),
{
    match &pr.author {
        Some(author) => str_eq(author.as_str(), login),
        None => false,
    }
}

impl PullRequest {
    /// Whether the lists of the pull request are as long as the source says.
    pub fn has_all(&self) -> (yes: bool)
        ensures
            yes == is_complete(self@),
    {
        self.participants_total >= 0 && self.reviews_total >= 0 && self.participants_total as u64
            == self.participants.len() as u64 && self.reviews_total as u64
            == self.reviews.len() as u64
    }
}

/// Counts every participant of `pr` that did not write it.
fn count_participation(
    logins: &mut Vec<String>,
    counts: &mut Vec<ParticipantCounts>,
    pr: &PullRequest,
    Ghost(bound): Ghost<int>,
)
    requires
        well_kept(old(logins)@, old(counts)@, bound),
        bound + pr.participants.len() <= u64::MAX,
    ensures
        well_kept(final(logins)@, final(counts)@, bound + pr.participants.len()),
        forall|other: Seq<char>| #[trigger]
            held(final(logins)@, final(counts)@, other) == held(
                old(logins)@,
                old(counts)@,
                other,
            ).plus(
                Tally {
                    participated_in: contribution(pr@, other).participated_in,
                    ..Tally::zero()
                },
            ),
{
    let ghost logins0 = logins@;
    let ghost counts0 = counts@;
    let mut k: usize = 0;
    assert(pr@.participants.take(0) =~= Seq::empty());
    while k < pr.participants.len()
        invariant
            k <= pr.participants.len(),
            bound + pr.participants.len() <= u64::MAX,
            well_kept(logins@, counts@, bound + k),
            forall|other: Seq<char>| #[trigger]
                held(logins@, counts@, other) == held(logins0, counts0, other).plus(
                    Tally {
                        participated_in: if is_author(pr@, other) {
                            0
                        } else {
                            occurrences(pr@.participants.take(k as int), other)
                        },
                        ..Tally::zero()
                    },
                ),
        decreases pr.participants.len() - k,
    {
        let login = pr.participants[k].as_str();
        proof {
            assert(pr@.participants.take(k + 1).drop_last() == pr@.participants.take(k as int));
            assert(pr@.participants.take(k + 1).last() == login@);
        }
        if !wrote(pr, login) {
            bump(logins, counts, login, Counter::ParticipatedIn, Ghost(bound + k));
        }
        k += 1;
    }
    assert(pr@.participants.take(k as int) == pr@.participants);
}

/// Whether one of the first `upto` reviews of `pr` is by `login`.
fn reviewed_earlier(pr: &PullRequest, upto: usize, login: &str) -> (seen: bool)
    requires
        upto <= pr.reviews.len(),
    ensures
        seen == pr@.reviews.take(upto as int).contains(Some(login@)),
{
    let ghost earlier = pr@.reviews.take(upto as int);
    let mut j: usize = 0;
    while j < upto
        invariant
            j <= upto <= pr.reviews.len(),
            earlier == pr@.reviews.take(upto as int),
            forall|i: int| 0 <= i < j ==> earlier[i] != Some(login@),
        decreases upto - j,
    {
        match &pr.reviews[j] {
            Some(reviewer) => {
                if str_eq(reviewer.as_str(), login) {
                    assert(earlier[j as int] == Some(login@));
                    return true;
                }
            },
            None => {},
        }
        j += 1;
    }
    false
}

/// Counts one review for every login that reviewed `pr` without having
/// written it.
fn count_reviews(
    logins: &mut Vec<String>,
    counts: &mut Vec<ParticipantCounts>,
    pr: &PullRequest,
    Ghost(bound): Ghost<int>,
)
    requires
        well_kept(old(logins)@, old(counts)@, bound),
        bound + pr.reviews.len() <= u64::MAX,
    ensures
        well_kept(final(logins)@, final(counts)@, bound + pr.reviews.len()),
        forall|other: Seq<char>| #[trigger]
            held(final(logins)@, final(counts)@, other) == held(
                old(logins)@,
                old(counts)@,
                other,
            ).plus(Tally { reviewed: contribution(pr@, other).reviewed, ..Tally::zero() }),
{
    let ghost logins0 = logins@;
    let ghost counts0 = counts@;
    let mut k: usize = 0;
    while k < pr.reviews.len()
        invariant
            k <= pr.reviews.len(),
            bound + pr.reviews.len() <= u64::MAX,
            well_kept(logins@, counts@, bound + k),
            forall|other: Seq<char>| #[trigger]
                held(logins@, counts@, other) == held(logins0, counts0, other).plus(
                    Tally {
                        reviewed: if !is_author(pr@, other) && pr@.reviews.take(
                            k as int,
                        ).contains(Some(other)) {
                            1
                        } else {
                            0
                        },
                        ..Tally::zero()
                    },
                ),
        decreases pr.reviews.len() - k,
    {
        proof {
            assert forall|other: Seq<char>|
                pr@.reviews.take(k + 1).contains(Some(other)) <==> pr@.reviews.take(
                    k as int,
                ).contains(Some(other)) || pr@.reviews[k as int] == Some(other) by {
                lemma_take_contains(pr@.reviews, k as int, Some(other));
            }
        }
        match &pr.reviews[k] {
            Some(reviewer) => {
                let login = reviewer.as_str();
                if !wrote(pr, login) && !reviewed_earlier(pr, k, login) {
                    bump(logins, counts, login, Counter::Reviewed, Ghost(bound + k));
                }
            },
            None => {},
        }
        k += 1;
    }
    assert(pr@.reviews.take(k as int) == pr@.reviews);
}

/// Whether the counters of the pull requests fit the machine's integers,
/// whatever the lists hold.
pub fn fits_counters(prs: &Vec<PullRequest>) -> (fits: bool)
    ensures
        fits == (mentions(pull_requests(prs@)) <= u64::MAX),
{
    let ghost all = pull_requests(prs@);
    let mut total: u64 = 0;
    let mut n: usize = 0;
    assert(all.take(0) =~= Seq::empty());
    while n < prs.len()
        invariant
            n <= prs.len(),
            all == pull_requests(prs@),
            total == mentions(all.take(n as int)),
        decreases prs.len() - n,
    {
        proof {
            assert(all.take(n + 1).drop_last() == all.take(n as int));
            assert(all.take(n + 1).last() == prs[n as int]@);
            lemma_mentions_prefix(all, n + 1);
        }
        let lists = (prs[n].participants.len() as u64).checked_add(prs[n].reviews.len() as u64);
        let more = match lists {
            Some(entries) => entries.checked_add(2),
            None => None,
        };
        let sum = match more {
            Some(entries) => total.checked_add(entries),
            None => None,
        };
        match sum {
            Some(sum) => {
                total = sum;
            },
            None => {
                return false;
            },
        }
        n += 1;
    }
    assert(all.take(n as int) == all);
    true
}

/// Counts the pull requests of one repository by login.
///
/// For each pull request, every participant other than the author has
/// taken part, every login that reviewed it (other than the author) has
/// reviewed once, the author has authored, and the merger has resolved.  A
/// pull request whose participant or review list is not as long as the source
/// says it is makes the whole count fail.
///
/// The result has one line for each login with a counter above zero that is
/// none of the known automation accounts, ordered by descending participation
/// and then by login.  What the automation accounts did changes nothing in
/// the counters of the others.
pub fn pr_participants(prs: &Vec<PullRequest>) -> (result: Result<
    Vec<(String, ParticipantCounts)>,
    AggregateError,
>)
    requires
        mentions(pull_requests(prs@)) <= u64::MAX,
    ensures
        result is Err <==> exists|i: int| 0 <= i < prs.len() && !is_complete(#[trigger] prs[i]@),
        result matches Ok(table) ==> is_participant_table(entries(table@), pull_requests(prs@)),
{
    let ghost all = pull_requests(prs@);
    let mut logins: Vec<String> = Vec::new();
    let mut counts: Vec<ParticipantCounts> = Vec::new();
    let mut n: usize = 0;
    assert(all.take(0) =~= Seq::empty());
    while n < prs.len()
        invariant
            n <= prs.len(),
            all == pull_requests(prs@),
            mentions(all) <= u64::MAX,
            well_kept(logins@, counts@, mentions(all.take(n as int)) as int),
            forall|other: Seq<char>| #[trigger]
                held(logins@, counts@, other) == tally(all.take(n as int), other),
            forall|i: int| 0 <= i < n ==> is_complete(#[trigger] prs[i]@),
        decreases prs.len() - n,
    {
        let pr = &prs[n];
        if !pr.has_all() {
            return Err(AggregateError::PaginationUnsupported);
        }
        let ghost bound: int = mentions(all.take(n as int)) as int;
        proof {
            assert(all.take(n + 1).drop_last() == all.take(n as int));
            assert(all.take(n + 1).last() == pr@);
            lemma_mentions_prefix(all, n + 1);
        }
        count_participation(&mut logins, &mut counts, pr, Ghost(bound));
        let ghost bound = bound + pr.participants.len();
        count_reviews(&mut logins, &mut counts, pr, Ghost(bound));
        let ghost bound = bound + pr.reviews.len();
        match &pr.author {
            Some(author) => {
                bump(&mut logins, &mut counts, author.as_str(), Counter::Authored, Ghost(bound));
            },
            None => {},
        }
        let ghost bound = bound + 1;
        match &pr.merged_by {
            Some(merger) => {
                bump(&mut logins, &mut counts, merger.as_str(), Counter::Resolved, Ghost(bound));
            },
            None => {},
        }
        n += 1;
    }
    assert(all.take(n as int) == all);
    let ghost kept_logins = logins@;
    let ghost kept_counts = counts@;
    let table = rank(logins, counts);
    proof {
        let lines = entries(table@);
        let pairs = paired(kept_logins, kept_counts);
        assert forall|i: int| 0 <= i < lines.len() implies (#[trigger] lines[i]).1 == tally(
            all,
            lines[i].0,
        ) && is_listed(all, lines[i].0) by {
            assert(pairs.contains(lines[i]));
            let k = choose|k: int| 0 <= k < pairs.len() && pairs[k] == lines[i];
            lemma_position_distinct(texts(kept_logins), k);
            assert(texts(kept_logins)[k] == lines[i].0);
            assert(held(kept_logins, kept_counts, lines[i].0) == kept_counts[k]@);
        }
        assert forall|login: Seq<char>| #[trigger] is_listed(all, login) implies exists|i: int|
            0 <= i < lines.len() && (#[trigger] lines[i]).0 == login by {
            lemma_position(texts(kept_logins), login);
            let k = position(texts(kept_logins), login);
            assert(held(kept_logins, kept_counts, login) != Tally::zero());
            assert(pairs[k].0 == login);
            assert(lines.contains(pairs[k]));
            let i = choose|i: int| 0 <= i < lines.len() && lines[i] == pairs[k];
            assert(lines[i].0 == login);
        }
    }
    Ok(table)
}

/// The logins of the working state with their counters.
spec fn paired(logins: Seq<String>, counts: Seq<ParticipantCounts>) -> Seq<Entry> {
    Seq::new(logins.len(), |k: int| (logins[k]@, counts[k]@))
}

spec fn ranked(lines: Seq<Entry>) -> bool {
    forall|i: int, j: int|
        0 <= i < j < lines.len() ==> ranks_before(#[trigger] lines[i], #[trigger] lines[j])
}

/// Whether `line` is one of `all` from position `from` on.
spec fn drawn_from(line: Entry, all: Seq<Entry>, from: int) -> bool {
    exists|k: int| from <= k < all.len() && all[k] == line
}

/// No line ranks before itself.
pub proof fn lemma_ranks_irreflexive(a: Entry)
    ensures
        !ranks_before(a, a),
{
    lemma_text_lt_irreflexive(a.0);
}

/// The ranking is transitive.
pub proof fn lemma_ranks_transitive(a: Entry, b: Entry, c: Entry)
    requires
        ranks_before(a, b),
        ranks_before(b, c),
    ensures
        ranks_before(a, c),
{
    if a.1.participated_in == b.1.participated_in && b.1.participated_in
        == c.1.participated_in {
        lemma_text_lt_transitive(a.0, b.0, c.0);
    }
}

/// No two lines rank before each other.
pub proof fn lemma_ranks_asymmetric(a: Entry, b: Entry)
    requires
        ranks_before(a, b),
    ensures
        !ranks_before(b, a),
{
    if a.1.participated_in == b.1.participated_in {
        lemma_text_lt_asymmetric(a.0, b.0);
    }
}

/// Of two lines for different logins one ranks before the other.
pub proof fn lemma_ranks_connected(a: Entry, b: Entry)
    requires
        a.0 != b.0,
    ensures
        ranks_before(a, b) || ranks_before(b, a),
{
    lemma_text_lt_connected(a.0, b.0);
}

/// Whether the line of `a_login` ranks before that of `b_login`.
fn outranks(a_login: &str, a: &ParticipantCounts, b_login: &str, b: &ParticipantCounts) -> (yes:
    bool)
    ensures
        yes == ranks_before((a_login@, a@), (b_login@, b@)),
{
    a.participated_in > b.participated_in || (a.participated_in == b.participated_in && str_lt(
        a_login,
        b_login,
    ))
}

/// Puts the lines of the working state in ranking order, leaving out those of
/// the known automation accounts.
fn rank(logins: Vec<String>, counts: Vec<ParticipantCounts>) -> (table: Vec<
    (String, ParticipantCounts),
>)
    requires
        logins.len() == counts.len(),
        distinct(texts(logins@)),
    ensures
        ranked(entries(table@)),
        forall|i: int|
            0 <= i < table.len() ==> paired(logins@, counts@).contains(
                #[trigger] entries(table@)[i],
            ) && !is_robot_login(entries(table@)[i].0),
        forall|k: int|
            0 <= k < logins.len() && !is_robot_login(
                (#[trigger] paired(logins@, counts@)[k]).0,
            ) ==> entries(table@).contains(paired(logins@, counts@)[k]),
{
    let ghost all = paired(logins@, counts@);
    let ghost names = texts(logins@);
    let mut logins = logins;
    let mut counts = counts;
    let mut table: Vec<(String, ParticipantCounts)> = Vec::new();
    assert(all.take(all.len() as int) == all);
    assert forall|i: int, j: int| 0 <= i < j < all.len() implies all[i].0 != all[j].0 by {
        assert(names[i] != names[j]);
    }
    while logins.len() > 0
        invariant
            logins.len() == counts.len(),
            logins.len() <= all.len(),
            paired(logins@, counts@) == all.take(logins.len() as int),
            forall|i: int, j: int| 0 <= i < j < all.len() ==> all[i].0 != all[j].0,
            ranked(entries(table@)),
            forall|i: int|
                0 <= i < table.len() ==> drawn_from(
                    #[trigger] entries(table@)[i],
                    all,
                    logins.len() as int,
                ) && !is_robot_login(entries(table@)[i].0),
            forall|k: int|
                logins.len() <= k < all.len() && !is_robot_login((#[trigger] all[k]).0)
                    ==> entries(table@).contains(all[k]),
        decreases logins.len(),
    {
        let ghost m = logins.len() - 1;
        let ghost before = entries(table@);
        let ghost pairs_before = paired(logins@, counts@);
        let login = logins.pop().unwrap();
        let count = counts.pop().unwrap();
        let ghost line: Entry = (login@, count@);
        assert(line == all[m]) by {
            assert(pairs_before[m] == line);
        }
        assert(paired(logins@, counts@) == all.take(m));
        if is_robot(login.as_str()) {
            proof {
                assert forall|i: int| 0 <= i < before.len() implies drawn_from(
                    #[trigger] before[i],
                    all,
                    m,
                ) by {
                    let k = choose|k: int| m + 1 <= k < all.len() && all[k] == before[i];
                    assert(all[k] == before[i]);
                }
            }
        } else {
            let mut at: usize = 0;
            let mut searching = true;
            while searching && at < table.len()
                invariant
                    at <= table.len(),
                    before == entries(table@),
                    line == (login@, count@),
                    forall|j: int| 0 <= j < at ==> ranks_before(#[trigger] before[j], line),
                    !searching ==> at < table.len() && !ranks_before(before[at as int], line),
                decreases table.len() - at + if searching { 1nat } else { 0nat },
            {
                if outranks(table[at].0.as_str(), &table[at].1, login.as_str(), &count) {
                    at += 1;
                } else {
                    searching = false;
                }
            }
            table.insert(at, (login, count));
            proof {
                let after = entries(table@);
                assert(after == before.insert(at as int, line));
                assert forall|j: int| at <= j < before.len() implies ranks_before(
                    line,
                    #[trigger] before[j],
                ) by {
                    let k = choose|k: int| m + 1 <= k < all.len() && all[k] == before[at as int];
                    lemma_ranks_connected(line, before[at as int]);
                    if j > at {
                        lemma_ranks_transitive(line, before[at as int], before[j]);
                    }
                }
                assert forall|i: int, j: int| 0 <= i < j < after.len() implies ranks_before(
                    #[trigger] after[i],
                    #[trigger] after[j],
                ) by {
                    if j < at {
                        assert(after[i] == before[i] && after[j] == before[j]);
                    } else if j == at {
                        assert(after[i] == before[i]);
                    } else if i < at {
                        assert(after[i] == before[i] && after[j] == before[j - 1]);
                    } else if i == at {
                        assert(after[j] == before[j - 1]);
                    } else {
                        assert(after[i] == before[i - 1] && after[j] == before[j - 1]);
                    }
                }
                assert forall|i: int| 0 <= i < after.len() implies drawn_from(
                    #[trigger] after[i],
                    all,
                    m,
                ) && !is_robot_login(after[i].0) by {
                    if i < at {
                        assert(after[i] == before[i]);
                        let k = choose|k: int| m + 1 <= k < all.len() && all[k] == before[i];
                        assert(all[k] == after[i]);
                    } else if i == at {
                        assert(all[m] == after[i]);
                    } else {
                        assert(after[i] == before[i - 1]);
                        let k = choose|k: int| m + 1 <= k < all.len() && all[k] == before[i - 1];
                        assert(all[k] == after[i]);
                    }
                }
                assert forall|k: int| m <= k < all.len() && !is_robot_login(
                    (#[trigger] all[k]).0,
                ) implies after.contains(all[k]) by {
                    if k == m {
                        assert(after[at as int] == all[k]);
                    } else {
                        let i = choose|i: int| 0 <= i < before.len() && before[i] == all[k];
                        if i < at {
                            assert(after[i] == all[k]);
                        } else {
                            assert(after[i + 1] == all[k]);
                        }
                    }
                }
            }
        }
    }
    proof {
        assert forall|i: int| 0 <= i < table.len() implies all.contains(
            #[trigger] entries(table@)[i],
        ) by {
            let k = choose|k: int| 0 <= k < all.len() && all[k] == entries(table@)[i];
            assert(all[k] == entries(table@)[i]);
        }
    }
    table
}


/// Whether every line of `first` is a line of `second`.
spec fn lines_within(first: Seq<Entry>, second: Seq<Entry>) -> bool {
    forall|i: int| 0 <= i < first.len() ==> second.contains(#[trigger] first[i])
}

proof fn lemma_table_lines_within(first: Seq<Entry>, second: Seq<Entry>, prs: Seq<PullRequestView>)
    requires
        is_participant_table(first, prs),
        is_participant_table(second, prs),
    ensures
        lines_within(first, second),
{
    assert forall|i: int| 0 <= i < first.len() implies second.contains(#[trigger] first[i]) by {
        assert(tally(prs, first[i].0) != Tally::zero());
        let j = choose|j: int| 0 <= j < second.len() && (#[trigger] second[j]).0 == first[i].0;
        assert(second[j] == first[i]);
    }
}

proof fn lemma_ranked_prefix_agrees(first: Seq<Entry>, second: Seq<Entry>, k: int)
    requires
        ranked(first),
        ranked(second),
        lines_within(first, second),
        lines_within(second, first),
        0 <= k <= first.len(),
    ensures
        k <= second.len(),
        forall|i: int| 0 <= i < k ==> first[i] == second[i],
    decreases k,
{
    if k > 0 {
        lemma_ranked_prefix_agrees(first, second, k - 1);
        let at = k - 1;
        let x = first[at];
        assert(second.contains(x));
        let j = choose|j: int| 0 <= j < second.len() && second[j] == x;
        lemma_ranks_irreflexive(x);
        if j < at {
            assert(ranks_before(first[j], first[at]));
        }
        let y = second[at];
        assert(first.contains(y));
        let i = choose|i: int| 0 <= i < first.len() && first[i] == y;
        lemma_ranks_irreflexive(y);
        if i < at {
            assert(ranks_before(second[i], second[at]));
        }
        if j > at && i > at {
            assert(ranks_before(second[at], second[j]));
            assert(ranks_before(first[at], first[i]));
            lemma_ranks_asymmetric(x, y);
        } else if j > at {
            assert(ranks_before(second[at], second[j]));
        }
    }
}

/// No line of a participant table belongs to an automation account, and every
/// line holds what its login did in all of the pull requests.
pub proof fn lemma_participant_table_lists_no_robot(
    table: Seq<Entry>,
    prs: Seq<PullRequestView>,
    at: int,
)
    requires
        is_participant_table(table, prs),
        0 <= at < table.len(),
    ensures
        !is_robot_login(table[at].0),
        table[at].1 == tally(prs, table[at].0),
{
}

/// A set of pull requests has one participant table and no other.
pub proof fn lemma_participant_table_unique(
    first: Seq<Entry>,
    second: Seq<Entry>,
    prs: Seq<PullRequestView>,
)
    requires
        is_participant_table(first, prs),
        is_participant_table(second, prs),
    ensures
        first == second,
{
    lemma_table_lines_within(first, second, prs);
    lemma_table_lines_within(second, first, prs);
    lemma_ranked_prefix_agrees(first, second, first.len() as int);
    lemma_ranked_prefix_agrees(second, first, second.len() as int);
    assert(first =~= second);
}

proof fn lemma_tally_without(prs: Seq<PullRequestView>, at: int, login: Seq<char>)
    requires
        0 <= at < prs.len(),
    ensures
        tally(prs, login) == tally(prs.remove(at), login).plus(contribution(prs[at], login)),
    decreases prs.len(),
{
    if at == prs.len() - 1 {
        assert(prs.remove(at) == prs.drop_last());
    } else {
        assert(prs.remove(at).drop_last() == prs.drop_last().remove(at));
        assert(prs.remove(at).last() == prs.last());
        lemma_tally_without(prs.drop_last(), at, login);
    }
}

/// The counters of a login depend on which pull requests are counted and on
/// how often each occurs, not on the order in which they come.
pub proof fn lemma_tally_ignores_order(
    first: Seq<PullRequestView>,
    second: Seq<PullRequestView>,
    login: Seq<char>,
)
    requires
        first.to_multiset() == second.to_multiset(),
    ensures
        tally(first, login) == tally(second, login),
    decreases first.len(),
{
    broadcast use {
        vstd::seq_lib::to_multiset_len,
        vstd::seq_lib::to_multiset_contains,
        vstd::seq_lib::to_multiset_remove,
        vstd::seq_lib::to_multiset_build,
    };

    assert(first.len() == second.len()) by {
        assert(first.to_multiset().len() == first.len());
        assert(second.to_multiset().len() == second.len());
    }
    if first.len() > 0 {
        let x = first.last();
        assert(first == first.drop_last().push(x));
        assert(first.to_multiset() == first.drop_last().to_multiset().insert(x));
        assert(second.to_multiset().count(x) > 0);
        assert(second.contains(x));
        let at = choose|at: int| 0 <= at < second.len() && second[at] == x;
        assert(second.remove(at).to_multiset() == second.to_multiset().remove(x));
        assert(first.drop_last().to_multiset() =~= second.remove(at).to_multiset());
        lemma_tally_ignores_order(first.drop_last(), second.remove(at), login);
        lemma_tally_without(second, at, login);
    }
}

/// Counting the same pull requests again gives the same table, in whatever
/// order they are handed over.
pub proof fn lemma_participant_table_ignores_order(
    first: Seq<PullRequestView>,
    second: Seq<PullRequestView>,
    first_table: Seq<Entry>,
    second_table: Seq<Entry>,
)
    requires
        first.to_multiset() == second.to_multiset(),
        is_participant_table(first_table, first),
        is_participant_table(second_table, second),
    ensures
        first_table == second_table,
{
    assert forall|login: Seq<char>|
        tally(first, login) == tally(second, login) && #[trigger] is_listed(first, login)
            == is_listed(second, login) by {
        lemma_tally_ignores_order(first, second, login);
    }
    assert forall|i: int| 0 <= i < second_table.len() implies (#[trigger] second_table[i]).1
        == tally(first, second_table[i].0) && is_listed(first, second_table[i].0) by {
        lemma_tally_ignores_order(first, second, second_table[i].0);
    }
    assert forall|login: Seq<char>| #[trigger] is_listed(first, login) implies exists|i: int|
        0 <= i < second_table.len() && (#[trigger] second_table[i]).0 == login by {
        lemma_tally_ignores_order(first, second, login);
        assert(is_listed(second, login));
    }
    assert(is_participant_table(second_table, first));
    lemma_participant_table_unique(first_table, second_table, first);
}

} // verus!
