//! What is known of each repository, and the classification of its
//! contributors.

use crate::report::repo_participant::{ParticipantView, RepoParticipant};
use crate::report::{HighContributorConfig, ReportConfig};
use crate::text::str_eq;
use crate::util::{percentage, percentage_of};
use vstd::prelude::*;

verus! {

/// One repository with its counts over the period of the report.
#[derive(Debug)]
pub struct RepoInfo {
    /// Row number in the input table.
    pub row: usize,
    /// The organization that the repository belongs to.
    pub org: String,
    /// The name of the repository.
    pub repo: String,
    /// Pull requests opened in the period.
    pub num_prs: u64,
    /// Issues opened in the period.
    pub num_opened: u64,
    /// Issues closed in the period.
    pub num_closed: u64,
    /// First day of the period.
    pub start: String,
    /// Last day of the period.
    pub end: String,
}

/// A repository as a mathematical value.
pub struct RepoInfoView {
    pub row: nat,
    pub org: Seq<char>,
    pub repo: Seq<char>,
    pub num_prs: nat,
    pub num_opened: nat,
    pub num_closed: nat,
    pub start: Seq<char>,
    pub end: Seq<char>,
}

impl View for RepoInfo {
    type V = RepoInfoView;

    open spec fn view(&self) -> RepoInfoView {
        RepoInfoView {
            row: self.row as nat,
            org: self.org@,
            repo: self.repo@,
            num_prs: self.num_prs as nat,
            num_opened: self.num_opened as nat,
            num_closed: self.num_closed as nat,
            start: self.start@,
            end: self.end@,
        }
    }
}

/// Whether the participant reviews much: a share of the pull requests above
/// the minimum, or a number above the minimum.  Either is enough.
pub open spec fn is_high_reviewer(
    thresholds: HighContributorConfig,
    num_prs: nat,
    participant: ParticipantView,
) -> bool {
    percentage_of(participant.reviewed_or_resolved(), num_prs)
        > thresholds.high_reviewer_min_percentage || participant.reviewed_or_resolved()
        > thresholds.high_reviewer_min_prs
}

/// Whether the participant is highly active: a share of the pull requests
/// above the minimum and a number above the minimum.  It takes both.
pub open spec fn is_highly_active(
    thresholds: HighContributorConfig,
    num_prs: nat,
    participant: ParticipantView,
) -> bool {
    percentage_of(participant.participated_in, num_prs)
        > thresholds.high_participant_min_percentage && participant.participated_in
        > thresholds.high_participant_min_prs
}

/// Whether the participant writes much: a share of the pull requests above
/// the minimum and a number above the minimum.  It takes both.
pub open spec fn is_high_author(
    thresholds: HighContributorConfig,
    num_prs: nat,
    participant: ParticipantView,
) -> bool {
    percentage_of(participant.authored, num_prs) > thresholds.high_author_min_percentage
        && participant.authored > thresholds.high_author_min_prs
}

/// In how many of the three categories the participant is high.
pub open spec fn high_categories(
    thresholds: HighContributorConfig,
    num_prs: nat,
    participant: ParticipantView,
) -> nat {
    let reviewer: nat = if is_high_reviewer(thresholds, num_prs, participant) {
        1
    } else {
        0
    };
    let active: nat = if is_highly_active(thresholds, num_prs, participant) {
        1
    } else {
        0
    };
    let author: nat = if is_high_author(thresholds, num_prs, participant) {
        1
    } else {
        0
    };
    reviewer + active + author
}

/// Whether the participant is a high contributor: high in at least as many
/// categories as the thresholds ask for.
pub open spec fn is_high(
    thresholds: HighContributorConfig,
    num_prs: nat,
    participant: ParticipantView,
) -> bool {
    high_categories(thresholds, num_prs, participant)
        >= thresholds.high_contributor_categories_threshold
}

/// Where one category is asked for, or none, writing much is enough to be a
/// high contributor, whatever the other two categories say.
pub proof fn lemma_high_author_alone(
    thresholds: HighContributorConfig,
    num_prs: nat,
    participant: ParticipantView,
)
    requires
        is_high_author(thresholds, num_prs, participant),
        thresholds.high_contributor_categories_threshold <= 1,
    ensures
        is_high(thresholds, num_prs, participant),
{
}

impl RepoInfo {
    /// Whether `participant` is a high contributor of this repository.
    pub fn is_high_contributor(&self, config: &ReportConfig, participant: &RepoParticipant) -> (high:
        bool)
        requires
            participant@.fits_percentages(self.num_prs as nat),
        ensures
            high == is_high(config.high_contributor, self.num_prs as nat, participant@),
    {
        let hc = &config.high_contributor;

        let participated_in_percentage = percentage(participant.participated_in, self.num_prs);
        let authored_percentage = percentage(participant.authored, self.num_prs);
        let reviewed_or_resolved_percentage = percentage(
            participant.reviewed_or_resolved(),
            self.num_prs,
        );

        let high_reviewer = reviewed_or_resolved_percentage > hc.high_reviewer_min_percentage
            || participant.reviewed_or_resolved() > hc.high_reviewer_min_prs;
        let high_activity = participated_in_percentage > hc.high_participant_min_percentage
            && participant.participated_in > hc.high_participant_min_prs;
        let high_author = authored_percentage > hc.high_author_min_percentage
            && participant.authored > hc.high_author_min_prs;
        let mut high_total: u64 = 0;
        if high_reviewer {
            high_total = high_total + 1;
        }
        if high_activity {
            high_total = high_total + 1;
        }
        if high_author {
            high_total = high_total + 1;
        }
        high_total >= hc.high_contributor_categories_threshold
    }
}

/// The repositories of the report, each name once.
#[derive(Debug)]
pub struct RepoInfos {
    pub repos: Vec<RepoInfo>,
}

/// The repositories of a vector as mathematical values.
pub open spec fn repo_views(repos: Seq<RepoInfo>) -> Seq<RepoInfoView> {
    Seq::new(repos.len(), |i: int| repos[i]@)
}

/// Where the repository named `repo` stands: the first place with that name,
/// or the length where there is none.
pub open spec fn repo_index(repos: Seq<RepoInfoView>, repo: Seq<char>, from: int) -> int
    decreases repos.len() - from,
{
    if from >= repos.len() {
        repos.len() as int
    } else if repos[from].repo == repo {
        from
    } else {
        repo_index(repos, repo, from + 1)
    }
}

/// The repositories after `info` was entered: in the place of the one with
/// its name, or at the end where there was none.
pub open spec fn with_repo(repos: Seq<RepoInfoView>, info: RepoInfoView) -> Seq<RepoInfoView> {
    let at = repo_index(repos, info.repo, 0);
    if at < repos.len() {
        repos.update(at, info)
    } else {
        repos.push(info)
    }
}

pub proof fn lemma_repo_index(repos: Seq<RepoInfoView>, repo: Seq<char>, from: int)
    requires
        0 <= from <= repos.len(),
    ensures
        from <= repo_index(repos, repo, from) <= repos.len(),
        repo_index(repos, repo, from) < repos.len() ==> repos[repo_index(repos, repo, from)].repo
            == repo,
        forall|i: int| from <= i < repo_index(repos, repo, from) ==> (#[trigger] repos[i]).repo != repo,
    decreases repos.len() - from,
{
    if from < repos.len() && repos[from].repo != repo {
        lemma_repo_index(repos, repo, from + 1);
    }
}

impl RepoInfos {
    /// The repositories as mathematical values.
    pub open spec fn view(&self) -> Seq<RepoInfoView> {
        repo_views(self.repos@)
    }

    /// No name occurs twice.
    pub open spec fn well_formed(&self) -> bool {
        forall|i: int, j: int|
            0 <= i < j < self@.len() ==> (#[trigger] self@[i]).repo != (#[trigger] self@[j]).repo
    }

    /// Whether a repository named `repo` is known.
    pub open spec fn has(&self, repo: Seq<char>) -> bool {
        repo_index(self@, repo, 0) < self@.len()
    }

    /// No repositories.
    pub fn new() -> (infos: RepoInfos)
        ensures
            infos@.len() == 0,
            infos.well_formed(),
    {
        RepoInfos { repos: Vec::new() }
    }

    /// Where the repository named `repo` stands.
    pub fn find(&self, repo: &str) -> (at: Option<usize>)
        ensures
            match at {
                Some(i) => i == repo_index(self@, repo@, 0) && i < self@.len(),
                None => !self.has(repo@),
            },
    {
        let mut i: usize = 0;
        while i < self.repos.len()
            invariant
                i <= self.repos.len(),
                repo_index(self@, repo@, 0) == repo_index(self@, repo@, i as int),
            decreases self.repos.len() - i,
        {
            if str_eq(self.repos[i].repo.as_str(), repo) {
                return Some(i);
            }
            i += 1;
        }
        None
    }

    /// Enters `info`, in the place of what was known under its name.
    pub fn insert(&mut self, info: RepoInfo)
        requires
            old(self).well_formed(),
        ensures
            final(self)@ == with_repo(old(self)@, info@),
            final(self).well_formed(),
            final(self).has(info@.repo),
    {
        let ghost before = self@;
        proof {
            lemma_repo_index(before, info@.repo, 0);
        }
        match self.find(info.repo.as_str()) {
            Some(i) => {
                self.repos.set(i, info);
            },
            None => {
                self.repos.push(info);
            },
        }
        proof {
            assert(self@ == with_repo(before, info@));
            lemma_repo_index(self@, info@.repo, 0);
            let at = repo_index(before, info@.repo, 0);
            assert(self@[at].repo == info@.repo);
        }
    }

    /// The repository named `repo`.
    pub fn get(&self, repo: &str) -> (info: &RepoInfo)
        requires
            self.has(repo@),
        ensures
            info@ == self@[repo_index(self@, repo@, 0)],
            info@.repo == repo@,
    {
        proof {
            lemma_repo_index(self@, repo@, 0);
        }
        let at = self.find(repo).unwrap();
        &self.repos[at]
    }
}


/// The repositories after each of `records` was entered in turn.
pub open spec fn entered(records: Seq<RepoInfoView>) -> Seq<RepoInfoView>
    decreases records.len(),
{
    if records.len() == 0 {
        Seq::empty()
    } else {
        with_repo(entered(records.drop_last()), records.last())
    }
}

impl RepoInfos {
    /// Takes the records of the repository table in.  Where a name comes
    /// twice, the later record stands.
    pub fn parse_repo_infos(records: Vec<RepoInfo>) -> (parsed: RepoInfos)
        ensures
            parsed@ == entered(repo_views(records@)),
            parsed.well_formed(),
    {
        let ghost all = repo_views(records@);
        let mut parsed = RepoInfos::new();
        assert(all.take(0) =~= Seq::empty());
        assert(parsed@ =~= Seq::empty());
        for record in it: records
            invariant
                all == repo_views(it.seq()),
                parsed@ == entered(all.take(it.index() as int)),
                parsed.well_formed(),
        {
            proof {
                let k = it.index() as int;
                assert(all.take(k + 1).drop_last() == all.take(k));
                assert(all.take(k + 1).last() == record@);
            }
            parsed.insert(record);
        }
        assert(all.take(all.len() as int) == all);
        parsed
    }
}

} // verus!
