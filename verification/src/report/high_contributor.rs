//! The contributors that carry a repository: who is on top, how few of them
//! account for most of the work, and who counts as a high contributor.

use crate::report::repo_info::{is_high, repo_index, RepoInfo};
use crate::report::repo_participant::{key_values, members, metric_fits, respects, top_of};
use crate::report::repo_participant::{views, views_of, Key};
use crate::report::repo_participant::{Metric, ParticipantView, RepoParticipant};
use crate::report::{HighContributorConfig, Report, ReportConfig, ReportData};
use crate::text::{decimal, join, joined, push_decimal, str_eq, str_lt, text_lt};
use crate::text::texts;
use crate::text::{lemma_text_lt_asymmetric, lemma_text_lt_connected, lemma_text_lt_irreflexive};
use crate::text::lemma_text_lt_transitive;
use crate::util::{percentage, percentage_of};
use vstd::prelude::*;
use vstd::relations::{sorted_by, total_ordering};
use vstd::seq_lib::lemma_sorted_unique;
use vstd::string::*;

verus! {

/// What a participant is ranked by: a value, then the login.
pub type Score = (nat, Seq<char>);

/// The order of scores: by value, and among equal values by login.
pub open spec fn score_lt(a: Score, b: Score) -> bool {
    a.0 < b.0 || (a.0 == b.0 && text_lt(a.1, b.1))
}

/// "Is no smaller than", as a relation.
pub open spec fn at_least() -> spec_fn(Score, Score) -> bool {
    |a: Score, b: Score| !score_lt(a, b)
}

/// The scores of a group by `value`.
pub open spec fn scores(group: Seq<ParticipantView>, value: Key) -> Seq<Score> {
    Seq::new(group.len(), |i: int| (value(group[i]), group[i].participant))
}

/// The scores from the greatest to the smallest.
pub open spec fn ranking(scores: Seq<Score>) -> Seq<Score> {
    scores.sort_by(at_least())
}

/// The sum of the values of the scores.
pub open spec fn total(scores: Seq<Score>) -> nat
    decreases scores.len(),
{
    if scores.len() == 0 {
        0
    } else {
        total(scores.drop_last()) + scores.last().0
    }
}

/// How a score is written: the login with the share in brackets.
pub open spec fn label(score: Score, num_prs: nat) -> Seq<char> {
    score.1 + " ("@ + decimal(percentage_of(score.0, num_prs)) + "%)"@
}

/// The labels of the scores, in order.
pub open spec fn labels(scores: Seq<Score>, num_prs: nat) -> Seq<Seq<char>> {
    Seq::new(scores.len(), |i: int| label(scores[i], num_prs))
}

/// The number that the top contributors must exceed together.
pub open spec fn saturation_target(num_prs: nat, threshold_percentage: nat) -> nat {
    num_prs * threshold_percentage / 100
}

/// Whether the first `count` of `ranked` are the saturation set: no shorter
/// run of them exceeds `target`, and they do, unless even all of them do not.
pub open spec fn is_saturation_point(ranked: Seq<Score>, target: nat, count: int) -> bool {
    &&& 0 <= count <= ranked.len()
    &&& forall|shorter: int| 0 <= shorter < count ==> total(#[trigger] ranked.take(shorter)) <= target
    &&& count == ranked.len() || total(ranked.take(count)) > target
}

/// Whether `names` and `count` describe the saturation set of `repo` by
/// `value`: the top contributors, from the greatest down, as far as it takes
/// to exceed `threshold_percentage` percent of the pull requests.
pub open spec fn is_saturation(
    names: Seq<char>,
    count: nat,
    participants: Seq<ParticipantView>,
    repo: Seq<char>,
    value: Key,
    num_prs: nat,
    threshold_percentage: nat,
) -> bool {
    let ranked = ranking(scores(members(participants, repo), value));
    &&& is_saturation_point(ranked, saturation_target(num_prs, threshold_percentage), count as int)
    &&& names == joined(labels(ranked.take(count as int), num_prs), ", "@)
}

/// No score is smaller than itself.
pub proof fn lemma_score_lt_irreflexive(a: Score)
    ensures
        !score_lt(a, a),
{
    lemma_text_lt_irreflexive(a.1);
}

/// The order of scores is transitive.
pub proof fn lemma_score_lt_transitive(a: Score, b: Score, c: Score)
    requires
        score_lt(a, b),
        score_lt(b, c),
    ensures
        score_lt(a, c),
{
    if a.0 == b.0 && b.0 == c.0 {
        lemma_text_lt_transitive(a.1, b.1, c.1);
    }
}

/// No two scores are smaller than each other.
pub proof fn lemma_score_lt_asymmetric(a: Score, b: Score)
    requires
        score_lt(a, b),
    ensures
        !score_lt(b, a),
{
    if a.0 == b.0 {
        lemma_text_lt_asymmetric(a.1, b.1);
    }
}

/// Of two different scores one is smaller.
pub proof fn lemma_score_lt_connected(a: Score, b: Score)
    ensures
        score_lt(a, b) || score_lt(b, a) || a == b,
{
    lemma_text_lt_connected(a.1, b.1);
}

/// "Is no smaller than" orders the scores totally.
pub proof fn lemma_at_least_is_total()
    ensures
        total_ordering(at_least()),
{
    let r = at_least();
    assert forall|x: Score| #[trigger] r(x, x) by {
        lemma_score_lt_irreflexive(x);
    }
    assert forall|x: Score, y: Score| #[trigger] r(x, y) && #[trigger] r(y, x) implies x == y by {
        lemma_score_lt_connected(x, y);
    }
    assert forall|x: Score, y: Score, z: Score| #[trigger] r(x, y) && #[trigger] r(y, z) implies r(
        x,
        z,
    ) by {
        if score_lt(x, z) {
            lemma_score_lt_connected(y, x);
            if score_lt(y, x) {
                lemma_score_lt_transitive(y, x, z);
            }
        }
    }
    assert forall|x: Score, y: Score| #[trigger] r(x, y) || #[trigger] r(y, x) by {
        if score_lt(x, y) {
            lemma_score_lt_asymmetric(x, y);
        }
    }
}

/// The ranking holds the scores it was made of, each as often as it was
/// there, and none of them stands before a greater one.
pub proof fn lemma_ranking(scores: Seq<Score>)
    ensures
        ranking(scores).to_multiset() == scores.to_multiset(),
        ranking(scores).len() == scores.len(),
        forall|i: int, j: int|
            0 <= i < j < scores.len() ==> !score_lt(
                #[trigger] ranking(scores)[i],
                #[trigger] ranking(scores)[j],
            ),
{
    broadcast use vstd::seq_lib::to_multiset_len;

    lemma_at_least_is_total();
    scores.lemma_sort_by_ensures(at_least());
    assert(ranking(scores).to_multiset().len() == ranking(scores).len());
    assert(scores.to_multiset().len() == scores.len());
    assert forall|i: int, j: int| 0 <= i < j < scores.len() implies !score_lt(
        #[trigger] ranking(scores)[i],
        #[trigger] ranking(scores)[j],
    ) by {
        assert(at_least()(ranking(scores)[i], ranking(scores)[j]));
    }
}

/// A ranking has one saturation point for a target, and no other.
pub proof fn lemma_saturation_point_unique(ranked: Seq<Score>, target: nat, a: int, b: int)
    requires
        is_saturation_point(ranked, target, a),
        is_saturation_point(ranked, target, b),
    ensures
        a == b,
{
    if a < b {
        assert(total(ranked.take(a)) <= target);
    } else if b < a {
        assert(total(ranked.take(b)) <= target);
    }
}

/// A longer run of a ranking sums up to no less than a shorter one.
pub proof fn lemma_total_grows(ranked: Seq<Score>, shorter: int, longer: int)
    requires
        0 <= shorter <= longer <= ranked.len(),
    ensures
        total(ranked.take(shorter)) <= total(ranked.take(longer)),
    decreases longer - shorter,
{
    if shorter < longer {
        lemma_total_grows(ranked, shorter, longer - 1);
        assert(ranked.take(longer).drop_last() == ranked.take(longer - 1));
    }
}

/// Where even all of the ranking does not exceed the target, the saturation
/// set is all of it.
pub proof fn lemma_saturation_takes_all(ranked: Seq<Score>, target: nat, count: int)
    requires
        is_saturation_point(ranked, target, count),
        total(ranked) <= target,
    ensures
        count == ranked.len(),
{
    lemma_total_grows(ranked, count, ranked.len() as int);
    assert(ranked.take(ranked.len() as int) == ranked);
}

/// A first value that only reaches the target does not end the saturation
/// set: it takes more than the target, so the second in the ranking is taken
/// too.
pub proof fn lemma_saturation_goes_on_at_target(ranked: Seq<Score>, target: nat, count: int)
    requires
        is_saturation_point(ranked, target, count),
        ranked.len() >= 2,
        ranked[0].0 <= target,
    ensures
        count >= 2,
{
    assert(ranked.take(0) =~= Seq::empty());
    assert(ranked.take(1).drop_last() == ranked.take(0));
    assert(ranked.take(1).last() == ranked[0]);
    assert(total(ranked.take(1)) == ranked[0].0);
}

/// The saturation set never holds more participants than the repository has,
/// nor than the table has.
pub proof fn lemma_saturation_within_participants(
    names: Seq<char>,
    count: nat,
    participants: Seq<ParticipantView>,
    repo: Seq<char>,
    value: Key,
    num_prs: nat,
    threshold_percentage: nat,
)
    requires
        is_saturation(names, count, participants, repo, value, num_prs, threshold_percentage),
    ensures
        count <= members(participants, repo).len() <= participants.len(),
{
    lemma_ranking(scores(members(participants, repo), value));
    lemma_members_len(participants, repo);
}

/// A repository has no more participants than the table.
pub proof fn lemma_members_len(participants: Seq<ParticipantView>, repo: Seq<char>)
    ensures
        members(participants, repo).len() <= participants.len(),
    decreases participants.len(),
{
    if participants.len() > 0 {
        lemma_members_len(participants.drop_last(), repo);
    }
}

/// How many of the group have a value above zero.
pub open spec fn active_count(group: Seq<ParticipantView>, value: Key) -> nat
    decreases group.len(),
{
    if group.len() == 0 {
        0
    } else {
        active_count(group.drop_last(), value) + if value(group.last()) > 0 {
            1nat
        } else {
            0nat
        }
    }
}

/// The logins of the high contributors of the group, in the order of the
/// table.
pub open spec fn high_contributor_logins(
    group: Seq<ParticipantView>,
    thresholds: HighContributorConfig,
    num_prs: nat,
) -> Seq<Seq<char>>
    decreases group.len(),
{
    if group.len() == 0 {
        Seq::empty()
    } else if is_high(thresholds, num_prs, group.last()) {
        high_contributor_logins(group.drop_last(), thresholds, num_prs).push(
            group.last().participant,
        )
    } else {
        high_contributor_logins(group.drop_last(), thresholds, num_prs)
    }
}

/// Whether every percentage that the report takes of the group can be
/// computed.
pub open spec fn group_fits(group: Seq<ParticipantView>, num_prs: nat) -> bool {
    forall|i: int| 0 <= i < group.len() ==> (#[trigger] group[i]).fits_percentages(num_prs)
}

/// One line of the report on high contributors.
#[derive(Debug)]
pub struct HighContributorRow {
    pub repo: String,
    pub number_of_prs: u64,
    pub total_participants: u64,
    pub total_authors: u64,
    pub total_reviewers: u64,
    pub top_author: String,
    pub top_author_percentage: u64,
    pub top_reviewer: String,
    pub top_reviewer_percentage: u64,
    pub top_participant: String,
    pub top_participant_percentage: u64,
    pub saturation_authors: u64,
    pub saturation_author_names: String,
    pub saturation_reviewers: u64,
    pub saturation_reviewer_names: String,
    pub high_contributors: u64,
    pub high_contributor_names: String,
}

/// Whether the line for `repo` can be computed: the repository is known, and
/// the percentages of its participants fit the machine's integers.
pub open spec fn row_ready(config: &ReportConfig, data: &ReportData, repo: Seq<char>) -> bool {
    let infos = data.repo_infos@;
    let at = repo_index(infos, repo, 0);
    &&& at < infos.len()
    &&& group_fits(members(views(data.repo_participants.participants@), repo), infos[at].num_prs)
}

/// Whether `row` is the line of the report for `repo`.
pub open spec fn is_row_of(
    row: &HighContributorRow,
    config: &ReportConfig,
    data: &ReportData,
    repo: Seq<char>,
) -> bool {
    let thresholds = config.high_contributor;
    let info = data.repo_infos@[repo_index(data.repo_infos@, repo, 0)];
    let all = views(data.repo_participants.participants@);
    let group = members(all, repo);
    let high = high_contributor_logins(group, thresholds, info.num_prs);
    &&& row.repo@ == repo
    &&& row.number_of_prs == info.num_prs
    &&& row.total_participants == active_count(group, Metric::ParticipatedIn.key())
    &&& row.total_authors == active_count(group, Metric::Authored.key())
    &&& row.total_reviewers == active_count(group, Metric::ReviewedOrResolved.key())
    &&& (row.top_author@, row.top_author_percentage as nat) == top_of(
        all,
        repo,
        Metric::Authored.key(),
        info.num_prs,
    )
    &&& (row.top_reviewer@, row.top_reviewer_percentage as nat) == top_of(
        all,
        repo,
        Metric::ReviewedOrResolved.key(),
        info.num_prs,
    )
    &&& (row.top_participant@, row.top_participant_percentage as nat) == top_of(
        all,
        repo,
        Metric::ParticipatedIn.key(),
        info.num_prs,
    )
    &&& is_saturation(
        row.saturation_author_names@,
        row.saturation_authors as nat,
        all,
        repo,
        Metric::Authored.key(),
        info.num_prs,
        thresholds.author_saturation_threshold as nat,
    )
    &&& is_saturation(
        row.saturation_reviewer_names@,
        row.saturation_reviewers as nat,
        all,
        repo,
        Metric::ReviewedOrResolved.key(),
        info.num_prs,
        thresholds.reviewer_saturation_threshold as nat,
    )
    &&& row.high_contributors == high.len()
    &&& row.high_contributor_names@ == joined(high, ","@)
}


/// Whether `a`, valued `x`, scores below `b`, valued `y`.
fn scores_below(x: u64, a: &RepoParticipant, y: u64, b: &RepoParticipant) -> (below: bool)
    ensures
        below == score_lt((x as nat, a@.participant), (y as nat, b@.participant)),
{
    x < y || (x == y && str_lt(a.participant.as_str(), b.participant.as_str()))
}

/// Puts the group in the order of its scores, the greatest first.
fn rank_group<'me>(
    group: &Vec<&'me RepoParticipant>,
    values: &Vec<u64>,
    Ghost(value): Ghost<Key>,
) -> (sorted: (Vec<&'me RepoParticipant>, Vec<u64>))
    requires
        values.len() == group.len(),
        forall|i: int| 0 <= i < group.len() ==> (#[trigger] values[i]) == value(group[i]@),
    ensures
        scores(views_of(sorted.0@), value) == ranking(scores(views_of(group@), value)),
        sorted.1.len() == sorted.0.len(),
        forall|i: int| 0 <= i < sorted.0.len() ==> (#[trigger] sorted.1[i]) == value(sorted.0[i]@),
{
    let ghost all = scores(views_of(group@), value);
    let mut ranked: Vec<&'me RepoParticipant> = Vec::new();
    let mut numbers: Vec<u64> = Vec::new();
    let mut k: usize = 0;
    assert(all.take(0) =~= scores(views_of(ranked@), value));
    while k < group.len()
        invariant
            k <= group.len(),
            values.len() == group.len(),
            forall|i: int| 0 <= i < group.len() ==> (#[trigger] values[i]) == value(group[i]@),
            numbers.len() == ranked.len(),
            forall|i: int|
                0 <= i < ranked.len() ==> (#[trigger] numbers[i]) == value(ranked[i]@),
            all == scores(views_of(group@), value),
            sorted_by(scores(views_of(ranked@), value), at_least()),
            scores(views_of(ranked@), value).to_multiset() == all.take(k as int).to_multiset(),
        decreases group.len() - k,
    {
        let next = group[k];
        let ghost line: Score = (value(next@), next@.participant);
        let ghost before = scores(views_of(ranked@), value);
        let mut at: usize = 0;
        let mut searching = true;
        while searching && at < ranked.len()
            invariant
                at <= ranked.len(),
                k < values.len(),
                numbers.len() == ranked.len(),
                forall|i: int|
                    0 <= i < ranked.len() ==> (#[trigger] numbers[i]) == value(ranked[i]@),
                values[k as int] == value(next@),
                before == scores(views_of(ranked@), value),
                line == (value(next@), next@.participant),
                forall|j: int| 0 <= j < at ==> !score_lt(#[trigger] before[j], line),
                !searching ==> at < ranked.len() && score_lt(before[at as int], line),
            decreases ranked.len() - at + if searching { 1nat } else { 0nat },
        {
            if scores_below(numbers[at], ranked[at], values[k], next) {
                searching = false;
            } else {
                at += 1;
            }
        }
        let ghost numbers_before = numbers@;
        let ghost ranked_before = ranked@;
        ranked.insert(at, next);
        numbers.insert(at, values[k]);
        proof {
            broadcast use {vstd::seq_lib::to_multiset_insert, vstd::seq_lib::to_multiset_build};

            assert forall|i: int| 0 <= i < ranked.len() implies (#[trigger] numbers[i]) == value(
                ranked[i]@,
            ) by {
                if i < at {
                    assert(numbers[i] == numbers_before[i] && ranked[i] == ranked_before[i]);
                } else if i > at {
                    assert(numbers[i] == numbers_before[i - 1] && ranked[i] == ranked_before[i
                        - 1]);
                }
            }
            let after = scores(views_of(ranked@), value);
            assert(after == before.insert(at as int, line));
            assert(all.take(k + 1) == all.take(k as int).push(line));
            assert forall|j: int| at <= j < before.len() implies !score_lt(
                line,
                #[trigger] before[j],
            ) by {
                lemma_score_lt_asymmetric(before[at as int], line);
                if j > at {
                    assert(at_least()(before[at as int], before[j]));
                    if score_lt(line, before[j]) {
                        lemma_score_lt_transitive(before[at as int], line, before[j]);
                    }
                }
            }
            assert forall|i: int, j: int| 0 <= i < j < after.len() implies #[trigger] at_least()(
                after[i],
                after[j],
            ) by {
                lemma_score_lt_irreflexive(line);
                if j < at {
                    assert(at_least()(before[i], before[j]));
                } else if j == at {
                    assert(after[i] == before[i]);
                } else if i < at {
                    assert(at_least()(before[i], before[j - 1]));
                } else if i == at {
                    assert(after[j] == before[j - 1]);
                } else {
                    assert(at_least()(before[i - 1], before[j - 1]));
                }
            }
        }
        k += 1;
    }
    proof {
        assert(all.take(k as int) == all);
        lemma_at_least_is_total();
        all.lemma_sort_by_ensures(at_least());
        lemma_sorted_unique(scores(views_of(ranked@), value), ranking(all), at_least());
    }
    (ranked, numbers)
}

/// How many of the group have a value of `metric` above zero.
fn count_active(group: &Vec<&RepoParticipant>, metric: Metric) -> (count: u64)
    ensures
        count == active_count(views_of(group@), metric.key()),
{
    let ghost all = views_of(group@);
    let mut count: u64 = 0;
    let mut i: usize = 0;
    assert(all.take(0) =~= Seq::empty());
    while i < group.len()
        invariant
            i <= group.len(),
            all == views_of(group@),
            count == active_count(all.take(i as int), metric.key()),
            count <= i,
        decreases group.len() - i,
    {
        proof {
            assert(all.take(i + 1).drop_last() == all.take(i as int));
            assert(all.take(i + 1).last() == group[i as int]@);
        }
        if metric.of(group[i]) > 0 {
            count = count + 1;
        }
        i += 1;
    }
    assert(all.take(i as int) == all);
    count
}

/// The logins of the high contributors of the group.
fn high_contributors_of(
    group: &Vec<&RepoParticipant>,
    config: &ReportConfig,
    repo_info: &RepoInfo,
) -> (logins: Vec<String>)
    requires
        group_fits(views_of(group@), repo_info.num_prs as nat),
    ensures
        texts(logins@) == high_contributor_logins(
            views_of(group@),
            config.high_contributor,
            repo_info.num_prs as nat,
        ),
{
    let ghost all = views_of(group@);
    let mut logins: Vec<String> = Vec::new();
    let mut i: usize = 0;
    assert(all.take(0) =~= Seq::empty());
    while i < group.len()
        invariant
            i <= group.len(),
            all == views_of(group@),
            group_fits(all, repo_info.num_prs as nat),
            texts(logins@) == high_contributor_logins(
                all.take(i as int),
                config.high_contributor,
                repo_info.num_prs as nat,
            ),
        decreases group.len() - i,
    {
        proof {
            assert(all.take(i + 1).drop_last() == all.take(i as int));
            assert(all.take(i + 1).last() == group[i as int]@);
            assert(all[i as int] == group[i as int]@);
        }
        if repo_info.is_high_contributor(config, group[i]) {
            let ghost before = texts(logins@);
            logins.push(group[i].participant.clone());
            assert(texts(logins@) == before.push(group[i as int]@.participant));
        }
        i += 1;
    }
    assert(all.take(i as int) == all);
    logins
}

proof fn lemma_group_fits_push(group: Seq<ParticipantView>, next: ParticipantView, num_prs: nat)
    ensures
        group_fits(group.push(next), num_prs) <==> group_fits(group, num_prs)
            && next.fits_percentages(num_prs),
{
    let longer = group.push(next);
    if group_fits(longer, num_prs) {
        assert forall|i: int| 0 <= i < group.len() implies (#[trigger] group[i]).fits_percentages(
            num_prs,
        ) by {
            assert(longer[i] == group[i]);
        }
        assert(longer[group.len() as int] == next);
    }
}

impl Report {
    /// Whether the line for `repo` can be computed: the repository is known,
    /// and the percentages of its participants fit the machine's integers.
    pub fn row_is_ready(&self, config: &ReportConfig, data: &ReportData, repo: &str) -> (ready: bool)
        ensures
            ready == row_ready(config, data, repo@),
    {
        let at = match data.repo_infos.find(repo) {
            Some(at) => at,
            None => {
                return false;
            },
        };
        let num_prs = data.repo_infos.repos[at].num_prs;
        let ghost all = views(data.repo_participants.participants@);
        let mut fits = true;
        let mut i: usize = 0;
        assert(all.take(0) =~= Seq::empty());
        while i < data.repo_participants.participants.len()
            invariant
                i <= data.repo_participants.participants.len(),
                all == views(data.repo_participants.participants@),
                fits == group_fits(members(all.take(i as int), repo@), num_prs as nat),
            decreases data.repo_participants.participants.len() - i,
        {
            let candidate = &data.repo_participants.participants[i];
            proof {
                assert(all.take(i + 1).drop_last() == all.take(i as int));
                assert(all.take(i + 1).last() == candidate@);
                lemma_group_fits_push(
                    members(all.take(i as int), repo@),
                    candidate@,
                    num_prs as nat,
                );
            }
            if str_eq(candidate.repo.as_str(), repo) && !candidate.fits_percentages(num_prs) {
                fits = false;
            }
            i += 1;
        }
        assert(all.take(i as int) == all);
        fits
    }

    /// The line of the report for each repository of the configuration, in
    /// the order of the configuration.
    pub fn high_contributor_rows(&self, config: &ReportConfig, data: &ReportData) -> (rows: Vec<
        HighContributorRow,
    >)
        requires
            forall|i: int|
                0 <= i < config.github.repos.len() ==> row_ready(
                    config,
                    data,
                    (#[trigger] config.github.repos[i])@,
                ),
        ensures
            rows.len() == config.github.repos.len(),
            forall|i: int|
                0 <= i < rows.len() ==> is_row_of(
                    &#[trigger] rows[i],
                    config,
                    data,
                    config.github.repos[i]@,
                ),
    {
        let mut rows: Vec<HighContributorRow> = Vec::new();
        let mut i: usize = 0;
        while i < config.github.repos.len()
            invariant
                i <= config.github.repos.len(),
                rows.len() == i,
                forall|j: int|
                    0 <= j < config.github.repos.len() ==> row_ready(
                        config,
                        data,
                        (#[trigger] config.github.repos[j])@,
                    ),
                forall|j: int|
                    0 <= j < i ==> is_row_of(
                        &#[trigger] rows[j],
                        config,
                        data,
                        config.github.repos[j]@,
                    ),
            decreases config.github.repos.len() - i,
        {
            let row = self.high_contributor_row(config, data, config.github.repos[i].as_str());
            rows.push(row);
            i += 1;
        }
        rows
    }

    /// The line of the report for the repository named `repo`.
    pub fn high_contributor_row(&self, config: &ReportConfig, data: &ReportData, repo: &str) -> (row:
        HighContributorRow)
        requires
            row_ready(config, data, repo@),
        ensures
            is_row_of(&row, config, data, repo@),
    {
        let repo_info = data.repo_infos.get(repo);
        proof {
            let group = members(views(data.repo_participants.participants@), repo@);
            let num_prs = repo_info.num_prs as nat;
            assert forall|i: int| 0 <= i < group.len() implies percentage_of(
                Metric::Authored.value(#[trigger] group[i]),
                num_prs,
            ) <= u64::MAX && percentage_of(Metric::ReviewedOrResolved.value(group[i]), num_prs)
                <= u64::MAX && percentage_of(Metric::ParticipatedIn.value(group[i]), num_prs)
                <= u64::MAX by {
                assert(group[i].fits_percentages(num_prs));
            }
        }

        proof {
            let group = members(views(data.repo_participants.participants@), repo@);
            let num_prs = repo_info.num_prs as nat;
            assert(metric_fits(group, Metric::Authored.key(), num_prs));
            assert(metric_fits(group, Metric::ReviewedOrResolved.key(), num_prs));
            assert(metric_fits(group, Metric::ParticipatedIn.key(), num_prs));
        }

        let authored = |p: &RepoParticipant| -> (given: u64)
            ensures
                given == Metric::Authored.value(p@),
            { p.authored };
        assert(respects(authored, Metric::Authored.key()));
        let (top_author, top_author_percentage) = data.repo_participants.top_participant(
            repo_info,
            authored,
        );

        let reviewed = |p: &RepoParticipant| -> (given: u64)
            ensures
                given == Metric::ReviewedOrResolved.value(p@),
            { p.reviewed_or_resolved() };
        assert(respects(reviewed, Metric::ReviewedOrResolved.key()));
        let (top_reviewer, top_reviewer_percentage) = data.repo_participants.top_participant(
            repo_info,
            reviewed,
        );

        let reviewed = |p: &RepoParticipant| -> (given: u64)
            ensures
                given == Metric::ReviewedOrResolved.value(p@),
            { p.reviewed_or_resolved() };
        assert(respects(reviewed, Metric::ReviewedOrResolved.key()));
        let (saturation_reviewer_names, saturation_reviewers) = self.saturation(
            data,
            config.high_contributor.reviewer_saturation_threshold,
            repo_info,
            reviewed,
        );

        let authored = |p: &RepoParticipant| -> (given: u64)
            ensures
                given == Metric::Authored.value(p@),
            { p.authored };
        assert(respects(authored, Metric::Authored.key()));
        let (saturation_author_names, saturation_authors) = self.saturation(
            data,
            config.high_contributor.author_saturation_threshold,
            repo_info,
            authored,
        );

        let participated = |p: &RepoParticipant| -> (given: u64)
            ensures
                given == Metric::ParticipatedIn.value(p@),
            { p.participated_in };
        assert(respects(participated, Metric::ParticipatedIn.key()));
        let (top_participant, top_participant_percentage) = data.repo_participants.top_participant(
            repo_info,
            participated,
        );

        let group = data.repo_participants.in_repo(repo_info);
        let total_authors = count_active(&group, Metric::Authored);
        let total_participants = count_active(&group, Metric::ParticipatedIn);
        let total_reviewers = count_active(&group, Metric::ReviewedOrResolved);

        let high_contributors = high_contributors_of(&group, config, repo_info);

        HighContributorRow {
            repo: repo.to_owned(),
            number_of_prs: repo_info.num_prs,
            total_authors,
            total_participants,
            total_reviewers,
            top_author,
            top_author_percentage,
            top_reviewer,
            top_reviewer_percentage,
            top_participant,
            top_participant_percentage,
            saturation_reviewer_names,
            saturation_reviewers,
            saturation_author_names,
            saturation_authors,
            high_contributors: high_contributors.len() as u64,
            high_contributor_names: join(&high_contributors, ","),
        }
    }

    /// Finds how many of the top participants of the repository it takes to
    /// exceed `saturation_threshold_percentage` percent of its pull requests.
    ///
    /// The participants are taken from the greatest value of `key` down, and
    /// among equal values from the last login down.  The result names them,
    /// each with its share of the pull requests, and says how many they
    /// are.
    pub fn saturation<F: Fn(&RepoParticipant) -> u64>(
        &self,
        data: &ReportData,
        saturation_threshold_percentage: u64,
        repo_info: &RepoInfo,
        key: F,
    ) -> (found: (String, u64))
        requires
            exists|value: Key| #[trigger]
                respects(key, value) && metric_fits(
                    members(views(data.repo_participants.participants@), repo_info.repo@),
                    value,
                    repo_info.num_prs as nat,
                ),
        ensures
            forall|value: Key| #[trigger]
                respects(key, value) ==> is_saturation(
                    found.0@,
                    found.1 as nat,
                    views(data.repo_participants.participants@),
                    repo_info.repo@,
                    value,
                    repo_info.num_prs as nat,
                    saturation_threshold_percentage as nat,
                ),
    {
        let ghost num_prs = repo_info.num_prs as nat;
        let ghost chosen = choose|value: Key| #[trigger]
            respects(key, value) && metric_fits(
                members(views(data.repo_participants.participants@), repo_info.repo@),
                value,
                num_prs,
            );
        let group = data.repo_participants.in_repo(repo_info);
        let values = key_values(&group, key, Ghost(chosen));
        let (participants, numbers) = rank_group(&group, &values, Ghost(chosen));
        let ghost ranked = scores(views_of(participants@), chosen);
        proof {
            lemma_ranking(scores(views_of(group@), chosen));
            assert forall|i: int| 0 <= i < ranked.len() implies percentage_of(
                (#[trigger] ranked[i]).0,
                num_prs,
            ) <= u64::MAX by {
                lemma_ranked_fit(scores(views_of(group@), chosen), i);
                let k = choose|k: int|
                    0 <= k < group.len() && scores(views_of(group@), chosen)[k] == ranked[i];
                assert(percentage_of(chosen(views_of(group@)[k]), num_prs) <= u64::MAX);
            }
        }

        // the running total stays at or below the target until the end, so
        // it is held as what is still missing to reach the target
        assert(repo_info.num_prs * saturation_threshold_percentage <= u128::MAX)
            by (nonlinear_arith)
            requires
                repo_info.num_prs <= 0xffff_ffff_ffff_ffff,
                saturation_threshold_percentage <= 0xffff_ffff_ffff_ffff,
        ;
        let target: u128 = (repo_info.num_prs as u128 * saturation_threshold_percentage as u128)
            / 100;
        let mut missing: u128 = target;
        let mut output: Vec<String> = Vec::new();
        let mut i: usize = 0;
        let mut saturated = false;
        assert(ranked.take(0) =~= Seq::empty());
        assert(labels(ranked.take(0), num_prs) =~= texts(output@));
        while !saturated && i < participants.len()
            invariant
                i <= participants.len(),
                ranked == scores(views_of(participants@), chosen),
                numbers.len() == participants.len(),
                forall|j: int|
                    0 <= j < participants.len() ==> (#[trigger] numbers[j]) == chosen(
                        participants[j]@,
                    ),
                num_prs == repo_info.num_prs,
                target == saturation_target(num_prs, saturation_threshold_percentage as nat),
                forall|j: int|
                    0 <= j < ranked.len() ==> percentage_of((#[trigger] ranked[j]).0, num_prs)
                        <= u64::MAX,
                texts(output@) == labels(ranked.take(i as int), num_prs),
                output.len() == i,
                forall|shorter: int|
                    0 <= shorter < i ==> total(#[trigger] ranked.take(shorter)) <= target,
                saturated ==> total(ranked.take(i as int)) > target,
                !saturated ==> missing + total(ranked.take(i as int)) == target,
            decreases participants.len() - i + if saturated { 0nat } else { 1nat },
        {
            let participant = participants[i];
            let count = numbers[i];
            proof {
                assert(ranked.take(i + 1).drop_last() == ranked.take(i as int));
                assert(ranked.take(i + 1).last() == ranked[i as int]);
                assert(ranked[i as int] == (chosen(participant@), participant@.participant));
            }
            let percent = percentage(count, repo_info.num_prs);
            let mut text = participant.participant.clone();
            text.append(" (");
            push_decimal(&mut text, percent);
            text.append("%)");
            let ghost before = texts(output@);
            output.push(text);
            proof {
                assert(texts(output@) == before.push(label(ranked[i as int], num_prs)));
                assert(labels(ranked.take(i + 1), num_prs) == labels(
                    ranked.take(i as int),
                    num_prs,
                ).push(label(ranked[i as int], num_prs)));
            }
            if count as u128 > missing {
                saturated = true;
            } else {
                missing = missing - count as u128;
            }
            i += 1;
        }

        let found = (join(&output, ", "), output.len() as u64);
        proof {
            let all = views(data.repo_participants.participants@);
            let members = views_of(group@);
            assert(is_saturation(
                found.0@,
                found.1 as nat,
                all,
                repo_info.repo@,
                chosen,
                num_prs,
                saturation_threshold_percentage as nat,
            ));
            assert forall|value: Key| #[trigger] respects(key, value) implies is_saturation(
                found.0@,
                found.1 as nat,
                all,
                repo_info.repo@,
                value,
                num_prs,
                saturation_threshold_percentage as nat,
            ) by {
                assert forall|j: int| 0 <= j < members.len() implies value(#[trigger] members[j])
                    == chosen(members[j]) by {
                    assert(call_ensures(key, (group[j],), values[j]));
                }
                assert(scores(members, value) =~= scores(members, chosen));
            }
        }
        found
    }
}

/// Every line of a ranking is one of the scores that it was made of.
proof fn lemma_ranked_fit(scores: Seq<Score>, i: int)
    requires
        0 <= i < scores.len(),
    ensures
        scores.contains(ranking(scores)[i]),
{
    broadcast use vstd::seq_lib::to_multiset_contains;

    lemma_ranking(scores);
    let line = ranking(scores)[i];
    assert(ranking(scores).contains(line));
    assert(ranking(scores).to_multiset().count(line) > 0);
}

} // verus!
