//! The participants of the repositories, as read back from the input tables.

use crate::report::repo_info::RepoInfo;
use crate::text::str_eq;
use crate::util::{percentage, percentage_fits, percentage_of};
use vstd::prelude::*;

verus! {

/// One participant of one repository with the four counters.
#[derive(Debug)]
pub struct RepoParticipant {
    pub row: usize,
    pub participant: String,
    pub repo: String,
    pub participated_in: u64,
    pub authored: u64,
    pub reviewed: u64,
    pub resolved: u64,
}

/// A participant as a mathematical value.
pub struct ParticipantView {
    pub row: nat,
    pub participant: Seq<char>,
    pub repo: Seq<char>,
    pub participated_in: nat,
    pub authored: nat,
    pub reviewed: nat,
    pub resolved: nat,
}

impl ParticipantView {
    /// The larger of the reviews and the merges.
    pub open spec fn reviewed_or_resolved(self) -> nat {
        if self.reviewed >= self.resolved {
            self.reviewed
        } else {
            self.resolved
        }
    }

    /// Whether each metric, as a percentage of `num_prs`, fits the machine's
    /// integers.
    pub open spec fn fits_percentages(self, num_prs: nat) -> bool {
        &&& percentage_of(self.participated_in, num_prs) <= u64::MAX
        &&& percentage_of(self.authored, num_prs) <= u64::MAX
        &&& percentage_of(self.reviewed_or_resolved(), num_prs) <= u64::MAX
    }
}

impl View for RepoParticipant {
    type V = ParticipantView;

    open spec fn view(&self) -> ParticipantView {
        ParticipantView {
            row: self.row as nat,
            participant: self.participant@,
            repo: self.repo@,
            participated_in: self.participated_in as nat,
            authored: self.authored as nat,
            reviewed: self.reviewed as nat,
            resolved: self.resolved as nat,
        }
    }
}

/// The participants of a vector as mathematical values.
pub open spec fn views(participants: Seq<RepoParticipant>) -> Seq<ParticipantView> {
    Seq::new(participants.len(), |i: int| participants[i]@)
}

/// The participants behind a vector of references, as mathematical values.
pub open spec fn views_of(participants: Seq<&RepoParticipant>) -> Seq<ParticipantView> {
    Seq::new(participants.len(), |i: int| participants[i]@)
}

/// A way to value participants, as a mathematical function.
pub type Key = spec_fn(ParticipantView) -> nat;

/// Whether `key` computes `value`: it can be called on every participant, and
/// whatever it gives for one is the value of that participant.
pub open spec fn respects<F: Fn(&RepoParticipant) -> u64>(key: F, value: Key) -> bool {
    &&& forall|participant: &RepoParticipant| #[trigger] call_requires(key, (participant,))
    &&& forall|participant: &RepoParticipant, given: u64| #[trigger]
        call_ensures(key, (participant,), given) ==> given == value(participant@)
}

/// The numbers by which the report compares participants.
#[derive(Clone, Copy, Debug, PartialEq, Eq, Structural)]
pub enum Metric {
    /// Pull requests written.
    Authored,
    /// Pull requests reviewed or merged, whichever is more.
    ReviewedOrResolved,
    /// Pull requests of others taken part in.
    ParticipatedIn,
}

impl Metric {
    /// The value of the metric for `participant`.
    pub open spec fn value(self, participant: ParticipantView) -> nat {
        match self {
            Metric::Authored => participant.authored,
            Metric::ReviewedOrResolved => participant.reviewed_or_resolved(),
            Metric::ParticipatedIn => participant.participated_in,
        }
    }

    /// The metric as a way to value participants.
    pub open spec fn key(self) -> Key {
        |participant: ParticipantView| self.value(participant)
    }

    /// Reads the metric off `participant`.
    pub fn of(self, participant: &RepoParticipant) -> (value: u64)
        ensures
            value == self.value(participant@),
    {
        match self {
            Metric::Authored => participant.authored,
            Metric::ReviewedOrResolved => participant.reviewed_or_resolved(),
            Metric::ParticipatedIn => participant.participated_in,
        }
    }
}

/// The participants of `repo`, in the order of the table.
pub open spec fn members(participants: Seq<ParticipantView>, repo: Seq<char>) -> Seq<
    ParticipantView,
>
    decreases participants.len(),
{
    if participants.len() == 0 {
        Seq::empty()
    } else if participants.last().repo == repo {
        members(participants.drop_last(), repo).push(participants.last())
    } else {
        members(participants.drop_last(), repo)
    }
}

/// The values of each of `participants`.
pub open spec fn metric_values(participants: Seq<ParticipantView>, value: Key) -> Seq<nat> {
    Seq::new(participants.len(), |i: int| value(participants[i]))
}

/// Where the greatest of `values` stands; among equals, the last.
pub open spec fn top_index(values: Seq<nat>) -> int
    decreases values.len(),
{
    if values.len() <= 1 {
        0
    } else {
        let earlier = top_index(values.drop_last());
        if values.last() >= values[earlier] {
            values.len() - 1
        } else {
            earlier
        }
    }
}

/// The top participant of `repo` by `value`: the login and the value as a
/// percentage of `num_prs`; `("N/A", 0)` where the repository has no
/// participant.
pub open spec fn top_of(
    participants: Seq<ParticipantView>,
    repo: Seq<char>,
    value: Key,
    num_prs: nat,
) -> (Seq<char>, nat) {
    let group = members(participants, repo);
    if group.len() == 0 {
        ("N/A"@, 0)
    } else {
        let top = group[top_index(metric_values(group, value))];
        (top.participant, percentage_of(value(top), num_prs))
    }
}

/// Whether the value, as a percentage of `num_prs`, fits the machine's
/// integers for every member of the group.
pub open spec fn metric_fits(group: Seq<ParticipantView>, value: Key, num_prs: nat) -> bool {
    forall|i: int|
        0 <= i < group.len() ==> percentage_of(value(#[trigger] group[i]), num_prs) <= u64::MAX
}

/// Asks `key` for the value of each member of the group, once.
pub(crate) fn key_values<F: Fn(&RepoParticipant) -> u64>(
    group: &Vec<&RepoParticipant>,
    key: F,
    Ghost(value): Ghost<Key>,
) -> (values: Vec<u64>)
    requires
        respects(key, value),
    ensures
        values.len() == group.len(),
        forall|i: int|
            0 <= i < group.len() ==> (#[trigger] values[i]) == value(group[i]@) && call_ensures(
                key,
                (group[i],),
                values[i],
            ),
{
    let mut values: Vec<u64> = Vec::new();
    let mut i: usize = 0;
    while i < group.len()
        invariant
            i <= group.len(),
            values.len() == i,
            respects(key, value),
            forall|j: int|
                0 <= j < i ==> (#[trigger] values[j]) == value(group[j]@) && call_ensures(
                    key,
                    (group[j],),
                    values[j],
                ),
        decreases group.len() - i,
    {
        let given = key(group[i]);
        values.push(given);
        i += 1;
    }
    values
}

/// Two ways to value participants that agree on the members of a group give
/// the same values for it.
pub proof fn lemma_values_agree(group: Seq<ParticipantView>, first: Key, second: Key)
    requires
        forall|i: int| 0 <= i < group.len() ==> first(#[trigger] group[i]) == second(group[i]),
    ensures
        metric_values(group, first) == metric_values(group, second),
{
    assert(metric_values(group, first) =~= metric_values(group, second));
}

/// The greatest value is no smaller than any other and greater than all that
/// follow it.
pub proof fn lemma_top_index(values: Seq<nat>)
    requires
        values.len() > 0,
    ensures
        0 <= top_index(values) < values.len(),
        forall|i: int| 0 <= i < values.len() ==> #[trigger] values[i] <= values[top_index(values)],
        forall|i: int|
            top_index(values) < i < values.len() ==> #[trigger] values[i] < values[top_index(
                values,
            )],
    decreases values.len(),
{
    if values.len() > 1 {
        let shorter = values.drop_last();
        lemma_top_index(shorter);
        let earlier = top_index(shorter);
        assert(shorter[earlier] == values[earlier]);
        assert forall|i: int| 0 <= i < values.len() implies #[trigger] values[i] <= values[top_index(
            values,
        )] by {
            if i < shorter.len() {
                assert(shorter[i] == values[i]);
            }
        }
        assert forall|i: int| top_index(values) < i < values.len() implies #[trigger] values[i]
            < values[top_index(values)] by {
            if i < shorter.len() {
                assert(shorter[i] == values[i]);
            }
        }
    }
}

/// All participants of all repositories.
#[derive(Debug)]
pub struct RepoParticipants {
    pub participants: Vec<RepoParticipant>,
}

impl RepoParticipants {
    /// Finds the participant of the repository with the greatest value of
    /// `key` (the last one, where several share it) and gives the login with
    /// the value as a percentage of the repository's pull requests.
    pub fn top_participant<F: Fn(&RepoParticipant) -> u64>(
        &self,
        repo_info: &RepoInfo,
        key: F,
    ) -> (top: (String, u64))
        requires
            exists|value: Key| #[trigger]
                respects(key, value) && metric_fits(
                    members(views(self.participants@), repo_info.repo@),
                    value,
                    repo_info.num_prs as nat,
                ),
        ensures
            forall|value: Key| #[trigger]
                respects(key, value) ==> (top.0@, top.1 as nat) == top_of(
                    views(self.participants@),
                    repo_info.repo@,
                    value,
                    repo_info.num_prs as nat,
                ),
    {
        let ghost num_prs = repo_info.num_prs as nat;
        let ghost chosen = choose|value: Key| #[trigger]
            respects(key, value) && metric_fits(
                members(views(self.participants@), repo_info.repo@),
                value,
                num_prs,
            );
        let group = self.in_repo(repo_info);
        let ghost members = views_of(group@);
        let values = key_values(&group, key, Ghost(chosen));
        let ghost numbers = metric_values(members, chosen);
        if group.len() == 0 {
            return ("N/A".to_owned(), 0);
        }
        let mut best: usize = 0;
        let mut i: usize = 1;
        assert(numbers.take(1).len() == 1);
        while i < group.len()
            invariant
                1 <= i <= group.len(),
                values.len() == group.len(),
                members == views_of(group@),
                numbers == metric_values(members, chosen),
                forall|j: int| 0 <= j < group.len() ==> (#[trigger] values[j]) == numbers[j],
                best == top_index(numbers.take(i as int)),
                best < i,
            decreases group.len() - i,
        {
            proof {
                assert(numbers.take(i + 1).drop_last() == numbers.take(i as int));
                assert(numbers.take(i + 1).last() == numbers[i as int]);
                assert(numbers.take(i as int)[best as int] == numbers[best as int]);
            }
            if values[i] >= values[best] {
                best = i;
            }
            i += 1;
        }
        assert(numbers.take(i as int) == numbers);
        let top = group[best];
        let found = (top.participant.clone(), percentage(values[best], repo_info.num_prs));
        proof {
            assert forall|value: Key| #[trigger] respects(key, value) implies (
                found.0@,
                found.1 as nat,
            ) == top_of(views(self.participants@), repo_info.repo@, value, num_prs) by {
                assert forall|j: int| 0 <= j < members.len() implies value(#[trigger] members[j])
                    == chosen(members[j]) by {
                    assert(call_ensures(key, (group[j],), values[j]));
                }
                lemma_values_agree(members, value, chosen);
            }
        }
        found
    }

    /// The participants of the repository, in the order of the table.
    pub fn in_repo<'me>(&'me self, repo_info: &RepoInfo) -> (group: Vec<&'me RepoParticipant>)
        ensures
            views_of(group@) == members(views(self.participants@), repo_info.repo@),
    {
        let ghost all = views(self.participants@);
        let mut group: Vec<&'me RepoParticipant> = Vec::new();
        let mut i: usize = 0;
        assert(all.take(0) =~= Seq::empty());
        while i < self.participants.len()
            invariant
                i <= self.participants.len(),
                all == views(self.participants@),
                views_of(group@) == members(all.take(i as int), repo_info.repo@),
            decreases self.participants.len() - i,
        {
            let candidate = &self.participants[i];
            proof {
                assert(all.take(i + 1).drop_last() == all.take(i as int));
                assert(all.take(i + 1).last() == candidate@);
            }
            if str_eq(candidate.repo.as_str(), repo_info.repo.as_str()) {
                let ghost before = views_of(group@);
                group.push(candidate);
                assert(views_of(group@) == before.push(candidate@));
            }
            i += 1;
        }
        assert(all.take(i as int) == all);
        group
    }
}

impl RepoParticipant {
    /// The larger of the reviews and the merges.
    pub fn reviewed_or_resolved(&self) -> (most: u64)
        ensures
            most == self@.reviewed_or_resolved(),
    {
        if self.reviewed >= self.resolved {
            self.reviewed
        } else {
            self.resolved
        }
    }

    /// Whether each metric, as a percentage of `num_prs`, fits the machine's
    /// integers.
    pub fn fits_percentages(&self, num_prs: u64) -> (fits: bool)
        ensures
            fits == self@.fits_percentages(num_prs as nat),
    {
        percentage_fits(self.participated_in, num_prs) && percentage_fits(self.authored, num_prs)
            && percentage_fits(self.reviewed_or_resolved(), num_prs)
    }
}

/// Whether `login` is one of the known automation accounts, which take no part
/// in the report.
pub open spec fn is_robot_login(login: Seq<char>) -> bool {
    ||| login == "rust-highfive"@
    ||| login == "bors"@
    ||| login == "rustbot"@
    ||| login == "rust-log-analyzer"@
    ||| login == "rust-timer"@
    ||| login == "rfcbot"@
}

/// Whether `login` is one of the known automation accounts.
pub fn is_robot(login: &str) -> (robot: bool)
    ensures
        robot == is_robot_login(login@),
{
    str_eq(login, "rust-highfive") || str_eq(login, "bors") || str_eq(login, "rustbot") || str_eq(
        login,
        "rust-log-analyzer",
    ) || str_eq(login, "rust-timer") || str_eq(login, "rfcbot")
}


/// The participants that are no automation accounts, in the order of the
/// table.
pub open spec fn humans(participants: Seq<ParticipantView>) -> Seq<ParticipantView>
    decreases participants.len(),
{
    if participants.len() == 0 {
        Seq::empty()
    } else if is_robot_login(participants.last().participant) {
        humans(participants.drop_last())
    } else {
        humans(participants.drop_last()).push(participants.last())
    }
}

/// None of the participants that are kept is an automation account.
pub proof fn lemma_humans_are_no_robots(participants: Seq<ParticipantView>)
    ensures
        forall|i: int|
            0 <= i < humans(participants).len() ==> !is_robot_login(
                (#[trigger] humans(participants)[i]).participant,
            ),
    decreases participants.len(),
{
    if participants.len() > 0 {
        let earlier = humans(participants.drop_last());
        lemma_humans_are_no_robots(participants.drop_last());
        assert forall|i: int| 0 <= i < humans(participants).len() implies !is_robot_login(
            (#[trigger] humans(participants)[i]).participant,
        ) by {
            if i < earlier.len() {
                assert(humans(participants)[i] == earlier[i]);
            }
        }
    }
}

impl RepoParticipants {
    /// Takes the records of the participant table in, leaving out the known
    /// automation accounts.
    pub fn parse_participants(records: Vec<RepoParticipant>) -> (parsed: Self)
        ensures
            views(parsed.participants@) == humans(views(records@)),
    {
        let ghost all = views(records@);
        let mut participants: Vec<RepoParticipant> = Vec::new();
        assert(all.take(0) =~= Seq::empty());
        assert(views(participants@) =~= Seq::empty());
        for record in it: records
            invariant
                all == views(it.seq()),
                views(participants@) == humans(all.take(it.index() as int)),
        {
            proof {
                let k = it.index() as int;
                assert(all.take(k + 1).drop_last() == all.take(k));
                assert(all.take(k + 1).last() == record@);
            }
            if !is_robot(record.participant.as_str()) {
                let ghost before = views(participants@);
                participants.push(record);
                assert(views(participants@) == before.push(record@));
            }
        }
        assert(all.take(all.len() as int) == all);
        Self { participants }
    }
}

} // verus!
