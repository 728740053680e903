//! Collecting the metrics: paged queries, the producers of rows and the
//! consumers that write them out.
//!
//! A producer declares its column names and then hands out rows, one for each
//! record; a consumer writes a header and then one line for each row it gets,
//! in the order in which they come.  The two are joined by a bounded channel.
//! What is decided on the way stands here; the waiting is left to whoever
//! runs the two.

use crate::text::texts;
use std::collections::VecDeque;
use vstd::prelude::*;
use vstd::string::*;

pub mod export_to_sheets;
pub mod gql;
pub mod issue_closures;
pub mod list_repos;
pub mod paginator;
pub mod pipeline;
pub mod print;
pub mod repo_participants;
pub mod util;

pub use export_to_sheets::ExportToSheets;
pub use gql::Graphql;
pub use issue_closures::IssueClosures;
pub use list_repos::ListReposForOrg;
pub use print::Print;
pub use repo_participants::RepoParticipants;

verus! {

/// How many rows the channel between a producer and its consumer holds
/// before the producer has to wait.
pub const CHANNEL_CAPACITY: usize = 400;

/// The rows of a vector as mathematical values.
pub open spec fn rows_view(rows: Seq<Vec<String>>) -> Seq<Seq<Seq<char>>> {
    Seq::new(rows.len(), |i: int| texts(rows[i]@))
}

/// Whether every row has `width` fields.
pub open spec fn all_of_width(rows: Seq<Seq<Seq<char>>>, width: nat) -> bool {
    forall|i: int| 0 <= i < rows.len() ==> (#[trigger] rows[i]).len() == width
}

/// A unit of work that produces rows under fixed column names.
pub trait Producer {
    /// The column names, as a mathematical value.
    spec fn columns(&self) -> Seq<Seq<char>>;

    /// What the columns of the rows are called.
    fn column_names(&self) -> (names: Vec<String>)
        ensures
            texts(names@) == self.columns(),
    ;
}

/// What is said when a producer has failed.
pub open spec fn failure_notice(reason: Seq<char>) -> Seq<char> {
    "Encountered an error while collecting data: "@ + reason
}

/// Words the notice for a producer that failed for `reason`.
pub fn producer_failure_notice(reason: &str) -> (notice: String)
    ensures
        notice@ == failure_notice(reason@),
{
    let mut notice = "Encountered an error while collecting data: ".to_owned();
    notice.append(reason);
    notice
}

/// What a producer does next.
pub enum Step {
    /// Collect the data of the repository at this place of the list.
    Fetch { repo: usize },
    /// Hand this row to the channel.
    Send { row: Vec<String> },
    /// Stop: in good order, or with the reason for which collecting failed.
    Finish { outcome: Result<(), String> },
}

/// What happened to the last step of a producer.
pub enum Event {
    /// The data was collected and gave these rows.
    Fetched { rows: Vec<Vec<String>> },
    /// The data could not be collected.
    FetchFailed { reason: String },
    /// The row is in the channel.
    Sent,
    /// The row could not be handed over: nobody listens any more.
    ReceiverGone,
}

/// The state of a producer's run as a mathematical value.
pub struct TaskState {
    /// How many repositories there are.
    pub repos: nat,
    /// Which repository is being worked on.
    pub repo: nat,
    /// The rows of that repository that are still to be sent.
    pub pending: Seq<Seq<Seq<char>>>,
    /// Whether a row is on its way to the channel.
    pub sending: bool,
    /// Whether the run has ended.
    pub finished: bool,
}

/// A step as a mathematical value.
pub enum StepView {
    Fetch { repo: nat },
    Send { row: Seq<Seq<char>> },
    Done,
    Failed { reason: Seq<char> },
}

impl View for Step {
    type V = StepView;

    open spec fn view(&self) -> StepView {
        match self {
            Step::Fetch { repo } => StepView::Fetch { repo: *repo as nat },
            Step::Send { row } => StepView::Send { row: texts(row@) },
            Step::Finish { outcome: Ok(_) } => StepView::Done,
            Step::Finish { outcome: Err(reason) } => StepView::Failed { reason: reason@ },
        }
    }
}

/// Whether `event` can answer the last step of a run in `state`: a row that
/// is on its way is sent or not; otherwise data is collected or not.
pub open spec fn answers(state: TaskState, event: Event) -> bool {
    !state.finished && match event {
        Event::Fetched { .. } | Event::FetchFailed { .. } => !state.sending,
        Event::Sent | Event::ReceiverGone => state.sending,
    }
}

/// The run once the rows in `pending` are all that is left of repository
/// `repo`: the first of them goes out next, and where there is none the next
/// repository is turned to, or the run ends.
pub open spec fn proceed(repos: nat, repo: nat, pending: Seq<Seq<Seq<char>>>) -> (TaskState, StepView) {
    if pending.len() > 0 {
        (
            TaskState { repos, repo, pending: pending.drop_first(), sending: true, finished: false },
            StepView::Send { row: pending[0] },
        )
    } else if repo + 1 < repos {
        (
            TaskState {
                repos,
                repo: repo + 1,
                pending: Seq::empty(),
                sending: false,
                finished: false,
            },
            StepView::Fetch { repo: repo + 1 },
        )
    } else {
        (
            TaskState { repos, repo, pending: Seq::empty(), sending: false, finished: true },
            StepView::Done,
        )
    }
}

/// How a run goes on after `event`.
///
/// Rows go out in the order in which they were collected, repository after
/// repository.  A failure to collect ends the run with its reason; rows that
/// went out before stay out.  A row that nobody takes ends the run in good
/// order.
pub open spec fn react(state: TaskState, event: Event) -> (TaskState, StepView) {
    match event {
        Event::Fetched { rows } => proceed(state.repos, state.repo, rows_view(rows@)),
        Event::FetchFailed { reason } => (
            TaskState { pending: Seq::empty(), sending: false, finished: true, ..state },
            StepView::Failed { reason: reason@ },
        ),
        Event::Sent => proceed(state.repos, state.repo, state.pending),
        Event::ReceiverGone => (
            TaskState { pending: Seq::empty(), sending: false, finished: true, ..state },
            StepView::Done,
        ),
    }
}

/// The run of a producer over its repositories.
pub struct ProducerTask {
    repos: usize,
    repo: usize,
    pending: VecDeque<Vec<String>>,
    sending: bool,
    finished: bool,
}

impl View for ProducerTask {
    type V = TaskState;

    closed spec fn view(&self) -> TaskState {
        TaskState {
            repos: self.repos as nat,
            repo: self.repo as nat,
            pending: rows_view(self.pending@),
            sending: self.sending,
            finished: self.finished,
        }
    }
}

impl ProducerTask {
    /// Starts a run over `repos` repositories and says what to do first:
    /// collect the first repository, or stop where there is none.
    pub fn start(repos: usize) -> (begun: (ProducerTask, Step))
        ensures
            begun.0@.repos == repos,
            begun.0@.repo == 0,
            begun.0@.pending.len() == 0,
            !begun.0@.sending,
            begun.0@.finished == (repos == 0),
            begun.1@ == if repos == 0 {
                StepView::Done
            } else {
                StepView::Fetch { repo: 0 }
            },
    {
        let task = ProducerTask {
            repos,
            repo: 0,
            pending: VecDeque::new(),
            sending: false,
            finished: repos == 0,
        };
        if repos == 0 {
            (task, Step::Finish { outcome: Ok(()) })
        } else {
            (task, Step::Fetch { repo: 0 })
        }
    }

    /// Whether the run has ended.
    pub fn is_finished(&self) -> (finished: bool)
        ensures
            finished == self@.finished,
    {
        self.finished
    }

    fn go_on(&mut self) -> (step: Step)
        requires
            !old(self).finished,
            old(self).repo < old(self).repos,
        ensures
            (final(self)@, step@) == proceed(old(self)@.repos, old(self)@.repo, old(self)@.pending),
            !final(self).finished ==> final(self).repo < final(self).repos,
    {
        let ghost before = self.pending@;
        match self.pending.pop_front() {
            Some(row) => {
                self.sending = true;
                proof {
                    assert(rows_view(self.pending@) =~= rows_view(before).drop_first());
                }
                Step::Send { row }
            },
            None => {
                self.sending = false;
                assert(rows_view(self.pending@) =~= Seq::empty());
                if self.repo + 1 < self.repos {
                    self.repo = self.repo + 1;
                    Step::Fetch { repo: self.repo }
                } else {
                    self.finished = true;
                    Step::Finish { outcome: Ok(()) }
                }
            },
        }
    }

    /// Takes in what happened to the last step and says what to do next.
    pub fn on(&mut self, event: Event) -> (step: Step)
        requires
            answers(old(self)@, event),
            old(self).well_formed(),
        ensures
            (final(self)@, step@) == react(old(self)@, event),
            final(self).well_formed(),
    {
        match event {
            Event::Fetched { rows } => {
                let ghost all = rows@;
                self.pending = VecDeque::new();
                for row in it: rows
                    invariant
                        it.seq() == all,
                        self.pending@ == all.take(it.index() as int),
                        self.repos == old(self).repos,
                        self.repo == old(self).repo,
                        self.finished == old(self).finished,
                {
                    let ghost k = it.index() as int;
                    self.pending.push_back(row);
                    assert(all.take(k + 1) == all.take(k).push(row));
                }
                assert(all.take(all.len() as int) == all);
                self.go_on()
            },
            Event::FetchFailed { reason } => {
                self.pending = VecDeque::new();
                self.sending = false;
                self.finished = true;
                assert(rows_view(self.pending@) =~= Seq::empty());
                Step::Finish { outcome: Err(reason) }
            },
            Event::Sent => self.go_on(),
            Event::ReceiverGone => {
                self.pending = VecDeque::new();
                self.sending = false;
                self.finished = true;
                assert(rows_view(self.pending@) =~= Seq::empty());
                Step::Finish { outcome: Ok(()) }
            },
        }
    }

    /// A run that has not ended works on one of its repositories.
    pub open spec fn well_formed(&self) -> bool {
        !self@.finished ==> self@.repo < self@.repos
    }
}


/// The rows that go out, one after another, once `pending` is all that is
/// left of a repository and every row is taken: they are followed until
/// something other than a row is due.
pub open spec fn outgoing(repos: nat, repo: nat, pending: Seq<Seq<Seq<char>>>) -> Seq<Seq<Seq<char>>>
    decreases pending.len(),
{
    match proceed(repos, repo, pending) {
        (state, StepView::Send { row }) => seq![row] + outgoing(repos, repo, state.pending),
        _ => Seq::empty(),
    }
}

/// The rows of a repository go out as they were collected: all of them, in
/// the same order, none twice.
pub proof fn lemma_rows_go_out_in_order(repos: nat, repo: nat, rows: Seq<Seq<Seq<char>>>)
    ensures
        outgoing(repos, repo, rows) == rows,
    decreases rows.len(),
{
    if rows.len() > 0 {
        lemma_rows_go_out_in_order(repos, repo, rows.drop_first());
        assert(seq![rows[0]] + rows.drop_first() =~= rows);
    }
}

} // verus!
