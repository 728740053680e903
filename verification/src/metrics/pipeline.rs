//! A producer and a consumer joined without a channel: what the producer
//! sends is handed to the consumer at once.

use crate::metrics::print::{encoded, entry_record, written_records, ConsumeError, Print};
use crate::metrics::{all_of_width, rows_view, Event, ProducerTask, Step, StepView};
use crate::text::texts;
use std::collections::VecDeque;
use vstd::prelude::*;

verus! {

/// What was collected for each repository, as a mathematical value.
pub open spec fn batches_view(collected: Seq<Vec<Vec<String>>>) -> Seq<Seq<Seq<Seq<char>>>> {
    Seq::new(collected.len(), |i: int| rows_view(collected[i]@))
}

/// The rows of all repositories, repository after repository.
pub open spec fn all_rows(batches: Seq<Seq<Seq<Seq<char>>>>) -> Seq<Seq<Seq<char>>>
    decreases batches.len(),
{
    if batches.len() == 0 {
        Seq::empty()
    } else {
        all_rows(batches.drop_last()) + batches.last()
    }
}

/// The rows of all repositories are those of the first `k` followed by those
/// of the others.
pub proof fn lemma_all_rows_split(batches: Seq<Seq<Seq<Seq<char>>>>, k: int)
    requires
        0 <= k <= batches.len(),
    ensures
        all_rows(batches) == all_rows(batches.take(k)) + all_rows(batches.skip(k)),
    decreases batches.len(),
{
    if k == batches.len() {
        assert(batches.take(k) == batches);
        assert(batches.skip(k) =~= Seq::empty());
        assert(all_rows(batches) =~= all_rows(batches) + Seq::empty());
    } else {
        let shorter = batches.drop_last();
        lemma_all_rows_split(shorter, k);
        assert(shorter.take(k) == batches.take(k));
        assert(batches.skip(k).drop_last() == shorter.skip(k));
        assert(batches.skip(k).last() == batches.last());
        assert(all_rows(batches) =~= all_rows(batches.take(k)) + all_rows(batches.skip(k)));
    }
}

proof fn lemma_all_rows_next(batches: Seq<Seq<Seq<Seq<char>>>>, k: int)
    requires
        0 <= k < batches.len(),
    ensures
        all_rows(batches.take(k + 1)) == all_rows(batches.take(k)) + batches[k],
        all_rows(batches.take(k + 1)).len() <= all_rows(batches).len(),
{
    assert(batches.take(k + 1).drop_last() == batches.take(k));
    assert(batches.take(k + 1).last() == batches[k]);
    lemma_all_rows_split(batches, k + 1);
}

/// Whether the run, with `step` due, has written `done` of the rows of
/// `batches` and will write the others.
spec fn on_course(
    task: ProducerTask,
    step: StepView,
    waiting: Seq<Vec<Vec<String>>>,
    source: Seq<Vec<Vec<String>>>,
    done: Seq<Seq<Seq<char>>>,
) -> bool {
    let batches = batches_view(source);
    match step {
        StepView::Fetch { repo } => {
            &&& !task@.finished
            &&& !task@.sending
            &&& task@.repo == repo
            &&& repo < source.len()
            &&& waiting == source.skip(repo as int)
            &&& done == all_rows(batches.take(repo as int))
        },
        StepView::Send { row } => {
            &&& !task@.finished
            &&& task@.sending
            &&& task@.repo < source.len()
            &&& waiting == source.skip(task@.repo as int + 1)
            &&& done + seq![row] + task@.pending == all_rows(batches.take(task@.repo as int + 1))
        },
        StepView::Done => done == all_rows(batches),
        StepView::Failed { .. } => false,
    }
}

/// How far the run is from its end: in repositories.
spec fn repos_ahead(task: ProducerTask, step: StepView) -> int {
    match step {
        StepView::Fetch { .. } => 2 * (task@.repos - task@.repo) + 1,
        StepView::Send { .. } => 2 * (task@.repos - task@.repo),
        _ => 0,
    }
}

/// How far the run is from its end: in rows of the repository at hand.
spec fn rows_ahead(task: ProducerTask, step: StepView) -> int {
    match step {
        StepView::Send { .. } => task@.pending.len() as int,
        _ => 0,
    }
}

/// Runs a producer over what was collected for each of its repositories and
/// hands every row it sends to a consumer that writes comma-separated
/// values.
///
/// The consumer writes one header and after it every row that was collected,
/// in the order in which it was collected, numbered from one.  The run
/// succeeds where every row has as many fields as there are columns, and is
/// refused where one has more or fewer.
pub fn run_through(column_names: &Vec<String>, collected: Vec<Vec<Vec<String>>>) -> (bytes: Result<
    Vec<u8>,
    ConsumeError,
>)
    requires
        all_rows(batches_view(collected@)).len() < usize::MAX,
    ensures
        bytes is Ok <==> all_of_width(
            all_rows(batches_view(collected@)),
            column_names.len() as nat,
        ),
        match bytes {
            Ok(out) => out@ == encoded(
                written_records(texts(column_names@), all_rows(batches_view(collected@))),
            ),
            Err(error) => error is UnequalLengths,
        },
{
    let ghost names = texts(column_names@);
    let ghost source = collected@;
    let ghost batches = batches_view(source);
    let ghost rows = all_rows(batches);
    let repos = collected.len();
    let mut waiting: VecDeque<Vec<Vec<String>>> = VecDeque::new();
    for batch in it: collected
        invariant
            it.seq() == source,
            waiting@ == source.take(it.index() as int),
    {
        let ghost k = it.index() as int;
        waiting.push_back(batch);
        assert(source.take(k + 1) == source.take(k).push(batch));
    }
    assert(source.take(source.len() as int) == source);
    assert(source.skip(0) == source);

    let mut consumer = Print::new();
    let mut out = match consumer.header(column_names) {
        Ok(encoded) => encoded,
        Err(error) => {
            return Err(error);
        },
    };
    let ghost mut done: Seq<Seq<Seq<char>>> = Seq::empty();
    proof {
        let first = seq![crate::metrics::print::header_record(names)];
        assert(written_records(names, done) =~= first);
        assert(first.drop_last() =~= Seq::<Seq<Seq<char>>>::empty());
        assert(encoded(first.drop_last()) =~= Seq::<u8>::empty());
        assert(encoded(first) =~= out@);
        assert(batches.take(0) =~= Seq::empty());
        if repos == 0 {
            assert(batches =~= Seq::empty());
        }
    }
    let (mut task, mut step) = ProducerTask::start(repos);
    loop
        invariant
            names == texts(column_names@),
            source == collected@,
            batches == batches_view(source),
            rows == all_rows(batches),
            rows.len() < usize::MAX,
            task.well_formed(),
            task@.repos == source.len(),
            on_course(task, step@, waiting@, source, done),
            consumer@.width == Some((column_names.len() + 1) as nat),
            consumer@.rows == done.len(),
            all_of_width(done, column_names.len() as nat),
            out@ == encoded(written_records(names, done)),
        decreases repos_ahead(task, step@), rows_ahead(task, step@),
    {
        match step {
            Step::Fetch { repo } => {
                proof {
                    lemma_all_rows_next(batches, repo as int);
                    assert(source.skip(repo as int)[0] == source[repo as int]);
                    assert(source.skip(repo as int).drop_first() == source.skip(repo + 1));
                }
                let batch = waiting.pop_front().unwrap();
                assert(rows_view(batch@) == batches[repo as int]);
                step = task.on(Event::Fetched { rows: batch });
                proof {
                    let fresh = batches[repo as int];
                    if fresh.len() > 0 {
                        assert(seq![fresh[0]] + fresh.drop_first() =~= fresh);
                        assert(done + seq![fresh[0]] + fresh.drop_first() =~= done + fresh);
                    } else {
                        assert(done + fresh =~= done);
                        if repo + 1 >= source.len() {
                            assert(batches.take(repo + 1) == batches);
                        }
                    }
                }
            },
            Step::Send { row } => {
                let ghost sent = texts(row@);
                let ghost left = task@.pending;
                proof {
                    lemma_all_rows_split(batches, task@.repo as int + 1);
                    let upto = all_rows(batches.take(task@.repo as int + 1));
                    assert(upto[done.len() as int] == sent);
                    assert(rows[done.len() as int] == sent);
                }
                let mut line = match consumer.entry(&row) {
                    Ok(encoded) => encoded,
                    Err(error) => {
                        assert(rows[done.len() as int].len() != column_names.len());
                        return Err(error);
                    },
                };
                out.append(&mut line);
                proof {
                    let shorter = written_records(names, done);
                    let longer = written_records(names, done.push(sent));
                    assert(longer.drop_last() =~= shorter);
                    assert(longer.last() == entry_record((done.len() + 1) as nat, sent));
                    assert(done + seq![sent] =~= done.push(sent));
                    done = done.push(sent);
                }
                step = task.on(Event::Sent);
                proof {
                    if left.len() > 0 {
                        assert(seq![left[0]] + left.drop_first() =~= left);
                        assert(done + seq![left[0]] + left.drop_first() =~= done + left);
                    } else {
                        assert(done + left =~= done);
                        if task@.finished {
                            assert(batches.take(batches.len() as int) == batches);
                        }
                    }
                }
            },
            Step::Finish { outcome } => {
                return Ok(out);
            },
        }
    }
}

} // verus!
