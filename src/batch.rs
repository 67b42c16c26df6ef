use vstd::prelude::*;

use crate::genotype::ParseSummary;

verus! {

/// How the processing of one file ended.
#[derive(Debug, Clone)]
pub enum FileOutcome {
    /// Parsed and stored, with its row counts.
    Done(ParseSummary),
    /// Left alone because the store already holds it.
    AlreadyRecorded,
    /// Aborted, with a message.
    Failed(String),
}

/// One file of a batch and how it ended.
#[derive(Debug, Clone)]
pub struct FileReport {
    pub path: String,
    pub outcome: FileOutcome,
}

/// What a batch yields: the number of files attempted, the files that were parsed with
/// their counts, and the files that failed with their messages, in input order.
#[derive(Debug, Clone)]
pub struct BatchResult {
    pub files_attempted: usize,
    pub successes: Vec<(String, ParseSummary)>,
    pub failures: Vec<(String, String)>,
}

/// Why a batch cannot start.
#[derive(Debug, Clone, Copy, PartialEq, Eq, Structural)]
pub enum BatchError {
    /// No input file was given or discovered.
    NoInputs,
}

/// The size of the worker pool for a requested thread count.
pub fn worker_count(requested: usize) -> (r: usize)
    ensures
        r == if requested == 0 {
            1
        } else {
            requested
        },
{
    if requested == 0 {
        1
    } else {
        requested
    }
}

/// A batch needs at least one input file.
pub fn check_inputs(files: &[String]) -> (r: Result<(), BatchError>)
    ensures
        r is Err <==> files@.len() == 0,
        r is Err ==> r == Err::<(), BatchError>(BatchError::NoInputs),
{
    if files.len() == 0 {
        Err(BatchError::NoInputs)
    } else {
        Ok(())
    }
}

/// Whether a file is processed: it is left alone only when the caller asked to skip
/// recorded files and the store already records it.
pub fn should_process(skip_if_recorded: bool, already_recorded: bool) -> (r: bool)
    ensures
        r == !(skip_if_recorded && already_recorded),
{
    !(skip_if_recorded && already_recorded)
}

/// The parsed files of a batch with their counts, in input order.
pub open spec fn successes_spec(rs: Seq<FileReport>) -> Seq<(Seq<char>, ParseSummary)>
    decreases rs.len(),
{
    if rs.len() == 0 {
        Seq::empty()
    } else {
        let prev = successes_spec(rs.drop_last());
        match rs.last().outcome {
            FileOutcome::Done(s) => prev.push((rs.last().path@, s)),
            _ => prev,
        }
    }
}

/// The failed files of a batch with their messages, in input order.
pub open spec fn failures_spec(rs: Seq<FileReport>) -> Seq<(Seq<char>, Seq<char>)>
    decreases rs.len(),
{
    if rs.len() == 0 {
        Seq::empty()
    } else {
        let prev = failures_spec(rs.drop_last());
        match rs.last().outcome {
            FileOutcome::Failed(m) => prev.push((rs.last().path@, m@)),
            _ => prev,
        }
    }
}

/// The files of a batch that were left alone.
pub open spec fn recorded_count(rs: Seq<FileReport>) -> nat
    decreases rs.len(),
{
    if rs.len() == 0 {
        0
    } else {
        recorded_count(rs.drop_last()) + match rs.last().outcome {
            FileOutcome::AlreadyRecorded => 1nat,
            _ => 0nat,
        }
    }
}

pub open spec fn view_successes(v: Seq<(String, ParseSummary)>) -> Seq<(Seq<char>, ParseSummary)> {
    v.map_values(|x: (String, ParseSummary)| (x.0@, x.1))
}

pub open spec fn view_failures(v: Seq<(String, String)>) -> Seq<(Seq<char>, Seq<char>)> {
    v.map_values(|x: (String, String)| (x.0@, x.1@))
}

/// Gathers the per-file outcomes of a batch. One file's failure affects no other entry.
pub fn collect_batch(reports: &[FileReport]) -> (r: BatchResult)
    ensures
        r.files_attempted == reports@.len(),
        view_successes(r.successes@) == successes_spec(reports@),
        view_failures(r.failures@) == failures_spec(reports@),
{
    let mut successes: Vec<(String, ParseSummary)> = Vec::new();
    let mut failures: Vec<(String, String)> = Vec::new();
    let mut i: usize = 0;
    assert(reports@.take(0) =~= Seq::<FileReport>::empty());
    assert(view_successes(successes@) =~= Seq::<(Seq<char>, ParseSummary)>::empty());
    assert(view_failures(failures@) =~= Seq::<(Seq<char>, Seq<char>)>::empty());
    while i < reports.len()
        invariant
            i <= reports@.len(),
            view_successes(successes@) == successes_spec(reports@.take(i as int)),
            view_failures(failures@) == failures_spec(reports@.take(i as int)),
        decreases reports.len() - i,
    {
        let rep = &reports[i];
        assert(reports@.take(i + 1).drop_last() =~= reports@.take(i as int));
        assert(reports@.take(i + 1).last() == reports@[i as int]);
        let ghost old_s = successes@;
        let ghost old_f = failures@;
        match &rep.outcome {
            FileOutcome::Done(s) => {
                successes.push((rep.path.clone(), *s));
                assert(view_successes(successes@) =~= view_successes(old_s).push(
                    (rep.path@, *s),
                ));
            },
            FileOutcome::AlreadyRecorded => {},
            FileOutcome::Failed(m) => {
                failures.push((rep.path.clone(), m.clone()));
                assert(view_failures(failures@) =~= view_failures(old_f).push(
                    (rep.path@, m@),
                ));
            },
        }
        i += 1;
    }
    assert(reports@.take(reports@.len() as int) =~= reports@);
    BatchResult { files_attempted: reports.len(), successes, failures }
}

proof fn lemma_batch_counts(rs: Seq<FileReport>)
    ensures
        successes_spec(rs).len() + failures_spec(rs).len() + recorded_count(rs) == rs.len(),
    decreases rs.len(),
{
    if rs.len() > 0 {
        lemma_batch_counts(rs.drop_last());
    }
}

/// Batch isolation: every file is accounted for exactly once (parsed, left alone, or
/// failed), and taking a failed file out of the batch changes neither the parsed files
/// nor the other failures, wherever it stood in the input order.
pub proof fn lemma_batch_isolation(rs: Seq<FileReport>, i: int)
    requires
        0 <= i < rs.len(),
        rs[i].outcome is Failed,
    ensures
        successes_spec(rs).len() + failures_spec(rs).len() + recorded_count(rs) == rs.len(),
        successes_spec(rs.remove(i)) == successes_spec(rs),
        failures_spec(rs.remove(i)) == failures_spec(rs).remove(failures_spec(rs.take(i)).len() as int),
        failures_spec(rs.take(i)).len() < failures_spec(rs).len(),
    decreases rs.len(),
{
    lemma_batch_counts(rs);
    lemma_failures_prefix(rs, i);
    if i == rs.len() - 1 {
        assert(rs.remove(i) =~= rs.drop_last());
        assert(rs.take(i) =~= rs.drop_last());
        assert(failures_spec(rs).remove(failures_spec(rs.take(i)).len() as int) =~= failures_spec(
            rs.drop_last(),
        ));
    } else {
        let d = rs.drop_last();
        lemma_batch_isolation(d, i);
        assert(rs.remove(i).drop_last() =~= d.remove(i));
        assert(rs.remove(i).last() == rs.last());
        assert(d.take(i) =~= rs.take(i));
        let k = failures_spec(rs.take(i)).len() as int;
        match rs.last().outcome {
            FileOutcome::Failed(m) => {
                assert(failures_spec(rs).remove(k) =~= failures_spec(d).remove(k).push(
                    (rs.last().path@, m@),
                ));
            },
            _ => {},
        }
    }
}

proof fn lemma_failures_prefix(rs: Seq<FileReport>, i: int)
    requires
        0 <= i < rs.len(),
        rs[i].outcome is Failed,
    ensures
        failures_spec(rs.take(i)).len() < failures_spec(rs).len(),
    decreases rs.len(),
{
    if i == rs.len() - 1 {
        assert(rs.take(i) =~= rs.drop_last());
    } else {
        let d = rs.drop_last();
        lemma_failures_prefix(d, i);
        assert(d.take(i) =~= rs.take(i));
    }
}

/// The failure entry of a report, if it failed.
pub open spec fn failure_entry(r: FileReport) -> Option<(Seq<char>, Seq<char>)> {
    match r.outcome {
        FileOutcome::Failed(m) => Some((r.path@, m@)),
        _ => None,
    }
}

/// Wherever a file stands in the input order, its outcome is listed: a parsed file among
/// the successes with its counts, a failed file among the failures with its message.
/// And every listed failure comes from a failed file of the batch.
pub proof fn lemma_batch_membership(rs: Seq<FileReport>, i: int)
    requires
        0 <= i < rs.len(),
    ensures
        rs[i].outcome matches FileOutcome::Done(s) ==> successes_spec(rs).contains(
            (rs[i].path@, s),
        ),
        rs[i].outcome matches FileOutcome::Failed(m) ==> failures_spec(rs).contains(
            (rs[i].path@, m@),
        ),
        forall|k: int|
            0 <= k < failures_spec(rs).len() ==> exists|j: int|
                0 <= j < rs.len() && failure_entry(#[trigger] rs[j]) == Some(
                    #[trigger] failures_spec(rs)[k],
                ),
    decreases rs.len(),
{
    let d = rs.drop_last();
    if rs.len() > 1 {
        if i < rs.len() - 1 {
            lemma_batch_membership(d, i);
            assert(d[i] == rs[i]);
        } else {
            lemma_batch_membership(d, 0);
        }
    }
    let fs = failures_spec(rs);
    let fd = failures_spec(d);
    assert forall|k: int| 0 <= k < fs.len() implies exists|j: int|
        0 <= j < rs.len() && failure_entry(#[trigger] rs[j]) == Some(#[trigger] fs[k]) by {
        if k < fd.len() {
            assert(fs[k] == fd[k]) by {
                match rs.last().outcome {
                    FileOutcome::Failed(m) => {
                        assert(fs == fd.push((rs.last().path@, m@)));
                    },
                    _ => {},
                }
            }
            let j = choose|j: int| 0 <= j < d.len() && failure_entry(#[trigger] d[j]) == Some(fd[k]);
            assert(d[j] == rs[j]);
        } else {
            let j = rs.len() - 1;
            assert(failure_entry(rs[j]) == Some(fs[k]));
        }
    }
    if i == rs.len() - 1 {
        match rs[i].outcome {
            FileOutcome::Done(s) => {
                assert(successes_spec(rs).last() == (rs[i].path@, s));
                assert(successes_spec(rs).contains((rs[i].path@, s)));
            },
            FileOutcome::Failed(m) => {
                assert(fs.last() == (rs[i].path@, m@));
                assert(fs.contains((rs[i].path@, m@)));
            },
            _ => {},
        }
    } else {
        match rs[i].outcome {
            FileOutcome::Done(s) => {
                let ss = successes_spec(d);
                let k = choose|k: int| 0 <= k < ss.len() && ss[k] == (rs[i].path@, s);
                assert(successes_spec(rs)[k] == ss[k]);
            },
            FileOutcome::Failed(m) => {
                let k = choose|k: int| 0 <= k < fd.len() && fd[k] == (rs[i].path@, m@);
                assert(fs[k] == fd[k]);
            },
            _ => {},
        }
    }
}

} // verus!
