use crate::document::{read_run, run_of, SourceFile};
use crate::run::{views, Kind, RunView, TestRun};
use crate::strmap::lemma_deep_insert;
use vstd::prelude::*;

verus! {

/// Whether any of `runs` is of `commit`.
pub open spec fn has_commit(runs: Seq<RunView>, commit: Seq<char>) -> bool {
    exists|i: int| 0 <= i < runs.len() && #[trigger] runs[i].commit == commit
}

/// Whether `at` is the place of the first of `runs` that is of `commit`.
pub open spec fn is_commit_index(runs: Seq<RunView>, commit: Seq<char>, at: int) -> bool {
    &&& 0 <= at < runs.len()
    &&& runs[at].commit == commit
    &&& forall|i: int| 0 <= i < at ==> runs[i].commit != commit
}

/// The place of the first of `runs` that is of `commit`, where one is.
pub open spec fn commit_index(runs: Seq<RunView>, commit: Seq<char>) -> int {
    choose|at: int| is_commit_index(runs, commit, at)
}

/// No two of `runs` are of one commit.
pub open spec fn distinct_commits(runs: Seq<RunView>) -> bool {
    forall|i: int, j: int| 0 <= i < j < runs.len() ==> runs[i].commit != runs[j].commit
}

/// A run after another run of its commit has been merged into it: it keeps
/// its date and kind, and holds the crates of both; for a crate that both
/// have, the timings of the incoming run.
pub open spec fn merged(held: RunView, incoming: RunView) -> RunView {
    RunView {
        date: held.date,
        commit: held.commit,
        kind: held.kind,
        by_crate: held.by_crate.union_prefer_right(incoming.by_crate),
    }
}

/// A series after one more run has arrived: merged into the run of its
/// commit where there is one, else added at the end.
pub open spec fn added(runs: Seq<RunView>, run: RunView) -> Seq<RunView> {
    if has_commit(runs, run.commit) {
        runs.update(
            commit_index(runs, run.commit),
            merged(runs[commit_index(runs, run.commit)], run),
        )
    } else {
        runs.push(run)
    }
}

/// The place of the first run of a commit is the one chosen.
pub proof fn lemma_commit_index(runs: Seq<RunView>, commit: Seq<char>, at: int)
    requires
        is_commit_index(runs, commit, at),
    ensures
        has_commit(runs, commit),
        commit_index(runs, commit) == at,
{
}

/// A series without two runs of one commit stays so when a run arrives, and
/// grows by one run unless the run was merged.
pub proof fn lemma_added_distinct(runs: Seq<RunView>, run: RunView)
    requires
        distinct_commits(runs),
    ensures
        distinct_commits(added(runs, run)),
        added(runs, run).len() == runs.len() + if has_commit(runs, run.commit) {
            0int
        } else {
            1int
        },
{
    if has_commit(runs, run.commit) {
        let i = choose|i: int| 0 <= i < runs.len() && #[trigger] runs[i].commit == run.commit;
        lemma_first_commit(runs, run.commit, i);
        let at = commit_index(runs, run.commit);
        assert(is_commit_index(runs, run.commit, at));
    } else {
        let grown = runs.push(run);
        assert forall|i: int, j: int| 0 <= i < j < grown.len() implies grown[i].commit
            != grown[j].commit by {
        }
    }
}

/// Where a run of a commit stands at `upto`, a first run of that commit
/// stands at or before it.
proof fn lemma_first_commit(runs: Seq<RunView>, commit: Seq<char>, upto: int)
    requires
        0 <= upto < runs.len(),
        runs[upto].commit == commit,
    ensures
        exists|at: int| is_commit_index(runs, commit, at),
    decreases upto,
{
    if exists|i: int| 0 <= i < upto && #[trigger] runs[i].commit == commit {
        let i = choose|i: int| 0 <= i < upto && #[trigger] runs[i].commit == commit;
        lemma_first_commit(runs, commit, i);
    } else {
        assert(is_commit_index(runs, commit, upto));
    }
}

/// Merging is right: the merged run holds a crate where either run holds
/// it; a crate of the incoming run has the incoming timings, whatever the
/// held run had for it; any other crate keeps the timings it had. So of two
/// runs without a crate in common the merged run holds the union.
pub proof fn lemma_merged_by_crate(held: RunView, incoming: RunView)
    ensures
        merged(held, incoming).by_crate.dom() == held.by_crate.dom().union(
            incoming.by_crate.dom(),
        ),
        forall|c: Seq<char>|
            incoming.by_crate.contains_key(c) ==> #[trigger] merged(held, incoming).by_crate[c]
                == incoming.by_crate[c],
        forall|c: Seq<char>|
            held.by_crate.contains_key(c) && !incoming.by_crate.contains_key(c)
                ==> #[trigger] merged(held, incoming).by_crate[c] == held.by_crate[c],
{
}

/// A run that arrives in a series which has a run of its commit is merged
/// into that run: the series keeps its length, the run of that commit is the
/// merged one, and every other run is as before.
pub proof fn lemma_added_merges(runs: Seq<RunView>, run: RunView, at: int)
    requires
        is_commit_index(runs, run.commit, at),
    ensures
        added(runs, run).len() == runs.len(),
        added(runs, run)[at] == merged(runs[at], run),
        forall|i: int| 0 <= i < runs.len() && i != at ==> added(runs, run)[i] == runs[i],
{
}

/// Merges `incoming` into `held`, a run of the same commit.
fn merge_run(held: &mut TestRun, incoming: TestRun)
    ensures
        final(held)@ == merged(old(held)@, incoming@),
{
    let mut rest = incoming.by_crate;
    let ghost arrived = rest.deep();
    loop
        invariant
            held.date == old(held).date,
            held.commit == old(held).commit,
            held.kind == old(held).kind,
            forall|c: Seq<char>| #[trigger]
                rest.deep().contains_key(c) ==> arrived.contains_key(c) && rest.deep()[c]
                    == arrived[c],
            held.by_crate.deep() == old(held).by_crate.deep().union_prefer_right(
                arrived.remove_keys(rest.deep().dom()),
            ),
        ensures
            held.date == old(held).date,
            held.commit == old(held).commit,
            held.kind == old(held).kind,
            held.by_crate.deep() == old(held).by_crate.deep().union_prefer_right(arrived),
        decreases rest.spec_len(),
    {
        let ghost left = rest.deep();
        match rest.pop() {
            Some((name, timings)) => {
                proof {
                    lemma_deep_insert(held.by_crate@, name@, timings);
                    assert(rest.deep() =~= left.remove(name@));
                }
                held.by_crate.insert(name, timings);
            },
            None => {
                break;
            },
        }
    }
}

/// Takes one more run into a series: merges it into the run of its commit
/// where there is one, else adds it at the end. Says whether it merged.
pub fn add_run(runs: &mut Vec<TestRun>, run: TestRun) -> (was_merged: bool)
    ensures
        views(final(runs)@) == added(views(old(runs)@), run@),
        was_merged == has_commit(views(old(runs)@), run@.commit),
{
    let n = runs.len();
    let mut i: usize = 0;
    while i < n
        invariant
            n == runs@.len(),
            runs@ == old(runs)@,
            i <= n,
            forall|k: int| 0 <= k < i ==> views(runs@)[k].commit != run@.commit,
        decreases n - i,
    {
        if runs[i].commit == run.commit {
            proof {
                lemma_commit_index(views(runs@), run@.commit, i as int);
            }
            merge_run(&mut runs[i], run);
            return true;
        }
        i += 1;
    }
    runs.push(run);
    false
}

/// The two series that the files of a source give, with the numbers of the
/// files that were skipped and of the runs that were merged into others.
#[derive(Debug)]
pub struct Collected {
    pub rustc: Vec<TestRun>,
    pub benchmarks: Vec<TestRun>,
    pub skipped: usize,
    pub merged: usize,
}

/// What a `Collected` holds, as plain mathematical values.
pub struct CollectedView {
    pub rustc: Seq<RunView>,
    pub benchmarks: Seq<RunView>,
    pub skipped: nat,
    pub merged: nat,
}

impl View for Collected {
    type V = CollectedView;

    open spec fn view(&self) -> CollectedView {
        CollectedView {
            rustc: views(self.rustc@),
            benchmarks: views(self.benchmarks@),
            skipped: self.skipped as nat,
            merged: self.merged as nat,
        }
    }
}

/// What has been collected after one more file: a file that holds no run
/// is skipped and counted; a run goes to the series of its kind.
pub open spec fn taken(so_far: CollectedView, file: SourceFile) -> CollectedView {
    match run_of(file) {
        Err(_) => CollectedView {
            rustc: so_far.rustc,
            benchmarks: so_far.benchmarks,
            skipped: so_far.skipped + 1,
            merged: so_far.merged,
        },
        Ok(run) => match run.kind {
            Kind::Rustc => CollectedView {
                rustc: added(so_far.rustc, run),
                benchmarks: so_far.benchmarks,
                skipped: so_far.skipped,
                merged: so_far.merged + if has_commit(so_far.rustc, run.commit) {
                    1nat
                } else {
                    0nat
                },
            },
            Kind::Benchmarks => CollectedView {
                rustc: so_far.rustc,
                benchmarks: added(so_far.benchmarks, run),
                skipped: so_far.skipped,
                merged: so_far.merged + if has_commit(so_far.benchmarks, run.commit) {
                    1nat
                } else {
                    0nat
                },
            },
        },
    }
}

/// What the files of a source give, taken in their order.
pub open spec fn collected(files: Seq<SourceFile>) -> CollectedView
    decreases files.len(),
{
    if files.len() == 0 {
        CollectedView { rustc: Seq::empty(), benchmarks: Seq::empty(), skipped: 0, merged: 0 }
    } else {
        taken(collected(files.drop_last()), files.last())
    }
}

/// Within each collected series no two runs are of one commit, and every
/// file is counted once: as skipped, as merged, or as a run of its own.
pub proof fn lemma_collected(files: Seq<SourceFile>)
    ensures
        distinct_commits(collected(files).rustc),
        distinct_commits(collected(files).benchmarks),
        collected(files).skipped + collected(files).merged + collected(files).rustc.len()
            + collected(files).benchmarks.len() == files.len(),
    decreases files.len(),
{
    if files.len() > 0 {
        let so_far = collected(files.drop_last());
        lemma_collected(files.drop_last());
        match run_of(files.last()) {
            Ok(run) => {
                lemma_added_distinct(so_far.rustc, run);
                lemma_added_distinct(so_far.benchmarks, run);
            },
            Err(_) => {},
        }
    }
}

/// The series of `kind` in what was collected.
pub open spec fn series_of(found: CollectedView, kind: Kind) -> Seq<RunView> {
    match kind {
        Kind::Rustc => found.rustc,
        Kind::Benchmarks => found.benchmarks,
    }
}

/// Two files that hold runs of one commit and one kind are collected as one
/// run, the second merged into the first: it holds the crates of both, and
/// for a crate of both the timings of the second.
pub proof fn lemma_two_files_of_one_commit(first: SourceFile, second: SourceFile)
    requires
        run_of(first) is Ok,
        run_of(second) is Ok,
        run_of(first)->Ok_0.commit == run_of(second)->Ok_0.commit,
        run_of(first)->Ok_0.kind == run_of(second)->Ok_0.kind,
    ensures
        series_of(collected(seq![first, second]), run_of(first)->Ok_0.kind) == seq![
            merged(run_of(first)->Ok_0, run_of(second)->Ok_0),
        ],
        collected(seq![first, second]).merged == 1,
        collected(seq![first, second]).skipped == 0,
        collected(seq![first, second]).rustc.len() + collected(
            seq![first, second],
        ).benchmarks.len() == 1,
{
    let a = run_of(first)->Ok_0;
    let b = run_of(second)->Ok_0;
    let both = seq![first, second];
    let one = seq![first];
    assert(both.drop_last() =~= one);
    let nothing = collected(one.drop_last());
    assert(!has_commit(nothing.benchmarks, a.commit));
    let after_one = collected(one);
    lemma_commit_index(series_of(after_one, a.kind), b.commit, 0);
}

/// Goes through the files of a source in their order and collects the runs
/// they hold.
pub fn collect_runs(files: &[SourceFile]) -> (found: Collected)
    ensures
        found@ == collected(files@),
        distinct_commits(found@.rustc),
        distinct_commits(found@.benchmarks),
{
    let mut rustc: Vec<TestRun> = Vec::new();
    let mut benchmarks: Vec<TestRun> = Vec::new();
    let mut skipped: usize = 0;
    let mut merged: usize = 0;
    let n = files.len();
    let mut i: usize = 0;
    proof {
        assert(views(benchmarks@) =~= Seq::<RunView>::empty());
    }
    while i < n
        invariant
            n == files@.len(),
            i <= n,
            (CollectedView {
                rustc: views(rustc@),
                benchmarks: views(benchmarks@),
                skipped: skipped as nat,
                merged: merged as nat,
            }) == collected(files@.take(i as int)),
        decreases n - i,
    {
        proof {
            assert(files@.take(i + 1).drop_last() =~= files@.take(i as int));
            lemma_collected(files@.take(i as int));
        }
        match read_run(&files[i]) {
            Ok(run) => {
                let was_merged = match run.kind {
                    Kind::Rustc => add_run(&mut rustc, run),
                    Kind::Benchmarks => add_run(&mut benchmarks, run),
                };
                if was_merged {
                    merged += 1;
                }
            },
            Err(_) => {
                skipped += 1;
            },
        }
        i += 1;
    }
    proof {
        assert(files@.take(n as int) =~= files@);
        lemma_collected(files@);
    }
    Collected { rustc, benchmarks, skipped, merged }
}

} // verus!
