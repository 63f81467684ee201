use crate::date::Date;
use crate::run::{views, RunView, TestRun};
use vstd::prelude::*;

verus! {

/// No run is dated before one that stands earlier in the sequence.
pub open spec fn ascending(runs: Seq<RunView>) -> bool {
    forall|i: int, j: int| 0 <= i <= j < runs.len() ==> runs[i].date.secs <= runs[j].date.secs
}

/// How many runs at the front of `runs` are dated before `date`. In an
/// ascending sequence these are all the runs dated before it, and their
/// number is the place at which a run of that date would go in.
pub open spec fn lower_bound(runs: Seq<RunView>, date: Date) -> int
    decreases runs.len(),
{
    if runs.len() == 0 || runs.first().date.secs >= date.secs {
        0
    } else {
        1 + lower_bound(runs.drop_first(), date)
    }
}

/// The index in `runs` that answers for `date`: that of the first run not
/// dated before it, and that of the last run where all are dated before it.
pub open spec fn index_at(runs: Seq<RunView>, date: Date) -> int {
    if lower_bound(runs, date) == runs.len() {
        runs.len() - 1
    } else {
        lower_bound(runs, date)
    }
}

/// The lower bound lies within the sequence or at its end.
pub proof fn lemma_lower_bound_range(runs: Seq<RunView>, date: Date)
    ensures
        0 <= lower_bound(runs, date) <= runs.len(),
    decreases runs.len(),
{
    if !(runs.len() == 0 || runs.first().date.secs >= date.secs) {
        lemma_lower_bound_range(runs.drop_first(), date);
    }
}

/// Whatever place parts an ascending sequence into the runs dated before
/// `date` and the others is its lower bound.
pub proof fn lemma_lower_bound_is(runs: Seq<RunView>, date: Date, at: int)
    requires
        0 <= at <= runs.len(),
        forall|i: int| 0 <= i < at ==> runs[i].date.secs < date.secs,
        forall|i: int| at <= i < runs.len() ==> runs[i].date.secs >= date.secs,
    ensures
        lower_bound(runs, date) == at,
    decreases runs.len(),
{
    if runs.len() == 0 || runs.first().date.secs >= date.secs {
        if at > 0 {
            assert(runs[0].date.secs < date.secs);
        }
    } else {
        let rest = runs.drop_first();
        assert forall|i: int| at - 1 <= i < rest.len() implies rest[i].date.secs
            >= date.secs by {
        }
        lemma_lower_bound_is(rest, date, at - 1);
    }
}

/// The lower bound parts an ascending sequence into the runs dated before
/// `date` and the others.
pub proof fn lemma_lower_bound_parts(runs: Seq<RunView>, date: Date)
    requires
        ascending(runs),
    ensures
        0 <= lower_bound(runs, date) <= runs.len(),
        forall|i: int| 0 <= i < lower_bound(runs, date) ==> runs[i].date.secs < date.secs,
        forall|i: int| lower_bound(runs, date) <= i < runs.len() ==> runs[i].date.secs >= date.secs,
    decreases runs.len(),
{
    if runs.len() == 0 || runs.first().date.secs >= date.secs {
        assert forall|i: int| 0 <= i < runs.len() implies runs[i].date.secs >= date.secs by {
        }
    } else {
        let rest = runs.drop_first();
        lemma_lower_bound_parts(rest, date);
        assert forall|i: int| 0 <= i < lower_bound(runs, date) implies runs[i].date.secs
            < date.secs by {
            if i > 0 {
                assert(rest[i - 1] == runs[i]);
            }
        }
        assert forall|i: int| lower_bound(runs, date) <= i < runs.len() implies runs[i].date.secs
            >= date.secs by {
            assert(rest[i - 1] == runs[i]);
        }
    }
}

/// The place in an ascending slice at which a run dated `date` would go in
/// before all runs of that date.
pub fn first_not_before(data: &[TestRun], date: Date) -> (at: usize)
    requires
        ascending(views(data@)),
    ensures
        at == lower_bound(views(data@), date),
        at <= data@.len(),
{
    let ghost runs = views(data@);
    let mut low: usize = 0;
    let mut high: usize = data.len();
    while low < high
        invariant
            runs == views(data@),
            ascending(runs),
            low <= high <= data@.len(),
            forall|i: int| 0 <= i < low ==> runs[i].date.secs < date.secs,
            forall|i: int| high <= i < runs.len() ==> runs[i].date.secs >= date.secs,
        decreases high - low,
    {
        let mid: usize = low + (high - low) / 2;
        if data[mid].date.secs < date.secs {
            low = mid + 1;
        } else {
            assert forall|i: int| mid <= i < runs.len() implies runs[i].date.secs
                >= date.secs by {
                assert(runs[mid as int].date.secs <= runs[i].date.secs);
            }
            high = mid;
        }
    }
    proof {
        lemma_lower_bound_is(runs, date, low as int);
    }
    low
}

/// The index of the run that answers for `date` in an ascending slice: the
/// first run not dated before it, or the last run where all are dated
/// before it.
pub fn index_in(data: &[TestRun], date: Date) -> (index: usize)
    requires
        ascending(views(data@)),
        data@.len() > 0,
    ensures
        index == index_at(views(data@), date),
        index < data@.len(),
{
    let at = first_not_before(data, date);
    if at == data.len() {
        at - 1
    } else {
        at
    }
}

/// `sorted` with `run` put in before the first run not dated before it.
pub open spec fn placed(run: RunView, sorted: Seq<RunView>) -> Seq<RunView> {
    sorted.insert(lower_bound(sorted, run.date), run)
}

/// The runs in ascending order of date; runs of one date keep their order.
pub open spec fn sorted_by_date(runs: Seq<RunView>) -> Seq<RunView>
    decreases runs.len(),
{
    if runs.len() == 0 {
        runs
    } else {
        placed(runs.first(), sorted_by_date(runs.drop_first()))
    }
}

/// Putting a run into an ascending sequence leaves it ascending.
pub proof fn lemma_placed_ascending(run: RunView, sorted: Seq<RunView>)
    requires
        ascending(sorted),
    ensures
        ascending(placed(run, sorted)),
{
    lemma_lower_bound_parts(sorted, run.date);
    let out = placed(run, sorted);
    assert forall|i: int, j: int| 0 <= i <= j < out.len() implies out[i].date.secs
        <= out[j].date.secs by {
    }
}

/// Sorting gives an ascending sequence of the same runs, each as often as before.
pub proof fn lemma_sorted_by_date(runs: Seq<RunView>)
    ensures
        ascending(sorted_by_date(runs)),
        sorted_by_date(runs).len() == runs.len(),
        sorted_by_date(runs).to_multiset() == runs.to_multiset(),
    decreases runs.len(),
{
    if runs.len() > 0 {
        let rest = runs.drop_first();
        lemma_sorted_by_date(rest);
        lemma_placed_ascending(runs.first(), sorted_by_date(rest));
        lemma_lower_bound_range(sorted_by_date(rest), runs.first().date);
        assert(runs =~= rest.insert(0, runs.first()));
        vstd::seq_lib::to_multiset_insert(rest, 0, runs.first());
        vstd::seq_lib::to_multiset_insert(
            sorted_by_date(rest),
            lower_bound(sorted_by_date(rest), runs.first().date),
            runs.first(),
        );
    }
}

/// Sorts the runs by date; runs of one date keep their order.
pub fn sort_runs(runs: Vec<TestRun>) -> (sorted: Vec<TestRun>)
    ensures
        views(sorted@) == sorted_by_date(views(runs@)),
        ascending(views(sorted@)),
        sorted@.len() == runs@.len(),
{
    let mut rest = runs;
    let mut sorted: Vec<TestRun> = Vec::new();
    while rest.len() > 0
        invariant
            rest@.len() <= runs@.len(),
            rest@ == runs@.subrange(0, rest@.len() as int),
            views(sorted@) == sorted_by_date(
                views(runs@).subrange(rest@.len() as int, runs@.len() as int),
            ),
            ascending(views(sorted@)),
            sorted@.len() + rest@.len() == runs@.len(),
        decreases rest@.len(),
    {
        let ghost before = rest@;
        let ghost tail = views(runs@).subrange(before.len() as int, runs@.len() as int);
        let taken = rest.pop();
        match taken {
            Some(run) => {
                proof {
                    let grown = views(runs@).subrange(before.len() - 1, runs@.len() as int);
                    assert(grown.drop_first() =~= tail);
                    lemma_placed_ascending(run@, views(sorted@));
                }
                let at = first_not_before(sorted.as_slice(), run.date);
                let ghost held = sorted@;
                sorted.insert(at, run);
                proof {
                    assert(views(sorted@) =~= placed(run@, views(held)));
                }
            },
            None => {},
        }
    }
    proof {
        assert(views(runs@).subrange(0, runs@.len() as int) =~= views(runs@));
    }
    sorted
}

} // verus!
