use crate::date::Date;
use crate::run::{views, RunView, TestRun};
use crate::strmap::StrMap;
use vstd::prelude::*;
use vstd::relations::sorted_by;

verus! {

/// A figure for each phase of each crate, under a date. It belongs to no
/// single run: the figures are medians of the phases' times over a few runs
/// that end at the date, or changes between two such sets of medians.
#[derive(Debug)]
pub struct MedianRun<V> {
    pub date: Date,
    pub by_crate: StrMap<StrMap<V>>,
}

/// What a `MedianRun` holds, as plain mathematical values.
pub struct MedianView<V> {
    pub date: Date,
    pub by_crate: Map<Seq<char>, Map<Seq<char>, V>>,
}

impl<V> View for MedianRun<V> {
    type V = MedianView<V>;

    open spec fn view(&self) -> MedianView<V> {
        MedianView { date: self.date, by_crate: self.by_crate.deep() }
    }
}

/// The order of times.
pub open spec fn at_most() -> spec_fn(u128, u128) -> bool {
    |a: u128, b: u128| a <= b
}

/// The value in the middle of `values` once they are in order; of an even
/// number of values, the upper of the two in the middle.
pub open spec fn median_of(values: Seq<u128>) -> u128 {
    values.sort_by(at_most())[(values.len() / 2) as int]
}

/// The runs that a median at `index` is taken over: the run at `index` and
/// the two before it, as far as `runs` has them.
pub open spec fn window(runs: Seq<RunView>, index: int) -> Seq<RunView> {
    runs.subrange(window_start(runs, index), window_end(runs, index))
}

/// Where the window of `index` starts.
pub open spec fn window_start(runs: Seq<RunView>, index: int) -> int {
    if index < 2 {
        0
    } else if index - 2 <= runs.len() {
        index - 2
    } else {
        runs.len() as int
    }
}

/// Where the window of `index` ends: just behind its last run.
pub open spec fn window_end(runs: Seq<RunView>, index: int) -> int {
    if index < runs.len() {
        index + 1
    } else {
        runs.len() as int
    }
}

/// Whether `run` has a timing for `phase` of `krate`.
pub open spec fn has_phase(run: RunView, krate: Seq<char>, phase: Seq<char>) -> bool {
    run.by_crate.contains_key(krate) && run.by_crate[krate].contains_key(phase)
}

/// The times of `phase` of `krate` in those of `runs` that have one, in their order.
pub open spec fn samples(runs: Seq<RunView>, krate: Seq<char>, phase: Seq<char>) -> Seq<u128>
    decreases runs.len(),
{
    if runs.len() == 0 {
        Seq::empty()
    } else if has_phase(runs.last(), krate, phase) {
        samples(runs.drop_last(), krate, phase).push(runs.last().by_crate[krate][phase].time)
    } else {
        samples(runs.drop_last(), krate, phase)
    }
}

/// Whether any of `runs` has timings for `krate`.
pub open spec fn crate_seen(runs: Seq<RunView>, krate: Seq<char>) -> bool {
    exists|i: int| 0 <= i < runs.len() && #[trigger] runs[i].by_crate.contains_key(krate)
}

/// Whether any of `runs` has a timing for `phase` of `krate`.
pub open spec fn phase_seen(runs: Seq<RunView>, krate: Seq<char>, phase: Seq<char>) -> bool {
    exists|i: int| 0 <= i < runs.len() && has_phase(#[trigger] runs[i], krate, phase)
}

/// For each phase of `krate` that any of `runs` has, the median of its times.
pub open spec fn phase_medians(runs: Seq<RunView>, krate: Seq<char>) -> Map<Seq<char>, u128> {
    Map::new(
        |p: Seq<char>| phase_seen(runs, krate, p),
        |p: Seq<char>| median_of(samples(runs, krate, p)),
    )
}

/// For each crate and phase that any of `runs` has, the median of the
/// phase's times.
pub open spec fn window_medians(runs: Seq<RunView>) -> Map<Seq<char>, Map<Seq<char>, u128>> {
    Map::new(|c: Seq<char>| crate_seen(runs, c), |c: Seq<char>| phase_medians(runs, c))
}

/// The medians over the window of `index`.
pub open spec fn medians(runs: Seq<RunView>, index: int) -> Map<Seq<char>, Map<Seq<char>, u128>> {
    window_medians(window(runs, index))
}

/// The median of `values` is the middle of any sequence that holds the same
/// values, each as often, in order.
pub proof fn lemma_median_of(values: Seq<u128>, sorted: Seq<u128>)
    requires
        sorted_by(sorted, at_most()),
        sorted.to_multiset() == values.to_multiset(),
    ensures
        sorted.len() == values.len(),
        median_of(values) == sorted[(values.len() / 2) as int],
{
    values.lemma_sort_by_ensures(at_most());
    vstd::seq_lib::lemma_sorted_unique(sorted, values.sort_by(at_most()), at_most());
    vstd::seq_lib::to_multiset_len(sorted);
    vstd::seq_lib::to_multiset_len(values);
}

/// A phase that some run has gives at least one sample.
pub proof fn lemma_samples_nonempty(runs: Seq<RunView>, krate: Seq<char>, phase: Seq<char>)
    requires
        phase_seen(runs, krate, phase),
    ensures
        samples(runs, krate, phase).len() > 0,
    decreases runs.len(),
{
    let i = choose|i: int| 0 <= i < runs.len() && has_phase(#[trigger] runs[i], krate, phase);
    if !has_phase(runs.last(), krate, phase) {
        assert(runs.drop_last()[i] == runs[i]);
        lemma_samples_nonempty(runs.drop_last(), krate, phase);
    }
}

/// The median of a list of times that is not empty.
pub fn median(values: &Vec<u128>) -> (middle: u128)
    requires
        values@.len() > 0,
    ensures
        middle == median_of(values@),
{
    let n = values.len();
    let mut sorted: Vec<u128> = Vec::new();
    let mut i: usize = 0;
    proof {
        assert(sorted@ =~= values@.take(0));
    }
    while i < n
        invariant
            n == values@.len(),
            i <= n,
            sorted@.len() == i,
            sorted_by(sorted@, at_most()),
            sorted@.to_multiset() == values@.take(i as int).to_multiset(),
        decreases n - i,
    {
        let v = values[i];
        let mut at: usize = 0;
        while at < sorted.len() && sorted[at] <= v
            invariant
                at <= sorted@.len(),
                forall|k: int| 0 <= k < at ==> sorted@[k] <= v,
            decreases sorted@.len() - at,
        {
            at += 1;
        }
        let ghost held = sorted@;
        sorted.insert(at, v);
        proof {
            vstd::seq_lib::to_multiset_insert(held, at as int, v);
            assert(values@.take(i + 1) =~= values@.take(i as int).push(v));
            vstd::seq_lib::to_multiset_build(values@.take(i as int), v);
            assert forall|a: int, b: int| 0 <= a < b < sorted@.len() implies #[trigger] at_most()(
                sorted@[a],
                sorted@[b],
            ) by {
                if a == at {
                    if b - 1 > at {
                        assert(at_most()(held[at as int], held[b - 1]));
                    }
                }
            }
        }
        i += 1;
    }
    proof {
        assert(values@.take(n as int) =~= values@);
        lemma_median_of(values@, sorted@);
    }
    sorted[n / 2]
}

/// The times of `phase` of `krate` in the runs from `from` up to `to`.
fn gather(data: &[TestRun], from: usize, to: usize, krate: &String, phase: &String) -> (values:
    Vec<u128>)
    requires
        from <= to <= data@.len(),
    ensures
        values@ == samples(views(data@).subrange(from as int, to as int), krate@, phase@),
{
    let mut values: Vec<u128> = Vec::new();
    let mut r: usize = from;
    while r < to
        invariant
            from <= r <= to <= data@.len(),
            values@ == samples(views(data@).subrange(from as int, r as int), krate@, phase@),
        decreases to - r,
    {
        let run = &data[r];
        proof {
            let grown = views(data@).subrange(from as int, r + 1);
            assert(grown.drop_last() =~= views(data@).subrange(from as int, r as int));
        }
        match run.by_crate.lookup(krate) {
            Some(phases) => match phases.lookup(phase) {
                Some(timing) => {
                    values.push(timing.time);
                },
                None => {},
            },
            None => {},
        }
        r += 1;
    }
    values
}

/// The medians of the phases of `krate` over the runs from `from` up to `to`.
fn crate_medians(data: &[TestRun], from: usize, to: usize, krate: &String) -> (found: StrMap<u128>)
    requires
        from <= to <= data@.len(),
    ensures
        found@ == phase_medians(views(data@).subrange(from as int, to as int), krate@),
{
    let ghost runs = views(data@).subrange(from as int, to as int);
    let mut found: StrMap<u128> = StrMap::new();
    let mut r: usize = from;
    while r < to
        invariant
            from <= r <= to <= data@.len(),
            runs == views(data@).subrange(from as int, to as int),
            forall|p: Seq<char>|
                found@.contains_key(p) <==> exists|i: int|
                    0 <= i < r - from && has_phase(#[trigger] runs[i], krate@, p),
            forall|p: Seq<char>| #[trigger]
                found@.contains_key(p) ==> found@[p] == median_of(samples(runs, krate@, p)),
        decreases to - r,
    {
        let run = &data[r];
        match run.by_crate.lookup(krate) {
            Some(phases) => {
                let n = phases.len();
                let mut j: usize = 0;
                while j < n
                    invariant
                        from <= r < to <= data@.len(),
                        runs == views(data@).subrange(from as int, to as int),
                        runs[r - from].by_crate.contains_key(krate@),
                        runs[r - from].by_crate[krate@] == phases@,
                        phases.wf(),
                        n == phases.spec_len(),
                        j <= n,
                        forall|p: Seq<char>|
                            found@.contains_key(p) <==> (exists|i: int|
                                0 <= i < r - from && has_phase(#[trigger] runs[i], krate@, p)) || (
                            exists|k: int| 0 <= k < j && #[trigger] phases.spec_key(k) == p),
                        forall|p: Seq<char>| #[trigger]
                            found@.contains_key(p) ==> found@[p] == median_of(
                                samples(runs, krate@, p),
                            ),
                    decreases n - j,
                {
                    let phase = phases.key(j);
                    if found.find(phase).is_none() {
                        let values = gather(data, from, to, krate, phase);
                        proof {
                            lemma_samples_nonempty(runs, krate@, phase@);
                        }
                        let middle = median(&values);
                        found.insert(phase.clone(), middle);
                    }
                    j += 1;
                }
                proof {
                    assert forall|p: Seq<char>| found@.contains_key(p) <==> exists|i: int|
                        0 <= i < r + 1 - from && has_phase(#[trigger] runs[i], krate@, p) by {
                        if exists|i: int|
                            0 <= i < r - from && has_phase(#[trigger] runs[i], krate@, p) {
                            let i = choose|i: int|
                                0 <= i < r - from && has_phase(#[trigger] runs[i], krate@, p);
                            assert(0 <= i < r + 1 - from && has_phase(runs[i], krate@, p));
                        }
                        if exists|i: int|
                            0 <= i < r + 1 - from && has_phase(#[trigger] runs[i], krate@, p) {
                            let i = choose|i: int|
                                0 <= i < r + 1 - from && has_phase(#[trigger] runs[i], krate@, p);
                            assert(i < r - from || phases@.contains_key(p));
                        }
                    }
                }
            },
            None => {
                proof {
                    assert forall|p: Seq<char>| found@.contains_key(p) <==> exists|i: int|
                        0 <= i < r + 1 - from && has_phase(#[trigger] runs[i], krate@, p) by {
                        if exists|i: int|
                            0 <= i < r - from && has_phase(#[trigger] runs[i], krate@, p) {
                            let i = choose|i: int|
                                0 <= i < r - from && has_phase(#[trigger] runs[i], krate@, p);
                            assert(0 <= i < r + 1 - from && has_phase(runs[i], krate@, p));
                        }
                        if exists|i: int|
                            0 <= i < r + 1 - from && has_phase(#[trigger] runs[i], krate@, p) {
                            let i = choose|i: int|
                                0 <= i < r + 1 - from && has_phase(#[trigger] runs[i], krate@, p);
                            assert(0 <= i < r - from && has_phase(runs[i], krate@, p));
                        }
                    }
                }
            },
        }
        r += 1;
    }
    found
}

impl MedianRun<u128> {
    /// The medians at `start_idx`, under the date `date`: for each crate and
    /// phase, the median of the phase's time over the run at `start_idx` and
    /// the two before it, as far as `data` has them and they have the phase.
    pub fn new(data: &[TestRun], start_idx: usize, date: Date) -> (median: MedianRun<u128>)
        ensures
            median@ == (MedianView { date, by_crate: medians(views(data@), start_idx as int) }),
    {
        let len = data.len();
        let from: usize = if start_idx < 2 {
            0
        } else if start_idx - 2 <= len {
            start_idx - 2
        } else {
            len
        };
        let to: usize = if start_idx < len {
            start_idx + 1
        } else {
            len
        };
        let ghost runs = window(views(data@), start_idx as int);
        let mut by_crate: StrMap<StrMap<u128>> = StrMap::new();
        let mut r: usize = from;
        while r < to
            invariant
                from <= r <= to <= data@.len(),
                runs == views(data@).subrange(from as int, to as int),
                forall|c: Seq<char>|
                    by_crate.deep().contains_key(c) <==> exists|i: int|
                        0 <= i < r - from && #[trigger] runs[i].by_crate.contains_key(c),
                forall|c: Seq<char>| #[trigger]
                    by_crate.deep().contains_key(c) ==> by_crate.deep()[c] == phase_medians(
                        runs,
                        c,
                    ),
            decreases to - r,
        {
            let crates = &data[r].by_crate;
            let n = crates.len();
            let mut j: usize = 0;
            while j < n
                invariant
                    from <= r < to <= data@.len(),
                    runs == views(data@).subrange(from as int, to as int),
                    runs[r - from].by_crate == crates.deep(),
                    crates.wf(),
                    n == crates.spec_len(),
                    j <= n,
                    forall|c: Seq<char>|
                        by_crate.deep().contains_key(c) <==> (exists|i: int|
                            0 <= i < r - from && #[trigger] runs[i].by_crate.contains_key(c)) || (
                        exists|k: int| 0 <= k < j && #[trigger] crates.spec_key(k) == c),
                    forall|c: Seq<char>| #[trigger]
                        by_crate.deep().contains_key(c) ==> by_crate.deep()[c] == phase_medians(
                            runs,
                            c,
                        ),
                decreases n - j,
            {
                let krate = crates.key(j);
                let ghost before = by_crate.deep();
                if by_crate.find(krate).is_none() {
                    let found = crate_medians(data, from, to, krate);
                    by_crate.insert(krate.clone(), found);
                    assert(by_crate.deep() == before.insert(krate@, phase_medians(runs, krate@)));
                }
                j += 1;
            }
            proof {
                assert forall|c: Seq<char>| by_crate.deep().contains_key(c) <==> exists|i: int|
                    0 <= i < r + 1 - from && #[trigger] runs[i].by_crate.contains_key(c) by {
                    if exists|i: int|
                        0 <= i < r - from && #[trigger] runs[i].by_crate.contains_key(c) {
                        let i = choose|i: int|
                            0 <= i < r - from && #[trigger] runs[i].by_crate.contains_key(c);
                        assert(0 <= i < r + 1 - from && runs[i].by_crate.contains_key(c));
                    }
                    if exists|k: int| 0 <= k < n && #[trigger] crates.spec_key(k) == c {
                        let k = choose|k: int| 0 <= k < n && #[trigger] crates.spec_key(k) == c;
                        assert(runs[r - from].by_crate.contains_key(c));
                    }
                    if exists|i: int|
                        0 <= i < r + 1 - from && #[trigger] runs[i].by_crate.contains_key(c) {
                        let i = choose|i: int|
                            0 <= i < r + 1 - from && #[trigger] runs[i].by_crate.contains_key(c);
                        assert(i < r - from || crates@.contains_key(c));
                    }
                }
            }
            r += 1;
        }
        proof {
            assert(by_crate.deep() =~= window_medians(runs));
        }
        MedianRun { date, by_crate }
    }
}

} // verus!
