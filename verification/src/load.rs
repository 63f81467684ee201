use crate::collect::{collect_runs, collected};
use crate::date::{Date, OptionalDate};
use crate::document::SourceFile;
use crate::errors::Error;
use crate::run::{views, Kind, RunView, TestRun};
use crate::strmap::{StrMap, StrSet};
use crate::summary::{summarizable, summary_of, Summary, SummaryView};
use crate::timing::Timing;
use crate::util::{ascending, index_at, index_in, lemma_sorted_by_date, sort_runs, sorted_by_date};
use vstd::prelude::*;

verus! {

/// The later of a date so far, if there is one, and the dates of `runs`.
pub open spec fn latest_after(so_far: Option<Date>, runs: Seq<RunView>) -> Option<Date>
    decreases runs.len(),
{
    if runs.len() == 0 {
        so_far
    } else {
        match latest_after(so_far, runs.drop_last()) {
            Some(date) => if date.secs < runs.last().date.secs {
                Some(runs.last().date)
            } else {
                Some(date)
            },
            None => Some(runs.last().date),
        }
    }
}

/// The latest date of `runs`, where there is a run.
pub open spec fn latest(runs: Seq<RunView>) -> Option<Date> {
    latest_after(None, runs)
}

/// The names of the crates that `runs` have; of the runs of the whole
/// compiler only, where `only_rustc`.
pub open spec fn crates_seen(runs: Seq<RunView>, only_rustc: bool) -> Set<Seq<char>> {
    Set::new(
        |c: Seq<char>|
            exists|i: int|
                0 <= i < runs.len() && (only_rustc ==> runs[i].kind == Kind::Rustc)
                    && #[trigger] runs[i].by_crate.contains_key(c),
    )
}

/// The names of the phases that `run` has, in whatever crate.
pub open spec fn phases_of(run: RunView) -> Set<Seq<char>> {
    Set::new(
        |p: Seq<char>|
            exists|c: Seq<char>|
                run.by_crate.contains_key(c) && #[trigger] run.by_crate[c].contains_key(p),
    )
}

/// The names of the phases that `runs` have.
pub open spec fn phases_seen(runs: Seq<RunView>) -> Set<Seq<char>> {
    Set::new(
        |p: Seq<char>|
            exists|i: int| 0 <= i < runs.len() && #[trigger] phases_of(runs[i]).contains(p),
    )
}

/// The latest date of two lists taken together is found list by list.
pub proof fn lemma_latest_after_both(
    so_far: Option<Date>,
    first: Seq<RunView>,
    second: Seq<RunView>,
)
    ensures
        latest_after(so_far, first + second) == latest_after(latest_after(so_far, first), second),
    decreases second.len(),
{
    if second.len() == 0 {
        assert(first + second =~= first);
    } else {
        assert((first + second).drop_last() =~= first + second.drop_last());
        lemma_latest_after_both(so_far, first, second.drop_last());
    }
}

/// The latest date of a list that is not empty is the date of one of its
/// runs, and no run of the list is dated after it.
pub proof fn lemma_latest(runs: Seq<RunView>)
    requires
        runs.len() > 0,
    ensures
        latest(runs) is Some,
        exists|i: int| 0 <= i < runs.len() && #[trigger] runs[i].date == latest(runs)->0,
        forall|i: int|
            0 <= i < runs.len() ==> (#[trigger] runs[i]).date.secs <= latest(runs)->0.secs,
    decreases runs.len(),
{
    let rest = runs.drop_last();
    if rest.len() > 0 {
        lemma_latest(rest);
        if latest(rest)->0.secs < runs.last().date.secs {
            assert(runs[runs.len() - 1].date == latest(runs)->0);
        }
        assert forall|i: int| 0 <= i < runs.len() implies (#[trigger] runs[i]).date.secs <= latest(
            runs,
        )->0.secs by {
            if i < rest.len() {
                assert(runs[i] == rest[i]);
            }
        }
    }
}

/// The later of `so_far` and the dates of the runs.
fn latest_of(so_far: Option<Date>, runs: &Vec<TestRun>) -> (last: Option<Date>)
    ensures
        last == latest_after(so_far, views(runs@)),
{
    let mut last = so_far;
    let n = runs.len();
    let mut i: usize = 0;
    while i < n
        invariant
            n == runs@.len(),
            i <= n,
            last == latest_after(so_far, views(runs@).take(i as int)),
        decreases n - i,
    {
        proof {
            assert(views(runs@).take(i + 1).drop_last() =~= views(runs@).take(i as int));
        }
        let date = runs[i].date;
        last = match last {
            Some(held) => if held.secs < date.secs {
                Some(date)
            } else {
                Some(held)
            },
            None => Some(date),
        };
        i += 1;
    }
    proof {
        assert(views(runs@).take(n as int) =~= views(runs@));
    }
    last
}

/// Puts the names of the crates of the runs into `names`; of the runs of the
/// whole compiler only, where `only_rustc`.
fn note_crates(runs: &Vec<TestRun>, only_rustc: bool, names: &mut StrSet)
    ensures
        final(names)@ == old(names)@.union(crates_seen(views(runs@), only_rustc)),
{
    let n = runs.len();
    let mut i: usize = 0;
    while i < n
        invariant
            n == runs@.len(),
            i <= n,
            names@ == old(names)@.union(crates_seen(views(runs@).take(i as int), only_rustc)),
        decreases n - i,
    {
        let run = &runs[i];
        let ghost at_entry = names@;
        let counts = !only_rustc || match run.kind {
            Kind::Rustc => true,
            Kind::Benchmarks => false,
        };
        if counts {
            let m = run.by_crate.len();
            let mut j: usize = 0;
            while j < m
                invariant
                    run.by_crate.wf(),
                    m == run.by_crate.spec_len(),
                    j <= m,
                    names@ == at_entry.union(run.by_crate.keys_upto(j as int)),
                decreases m - j,
            {
                names.insert(run.by_crate.key(j).clone());
                j += 1;
            }
        }
        proof {
            assert(views(runs@).take(i + 1).last() == run@);
            assert(run@.by_crate.dom() =~= run.by_crate@.dom());
        }
        i += 1;
    }
    proof {
        assert(views(runs@).take(n as int) =~= views(runs@));
    }
}

/// The names of the phases of the first `upto` crates of `by_crate`.
spec fn phases_upto(by_crate: StrMap<StrMap<Timing>>, upto: int) -> Set<Seq<char>> {
    Set::new(
        |p: Seq<char>|
            exists|q: int| 0 <= q < upto && #[trigger] by_crate.spec_value(q)@.contains_key(p),
    )
}

/// The phases of all crates of a run are the phases of the run.
proof fn lemma_phases_upto_all(run: TestRun)
    requires
        run.by_crate.wf(),
    ensures
        phases_upto(run.by_crate, run.by_crate.spec_len() as int) == phases_of(run@),
        phases_upto(run.by_crate, 0) == Set::<Seq<char>>::empty(),
{
    let by_crate = run.by_crate;
    let all = phases_upto(by_crate, by_crate.spec_len() as int);
    assert forall|p: Seq<char>| all.contains(p) <==> phases_of(run@).contains(p) by {
        if all.contains(p) {
            let q = choose|q: int|
                0 <= q < by_crate.spec_len() && #[trigger] by_crate.spec_value(q)@.contains_key(p);
            let c = by_crate.spec_key(q);
            assert(run@.by_crate.contains_key(c) && run@.by_crate[c].contains_key(p));
        }
    }
}

/// Puts the names of the phases of the runs into `names`.
fn note_phases(runs: &Vec<TestRun>, names: &mut StrSet)
    ensures
        final(names)@ == old(names)@.union(phases_seen(views(runs@))),
{
    let n = runs.len();
    let mut i: usize = 0;
    while i < n
        invariant
            n == runs@.len(),
            i <= n,
            names@ == old(names)@.union(phases_seen(views(runs@).take(i as int))),
        decreases n - i,
    {
        let run = &runs[i];
        let ghost at_entry = names@;
        let m = run.by_crate.len();
        let mut j: usize = 0;
        while j < m
            invariant
                run.by_crate.wf(),
                m == run.by_crate.spec_len(),
                j <= m,
                names@ == at_entry.union(phases_upto(run.by_crate, j as int)),
            decreases m - j,
        {
            let phases = run.by_crate.value(j);
            let ghost at_crate = names@;
            let count = phases.len();
            let mut k: usize = 0;
            while k < count
                invariant
                    phases.wf(),
                    count == phases.spec_len(),
                    k <= count,
                    names@ == at_crate.union(phases.keys_upto(k as int)),
                decreases count - k,
            {
                names.insert(phases.key(k).clone());
                k += 1;
            }
            j += 1;
        }
        proof {
            lemma_phases_upto_all(*run);
            assert(views(runs@).take(i + 1).last() == run@);
        }
        i += 1;
    }
    proof {
        assert(views(runs@).take(n as int) =~= views(runs@));
    }
}

/// A series of runs in ascending order of date, with at least one run.
#[derive(Debug)]
pub struct Series {
    runs: Vec<TestRun>,
}

impl View for Series {
    type V = Seq<TestRun>;

    closed spec fn view(&self) -> Seq<TestRun> {
        self.runs@
    }
}

impl Series {
    /// What holds of every series: it is in order, and not empty.
    #[verifier::type_invariant]
    closed spec fn in_order(self) -> bool {
        ascending(views(self.runs@)) && self.runs@.len() > 0
    }

    /// The runs of the series: in ascending order of date, and not empty.
    pub fn runs(&self) -> (runs: &[TestRun])
        ensures
            runs@ == self@,
            ascending(views(runs@)),
            runs@.len() > 0,
    {
        proof {
            use_type_invariant(self);
        }
        self.runs.as_slice()
    }
}

/// The runs of a source in two series, one of each kind, with what was
/// derived from them when they were loaded. The series cannot be changed.
#[derive(Debug)]
pub struct InputData {
    pub summary_rustc: Summary,
    pub summary_benchmarks: Summary,
    /// The names of the crates of the runs of the whole compiler.
    pub crate_list: StrSet,
    /// The names of the phases of all crates.
    pub phase_list: StrSet,
    /// The names of the benchmarks: the crates of the runs of single benchmarks.
    pub benchmarks: StrSet,
    /// The latest date of any run.
    pub last_date: Date,
    pub data_rustc: Series,
    pub data_benchmarks: Series,
}

/// What an `InputData` holds, as plain mathematical values.
pub struct InputDataView {
    pub summary_rustc: SummaryView,
    pub summary_benchmarks: SummaryView,
    pub crate_list: Set<Seq<char>>,
    pub phase_list: Set<Seq<char>>,
    pub benchmarks: Set<Seq<char>>,
    pub last_date: Date,
    pub data_rustc: Seq<RunView>,
    pub data_benchmarks: Seq<RunView>,
}

impl View for InputData {
    type V = InputDataView;

    open spec fn view(&self) -> InputDataView {
        InputDataView {
            summary_rustc: self.summary_rustc@,
            summary_benchmarks: self.summary_benchmarks@,
            crate_list: self.crate_list@,
            phase_list: self.phase_list@,
            benchmarks: self.benchmarks@,
            last_date: self.last_date,
            data_rustc: views(self.runs(Kind::Rustc)),
            data_benchmarks: views(self.runs(Kind::Benchmarks)),
        }
    }
}

/// What two lists of runs, one of each kind, come to when they are loaded:
/// each list sorted by date, the latest date of all, the names seen, and the
/// summary of each series as of the latest date. There is nothing where
/// there is no run, or where one of the series cannot be summarized.
pub open spec fn assembled(rustc: Seq<RunView>, benchmarks: Seq<RunView>) -> Result<
    InputDataView,
    Error,
> {
    match latest(rustc + benchmarks) {
        None => Err(Error::NoData),
        Some(last_date) => if summarizable(sorted_by_date(rustc), last_date) && summarizable(
            sorted_by_date(benchmarks),
            last_date,
        ) {
            Ok(
                InputDataView {
                    summary_rustc: summary_of(
                        sorted_by_date(rustc),
                        last_date,
                        crates_seen(benchmarks, false),
                    ),
                    summary_benchmarks: summary_of(
                        sorted_by_date(benchmarks),
                        last_date,
                        crates_seen(benchmarks, false),
                    ),
                    crate_list: crates_seen(rustc, true).union(crates_seen(benchmarks, true)),
                    phase_list: phases_seen(rustc).union(phases_seen(benchmarks)),
                    benchmarks: crates_seen(benchmarks, false),
                    last_date,
                    data_rustc: sorted_by_date(rustc),
                    data_benchmarks: sorted_by_date(benchmarks),
                },
            )
        } else {
            Err(Error::InternalInvariantViolation)
        },
    }
}

/// What the files of a source come to when they are loaded.
pub open spec fn loaded(files: Seq<SourceFile>) -> Result<InputDataView, Error> {
    assembled(collected(files).rustc, collected(files).benchmarks)
}

/// Whether `data` is what loading `files` gives.
pub open spec fn load_gives(files: Seq<SourceFile>, data: Result<InputData, Error>) -> bool {
    match data {
        Ok(d) => loaded(files) == Ok::<InputDataView, Error>(d@),
        Err(e) => loaded(files) == Err::<InputDataView, Error>(e),
    }
}

/// Loading is a function of what is loaded: whatever two loads of the same
/// files give, both fail with the same error, or both give the same series,
/// the same names and dates, and the same summaries.
pub proof fn lemma_load_twice(
    files: Seq<SourceFile>,
    first: Result<InputData, Error>,
    second: Result<InputData, Error>,
)
    requires
        load_gives(files, first),
        load_gives(files, second),
    ensures
        match (first, second) {
            (Ok(a), Ok(b)) => a@ == b@,
            (Err(a), Err(b)) => a == b,
            _ => false,
        },
{
}

/// What is loaded is in ascending order of date in both series, and holds
/// each series' runs as they were collected, each as often as before.
pub proof fn lemma_loaded_in_order(files: Seq<SourceFile>)
    requires
        loaded(files) is Ok,
    ensures
        ascending(loaded(files)->Ok_0.data_rustc),
        ascending(loaded(files)->Ok_0.data_benchmarks),
        loaded(files)->Ok_0.data_rustc.to_multiset() == collected(files).rustc.to_multiset(),
        loaded(files)->Ok_0.data_benchmarks.to_multiset() == collected(
            files,
        ).benchmarks.to_multiset(),
{
    lemma_sorted_by_date(collected(files).rustc);
    lemma_sorted_by_date(collected(files).benchmarks);
}

/// The runs of `runs` from the one that answers for `start` to the one that
/// answers for `end`, both included; none where the first stands behind the
/// second.
pub open spec fn range_of(runs: Seq<TestRun>, start: Date, end: Date) -> Seq<TestRun> {
    if index_at(views(runs), start) <= index_at(views(runs), end) {
        runs.subrange(index_at(views(runs), start), index_at(views(runs), end) + 1)
    } else {
        Seq::empty()
    }
}

impl InputData {
    /// The series of `kind`.
    pub open spec fn runs(self, kind: Kind) -> Seq<TestRun> {
        match kind {
            Kind::Benchmarks => self.data_benchmarks@,
            Kind::Rustc => self.data_rustc@,
        }
    }

    /// Loads the files of a source, taken in their order.
    pub fn from_files(files: &[SourceFile]) -> (data: Result<InputData, Error>)
        ensures
            load_gives(files@, data),
    {
        let found = collect_runs(files);
        InputData::new(found.rustc, found.benchmarks)
    }

    /// Loads two lists of runs, one of each kind.
    pub fn new(data_rustc: Vec<TestRun>, data_benchmarks: Vec<TestRun>) -> (data: Result<
        InputData,
        Error,
    >)
        ensures
            match data {
                Ok(d) => {
                    &&& assembled(views(data_rustc@), views(data_benchmarks@)) == Ok::<
                        InputDataView,
                        Error,
                    >(d@)
                    &&& ascending(d@.data_rustc)
                    &&& ascending(d@.data_benchmarks)
                },
                Err(e) => assembled(views(data_rustc@), views(data_benchmarks@)) == Err::<
                    InputDataView,
                    Error,
                >(e),
            },
    {
        let ghost rustc = views(data_rustc@);
        let ghost bench = views(data_benchmarks@);
        let last_date = latest_of(latest_of(None, &data_rustc), &data_benchmarks);
        proof {
            lemma_latest_after_both(None, rustc, bench);
        }
        let last_date = match last_date {
            Some(date) => date,
            None => {
                return Err(Error::NoData);
            },
        };
        let mut crate_list = StrSet::new();
        note_crates(&data_rustc, true, &mut crate_list);
        note_crates(&data_benchmarks, true, &mut crate_list);
        let mut phase_list = StrSet::new();
        note_phases(&data_rustc, &mut phase_list);
        note_phases(&data_benchmarks, &mut phase_list);
        let mut benchmarks = StrSet::new();
        note_crates(&data_benchmarks, false, &mut benchmarks);
        proof {
            assert(crate_list@ =~= crates_seen(rustc, true).union(crates_seen(bench, true)));
            assert(phase_list@ =~= phases_seen(rustc).union(phases_seen(bench)));
            assert(benchmarks@ =~= crates_seen(bench, false));
        }
        let data_rustc = sort_runs(data_rustc);
        let data_benchmarks = sort_runs(data_benchmarks);
        let summary_rustc = match Summary::new(data_rustc.as_slice(), last_date, &benchmarks) {
            Ok(summary) => summary,
            Err(e) => {
                return Err(e);
            },
        };
        let summary_benchmarks = match Summary::new(
            data_benchmarks.as_slice(),
            last_date,
            &benchmarks,
        ) {
            Ok(summary) => summary,
            Err(e) => {
                return Err(e);
            },
        };
        Ok(
            InputData {
                summary_rustc,
                summary_benchmarks,
                crate_list,
                phase_list,
                benchmarks,
                last_date,
                data_rustc: Series { runs: data_rustc },
                data_benchmarks: Series { runs: data_benchmarks },
            },
        )
    }

    /// The series of `kind`: in ascending order of date, and not empty.
    pub fn by_kind(&self, kind: Kind) -> (runs: &[TestRun])
        ensures
            runs@ == self.runs(kind),
            ascending(views(runs@)),
            runs@.len() > 0,
    {
        match kind {
            Kind::Benchmarks => self.data_benchmarks.runs(),
            Kind::Rustc => self.data_rustc.runs(),
        }
    }

    /// The summary of the series of `kind`.
    pub fn summary(&self, kind: Kind) -> (summary: &Summary)
        ensures
            *summary == (match kind {
                Kind::Benchmarks => self.summary_benchmarks,
                Kind::Rustc => self.summary_rustc,
            }),
    {
        match kind {
            Kind::Benchmarks => &self.summary_benchmarks,
            Kind::Rustc => &self.summary_rustc,
        }
    }

    /// The runs of `kind` between two dates: from the run that answers for
    /// `start` to the run that answers for `end`, both included. A start
    /// left out stands for the earliest date there is, an end left out for
    /// the last date of the data.
    pub fn kinded_range(&self, kind: Kind, start: &OptionalDate, end: &OptionalDate) -> (range:
        &[TestRun])
        ensures
            range@ == range_of(
                self.runs(kind),
                start.start_date(),
                end.end_date(self.last_date),
            ),
    {
        let kinded = self.by_kind(kind);
        let len = kinded.len();
        let from = index_in(kinded, start.as_start());
        let last = index_in(kinded, end.as_end(self.last_date));
        let to = last + 1;
        if from <= last {
            &kinded[from..to]
        } else {
            &kinded[0..0]
        }
    }

    /// The run of `kind` that answers for the end of a range.
    pub fn kinded_end_day(&self, kind: Kind, end: &OptionalDate) -> (run: &TestRun)
        ensures
            0 <= index_at(views(self.runs(kind)), end.end_date(self.last_date)) < self.runs(
                kind,
            ).len(),
            *run == self.runs(kind)[index_at(
                views(self.runs(kind)),
                end.end_date(self.last_date),
            )],
    {
        let kinded = self.by_kind(kind);
        &kinded[index_in(kinded, end.as_end(self.last_date))]
    }

    /// The run of `kind` that answers for the start of a range.
    pub fn kinded_start_day(&self, kind: Kind, start: &OptionalDate) -> (run: &TestRun)
        ensures
            0 <= index_at(views(self.runs(kind)), start.start_date()) < self.runs(kind).len(),
            *run == self.runs(kind)[index_at(views(self.runs(kind)), start.start_date())],
    {
        let kinded = self.by_kind(kind);
        &kinded[index_in(kinded, start.as_start())]
    }
}

} // verus!
