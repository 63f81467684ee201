use crate::date::Date;
use crate::strmap::StrMap;
use crate::timing::{by_crate_of, make_times, CrateSample, Timing};
use vstd::prelude::*;

verus! {

/// The two series of runs: of single benchmarks, and of the whole compiler.
#[derive(Debug, Clone, Copy, PartialEq, Eq, Hash, Structural)]
pub enum Kind {
    Benchmarks,
    Rustc,
}

/// The test name that marks a run of the whole compiler.
pub open spec fn rustc_name() -> Seq<char> {
    "rustc"@
}

/// The name under which the series of single benchmarks goes.
pub open spec fn benchmarks_name() -> Seq<char> {
    "benchmarks"@
}

/// The kind of the runs of the test called `test_name`.
pub open spec fn kind_of(test_name: Seq<char>) -> Kind {
    if test_name == rustc_name() {
        Kind::Rustc
    } else {
        Kind::Benchmarks
    }
}

impl Kind {
    /// The name of the series.
    pub open spec fn spec_name(self) -> Seq<char> {
        match self {
            Kind::Benchmarks => benchmarks_name(),
            Kind::Rustc => rustc_name(),
        }
    }

    /// The name of the series.
    pub fn name(&self) -> (name: &'static str)
        ensures
            name@ == self.spec_name(),
    {
        match self {
            Kind::Benchmarks => "benchmarks",
            Kind::Rustc => "rustc",
        }
    }

    /// The series called `name`, if there is one.
    pub fn from_name(name: &str) -> (kind: Option<Kind>)
        ensures
            kind == (if name@ == rustc_name() {
                Some(Kind::Rustc)
            } else if name@ == benchmarks_name() {
                Some(Kind::Benchmarks)
            } else {
                None
            }),
    {
        let owned = name.to_owned();
        if owned == "rustc".to_owned() {
            Some(Kind::Rustc)
        } else if owned == "benchmarks".to_owned() {
            Some(Kind::Benchmarks)
        } else {
            None
        }
    }

    /// The kind of the runs of the test called `test_name`.
    pub fn of_test(test_name: &str) -> (kind: Kind)
        ensures
            kind == kind_of(test_name@),
    {
        if test_name.to_owned() == "rustc".to_owned() {
            Kind::Rustc
        } else {
            Kind::Benchmarks
        }
    }
}

/// The data of one run: its date, its commit, its kind, and its timings by
/// crate and phase.
#[derive(Debug)]
pub struct TestRun {
    pub date: Date,
    pub commit: String,
    pub kind: Kind,
    pub by_crate: StrMap<StrMap<Timing>>,
}

/// What a run holds, as plain mathematical values.
pub struct RunView {
    pub date: Date,
    pub commit: Seq<char>,
    pub kind: Kind,
    pub by_crate: Map<Seq<char>, Map<Seq<char>, Timing>>,
}

impl View for TestRun {
    type V = RunView;

    open spec fn view(&self) -> RunView {
        RunView {
            date: self.date,
            commit: self.commit@,
            kind: self.kind,
            by_crate: self.by_crate.deep(),
        }
    }
}

/// What each of `runs` holds, in their order.
pub open spec fn views(runs: Seq<TestRun>) -> Seq<RunView> {
    runs.map_values(|run: TestRun| run@)
}

impl TestRun {
    /// The run of the test called `test_name` at `commit`, with the timings
    /// that its document reports.
    pub fn new(date: Date, commit: String, times: &[CrateSample], test_name: &str) -> (run: TestRun)
        ensures
            run@ == (RunView {
                date,
                commit: commit@,
                kind: kind_of(test_name@),
                by_crate: by_crate_of(times@, test_name@ == rustc_name()),
            }),
    {
        let kind = Kind::of_test(test_name);
        let is_rustc = match kind {
            Kind::Rustc => true,
            Kind::Benchmarks => false,
        };
        TestRun { date, commit, kind, by_crate: make_times(times, is_rustc) }
    }
}

} // verus!
