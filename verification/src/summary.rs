use crate::date::{week_start, Date, SECONDS_PER_WEEK};
use crate::errors::Error;
use crate::median::{medians, MedianRun, MedianView};
use crate::run::{views, RunView, TestRun};
use crate::strmap::{StrMap, StrSet};
use crate::util::{ascending, index_at, index_in};
use vstd::prelude::*;

verus! {

/// The number of weeks that a summary covers.
pub const WEEKS_IN_SUMMARY: usize = 12;

/// The change from one figure to a later one, kept exactly: whether the
/// figure fell, by how much it moved, and the earlier figure, which the
/// change is measured against. In percent the change is `delta / base * 100`,
/// below zero where the figure fell.
#[derive(Debug, Clone, Copy, PartialEq, Eq, Structural)]
pub struct Change {
    pub falling: bool,
    pub delta: u128,
    pub base: u128,
}

impl Change {
    /// The numerator of the change in percent.
    pub open spec fn numer(self) -> int {
        if self.falling {
            -100 * self.delta
        } else {
            100 * self.delta
        }
    }

    /// The denominator of the change in percent.
    pub open spec fn denom(self) -> int {
        self.base as int
    }
}

/// The change from `previous` to `current`.
pub open spec fn percent_change(previous: u128, current: u128) -> Change {
    if current < previous {
        Change { falling: true, delta: (previous - current) as u128, base: previous }
    } else {
        Change { falling: false, delta: (current - previous) as u128, base: previous }
    }
}

/// The changes from the medians `week0` to the medians `week1`: for each
/// crate that both have, the change of each phase that both have for it and
/// whose median is above zero in both. Other phases are left out.
pub open spec fn compared(
    week0: Map<Seq<char>, Map<Seq<char>, u128>>,
    week1: Map<Seq<char>, Map<Seq<char>, u128>>,
) -> Map<Seq<char>, Map<Seq<char>, Change>> {
    Map::new(
        |c: Seq<char>| week0.contains_key(c) && week1.contains_key(c),
        |c: Seq<char>| compared_phases(week0[c], week1[c]),
    )
}

/// The changes of one crate's phases from the medians `week0` to the medians `week1`.
pub open spec fn compared_phases(week0: Map<Seq<char>, u128>, week1: Map<Seq<char>, u128>) -> Map<
    Seq<char>,
    Change,
> {
    Map::new(
        |p: Seq<char>|
            week0.contains_key(p) && week1.contains_key(p) && week0[p] > 0 && week1[p] > 0,
        |p: Seq<char>| percent_change(week0[p], week1[p]),
    )
}

/// Which changes are there, and what they are: a phase of a crate whose
/// median is zero at either end has no change; a change that is there is,
/// in percent, the difference of the two medians over the earlier one, times
/// a hundred.
pub proof fn lemma_compared(
    week0: Map<Seq<char>, Map<Seq<char>, u128>>,
    week1: Map<Seq<char>, Map<Seq<char>, u128>>,
    krate: Seq<char>,
    phase: Seq<char>,
)
    requires
        week0.contains_key(krate),
        week1.contains_key(krate),
        week0[krate].contains_key(phase),
        week1[krate].contains_key(phase),
    ensures
        compared(week0, week1).contains_key(krate),
        week0[krate][phase] == 0 || week1[krate][phase] == 0 ==> !compared(
            week0,
            week1,
        )[krate].contains_key(phase),
        compared(week0, week1)[krate].contains_key(phase) ==> {
            &&& compared(week0, week1)[krate][phase].numer() == 100 * (week1[krate][phase]
                - week0[krate][phase])
            &&& compared(week0, week1)[krate][phase].denom() == week0[krate][phase]
            &&& compared(week0, week1)[krate][phase].denom() > 0
        },
{
}

/// The figures of a summary: the change over the whole span, and the changes
/// of each of its weeks, the latest week first.
#[derive(Debug)]
pub struct Summary {
    pub total: MedianRun<Change>,
    pub summary: Vec<MedianRun<Change>>,
}

/// What a `Summary` holds, as plain mathematical values.
pub struct SummaryView {
    pub total: MedianView<Change>,
    pub summary: Seq<MedianView<Change>>,
}

impl View for Summary {
    type V = SummaryView;

    open spec fn view(&self) -> SummaryView {
        SummaryView {
            total: self.total@,
            summary: self.summary@.map_values(|week: MedianRun<Change>| week@),
        }
    }
}

/// The start of the week that lies `back` weeks before the week of `last`,
/// in seconds since the epoch.
pub open spec fn week_begin(last: Date, back: int) -> int {
    week_start(last.secs as int) - back * SECONDS_PER_WEEK
}

/// Whether every date that a summary as of `last` asks about is a date there is.
pub open spec fn dates_fit(last: Date) -> bool {
    &&& week_begin(last, 13) >= i64::MIN
    &&& last.secs + SECONDS_PER_WEEK <= i64::MAX
}

/// The index that answers for the start of the week `back` weeks back.
pub open spec fn week_from(runs: Seq<RunView>, last: Date, back: int) -> int {
    index_at(runs, Date { secs: week_begin(last, back) as i64 })
}

/// The index that answers for the end of the week `back` weeks back.
pub open spec fn week_to(runs: Seq<RunView>, last: Date, back: int) -> int {
    index_at(runs, Date { secs: (week_begin(last, back) + SECONDS_PER_WEEK) as i64 })
}

/// Whether both ends of the week `back` weeks back fall on the very first run.
pub open spec fn thin_at_start(runs: Seq<RunView>, last: Date, back: int) -> bool {
    week_from(runs, last, back) == 0 && week_to(runs, last, back) == 0
}

/// Whether `runs` can be summarized as of `last`: there is a run, the dates
/// fit, and no week of the summary falls with both ends on the first run.
pub open spec fn summarizable(runs: Seq<RunView>, last: Date) -> bool {
    &&& runs.len() > 0
    &&& dates_fit(last)
    &&& forall|back: int| 0 <= back < WEEKS_IN_SUMMARY ==> !thin_at_start(runs, last, back)
}

/// The changes over the week `back` weeks back: from the medians at the
/// week's start to the medians at its end. Where both ends fall on one run,
/// the start is the run before.
pub open spec fn week_changes(runs: Seq<RunView>, last: Date, back: int) -> MedianView<Change> {
    let to = week_to(runs, last, back);
    let from = if week_from(runs, last, back) == to {
        to - 1
    } else {
        week_from(runs, last, back)
    };
    MedianView {
        date: Date { secs: (week_begin(last, back) + SECONDS_PER_WEEK) as i64 },
        by_crate: compared(medians(runs, from), medians(runs, to)),
    }
}

/// The changes over the whole span: from thirteen weeks before the week of
/// `last` to one week after `last`.
pub open spec fn total_changes(runs: Seq<RunView>, last: Date) -> MedianView<Change> {
    MedianView {
        date: Date { secs: (last.secs + SECONDS_PER_WEEK) as i64 },
        by_crate: compared(
            medians(runs, index_at(runs, Date { secs: week_begin(last, 13) as i64 })),
            medians(runs, index_at(runs, Date { secs: (last.secs + SECONDS_PER_WEEK) as i64 })),
        ),
    }
}

/// `by_crate` with each of `names` that it lacks bound to no phases at all.
pub open spec fn filled(
    by_crate: Map<Seq<char>, Map<Seq<char>, Change>>,
    names: Set<Seq<char>>,
) -> Map<Seq<char>, Map<Seq<char>, Change>> {
    Map::new(
        |c: Seq<char>| by_crate.contains_key(c) || names.contains(c),
        |c: Seq<char>|
            if by_crate.contains_key(c) {
                by_crate[c]
            } else {
                Map::empty()
            },
    )
}

/// One week of a summary: the week's changes, with every benchmark present.
pub open spec fn summary_week(
    runs: Seq<RunView>,
    last: Date,
    benchmarks: Set<Seq<char>>,
    back: int,
) -> MedianView<Change> {
    MedianView {
        date: week_changes(runs, last, back).date,
        by_crate: filled(week_changes(runs, last, back).by_crate, benchmarks),
    }
}

/// The summary of `runs` as of `last`.
pub open spec fn summary_of(
    runs: Seq<RunView>,
    last: Date,
    benchmarks: Set<Seq<char>>,
) -> SummaryView {
    SummaryView {
        total: total_changes(runs, last),
        summary: Seq::new(
            WEEKS_IN_SUMMARY as nat,
            |back: int| summary_week(runs, last, benchmarks, back),
        ),
    }
}

/// Binds each of `benchmarks` that `by_crate` lacks to no phases at all.
fn fill(by_crate: &mut StrMap<StrMap<Change>>, benchmarks: &StrSet)
    ensures
        final(by_crate).deep() == filled(old(by_crate).deep(), benchmarks@),
{
    let n = benchmarks.len();
    let mut i: usize = 0;
    while i < n
        invariant
            benchmarks.wf(),
            n == benchmarks.spec_len(),
            i <= n,
            forall|c: Seq<char>|
                by_crate.deep().contains_key(c) <==> old(by_crate).deep().contains_key(c)
                    || exists|k: int| 0 <= k < i && #[trigger] benchmarks.spec_name(k) == c,
            forall|c: Seq<char>| #[trigger]
                by_crate.deep().contains_key(c) ==> by_crate.deep()[c] == filled(
                    old(by_crate).deep(),
                    benchmarks@,
                )[c],
        decreases n - i,
    {
        let name = benchmarks.name(i);
        if by_crate.find(name).is_none() {
            let none: StrMap<Change> = StrMap::new();
            by_crate.insert(name.clone(), none);
        }
        proof {
            assert forall|c: Seq<char>|
                by_crate.deep().contains_key(c) <==> old(by_crate).deep().contains_key(c)
                    || exists|k: int| 0 <= k < i + 1 && #[trigger] benchmarks.spec_name(k) == c by {
            }
        }
        i += 1;
    }
}

/// The changes of one crate's phases between two sets of medians.
fn compare_phases(week0: &StrMap<u128>, week1: &StrMap<u128>) -> (changes: StrMap<Change>)
    ensures
        changes@ == compared_phases(week0@, week1@),
{
    let mut changes: StrMap<Change> = StrMap::new();
    let n = week0.len();
    let mut i: usize = 0;
    while i < n
        invariant
            week0.wf(),
            n == week0.spec_len(),
            i <= n,
            forall|p: Seq<char>|
                changes@.contains_key(p) <==> compared_phases(week0@, week1@).contains_key(p)
                    && exists|k: int| 0 <= k < i && #[trigger] week0.spec_key(k) == p,
            forall|p: Seq<char>| #[trigger]
                changes@.contains_key(p) ==> changes@[p] == percent_change(week0@[p], week1@[p]),
        decreases n - i,
    {
        let phase = week0.key(i);
        let previous = *week0.value(i);
        match week1.lookup(phase) {
            Some(current) => {
                if previous > 0 && *current > 0 {
                    changes.insert(phase.clone(), Summary::get_percent_change(previous, *current));
                }
            },
            None => {},
        }
        proof {
            assert forall|p: Seq<char>| changes@.contains_key(p) <==> compared_phases(
                week0@,
                week1@,
            ).contains_key(p) && exists|k: int| 0 <= k < i + 1 && #[trigger] week0.spec_key(k)
                == p by {
            }
        }
        i += 1;
    }
    proof {
        assert forall|p: Seq<char>|
            compared_phases(week0@, week1@).contains_key(p) implies changes@.contains_key(p) by {
            let k = choose|k: int| 0 <= k < week0.spec_len() && week0.spec_key(k) == p;
            assert(week0.spec_key(k) == p);
        }
    }
    changes
}

impl Summary {
    /// The summary of the runs `data` as of `last_date`: the changes of each
    /// of the last twelve weeks, each week with every one of `benchmarks`
    /// present, and the change over the whole span. There is no summary
    /// where there is no run, where a week falls with both ends on the
    /// first run, or where a date asked about lies outside the dates there are.
    pub fn new(data: &[TestRun], last_date: Date, benchmarks: &StrSet) -> (summary: Result<
        Summary,
        Error,
    >)
        requires
            ascending(views(data@)),
        ensures
            match summary {
                Ok(s) => summarizable(views(data@), last_date) && s@ == summary_of(
                    views(data@),
                    last_date,
                    benchmarks@,
                ),
                Err(e) => e == Error::InternalInvariantViolation && !summarizable(
                    views(data@),
                    last_date,
                ),
            },
    {
        let ghost runs = views(data@);
        if data.len() == 0 {
            return Err(Error::InternalInvariantViolation);
        }
        let this_week = match last_date.start_of_week() {
            Some(date) => date,
            None => {
                return Err(Error::InternalInvariantViolation);
            },
        };
        let total_start = match this_week.checked_add_weeks(-13) {
            Some(date) => date,
            None => {
                return Err(Error::InternalInvariantViolation);
            },
        };
        let total_end = match last_date.checked_add_weeks(1) {
            Some(date) => date,
            None => {
                return Err(Error::InternalInvariantViolation);
            },
        };
        let mut weeks: Vec<MedianRun<Change>> = Vec::new();
        let mut i: usize = 0;
        while i < WEEKS_IN_SUMMARY
            invariant
                runs == views(data@),
                ascending(runs),
                runs.len() > 0,
                dates_fit(last_date),
                this_week.secs == week_start(last_date.secs as int),
                i <= WEEKS_IN_SUMMARY,
                weeks@.len() == i,
                forall|back: int| 0 <= back < i ==> !thin_at_start(runs, last_date, back),
                forall|back: int|
                    0 <= back < i ==> (#[trigger] weeks@[back])@ == summary_week(
                        runs,
                        last_date,
                        benchmarks@,
                        back,
                    ),
            decreases WEEKS_IN_SUMMARY - i,
        {
            let back: i64 = i as i64;
            let start = Date { secs: this_week.secs - back * SECONDS_PER_WEEK };
            let end = Date { secs: start.secs + SECONDS_PER_WEEK };
            let mut start_idx = index_in(data, start);
            let end_idx = index_in(data, end);
            if start_idx == end_idx {
                if start_idx == 0 {
                    assert(thin_at_start(runs, last_date, i as int));
                    return Err(Error::InternalInvariantViolation);
                }
                start_idx -= 1;
            }
            let mut changes = Summary::compare_weeks(
                &MedianRun::new(data, start_idx, start),
                &MedianRun::new(data, end_idx, end),
            );
            fill(&mut changes.by_crate, benchmarks);
            weeks.push(changes);
            i += 1;
        }
        let total = Summary::compare_weeks(
            &MedianRun::new(data, index_in(data, total_start), total_start),
            &MedianRun::new(data, index_in(data, total_end), total_end),
        );
        let summary = Summary { total, summary: weeks };
        proof {
            assert(summary@.summary =~= summary_of(runs, last_date, benchmarks@).summary);
        }
        Ok(summary)
    }

    /// The change from the figure `previous` to the figure `current`. In
    /// percent it is `(current - previous) / previous * 100`.
    pub fn get_percent_change(previous: u128, current: u128) -> (change: Change)
        ensures
            change == percent_change(previous, current),
            change.numer() == 100 * (current - previous),
            change.denom() == previous,
    {
        if current < previous {
            Change { falling: true, delta: previous - current, base: previous }
        } else {
            Change { falling: false, delta: current - previous, base: previous }
        }
    }

    /// The changes from the medians of one week to those of the next, under
    /// the later week's date.
    pub fn compare_weeks(week0: &MedianRun<u128>, week1: &MedianRun<u128>) -> (changes: MedianRun<
        Change,
    >)
        ensures
            changes@ == (MedianView {
                date: week1.date,
                by_crate: compared(week0@.by_crate, week1@.by_crate),
            }),
    {
        let mut current_week: StrMap<StrMap<Change>> = StrMap::new();
        let n = week0.by_crate.len();
        let mut i: usize = 0;
        while i < n
            invariant
                week0.by_crate.wf(),
                n == week0.by_crate.spec_len(),
                i <= n,
                forall|c: Seq<char>|
                    current_week.deep().contains_key(c) <==> week1.by_crate@.contains_key(c)
                        && exists|k: int| 0 <= k < i && #[trigger] week0.by_crate.spec_key(k) == c,
                forall|c: Seq<char>| #[trigger]
                    current_week.deep().contains_key(c) ==> current_week.deep()[c]
                        == compared_phases(week0.by_crate@[c]@, week1.by_crate@[c]@),
            decreases n - i,
        {
            let crate_name = week0.by_crate.key(i);
            let ghost before = current_week.deep();
            match week1.by_crate.lookup(crate_name) {
                Some(later) => {
                    let current_crate = compare_phases(week0.by_crate.value(i), later);
                    current_week.insert(crate_name.clone(), current_crate);
                    assert(current_week.deep() == before.insert(
                        crate_name@,
                        compared_phases(
                            week0.by_crate@[crate_name@]@,
                            week1.by_crate@[crate_name@]@,
                        ),
                    ));
                },
                None => {},
            }
            proof {
                assert forall|c: Seq<char>|
                    current_week.deep().contains_key(c) <==> week1.by_crate@.contains_key(c)
                        && exists|k: int|
                        0 <= k < i + 1 && #[trigger] week0.by_crate.spec_key(k) == c by {
                }
            }
            i += 1;
        }
        proof {
            let want = compared(week0@.by_crate, week1@.by_crate);
            assert forall|c: Seq<char>|
                want.contains_key(c) implies current_week.deep().contains_key(c) by {
                let k = choose|k: int|
                    0 <= k < week0.by_crate.spec_len() && week0.by_crate.spec_key(k) == c;
                assert(week0.by_crate.spec_key(k) == c);
            }
            assert(current_week.deep() =~= want);
        }
        MedianRun { date: week1.date, by_crate: current_week }
    }
}

} // verus!
