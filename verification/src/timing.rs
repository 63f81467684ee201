use crate::strmap::StrMap;
use vstd::prelude::*;

verus! {

/// The percentage that stands for the whole of a crate's time, in millionths
/// of a percent, the unit of every percentage held here.
pub const FULL_PERCENT: u64 = 100_000_000;

/// One phase's share of a run: its percentage of the crate's time in
/// millionths of a percent, its time in ticks of the caller's clock, and its
/// memory where that was measured.
#[derive(Debug, Clone, Copy, PartialEq, Eq, Structural)]
pub struct Timing {
    pub percent: u64,
    pub time: u128,
    pub rss: Option<u64>,
}

/// What one document reports of one phase of one crate.
#[derive(Debug, Clone, Copy, PartialEq, Eq, Structural)]
pub struct PhaseSample {
    pub percent: u64,
    pub time: u64,
}

/// What one document reports of one crate: the crate's total time, its phases
/// by name and, where memory was measured, the memory of its phases by name.
#[derive(Debug)]
pub struct CrateSample {
    pub name: String,
    pub total: u64,
    pub times: StrMap<PhaseSample>,
    pub rss: Option<StrMap<u64>>,
}

/// The name under which totals are kept, as a phase and as a crate.
pub open spec fn total_name() -> Seq<char> {
    "total"@
}

/// `peak` is the largest of the values of `readings`, or zero where there is none.
pub open spec fn is_peak(readings: Map<Seq<char>, u64>, peak: u64) -> bool {
    &&& forall|k: Seq<char>| readings.contains_key(k) ==> #[trigger] readings[k] <= peak
    &&& peak == 0 || exists|k: Seq<char>| readings.contains_key(k) && #[trigger] readings[k] == peak
}

/// The larger of an accumulated memory figure and a new reading, if there is one.
pub open spec fn raised(so_far: u64, reading: Option<u64>) -> u64 {
    match reading {
        Some(r) => if r > so_far {
            r
        } else {
            so_far
        },
        None => so_far,
    }
}

impl Timing {
    /// The timing that an aggregate starts from.
    pub fn new() -> (t: Timing)
        ensures
            t == Timing::zero(),
    {
        Timing { percent: 0, time: 0, rss: Some(0) }
    }

    /// The timing that an aggregate starts from: no time, and no memory yet.
    pub open spec fn zero() -> Timing {
        Timing { percent: 0, time: 0, rss: Some(0) }
    }
}

impl CrateSample {
    /// The memory readings of the crate's phases; none where memory was not measured.
    pub open spec fn readings(&self) -> Map<Seq<char>, u64> {
        match self.rss {
            Some(m) => m@,
            None => Map::empty(),
        }
    }

    /// The memory reading of `phase`, if there is one.
    pub open spec fn reading(&self, phase: Seq<char>) -> Option<u64> {
        if self.readings().contains_key(phase) {
            Some(self.readings()[phase])
        } else {
            None
        }
    }

    /// The largest memory reading of the crate, zero where there is none.
    pub open spec fn peak(&self) -> u64 {
        choose|peak: u64| is_peak(self.readings(), peak)
    }

    /// The crate's timings by phase: one for each reported phase, and under
    /// the total's name (whatever was reported under it) the crate's total
    /// time with its largest memory reading.
    pub open spec fn timings(&self) -> Map<Seq<char>, Timing> {
        Map::new(
            |p: Seq<char>| p == total_name() || self.times@.contains_key(p),
            |p: Seq<char>|
                if p == total_name() {
                    Timing {
                        percent: FULL_PERCENT,
                        time: self.total as u128,
                        rss: Some(self.peak()),
                    }
                } else {
                    self.reported(p)
                },
        )
    }

    /// The timing of a reported phase: its percentage and time as reported,
    /// with its memory reading if there is one.
    pub open spec fn reported(&self, phase: Seq<char>) -> Timing {
        Timing {
            percent: self.times@[phase].percent,
            time: self.times@[phase].time as u128,
            rss: self.reading(phase),
        }
    }
}

/// Two peaks of the same readings are equal.
pub proof fn lemma_peak_unique(readings: Map<Seq<char>, u64>, a: u64, b: u64)
    requires
        is_peak(readings, a),
        is_peak(readings, b),
    ensures
        a == b,
{
}

/// The largest value of `readings`, zero for none.
fn peak_of(readings: &StrMap<u64>) -> (peak: u64)
    ensures
        is_peak(readings@, peak),
{
    let n = readings.len();
    let mut peak: u64 = 0;
    let mut i: usize = 0;
    while i < n
        invariant
            readings.wf(),
            n == readings.spec_len(),
            i <= n,
            forall|j: int| 0 <= j < i ==> readings.spec_value(j) <= peak,
            peak == 0 || exists|j: int| 0 <= j < i && readings.spec_value(j) == peak,
        decreases n - i,
    {
        let v = *readings.value(i);
        if v > peak {
            peak = v;
        }
        i += 1;
    }
    proof {
        assert forall|k: Seq<char>| readings@.contains_key(k) implies #[trigger] readings@[k]
            <= peak by {
            let j = choose|j: int| 0 <= j < readings.spec_len() && readings.spec_key(j) == k;
            assert(readings@[readings.spec_key(j)] == readings.spec_value(j));
        }
        if peak != 0 {
            let j = choose|j: int| 0 <= j < n && readings.spec_value(j) == peak;
            let k = readings.spec_key(j);
            assert(readings@.contains_key(k) && readings@[k] == peak);
        }
    }
    peak
}

/// The timings of one crate by phase.
pub fn sample_timings(sample: &CrateSample) -> (times: StrMap<Timing>)
    ensures
        times@ == sample.timings(),
{
    let mut times: StrMap<Timing> = StrMap::new();
    let n = sample.times.len();
    let mut i: usize = 0;
    while i < n
        invariant
            sample.times.wf(),
            n == sample.times.spec_len(),
            i <= n,
            forall|p: Seq<char>|
                times@.contains_key(p) <==> exists|j: int|
                    0 <= j < i && #[trigger] sample.times.spec_key(j) == p,
            forall|p: Seq<char>| #[trigger]
                times@.contains_key(p) ==> times@[p] == sample.reported(p),
        decreases n - i,
    {
        let phase = sample.times.key(i);
        let reported = *sample.times.value(i);
        let rss = match &sample.rss {
            Some(readings) => match readings.get(phase.as_str()) {
                Some(r) => Some(*r),
                None => None,
            },
            None => None,
        };
        times.insert(
            phase.clone(),
            Timing { percent: reported.percent, time: reported.time as u128, rss },
        );
        proof {
            assert forall|p: Seq<char>| times@.contains_key(p) <==> exists|j: int|
                0 <= j < i + 1 && #[trigger] sample.times.spec_key(j) == p by {
            }
        }
        i += 1;
    }
    let peak = match &sample.rss {
        Some(readings) => peak_of(readings),
        None => 0,
    };
    proof {
        lemma_peak_unique(sample.readings(), peak, sample.peak());
    }
    times.insert(
        "total".to_owned(),
        Timing { percent: FULL_PERCENT, time: sample.total as u128, rss: Some(peak) },
    );
    times
}

/// What `sample` reports as the time of `phase`; zero where it has no such phase.
pub open spec fn time_in(sample: CrateSample, phase: Seq<char>) -> nat {
    if sample.timings().contains_key(phase) {
        sample.timings()[phase].time as nat
    } else {
        0
    }
}

/// What `sample` reports as the memory of `phase`, if anything.
pub open spec fn memory_in(sample: CrateSample, phase: Seq<char>) -> Option<u64> {
    if sample.timings().contains_key(phase) {
        sample.timings()[phase].rss
    } else {
        None
    }
}

/// The sum over `entries` of the time each reports for `phase`.
pub open spec fn summed_time(entries: Seq<CrateSample>, phase: Seq<char>) -> nat
    decreases entries.len(),
{
    if entries.len() == 0 {
        0
    } else {
        summed_time(entries.drop_last(), phase) + time_in(entries.last(), phase)
    }
}

/// The largest memory that any of `entries` reports for `phase`; zero where none does.
pub open spec fn peak_memory(entries: Seq<CrateSample>, phase: Seq<char>) -> u64
    decreases entries.len(),
{
    if entries.len() == 0 {
        0
    } else {
        raised(peak_memory(entries.drop_last(), phase), memory_in(entries.last(), phase))
    }
}

/// Whether any of `entries` has a timing for `phase`.
pub open spec fn phase_seen(entries: Seq<CrateSample>, phase: Seq<char>) -> bool {
    exists|i: int| 0 <= i < entries.len() && #[trigger] entries[i].timings().contains_key(phase)
}

/// The aggregate over all of `entries`: for each phase that any of them has,
/// the sum of its times and the largest of its memory readings. An aggregate
/// carries no percentage: the field is zero.
pub open spec fn aggregate(entries: Seq<CrateSample>) -> Map<Seq<char>, Timing> {
    Map::new(
        |p: Seq<char>| phase_seen(entries, p),
        |p: Seq<char>|
            Timing {
                percent: 0,
                time: summed_time(entries, p) as u128,
                rss: Some(peak_memory(entries, p)),
            },
    )
}

/// The timings of `entries` by crate name; of two entries with one name the later stays.
pub open spec fn crates_of(entries: Seq<CrateSample>) -> Map<Seq<char>, Map<Seq<char>, Timing>>
    decreases entries.len(),
{
    if entries.len() == 0 {
        Map::empty()
    } else {
        crates_of(entries.drop_last()).insert(entries.last().name@, entries.last().timings())
    }
}

/// The timings of a run by crate and phase. A run of the whole compiler
/// holds, under the total's name and in place of any crate of that name, the
/// aggregate over its crates.
pub open spec fn by_crate_of(entries: Seq<CrateSample>, is_rustc: bool) -> Map<
    Seq<char>,
    Map<Seq<char>, Timing>,
> {
    if is_rustc {
        crates_of(entries).insert(total_name(), aggregate(entries))
    } else {
        crates_of(entries)
    }
}

/// An accumulated timing after one more timing of the same phase is taken
/// in: the times add up, the larger memory figure stays.
spec fn taken_in(so_far: Timing, t: Timing) -> Timing {
    Timing {
        percent: so_far.percent,
        time: (so_far.time + t.time) as u128,
        rss: match so_far.rss {
            Some(m) => Some(raised(m, t.rss)),
            None => t.rss,
        },
    }
}

/// Accumulated timings by phase after those of one more crate are taken in.
spec fn absorbed(totals: Map<Seq<char>, Timing>, times: Map<Seq<char>, Timing>) -> Map<
    Seq<char>,
    Timing,
> {
    Map::new(
        |p: Seq<char>| totals.contains_key(p) || times.contains_key(p),
        |p: Seq<char>|
            if times.contains_key(p) {
                taken_in(
                    if totals.contains_key(p) {
                        totals[p]
                    } else {
                        Timing::zero()
                    },
                    times[p],
                )
            } else {
                totals[p]
            },
    )
}

/// No sum of times exceeds the largest time once for each entry.
pub proof fn lemma_summed_time_bound(entries: Seq<CrateSample>, phase: Seq<char>)
    ensures
        summed_time(entries, phase) <= entries.len() * u64::MAX,
    decreases entries.len(),
{
    if entries.len() > 0 {
        lemma_summed_time_bound(entries.drop_last(), phase);
        assert((entries.len() - 1) * u64::MAX + u64::MAX == entries.len() * u64::MAX)
            by (nonlinear_arith);
    }
}

/// The aggregate over a list with one more entry is the aggregate over the
/// list with the new entry's timings taken in.
proof fn lemma_aggregate_push(entries: Seq<CrateSample>, sample: CrateSample)
    requires
        entries.len() < usize::MAX,
    ensures
        aggregate(entries.push(sample)) == absorbed(aggregate(entries), sample.timings()),
{
    let grown = entries.push(sample);
    assert(grown.drop_last() =~= entries);
    assert(grown.last() == sample);
    assert forall|p: Seq<char>| phase_seen(grown, p) <==> phase_seen(entries, p)
        || sample.timings().contains_key(p) by {
    }
    assert forall|p: Seq<char>| #[trigger]
        aggregate(grown).contains_key(p) implies aggregate(grown)[p] == absorbed(
        aggregate(entries),
        sample.timings(),
    )[p] by {
        lemma_summed_time_bound(entries, p);
        if !phase_seen(entries, p) {
            lemma_unseen_phase(entries, p);
        }
    }
}

/// A phase that no entry has sums to zero and has no memory figure above zero.
proof fn lemma_unseen_phase(entries: Seq<CrateSample>, phase: Seq<char>)
    requires
        !phase_seen(entries, phase),
    ensures
        summed_time(entries, phase) == 0,
        peak_memory(entries, phase) == 0,
    decreases entries.len(),
{
    if entries.len() > 0 {
        let rest = entries.drop_last();
        lemma_unseen_phase(rest, phase);
    }
}

/// Takes the timings of one more crate into the accumulated ones.
fn absorb(totals: &mut StrMap<Timing>, times: &StrMap<Timing>)
    requires
        forall|p: Seq<char>| times@.contains_key(p) ==> (#[trigger] times@[p]).time <= u64::MAX,
        forall|p: Seq<char>|
            old(totals)@.contains_key(p) ==> (#[trigger] old(totals)@[p]).time + u64::MAX
                <= u128::MAX,
    ensures
        final(totals)@ == absorbed(old(totals)@, times@),
{
    let n = times.len();
    let mut i: usize = 0;
    while i < n
        invariant
            times.wf(),
            n == times.spec_len(),
            i <= n,
            forall|p: Seq<char>| times@.contains_key(p) ==> (#[trigger] times@[p]).time <= u64::MAX,
            forall|p: Seq<char>|
                old(totals)@.contains_key(p) ==> (#[trigger] old(totals)@[p]).time + u64::MAX
                    <= u128::MAX,
            forall|p: Seq<char>|
                totals@.contains_key(p) <==> old(totals)@.contains_key(p) || exists|j: int|
                    0 <= j < i && #[trigger] times.spec_key(j) == p,
            forall|p: Seq<char>| #[trigger]
                totals@.contains_key(p) ==> totals@[p] == (if exists|j: int|
                    0 <= j < i && #[trigger] times.spec_key(j) == p {
                    absorbed(old(totals)@, times@)[p]
                } else {
                    old(totals)@[p]
                }),
        decreases n - i,
    {
        let phase = times.key(i);
        let t = *times.value(i);
        let so_far = match totals.find(phase) {
            Some(at) => *totals.value(at),
            None => Timing::new(),
        };
        let rss = match so_far.rss {
            Some(m) => match t.rss {
                Some(r) => if r > m {
                    Some(r)
                } else {
                    Some(m)
                },
                None => Some(m),
            },
            None => t.rss,
        };
        totals.insert(
            phase.clone(),
            Timing { percent: so_far.percent, time: so_far.time + t.time, rss },
        );
        proof {
            assert forall|p: Seq<char>| totals@.contains_key(p) <==> old(totals)@.contains_key(p)
                || exists|j: int| 0 <= j < i + 1 && #[trigger] times.spec_key(j) == p by {
            }
        }
        i += 1;
    }
    proof {
        assert forall|p: Seq<char>| #[trigger] totals@.contains_key(p) implies totals@[p]
            == absorbed(old(totals)@, times@)[p] by {
        }
    }
}

/// Builds the timings of a run by crate and phase from what its document
/// reports of each crate.
pub fn make_times(timings: &[CrateSample], is_rustc: bool) -> (by_crate: StrMap<StrMap<Timing>>)
    ensures
        by_crate.deep() == by_crate_of(timings@, is_rustc),
{
    let mut by_crate: StrMap<StrMap<Timing>> = StrMap::new();
    let mut totals: StrMap<Timing> = StrMap::new();
    let n = timings.len();
    let mut i: usize = 0;
    while i < n
        invariant
            n == timings@.len(),
            i <= n,
            by_crate.deep() == crates_of(timings@.take(i as int)),
            totals@ == aggregate(timings@.take(i as int)),
        decreases n - i,
    {
        let sample = &timings[i];
        let times = sample_timings(sample);
        proof {
            let done = timings@.take(i as int);
            assert(timings@.take(i + 1) =~= done.push(*sample));
            assert(timings@.take(i + 1).drop_last() =~= done);
            lemma_aggregate_push(done, *sample);
            assert forall|p: Seq<char>| totals@.contains_key(p) implies (#[trigger] totals@[p]).time
                + u64::MAX <= u128::MAX by {
                lemma_summed_time_bound(done, p);
            }
        }
        absorb(&mut totals, &times);
        by_crate.insert(sample.name.clone(), times);
        i += 1;
    }
    proof {
        assert(timings@.take(n as int) =~= timings@);
    }
    if is_rustc {
        by_crate.insert("total".to_owned(), totals);
    }
    by_crate
}

/// The names of the crates that `entries` report, in their order.
pub open spec fn crate_names(entries: Seq<CrateSample>) -> Seq<Seq<char>> {
    entries.map_values(|e: CrateSample| e.name@)
}

/// The sum, over the crates named, of the time that `by_crate` holds for
/// their total.
pub open spec fn sum_of_totals(
    by_crate: Map<Seq<char>, Map<Seq<char>, Timing>>,
    crates: Seq<Seq<char>>,
) -> nat
    decreases crates.len(),
{
    if crates.len() == 0 {
        0
    } else {
        sum_of_totals(by_crate, crates.drop_last())
            + by_crate[crates.last()][total_name()].time as nat
    }
}

/// The largest, over the crates named, of the memory that `by_crate` holds
/// for their total; zero where it holds none.
pub open spec fn peak_of_totals(
    by_crate: Map<Seq<char>, Map<Seq<char>, Timing>>,
    crates: Seq<Seq<char>>,
) -> u64
    decreases crates.len(),
{
    if crates.len() == 0 {
        0
    } else {
        raised(
            peak_of_totals(by_crate, crates.drop_last()),
            by_crate[crates.last()][total_name()].rss,
        )
    }
}

/// Each entry's timings stand under its crate's name where no later entry has that name.
proof fn lemma_crates_of_holds(entries: Seq<CrateSample>, i: int)
    requires
        0 <= i < entries.len(),
        forall|j: int| i < j < entries.len() ==> entries[j].name@ != entries[i].name@,
    ensures
        crates_of(entries).contains_key(entries[i].name@),
        crates_of(entries)[entries[i].name@] == entries[i].timings(),
    decreases entries.len(),
{
    if i < entries.len() - 1 {
        let rest = entries.drop_last();
        lemma_crates_of_holds(rest, i);
    }
}

/// In a run of the whole compiler whose crates have distinct names, none of
/// them the total's name, the total crate's total phase holds the sum of the
/// crates' total times, and the largest of the crates' total memory figures.
pub proof fn lemma_total_aggregates_crates(entries: Seq<CrateSample>)
    requires
        0 < entries.len() <= usize::MAX,
        crate_names(entries).no_duplicates(),
        !crate_names(entries).contains(total_name()),
    ensures
        by_crate_of(entries, true).contains_key(total_name()),
        by_crate_of(entries, true)[total_name()].contains_key(total_name()),
        by_crate_of(entries, true)[total_name()][total_name()].time == sum_of_totals(
            by_crate_of(entries, true),
            crate_names(entries),
        ),
        by_crate_of(entries, true)[total_name()][total_name()].rss == Some(
            peak_of_totals(by_crate_of(entries, true), crate_names(entries)),
        ),
{
    let by_crate = by_crate_of(entries, true);
    let names = crate_names(entries);
    assert(entries[0].timings().contains_key(total_name()));
    lemma_summed_time_bound(entries, total_name());
    assert forall|i: int| 0 <= i < entries.len() implies #[trigger] by_crate[names[i]]
        == entries[i].timings() by {
        assert forall|j: int| i < j < entries.len() implies entries[j].name@
            != entries[i].name@ by {
            assert(names[i] != names[j]);
        }
        lemma_crates_of_holds(entries, i);
    }
    lemma_totals_agree(entries, by_crate, entries.len() as int);
    assert(entries.take(entries.len() as int) =~= entries);
    assert(names.take(entries.len() as int) =~= names);
}

/// Over any number of leading entries, summing what they report as their
/// total and summing what `by_crate` holds for them come to the same.
proof fn lemma_totals_agree(
    entries: Seq<CrateSample>,
    by_crate: Map<Seq<char>, Map<Seq<char>, Timing>>,
    upto: int,
)
    requires
        0 <= upto <= entries.len(),
        forall|i: int|
            0 <= i < entries.len() ==> #[trigger] by_crate[crate_names(entries)[i]]
                == entries[i].timings(),
    ensures
        summed_time(entries.take(upto), total_name()) == sum_of_totals(
            by_crate,
            crate_names(entries).take(upto),
        ),
        peak_memory(entries.take(upto), total_name()) == peak_of_totals(
            by_crate,
            crate_names(entries).take(upto),
        ),
    decreases upto,
{
    if upto > 0 {
        lemma_totals_agree(entries, by_crate, upto - 1);
        assert(entries.take(upto).drop_last() =~= entries.take(upto - 1));
        assert(crate_names(entries).take(upto).drop_last() =~= crate_names(entries).take(
            upto - 1,
        ));
    }
}

} // verus!
