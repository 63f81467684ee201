use perf_history::date::Date;
use perf_history::errors::Error;
use perf_history::median::MedianRun;
use perf_history::run::TestRun;
use perf_history::strmap::{StrMap, StrSet};
use perf_history::summary::{Change, Summary, WEEKS_IN_SUMMARY};
use perf_history::timing::{CrateSample, PhaseSample};

const WEEK: i64 = 604_800;
// Wednesday, 16 March 2016, 12:00:00.
const FIRST: i64 = 1_458_129_600;

fn sample(krate: &str, total: u64) -> CrateSample {
    let mut times = StrMap::new();
    times.insert("p".to_string(), PhaseSample { percent: 0, time: total });
    CrateSample { name: krate.to_string(), total, times, rss: None }
}

fn weekly(times: &[u64], test: &str, krate: &str) -> Vec<TestRun> {
    times
        .iter()
        .enumerate()
        .map(|(i, time)| {
            TestRun::new(
                Date { secs: FIRST + (i as i64) * WEEK },
                format!("commit{}", i),
                &[sample(krate, *time)],
                test,
            )
        })
        .collect()
}

// Times that grow by a tenth from each week to the next.
fn growing(weeks: u32) -> Vec<u64> {
    (0..weeks)
        .map(|k| 1_000_000_000_000_000u64 / 10u64.pow(k) * 11u64.pow(k))
        .collect()
}

fn medians(list: &[(&str, &[(&str, u128)])], secs: i64) -> MedianRun<u128> {
    let mut by_crate = StrMap::new();
    for (krate, phases) in list {
        let mut map = StrMap::new();
        for (phase, value) in phases.iter() {
            map.insert(phase.to_string(), *value);
        }
        by_crate.insert(krate.to_string(), map);
    }
    MedianRun { date: Date { secs }, by_crate }
}

fn change(run: &MedianRun<Change>, krate: &str, phase: &str) -> Option<Change> {
    run.by_crate.get(krate).and_then(|m| m.get(phase)).copied()
}

fn percent(change: Change) -> f64 {
    let moved = (change.delta as f64) / (change.base as f64) * 100.0;
    if change.falling {
        -moved
    } else {
        moved
    }
}

fn names(list: &[&str]) -> StrSet {
    let mut set = StrSet::new();
    for name in list {
        set.insert(name.to_string());
    }
    set
}

#[test]
fn percent_change_is_kept_exactly() {
    assert_eq!(
        Summary::get_percent_change(100, 110),
        Change { falling: false, delta: 10, base: 100 }
    );
    assert_eq!(
        Summary::get_percent_change(110, 100),
        Change { falling: true, delta: 10, base: 110 }
    );
    assert_eq!(
        Summary::get_percent_change(100, 100),
        Change { falling: false, delta: 0, base: 100 }
    );
    assert_eq!(
        Summary::get_percent_change(u128::MAX, 1),
        Change { falling: true, delta: u128::MAX - 1, base: u128::MAX }
    );
    assert_eq!(
        Summary::get_percent_change(1, u128::MAX),
        Change { falling: false, delta: u128::MAX - 1, base: 1 }
    );
}

#[test]
fn percent_change_in_percent() {
    assert_eq!(percent(Summary::get_percent_change(100, 110)), 10.0);
    assert_eq!(percent(Summary::get_percent_change(110, 121)), 10.0);
    assert_eq!(percent(Summary::get_percent_change(200, 100)), -50.0);
    assert_eq!(percent(Summary::get_percent_change(100, 300)), 200.0);
}

#[test]
fn weeks_compare_what_both_have() {
    let week0 = medians(
        &[("a", &[("p", 100), ("q", 50), ("only0", 1)]), ("gone", &[("p", 1)])],
        1,
    );
    let week1 = medians(
        &[("a", &[("p", 110), ("q", 25), ("only1", 1)]), ("new", &[("p", 1)])],
        2,
    );
    let changes = Summary::compare_weeks(&week0, &week1);
    assert_eq!(changes.date, Date { secs: 2 });
    assert_eq!(changes.by_crate.len(), 1);
    assert_eq!(changes.by_crate.get("a").unwrap().len(), 2);
    assert_eq!(change(&changes, "a", "p"), Some(Change { falling: false, delta: 10, base: 100 }));
    assert_eq!(change(&changes, "a", "q"), Some(Change { falling: true, delta: 25, base: 50 }));
    assert_eq!(change(&changes, "a", "only0"), None);
    assert_eq!(change(&changes, "a", "only1"), None);
    assert!(changes.by_crate.get("gone").is_none());
    assert!(changes.by_crate.get("new").is_none());
}

#[test]
fn a_median_of_zero_leaves_the_phase_out() {
    let week0 = medians(&[("a", &[("zero0", 0), ("zero1", 5), ("both", 0), ("fine", 4)])], 1);
    let week1 = medians(&[("a", &[("zero0", 5), ("zero1", 0), ("both", 0), ("fine", 2)])], 2);
    let changes = Summary::compare_weeks(&week0, &week1);
    assert_eq!(changes.by_crate.get("a").unwrap().len(), 1);
    assert_eq!(change(&changes, "a", "zero0"), None);
    assert_eq!(change(&changes, "a", "zero1"), None);
    assert_eq!(change(&changes, "a", "both"), None);
    assert_eq!(change(&changes, "a", "fine"), Some(Change { falling: true, delta: 2, base: 4 }));
}

#[test]
fn a_crate_without_changes_is_still_there() {
    let week0 = medians(&[("a", &[("p", 0)])], 1);
    let week1 = medians(&[("a", &[("p", 3)])], 2);
    let changes = Summary::compare_weeks(&week0, &week1);
    assert_eq!(changes.by_crate.len(), 1);
    assert_eq!(changes.by_crate.get("a").unwrap().len(), 0);
}

#[test]
fn three_weekly_runs_through_the_median_window() {
    let runs = weekly(&[100, 110, 121], "rustc", "c");
    let at = |index: usize| MedianRun::new(&runs, index, runs[index].date);
    let first = Summary::compare_weeks(&at(0), &at(1));
    let second = Summary::compare_weeks(&at(1), &at(2));
    // From the first run to the second the median goes from 100 to 110.
    assert_eq!(change(&first, "c", "total"), Some(Change { falling: false, delta: 10, base: 100 }));
    assert_eq!(percent(change(&first, "c", "total").unwrap()), 10.0);
    assert_eq!(percent(change(&first, "total", "total").unwrap()), 10.0);
    // The median of all three is 110 still: 121 is not yet a median.
    assert_eq!(change(&second, "c", "total"), Some(Change { falling: false, delta: 0, base: 110 }));
    assert_eq!(percent(change(&second, "c", "total").unwrap()), 0.0);
}

#[test]
fn three_weekly_runs_are_too_few_for_a_summary() {
    let runs = weekly(&[100, 110, 121], "rustc", "c");
    let last = runs[2].date;
    assert_eq!(
        Summary::new(&runs, last, &StrSet::new()).err(),
        Some(Error::InternalInvariantViolation)
    );
}

#[test]
fn no_runs_have_no_summary() {
    assert_eq!(
        Summary::new(&[], Date { secs: FIRST }, &StrSet::new()).err(),
        Some(Error::InternalInvariantViolation)
    );
}

#[test]
fn dates_out_of_range_have_no_summary() {
    let runs = weekly(&growing(16), "rustc", "c");
    assert_eq!(
        Summary::new(&runs, Date { secs: i64::MAX }, &StrSet::new()).err(),
        Some(Error::InternalInvariantViolation)
    );
    assert_eq!(
        Summary::new(&runs, Date { secs: i64::MIN + 1000 }, &StrSet::new()).err(),
        Some(Error::InternalInvariantViolation)
    );
}

#[test]
fn summary_of_steady_growth() {
    let times = growing(16);
    let runs = weekly(&times, "rustc", "c");
    let last = runs[15].date;
    let summary = Summary::new(&runs, last, &names(&["regex"])).unwrap();
    assert_eq!(summary.summary.len(), WEEKS_IN_SUMMARY);
    assert_eq!(WEEKS_IN_SUMMARY, 12);

    // Sunday, 00:00:00, of the week of the last run.
    let this_week = last.secs - 302_400;
    for (back, week) in summary.summary.iter().enumerate() {
        assert_eq!(week.date, Date { secs: this_week - (back as i64) * WEEK + WEEK });
        for krate in ["c", "total"] {
            for phase in ["p", "total"] {
                let found = change(week, krate, phase).unwrap();
                assert!(!found.falling);
                assert_eq!(found.delta * 10, found.base);
                assert_eq!(percent(found), 10.0);
            }
        }
        // Every benchmark is present, if with nothing.
        assert_eq!(week.by_crate.get("regex").unwrap().len(), 0);
        assert_eq!(week.by_crate.len(), 3);
    }

    // The latest week ends on the last run and starts one run before it; the
    // week before it compares the same two runs. The medians lag one run.
    let latest = change(&summary.summary[0], "c", "p").unwrap();
    assert_eq!(latest.base, times[13] as u128);
    assert_eq!(latest.delta, (times[14] - times[13]) as u128);
    assert_eq!(change(&summary.summary[1], "c", "p"), Some(latest));
    let oldest = change(&summary.summary[11], "c", "p").unwrap();
    assert_eq!(oldest.base, times[3] as u128);
    assert_eq!(oldest.delta, (times[4] - times[3]) as u128);

    // The whole span: from thirteen weeks before this week to after the last run.
    assert_eq!(summary.total.date, Date { secs: last.secs + WEEK });
    assert_eq!(
        change(&summary.total, "c", "p"),
        Some(Change {
            falling: false,
            delta: (times[14] - times[1]) as u128,
            base: times[1] as u128,
        })
    );
    // The whole span is not filled up with benchmarks.
    assert!(summary.total.by_crate.get("regex").is_none());
    assert_eq!(summary.total.by_crate.len(), 2);
}

#[test]
fn summary_fails_when_the_data_starts_within_the_twelve_weeks() {
    // Eleven runs: the oldest week of the summary has both ends on the first.
    let runs = weekly(&growing(11), "rustc", "c");
    let last = runs[10].date;
    assert_eq!(
        Summary::new(&runs, last, &StrSet::new()).err(),
        Some(Error::InternalInvariantViolation)
    );
    // Twelve runs reach back far enough.
    let runs = weekly(&growing(12), "rustc", "c");
    let last = runs[11].date;
    let summary = Summary::new(&runs, last, &StrSet::new()).unwrap();
    let oldest = change(&summary.summary[11], "c", "p").unwrap();
    assert_eq!(oldest.base, growing(12)[0] as u128);
    assert_eq!(oldest.delta * 10, oldest.base);
}

#[test]
fn summary_as_of_a_later_date_sees_falling_and_steady_weeks() {
    let times = [100u64, 100, 100, 80, 80, 80, 80, 80, 80, 80, 80, 80, 80, 80, 80, 80];
    let runs = weekly(&times, "regex", "regex");
    let last = runs[15].date;
    let summary = Summary::new(&runs, last, &names(&["regex", "other"])).unwrap();
    // Medians by index: 100, 100, 100, 100, 80, 80, ...
    // Week 11 compares the runs 4 and 5, week 12 would compare 3 and 4.
    assert_eq!(change(&summary.summary[11], "regex", "p"), Some(Change { falling: false, delta: 0, base: 80 }));
    assert_eq!(change(&summary.summary[0], "regex", "p"), Some(Change { falling: false, delta: 0, base: 80 }));
    assert_eq!(change(&summary.total, "regex", "p"), Some(Change { falling: true, delta: 20, base: 100 }));
    assert_eq!(percent(change(&summary.total, "regex", "p").unwrap()), -20.0);
    for week in &summary.summary {
        assert_eq!(week.by_crate.len(), 2);
        assert_eq!(week.by_crate.get("other").unwrap().len(), 0);
        assert!(week.by_crate.get("total").is_none());
    }
}
